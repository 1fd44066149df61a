//! Running the packets that trace: from the roots to the packets that
//! trace slots and scan objects.

use crate::global_state::GcStatus;
use crate::global_state::GlobalState;
use crate::mmtk::MMTK;
use crate::plan::global::only_space_changed;
use crate::policy::gc_work::TraceKind;
use crate::policy::gc_work::TRACE_KIND_TRANSITIVE_PIN;
use crate::policy::immix::immixspace::TRACE_KIND_FAST;
use crate::scheduler::edges::is_prefix;
use crate::scheduler::edges::lemma_traced_frame_reflexive;
use crate::scheduler::edges::lemma_traced_frame_transitive;
use crate::scheduler::edges::traced_frame;
use crate::scheduler::gc_work::is_trace_kind;
use crate::scheduler::gc_work::GCWorkContext;
use crate::scheduler::gc_work::PlanProcessEdges;
use crate::scheduler::gc_work::PlanScanObjects;
use crate::scheduler::gc_work::ProcessRootNode;
use crate::scheduler::gc_work::ScanMutatorRoots;
use crate::scheduler::gc_work::ScanVMSpecificRoots;
use crate::scheduler::scan::lemma_scheduler_frame;
use crate::scheduler::scheduler::GCWorkScheduler;
use crate::scheduler::work::WorkPacket;
use crate::scheduler::work_bucket::WorkBucketStage;
use crate::scheduler::worker::GCWorker;
use crate::util::address::ObjectReference;
use crate::vm::slot::Slot;
use crate::scheduler::closure::edges_traced;
use crate::scheduler::closure::lemma_edges_traced;
use crate::scheduler::closure::never_moves;
use crate::scheduler::scan::all_packet_slots;
use crate::scheduler::closure::lemma_trace_in_place;
use crate::scheduler::closure::newly_marked;
use crate::scheduler::closure::roots_reached;
use crate::scheduler::closure::roots_traced;
use crate::scheduler::closure::traced_in_place;
use crate::scheduler::edges::slots_processed;
use crate::scheduler::scan::lemma_nothing_scanned;
use crate::scheduler::scan::lemma_scanned_keeps_marks;
use crate::scheduler::scan::scan_done;
use vstd::prelude::*;

verus! {

/// Whether a packet that scans objects is run at once by the worker that
/// made it. If not, the packet joins the bucket of its stage.
pub const SCAN_OBJECTS_IMMEDIATELY: bool = true;

impl PlanProcessEdges {
    /// Starts a packet that scans objects: runs it at once, or has it
    /// join the bucket of its stage if packets that scan are not run at
    /// once.
    pub fn start_or_dispatch_scan_work(
        &mut self,
        work_packet: PlanScanObjects,
        worker: &mut GCWorker,
        mmtk: &mut MMTK,
    )
        requires
            old(mmtk).wf(),
            old(self).wf(),
            work_packet.kind == old(self).kind,
            work_packet.bucket == old(self).base.bucket,
            old(worker).wf(old(mmtk).plan.immix_space@),
        ensures
            *final(self) == *old(self),
            traced_frame(*old(mmtk), *final(mmtk), old(self).base.bucket),
            final(worker).wf(final(mmtk).plan.immix_space@),
            final(worker).tls == old(worker).tls,
            final(worker).ordinal == old(worker).ordinal,
            final(worker).live_bytes == old(worker).live_bytes,
            final(worker).copy.allocates_marked(final(mmtk).plan.immix_space@) == old(worker).copy.allocates_marked(old(mmtk).plan.immix_space@),
            if SCAN_OBJECTS_IMMEDIATELY {
                scan_done(
                    *old(mmtk),
                    *final(mmtk),
                    old(worker).ordinal,
                    old(worker).copy.allocates_marked(old(mmtk).plan.immix_space@),
                    work_packet.buffer@,
                    work_packet.bucket,
                    work_packet.kind,
                    true,
                )
            } else {
                &&& final(mmtk).plan == old(mmtk).plan
                &&& final(mmtk).vm == old(mmtk).vm
                &&& final(mmtk).scheduler.worker_live_bytes == old(mmtk).scheduler.worker_live_bytes
                &&& final(mmtk).scheduler.packets(old(self).base.bucket) == old(mmtk).scheduler.packets(old(self).base.bucket).push(
                    WorkPacket::PlanScanObjects(work_packet),
                )
            },
    {
        let mut work_packet = work_packet;
        if SCAN_OBJECTS_IMMEDIATELY {
            work_packet.do_work(worker, mmtk);
        } else {
            let ghost before = mmtk.scheduler.packets(self.base.bucket);
            let ghost first = *mmtk;
            mmtk.scheduler.add(self.base.bucket, WorkPacket::PlanScanObjects(work_packet));
            proof {
                assert(mmtk.scheduler.packets(self.base.bucket).subrange(0, before.len() as int)
                    =~= before);
                lemma_scheduler_frame(first, *mmtk, self.base.bucket);
            }
        }
    }

    /// Hands the objects that the trace reached on to a packet that scans
    /// them, and starts that packet. Without such objects nothing happens.
    pub fn flush(&mut self, worker: &mut GCWorker, mmtk: &mut MMTK)
        requires
            old(mmtk).wf(),
            old(self).wf(),
            old(worker).wf(old(mmtk).plan.immix_space@),
        ensures
            traced_frame(*old(mmtk), *final(mmtk), old(self).base.bucket),
            old(self).base.nodes@.len() == 0 ==> *final(mmtk) == *old(mmtk),
            final(worker).wf(final(mmtk).plan.immix_space@),
            final(worker).tls == old(worker).tls,
            final(worker).ordinal == old(worker).ordinal,
            final(worker).live_bytes == old(worker).live_bytes,
            final(self).kind == old(self).kind,
            final(self).base.nodes@.len() == 0,
            final(self).base.slots == old(self).base.slots,
            final(self).base.worker == old(self).base.worker,
            final(self).base.roots == old(self).base.roots,
            final(self).base.pushes == old(self).base.pushes,
            final(self).base.bucket == old(self).base.bucket,
            final(worker).copy.allocates_marked(final(mmtk).plan.immix_space@) == old(worker).copy.allocates_marked(old(mmtk).plan.immix_space@),
            SCAN_OBJECTS_IMMEDIATELY ==> scan_done(
                *old(mmtk),
                *final(mmtk),
                old(worker).ordinal,
                old(worker).copy.allocates_marked(old(mmtk).plan.immix_space@),
                old(self).base.nodes@,
                old(self).base.bucket,
                old(self).kind,
                true,
            ),
    {
        let nodes = self.base.pop_nodes();
        if nodes.len() > 0 {
            let work_packet = self.create_scan_work(nodes);
            self.start_or_dispatch_scan_work(work_packet, worker, mmtk);
        } else {
            proof {
                lemma_traced_frame_reflexive(*mmtk, self.base.bucket);
                lemma_nothing_scanned(
                    *mmtk,
                    worker.ordinal,
                    worker.copy.allocates_marked(mmtk.plan.immix_space@),
                    self.base.bucket,
                    self.kind,
                    true,
                );
                assert(old(self).base.nodes@ =~= Seq::<ObjectReference>::empty());
            }
        }
    }

    /// What running the packet leaves behind: `after_self`, `after_worker` and
    /// `after` are the packet, the worker and the collector afterwards.
    pub open spec fn done(
        &self,
        after_self: Self,
        worker: crate::scheduler::worker::GCWorker,
        after_worker: crate::scheduler::worker::GCWorker,
        before: crate::mmtk::MMTK,
        after: crate::mmtk::MMTK,
    ) -> bool {
        &&& traced_frame(before, after, self.base.bucket)
        &&& after_worker.wf(after.plan.immix_space@)
        &&& after_worker.tls == worker.tls
        &&& after_worker.ordinal == worker.ordinal
        &&& after_worker.live_bytes == worker.live_bytes
        &&& after_self.kind == self.kind
        &&& after_self.base.nodes@.len() == 0
        &&& after_self.base.slots == self.base.slots
        &&& after_self.base.worker == Some(worker.ordinal)
        &&& after_self.base.roots == self.base.roots
        &&& after_self.base.pushes == self.base.pushes
        &&& after_self.base.bucket == self.base.bucket
        &&& after_worker.copy.allocates_marked(after.plan.immix_space@) == worker.copy.allocates_marked(before.plan.immix_space@)
        &&& SCAN_OBJECTS_IMMEDIATELY ==> edges_processed(
            before,
            after,
            worker.ordinal,
            worker.copy.allocates_marked(before.plan.immix_space@),
            self.base.slots@,
            self.base.nodes@,
            self.base.bucket,
            self.kind,
        )
        &&& SCAN_OBJECTS_IMMEDIATELY && never_moves(self.kind) && before.vm.slot_enqueuing
            ==> {
            &&& after.vm.objects@ == before.vm.objects@
            &&& edges_traced(
                before.plan.immix_space@,
                after.plan.immix_space@,
                before.vm.objects@,
                self.base.slots@,
                all_packet_slots(before.scheduler.packets(self.base.bucket)),
                all_packet_slots(after.scheduler.packets(self.base.bucket)),
            )
        }
    }

    /// Runs the packet: traces all its slots, and hands the objects that
    /// the trace reached on to be scanned.
    pub fn do_work(&mut self, worker: &mut GCWorker, mmtk: &mut MMTK)
        requires
            old(mmtk).wf(),
            old(self).wf(),
            old(worker).wf(old(mmtk).plan.immix_space@),
        ensures
            old(self).done(*final(self), *old(worker), *final(worker), *old(mmtk), *final(mmtk)),
    {
        self.base.set_worker(worker);
        self.process_slots(worker, mmtk);
        let ghost mid = *mmtk;
        let ghost nodes = self.base.nodes@;
        if !self.base.nodes.is_empty() {
            self.flush(worker, mmtk);
            proof {
                lemma_traced_frame_transitive(*old(mmtk), mid, *mmtk, self.base.bucket);
            }
        } else {
            proof {
                lemma_nothing_scanned(
                    *mmtk,
                    worker.ordinal,
                    worker.copy.allocates_marked(mmtk.plan.immix_space@),
                    self.base.bucket,
                    self.kind,
                    true,
                );
                assert(nodes =~= Seq::<ObjectReference>::empty());
            }
        }
        proof {
            assert(scan_done(
                mid,
                *mmtk,
                old(worker).ordinal,
                old(worker).copy.allocates_marked(old(mmtk).plan.immix_space@),
                nodes,
                old(self).base.bucket,
                old(self).kind,
                true,
            ));
            if never_moves(old(self).kind) && old(mmtk).vm.slot_enqueuing {
                lemma_scanned_keeps_marks(
                    mid.plan.immix_space@,
                    mid.vm.objects@,
                    nodes,
                );
                lemma_edges_traced(
                    old(mmtk).plan.immix_space@,
                    mid.plan.immix_space@,
                    mmtk.plan.immix_space@,
                    old(mmtk).vm.objects@,
                    old(self).base.slots@,
                    old(self).base.nodes@,
                    nodes,
                    all_packet_slots(old(mmtk).scheduler.packets(old(self).base.bucket)),
                    all_packet_slots(mmtk.scheduler.packets(old(self).base.bucket)),
                );
            }
        }
    }
}

/// What running a packet that traces `slots` leaves behind, where packets
/// that scan are run at once: the slots are processed, and the objects
/// that the trace reached are scanned, with the plan looking at each.
pub open spec fn edges_processed(
    before: MMTK,
    after: MMTK,
    ordinal: usize,
    marked: bool,
    slots: Seq<Slot>,
    nodes: Seq<ObjectReference>,
    bucket: WorkBucketStage,
    kind: TraceKind,
) -> bool {
    exists|mid: MMTK, reached: Seq<ObjectReference>|
        #![trigger scan_done(mid, after, ordinal, marked, reached, bucket, kind, true)]
        {
            &&& slots_processed(
                before.plan.immix_space@,
                mid.plan.immix_space@,
                nodes,
                reached,
                before.vm.objects@,
                mid.vm.objects@,
                slots,
                kind,
                marked,
            )
            &&& mid.scheduler == before.scheduler
            &&& mid.options == before.options
            &&& mid.vm.slot_enqueuing == before.vm.slot_enqueuing
            &&& scan_done(mid, after, ordinal, marked, reached, bucket, kind, true)
        }
}

/// Makes the packets that trace roots.
#[derive(Clone, Copy, PartialEq, Eq, Structural, Debug)]
pub struct ProcessEdgesWorkRootsWorkFactory {
    /// The kinds of trace of the collection.
    pub context: GCWorkContext,
}

impl ProcessEdgesWorkRootsWorkFactory {
    /// A factory for a collection with the given kinds of trace.
    pub fn new(context: GCWorkContext) -> (f: Self)
        ensures
            f.context == context,
    {
        ProcessEdgesWorkRootsWorkFactory { context }
    }

    /// Adds a packet that traces the root slots `slots` with the trace of
    /// the object graph, in the stage of that trace.
    pub fn create_process_roots_work(&mut self, slots: Vec<Slot>, scheduler: &mut GCWorkScheduler)
        requires
            old(scheduler).wf(),
        ensures
            *final(self) == *old(self),
            old(scheduler).same_but(final(scheduler), WorkBucketStage::Closure),
            final(scheduler).sentinel(WorkBucketStage::Closure) == old(scheduler).sentinel(
                WorkBucketStage::Closure,
            ),
            final(scheduler).packets(WorkBucketStage::Closure).len() == old(scheduler).packets(
                WorkBucketStage::Closure,
            ).len() + 1,
            is_prefix(
                old(scheduler).packets(WorkBucketStage::Closure),
                final(scheduler).packets(WorkBucketStage::Closure),
            ),
            match final(scheduler).packets(WorkBucketStage::Closure).last() {
                WorkPacket::PlanProcessEdges(p) => p.base.slots == slots && p.base.roots
                    && p.base.bucket == WorkBucketStage::Closure && p.kind == old(self).context.default_kind && p.base.nodes@.len() == 0,
                _ => false,
            },
    {
        let ghost before = scheduler.packets(WorkBucketStage::Closure);
        scheduler.add(
            WorkBucketStage::Closure,
            WorkPacket::PlanProcessEdges(
                PlanProcessEdges::new(
                    slots,
                    true,
                    WorkBucketStage::Closure,
                    self.context.default_kind,
                ),
            ),
        );
        proof {
            assert(scheduler.packets(WorkBucketStage::Closure).subrange(0, before.len() as int)
                =~= before);
        }
    }

    /// Adds a packet that traces the root objects `nodes`, which must not
    /// move, in the stage of the pinning roots. What the roots refer to
    /// is traced with the trace of the object graph.
    pub fn create_process_pinning_roots_work(
        &mut self,
        nodes: Vec<ObjectReference>,
        scheduler: &mut GCWorkScheduler,
    )
        requires
            old(scheduler).wf(),
        ensures
            *final(self) == *old(self),
            old(scheduler).same_but(final(scheduler), WorkBucketStage::PinningRootsTrace),
            final(scheduler).sentinel(WorkBucketStage::PinningRootsTrace) == old(scheduler).sentinel(
                WorkBucketStage::PinningRootsTrace,
            ),
            final(scheduler).packets(WorkBucketStage::PinningRootsTrace).len() == old(scheduler).packets(WorkBucketStage::PinningRootsTrace).len() + 1,
            is_prefix(
                old(scheduler).packets(WorkBucketStage::PinningRootsTrace),
                final(scheduler).packets(WorkBucketStage::PinningRootsTrace),
            ),
            match final(scheduler).packets(WorkBucketStage::PinningRootsTrace).last() {
                WorkPacket::ProcessRootNode(p) => p.roots == nodes && p.bucket
                    == WorkBucketStage::Closure && p.root_kind == old(self).context.pinning_kind
                    && p.object_kind == old(self).context.default_kind,
                _ => false,
            },
    {
        let ghost before = scheduler.packets(WorkBucketStage::PinningRootsTrace);
        scheduler.add(
            WorkBucketStage::PinningRootsTrace,
            WorkPacket::ProcessRootNode(
                ProcessRootNode::new(
                    nodes,
                    WorkBucketStage::Closure,
                    self.context.pinning_kind,
                    self.context.default_kind,
                ),
            ),
        );
        proof {
            assert(scheduler.packets(WorkBucketStage::PinningRootsTrace).subrange(
                0,
                before.len() as int,
            ) =~= before);
        }
    }

    /// Adds a packet that traces the root objects `nodes`, which must not
    /// move, in the stage of the roots that pin all that they reach. What
    /// the roots refer to is traced without moving, too.
    pub fn create_process_tpinning_roots_work(
        &mut self,
        nodes: Vec<ObjectReference>,
        scheduler: &mut GCWorkScheduler,
    )
        requires
            old(scheduler).wf(),
        ensures
            *final(self) == *old(self),
            old(scheduler).same_but(final(scheduler), WorkBucketStage::TPinningClosure),
            final(scheduler).sentinel(WorkBucketStage::TPinningClosure) == old(scheduler).sentinel(
                WorkBucketStage::TPinningClosure,
            ),
            final(scheduler).packets(WorkBucketStage::TPinningClosure).len() == old(scheduler).packets(WorkBucketStage::TPinningClosure).len() + 1,
            is_prefix(
                old(scheduler).packets(WorkBucketStage::TPinningClosure),
                final(scheduler).packets(WorkBucketStage::TPinningClosure),
            ),
            match final(scheduler).packets(WorkBucketStage::TPinningClosure).last() {
                WorkPacket::ProcessRootNode(p) => p.roots == nodes && p.bucket
                    == WorkBucketStage::TPinningClosure && p.root_kind == old(self).context.pinning_kind && p.object_kind == old(self).context.pinning_kind,
                _ => false,
            },
    {
        let ghost before = scheduler.packets(WorkBucketStage::TPinningClosure);
        scheduler.add(
            WorkBucketStage::TPinningClosure,
            WorkPacket::ProcessRootNode(
                ProcessRootNode::new(
                    nodes,
                    WorkBucketStage::TPinningClosure,
                    self.context.pinning_kind,
                    self.context.pinning_kind,
                ),
            ),
        );
        proof {
            assert(scheduler.packets(WorkBucketStage::TPinningClosure).subrange(
                0,
                before.len() as int,
            ) =~= before);
        }
    }
}

/// A copy of `slots`.
fn copy_slots(slots: &Vec<Slot>) -> (copy: Vec<Slot>)
    ensures
        copy@ == slots@,
{
    let mut copy: Vec<Slot> = Vec::new();
    let mut i: usize = 0;
    while i < slots.len()
        invariant
            i <= slots@.len(),
            copy@ == slots@.subrange(0, i as int),
        decreases slots@.len() - i,
    {
        copy.push(slots[i]);
        i += 1;
    }
    assert(slots@.subrange(0, i as int) =~= slots@);
    copy
}

/// A copy of `nodes`.
fn copy_nodes(nodes: &Vec<ObjectReference>) -> (copy: Vec<ObjectReference>)
    ensures
        copy@ == nodes@,
{
    let mut copy: Vec<ObjectReference> = Vec::new();
    let mut i: usize = 0;
    while i < nodes.len()
        invariant
            i <= nodes@.len(),
            copy@ == nodes@.subrange(0, i as int),
        decreases nodes@.len() - i,
    {
        copy.push(nodes[i]);
        i += 1;
    }
    assert(nodes@.subrange(0, i as int) =~= nodes@);
    copy
}

impl ScanMutatorRoots {
    /// Whether the packet can run: its mutator exists, and the count of
    /// the scanned stacks can grow.
    pub open spec fn ready(&self, mmtk: &MMTK) -> bool {
        self.mutator < mmtk.vm.mutators@.len() && mmtk.state.scanned_stacks < usize::MAX
    }

    /// What running the packet leaves behind: `after_self`, `after_worker` and
    /// `after` are the packet, the worker and the collector afterwards.
    pub open spec fn done(
        &self,
        after_self: Self,
        worker: crate::scheduler::worker::GCWorker,
        after_worker: crate::scheduler::worker::GCWorker,
        before: crate::mmtk::MMTK,
        after: crate::mmtk::MMTK,
    ) -> bool {
        &&& after.wf()
        &&& after_self == (*self)
        &&& after_worker == worker
        &&& after.plan == before.plan
        &&& after.options == before.options
        &&& after.gc_count == before.gc_count
        &&& after.state == (GlobalState {
            scanned_stacks: (before.state.scanned_stacks + 1) as usize,
            stacks_prepared: before.state.stacks_prepared || before.state.scanned_stacks
                + 1 == before.vm.mutators@.len(),
            gc_status: if before.state.scanned_stacks + 1 == before.vm.mutators@.len() {
                GcStatus::GcProper
            } else {
                before.state.gc_status
            },
            ..before.state
        })
        &&& after.vm.initial_scan_complete == (before.vm.initial_scan_complete || before.state.scanned_stacks + 1 == before.vm.mutators@.len())
        &&& after.vm.mutators@ == before.vm.mutators@
        &&& after.vm.objects == before.vm.objects
        &&& after.vm.vm_roots == before.vm.vm_roots
        &&& after.vm.pinning_roots == before.vm.pinning_roots
        &&& after.vm.tpinning_roots == before.vm.tpinning_roots
        &&& after.vm.weak_ref_rounds == before.vm.weak_ref_rounds
        &&& after.vm.slot_enqueuing == before.vm.slot_enqueuing
        &&& after.vm.mutators_stopped == before.vm.mutators_stopped
        &&& after.vm.post_forwarding_done == before.vm.post_forwarding_done
        &&& before.scheduler.same_but(&after.scheduler, WorkBucketStage::Closure)
        &&& after.scheduler.sentinel(WorkBucketStage::Closure) == before.scheduler.sentinel(
            WorkBucketStage::Closure,
        )
        &&& after.scheduler.packets(WorkBucketStage::Closure).len() == before.scheduler.packets(WorkBucketStage::Closure).len() + 1
        &&& is_prefix(
            before.scheduler.packets(WorkBucketStage::Closure),
            after.scheduler.packets(WorkBucketStage::Closure),
        )
        &&& match after.scheduler.packets(WorkBucketStage::Closure).last() {
            WorkPacket::PlanProcessEdges(p) => p.base.slots@
                == crate::vm::vm_binding::object_slots(
                before.vm.objects@,
                before.vm.mutators@[self.mutator as int].roots,
            ) && p.base.roots && p.base.bucket == WorkBucketStage::Closure && p.kind == self.context.default_kind && p.base.nodes@.len() == 0,
            _ => false,
        }
    }

    /// Scans the roots of the mutator: adds a packet that traces the
    /// slots of the root area of the mutator, and counts the stack of the
    /// mutator as scanned. When the stacks of all mutators are scanned,
    /// the runtime is told so and the collection proper starts.
    pub fn do_work(&mut self, worker: &mut GCWorker, mmtk: &mut MMTK)
        requires
            old(mmtk).wf(),
            old(self).ready(old(mmtk)),
        ensures
            old(self).done(*final(self), *old(worker), *final(worker), *old(mmtk), *final(mmtk)),
    {
        let mutators = mmtk.vm.number_of_mutators();
        let mut factory = ProcessEdgesWorkRootsWorkFactory::new(self.context);
        let roots = mmtk.vm.mutators[self.mutator].roots;
        let slots = mmtk.vm.scan_object(worker.tls, roots);
        factory.create_process_roots_work(slots, &mut mmtk.scheduler);
        mmtk.vm.mutators[self.mutator].flush();
        assert(mmtk.vm.mutators@ =~= old(mmtk).vm.mutators@);
        if mmtk.state.inform_stack_scanned(mutators) {
            mmtk.vm.initial_scan_complete = true;
            mmtk.set_gc_status(GcStatus::GcProper);
        }
    }
}

impl ScanVMSpecificRoots {
    /// What running the packet leaves behind: `after_self`, `after_worker` and
    /// `after` are the packet, the worker and the collector afterwards.
    pub open spec fn done(
        &self,
        after_self: Self,
        worker: crate::scheduler::worker::GCWorker,
        after_worker: crate::scheduler::worker::GCWorker,
        before: crate::mmtk::MMTK,
        after: crate::mmtk::MMTK,
    ) -> bool {
        &&& after.wf()
        &&& after_self == (*self)
        &&& after_worker == worker
        &&& after.plan == before.plan
        &&& after.options == before.options
        &&& after.gc_count == before.gc_count
        &&& after.state == before.state
        &&& after.vm == before.vm
        &&& after.scheduler.designated_work == before.scheduler.designated_work
        &&& after.scheduler.mutators_paused == before.scheduler.mutators_paused
        &&& after.scheduler.worker_live_bytes == before.scheduler.worker_live_bytes
        &&& forall|stage: WorkBucketStage|
            stage != WorkBucketStage::Closure && stage != WorkBucketStage::PinningRootsTrace
                && stage != WorkBucketStage::TPinningClosure ==> #[trigger] after.scheduler.work_buckets@[stage.spec_index()] == before.scheduler.work_buckets@[stage.spec_index()]
        &&& after.scheduler.packets(WorkBucketStage::Closure).len() == before.scheduler.packets(WorkBucketStage::Closure).len() + 1
        &&& is_prefix(
            before.scheduler.packets(WorkBucketStage::Closure),
            after.scheduler.packets(WorkBucketStage::Closure),
        )
        &&& match after.scheduler.packets(WorkBucketStage::Closure).last() {
            WorkPacket::PlanProcessEdges(p) => p.base.slots@ == before.vm.vm_roots@
                && p.base.roots && p.base.bucket == WorkBucketStage::Closure && p.kind == self.context.default_kind && p.base.nodes@.len() == 0,
            _ => false,
        }
        &&& after.scheduler.packets(WorkBucketStage::PinningRootsTrace).len() == before.scheduler.packets(WorkBucketStage::PinningRootsTrace).len() + (if before.vm.pinning_roots@.len() > 0 {
            1int
        } else {
            0int
        })
        &&& is_prefix(
            before.scheduler.packets(WorkBucketStage::PinningRootsTrace),
            after.scheduler.packets(WorkBucketStage::PinningRootsTrace),
        )
        &&& before.vm.pinning_roots@.len() > 0 ==> (match after.scheduler.packets(
            WorkBucketStage::PinningRootsTrace,
        ).last() {
            WorkPacket::ProcessRootNode(p) => p.roots@ == before.vm.pinning_roots@ && p.bucket
                == WorkBucketStage::Closure && p.root_kind == self.context.pinning_kind
                && p.object_kind == self.context.default_kind,
            _ => false,
        })
        &&& after.scheduler.packets(WorkBucketStage::TPinningClosure).len() == before.scheduler.packets(WorkBucketStage::TPinningClosure).len() + (if before.vm.tpinning_roots@.len() > 0 {
            1int
        } else {
            0int
        })
        &&& is_prefix(
            before.scheduler.packets(WorkBucketStage::TPinningClosure),
            after.scheduler.packets(WorkBucketStage::TPinningClosure),
        )
        &&& before.vm.tpinning_roots@.len() > 0 ==> (match after.scheduler.packets(
            WorkBucketStage::TPinningClosure,
        ).last() {
            WorkPacket::ProcessRootNode(p) => p.roots@ == before.vm.tpinning_roots@
                && p.bucket == WorkBucketStage::TPinningClosure && p.root_kind == self.context.pinning_kind && p.object_kind == self.context.pinning_kind,
            _ => false,
        })
    }

    /// Scans the roots that belong to no mutator: adds a packet that
    /// traces the root slots of the runtime, a packet that traces the
    /// objects that roots pin, if there are any, and a packet that traces
    /// the objects from which roots pin all that is reachable, if there
    /// are any.
    pub fn do_work(&mut self, worker: &mut GCWorker, mmtk: &mut MMTK)
        requires
            old(mmtk).wf(),
        ensures
            old(self).done(*final(self), *old(worker), *final(worker), *old(mmtk), *final(mmtk)),
    {
        let mut factory = ProcessEdgesWorkRootsWorkFactory::new(self.context);
        let slots = copy_slots(&mmtk.vm.vm_roots);
        factory.create_process_roots_work(slots, &mut mmtk.scheduler);
        let ghost s1 = mmtk.scheduler;
        if mmtk.vm.pinning_roots.len() > 0 {
            let nodes = copy_nodes(&mmtk.vm.pinning_roots);
            factory.create_process_pinning_roots_work(nodes, &mut mmtk.scheduler);
        } else {
            proof {
                let p = s1.packets(WorkBucketStage::PinningRootsTrace);
                assert(p.subrange(0, p.len() as int) =~= p);
            }
        }
        let ghost s2 = mmtk.scheduler;
        if mmtk.vm.tpinning_roots.len() > 0 {
            let nodes = copy_nodes(&mmtk.vm.tpinning_roots);
            factory.create_process_tpinning_roots_work(nodes, &mut mmtk.scheduler);
        } else {
            proof {
                let p = s2.packets(WorkBucketStage::TPinningClosure);
                assert(p.subrange(0, p.len() as int) =~= p);
            }
        }
    }
}

impl ProcessRootNode {
    /// Whether the packet can run: the trace of the roots never moves
    /// objects, and the trace of what they refer to is of a known kind.
    pub open spec fn ready(&self) -> bool {
        &&& self.root_kind == TRACE_KIND_FAST || self.root_kind == TRACE_KIND_TRANSITIVE_PIN
        &&& is_trace_kind(self.object_kind)
    }

    /// What running the packet leaves behind: `after_self`, `after_worker` and
    /// `after` are the packet, the worker and the collector afterwards.
    pub open spec fn done(
        &self,
        after_self: Self,
        worker: crate::scheduler::worker::GCWorker,
        after_worker: crate::scheduler::worker::GCWorker,
        before: crate::mmtk::MMTK,
        after: crate::mmtk::MMTK,
    ) -> bool {
        &&& after_self == (*self)
        &&& traced_frame(before, after, self.bucket)
        &&& after.vm == before.vm
        &&& after.scheduler.worker_live_bytes == before.scheduler.worker_live_bytes
        &&& after_worker.wf(after.plan.immix_space@)
        &&& after_worker.tls == worker.tls
        &&& after_worker.ordinal == worker.ordinal
        &&& after_worker.live_bytes == worker.live_bytes
        &&& after.scheduler.packets(self.bucket).len() == before.scheduler.packets(
            self.bucket,
        ).len() + 1
        &&& after.plan.immix_space@ == roots_traced(
            before.plan.immix_space@,
            before.vm.objects@,
            self.roots@,
        )
        &&& match after.scheduler.packets(self.bucket).last() {
            WorkPacket::PlanScanObjects(work) => work.kind == self.object_kind
                && work.bucket == self.bucket && !work.concurrent && work.buffer@
                == roots_reached(
                before.plan.immix_space@,
                before.vm.objects@,
                self.roots@,
            ),
            _ => false,
        }
    }

    /// Traces the root objects, none of which moves, and adds a packet
    /// that scans those of them that were reached for the first time, in
    /// the bucket that the packet names.
    pub fn do_work(&mut self, worker: &mut GCWorker, mmtk: &mut MMTK)
        requires
            old(mmtk).wf(),
            old(self).ready(),
            old(worker).wf(old(mmtk).plan.immix_space@),
        ensures
            old(self).done(*final(self), *old(worker), *final(worker), *old(mmtk), *final(mmtk)),
    {
        let mut process_edges_work = PlanProcessEdges::new(
            Vec::new(),
            true,
            WorkBucketStage::PinningRootsTrace,
            self.root_kind,
        );
        process_edges_work.base.set_worker(worker);
        let n = self.roots.len();
        let mut i: usize = 0;
        proof {
            lemma_traced_frame_reflexive(*mmtk, WorkBucketStage::PinningRootsTrace);
        }
        while i < n
            invariant
                i <= n,
                n == self.roots@.len(),
                *self == *old(self),
                self.ready(),
                process_edges_work.wf(),
                process_edges_work.kind == self.root_kind,
                process_edges_work.base.bucket == WorkBucketStage::PinningRootsTrace,
                traced_frame(*old(mmtk), *mmtk, WorkBucketStage::PinningRootsTrace),
                mmtk.scheduler == old(mmtk).scheduler,
                mmtk.vm.objects@ == old(mmtk).vm.objects@,
                mmtk.vm.objects == old(mmtk).vm.objects,
                worker.wf(mmtk.plan.immix_space@),
                worker.tls == old(worker).tls,
                worker.ordinal == old(worker).ordinal,
                worker.live_bytes == old(worker).live_bytes,
                mmtk.plan.immix_space@ == roots_traced(
                    old(mmtk).plan.immix_space@,
                    old(mmtk).vm.objects@,
                    self.roots@.subrange(0, i as int),
                ),
                process_edges_work.base.nodes@ == roots_reached(
                    old(mmtk).plan.immix_space@,
                    old(mmtk).vm.objects@,
                    self.roots@.subrange(0, i as int),
                ),
            decreases n - i,
        {
            let object = self.roots[i];
            let ghost before = *mmtk;
            let ghost nodes_before = process_edges_work.base.nodes@;
            let new_object = trace_root(&mut process_edges_work, object, worker, mmtk);
            proof {
                lemma_traced_frame_transitive(
                    *old(mmtk),
                    before,
                    *mmtk,
                    WorkBucketStage::PinningRootsTrace,
                );
                let next = self.roots@.subrange(0, i + 1);
                assert(next.drop_last() =~= self.roots@.subrange(0, i as int));
                assert(next.last() == object);
            }
            i += 1;
        }
        proof {
            assert(self.roots@.subrange(0, n as int) =~= self.roots@);
        }
        let scanned_root_objects = process_edges_work.base.nodes.take();
        let process_edges_work = PlanProcessEdges::new(
            Vec::new(),
            false,
            self.bucket,
            self.object_kind,
        );
        let work = process_edges_work.create_scan_work(scanned_root_objects);
        let ghost traced = *mmtk;
        let ghost before = mmtk.scheduler.packets(self.bucket);
        mmtk.scheduler.add(self.bucket, WorkPacket::PlanScanObjects(work));
        proof {
            assert(mmtk.scheduler.packets(self.bucket).subrange(0, before.len() as int)
                =~= before);
            lemma_root_frame(*old(mmtk), traced, *mmtk, self.bucket);
        }
    }
}

/// Traces one root object with a trace that never moves objects. Returns
/// the object, which did not move.
fn trace_root(
    process_edges_work: &mut PlanProcessEdges,
    object: ObjectReference,
    worker: &mut GCWorker,
    mmtk: &mut MMTK,
) -> (r: ObjectReference)
    requires
        old(mmtk).wf(),
        old(process_edges_work).kind == TRACE_KIND_FAST || old(process_edges_work).kind
            == TRACE_KIND_TRANSITIVE_PIN,
        old(worker).wf(old(mmtk).plan.immix_space@),
    ensures
        r == object,
        traced_frame(*old(mmtk), *final(mmtk), old(process_edges_work).base.bucket),
        final(mmtk).scheduler == old(mmtk).scheduler,
        final(mmtk).vm.objects == old(mmtk).vm.objects,
        final(worker).wf(final(mmtk).plan.immix_space@),
        final(worker).tls == old(worker).tls,
        final(worker).ordinal == old(worker).ordinal,
        final(worker).live_bytes == old(worker).live_bytes,
        final(process_edges_work).kind == old(process_edges_work).kind,
        final(process_edges_work).base.bucket == old(process_edges_work).base.bucket,
        final(mmtk).plan.immix_space@ == traced_in_place(
            old(mmtk).plan.immix_space@,
            old(mmtk).vm.objects@,
            object,
        ),
        final(process_edges_work).base.nodes@ == (if newly_marked(
            old(mmtk).plan.immix_space@,
            old(mmtk).vm.objects@,
            object,
        ).is_some() {
            old(process_edges_work).base.nodes@.push(object)
        } else {
            old(process_edges_work).base.nodes@
        }),
{
    broadcast use crate::plan::tracing::lemma_vector_queue_nodes;

    proof {
        lemma_traced_frame_reflexive(*mmtk, process_edges_work.base.bucket);
    }
    let r = mmtk.plan.trace_object_in_place(
        &mut process_edges_work.base.nodes,
        object,
        worker,
        &mmtk.vm.objects,
        process_edges_work.kind,
    );
    proof {
        let p = old(mmtk).scheduler.packets(old(process_edges_work).base.bucket);
        assert(p.subrange(0, p.len() as int) =~= p);
        lemma_trace_in_place(
            old(mmtk).plan.immix_space@,
            mmtk.plan.immix_space@,
            old(process_edges_work).base.nodes@,
            process_edges_work.base.nodes@,
            old(mmtk).vm.objects@,
            old(mmtk).vm.objects@,
            object,
            r,
            process_edges_work.kind,
            old(worker).copy.allocates_marked(old(mmtk).plan.immix_space@),
        );
    }
    r
}

/// A trace that changed at most the space, followed by the adding of a
/// packet to the bucket of `stage`, is a frame for `stage`.
pub proof fn lemma_root_frame(first: MMTK, traced: MMTK, last: MMTK, stage: WorkBucketStage)
    requires
        first.wf(),
        traced.wf(),
        only_space_changed(first.plan, traced.plan),
        traced.state == first.state,
        traced.options == first.options,
        traced.gc_count == first.gc_count,
        traced.vm == first.vm,
        traced.scheduler == first.scheduler,
        last.plan == traced.plan,
        last.state == traced.state,
        last.options == traced.options,
        last.gc_count == traced.gc_count,
        last.vm == traced.vm,
        traced.scheduler.same_but(&last.scheduler, stage),
        is_prefix(traced.scheduler.packets(stage), last.scheduler.packets(stage)),
        last.scheduler.sentinel(stage) == traced.scheduler.sentinel(stage),
    ensures
        traced_frame(first, last, stage),
{
}

} // verus!
