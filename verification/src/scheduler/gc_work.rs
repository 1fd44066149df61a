//! The work packets of a collection that do not depend on the policy of a
//! space.

use crate::global_state::GcStatus;
use crate::global_state::GlobalState;
use crate::mmtk::MMTK;
use crate::plan::tracing::VectorObjectQueue;
use crate::policy::gc_work::TraceKind;
use crate::policy::gc_work::TRACE_KIND_TRANSITIVE_PIN;
use crate::policy::immix::immixspace::TRACE_KIND_DEFRAG;
use crate::policy::immix::immixspace::TRACE_KIND_FAST;
use crate::scheduler::scheduler::GCWorkScheduler;
use crate::scheduler::work::WorkPacket;
use crate::scheduler::work_bucket::WorkBucketStage;
use crate::scheduler::worker::GCWorker;
use crate::util::address::ObjectReference;
use crate::vm::slot::Slot;
use vstd::prelude::*;
use crate::scheduler::scan::post_scan_object;

verus! {

/// The kinds of trace that the packets of one collection use.
#[derive(Clone, Copy, PartialEq, Eq, Structural, Debug)]
pub struct GCWorkContext {
    /// The kind of the trace of the object graph.
    pub default_kind: TraceKind,
    /// The kind of the trace of the roots that pin.
    pub pinning_kind: TraceKind,
}

/// Whether `kind` is one of the kinds of trace.
pub open spec fn is_trace_kind(kind: TraceKind) -> bool {
    kind == TRACE_KIND_FAST || kind == TRACE_KIND_DEFRAG || kind == TRACE_KIND_TRANSITIVE_PIN
}

impl GCWorkContext {
    /// Both kinds are kinds of trace.
    pub open spec fn wf(self) -> bool {
        is_trace_kind(self.default_kind) && is_trace_kind(self.pinning_kind)
    }
}

/// Whether `after` differs from `before` at most in its scheduler.
pub open spec fn only_scheduler_changed(before: MMTK, after: MMTK) -> bool {
    &&& after.plan == before.plan
    &&& after.state == before.state
    &&& after.options == before.options
    &&& after.vm == before.vm
    &&& after.gc_count == before.gc_count
}

/// The packet that starts a collection.
#[derive(Clone, Copy, PartialEq, Eq, Structural, Debug)]
pub struct ScheduleCollection;

/// The packet that readies the plan, and with it every space, for a
/// collection, and sets off the readying of the mutators and the workers.
/// One such packet runs in a collection, before any tracing.
#[derive(Clone, Copy, PartialEq, Eq, Structural, Debug)]
pub struct Prepare {
    /// The kinds of trace of the collection.
    pub context: GCWorkContext,
}

impl Prepare {
    /// The packet for a collection with the given kinds of trace.
    pub fn new(context: GCWorkContext) -> (p: Self)
        ensures
            p.context == context,
    {
        Prepare { context }
    }
}

/// The packet that readies one mutator.
#[derive(Clone, Copy, PartialEq, Eq, Structural, Debug)]
pub struct PrepareMutator {
    /// The position of the mutator among the mutators.
    pub mutator: usize,
}

impl PrepareMutator {
    /// The packet for the mutator at position `mutator`.
    pub fn new(mutator: usize) -> (p: Self)
        ensures
            p.mutator == mutator,
    {
        PrepareMutator { mutator }
    }
}

/// The packet that readies one worker.
#[derive(Clone, Copy, PartialEq, Eq, Structural, Debug)]
pub struct PrepareCollector;

/// The packet that lets the plan, and with it every space, reclaim
/// memory, and sets off the end of the collection for the mutators and the
/// workers. One such packet runs in a collection, after all tracing.
#[derive(Clone, Copy, PartialEq, Eq, Structural, Debug)]
pub struct Release {
    /// The kinds of trace of the collection.
    pub context: GCWorkContext,
}

impl Release {
    /// The packet for a collection with the given kinds of trace.
    pub fn new(context: GCWorkContext) -> (p: Self)
        ensures
            p.context == context,
    {
        Release { context }
    }
}

/// The packet that ends the collection for one mutator.
#[derive(Clone, Copy, PartialEq, Eq, Structural, Debug)]
pub struct ReleaseMutator {
    /// The position of the mutator among the mutators.
    pub mutator: usize,
}

impl ReleaseMutator {
    /// The packet for the mutator at position `mutator`.
    pub fn new(mutator: usize) -> (p: Self)
        ensures
            p.mutator == mutator,
    {
        ReleaseMutator { mutator }
    }
}

/// The packet that ends the collection for one worker.
#[derive(Clone, Copy, PartialEq, Eq, Structural, Debug)]
pub struct ReleaseCollector;

/// The packet that stops all mutators.
#[derive(Clone, Copy, PartialEq, Eq, Structural, Debug)]
pub struct StopMutators {
    /// The kinds of trace of the collection.
    pub context: GCWorkContext,
}

impl StopMutators {
    /// The packet for a collection with the given kinds of trace.
    pub fn new(context: GCWorkContext) -> (p: Self)
        ensures
            p.context == context,
    {
        StopMutators { context }
    }
}

/// The packet that lets the runtime process its weak references.
#[derive(Clone, Copy, PartialEq, Eq, Structural, Debug)]
pub struct VMProcessWeakRefs {
    /// The kind of trace by which the runtime traces what it keeps.
    pub kind: TraceKind,
}

impl VMProcessWeakRefs {
    /// The packet for a trace of kind `kind`.
    pub fn new(kind: TraceKind) -> (p: Self)
        ensures
            p.kind == kind,
    {
        VMProcessWeakRefs { kind }
    }
}

/// The packet that lets the runtime forward its weak references.
#[derive(Clone, Copy, PartialEq, Eq, Structural, Debug)]
pub struct VMForwardWeakRefs {
    /// The kind of trace by which the runtime traces what it keeps.
    pub kind: TraceKind,
}

impl VMForwardWeakRefs {
    /// The packet for a trace of kind `kind`.
    pub fn new(kind: TraceKind) -> (p: Self)
        ensures
            p.kind == kind,
    {
        VMForwardWeakRefs { kind }
    }
}

/// The packet that tells the runtime that forwarding is over.
#[derive(Clone, Copy, PartialEq, Eq, Structural, Debug)]
pub struct VMPostForwarding;

/// The packet that scans the roots of one mutator.
#[derive(Clone, Copy, PartialEq, Eq, Structural, Debug)]
pub struct ScanMutatorRoots {
    /// The position of the mutator among the mutators.
    pub mutator: usize,
    /// The kinds of trace of the collection.
    pub context: GCWorkContext,
}

/// The packet that scans the roots that belong to no mutator.
#[derive(Clone, Copy, PartialEq, Eq, Structural, Debug)]
pub struct ScanVMSpecificRoots {
    /// The kinds of trace of the collection.
    pub context: GCWorkContext,
}

impl ScanVMSpecificRoots {
    /// The packet for a collection with the given kinds of trace.
    pub fn new(context: GCWorkContext) -> (p: Self)
        ensures
            p.context == context,
    {
        ScanVMSpecificRoots { context }
    }
}

/// What every packet that traces slots holds.
pub struct ProcessEdgesBase {
    /// The slots to trace.
    pub slots: Vec<Slot>,
    /// The objects that the trace reached for the first time.
    pub nodes: VectorObjectQueue,
    /// The position of the worker that runs the packet, once known.
    pub worker: Option<usize>,
    /// Whether the slots are roots.
    pub roots: bool,
    /// The number of slots pushed since the packet was last split.
    pub pushes: u32,
    /// The stage that the packet and the work that it makes belong to.
    pub bucket: WorkBucketStage,
}

impl ProcessEdgesBase {
    /// The base of a packet that traces `slots`.
    pub fn new(slots: Vec<Slot>, roots: bool, bucket: WorkBucketStage) -> (base: Self)
        ensures
            base.slots == slots,
            base.nodes@.len() == 0,
            base.worker.is_none(),
            base.roots == roots,
            base.pushes == 0,
            base.bucket == bucket,
    {
        ProcessEdgesBase {
            slots,
            nodes: VectorObjectQueue::new(),
            worker: None,
            roots,
            pushes: 0,
            bucket,
        }
    }

    /// Records the worker that runs the packet.
    pub fn set_worker(&mut self, worker: &GCWorker)
        ensures
            *final(self) == (ProcessEdgesBase { worker: Some(worker.ordinal), ..*old(self) }),
    {
        self.worker = Some(worker.ordinal);
    }

    /// The position of the worker that runs the packet, once known.
    pub fn worker(&self) -> (w: Option<usize>)
        ensures
            w == self.worker,
    {
        self.worker
    }

    /// Takes out all objects that the trace reached, oldest first.
    pub fn pop_nodes(&mut self) -> (nodes: Vec<ObjectReference>)
        ensures
            nodes@ == old(self).nodes@,
            final(self).nodes@.len() == 0,
            final(self).slots == old(self).slots,
            final(self).worker == old(self).worker,
            final(self).roots == old(self).roots,
            final(self).pushes == old(self).pushes,
            final(self).bucket == old(self).bucket,
    {
        self.nodes.take()
    }

    /// Whether the slots are roots.
    pub fn is_roots(&self) -> (r: bool)
        ensures
            r == self.roots,
    {
        self.roots
    }
}

/// A packet that traces slots by way of the table of spaces. An Immix
/// space is not traced that way, so no such packet can do work.
pub struct SFTProcessEdges {
    /// What every packet that traces slots holds.
    pub base: ProcessEdgesBase,
}

/// A packet that traces slots by way of the plan, with a trace of one
/// kind.
pub struct PlanProcessEdges {
    /// What every packet that traces slots holds.
    pub base: ProcessEdgesBase,
    /// The kind of the trace.
    pub kind: TraceKind,
}

/// A packet that scans objects and makes packets that trace their slots.
/// It does not let the plan look at the objects that it scanned.
pub struct ScanObjects {
    /// The objects to scan.
    pub buffer: Vec<ObjectReference>,
    /// Whether the packet runs while the mutators run.
    pub concurrent: bool,
    /// The stage that the packet and the work that it makes belong to.
    pub bucket: WorkBucketStage,
    /// The kind of the trace of the slots.
    pub kind: TraceKind,
}

impl ScanObjects {
    /// The packet that scans the objects of `buffer`.
    pub fn new(buffer: Vec<ObjectReference>, concurrent: bool, bucket: WorkBucketStage, kind: TraceKind) -> (p:
        Self)
        ensures
            p.buffer == buffer,
            p.concurrent == concurrent,
            p.bucket == bucket,
            p.kind == kind,
    {
        ScanObjects { buffer, concurrent, bucket, kind }
    }
}

/// A packet that scans objects, makes packets that trace their slots, and
/// lets the plan look at each object that it scanned.
pub struct PlanScanObjects {
    /// The objects to scan.
    pub buffer: Vec<ObjectReference>,
    /// Whether the packet runs while the mutators run.
    pub concurrent: bool,
    /// The stage that the packet and the work that it makes belong to.
    pub bucket: WorkBucketStage,
    /// The kind of the trace of the slots.
    pub kind: TraceKind,
}

impl PlanScanObjects {
    /// The packet that scans the objects of `buffer`.
    pub fn new(buffer: Vec<ObjectReference>, concurrent: bool, bucket: WorkBucketStage, kind: TraceKind) -> (p:
        Self)
        ensures
            p.buffer == buffer,
            p.concurrent == concurrent,
            p.bucket == bucket,
            p.kind == kind,
    {
        PlanScanObjects { buffer, concurrent, bucket, kind }
    }
}

/// A packet that traces root objects that must not move, and makes the
/// packet that scans those of them that were reached for the first time.
pub struct ProcessRootNode {
    /// The root objects.
    pub roots: Vec<ObjectReference>,
    /// The stage of the packet that scans the roots.
    pub bucket: WorkBucketStage,
    /// The kind of the trace of the roots. It never moves objects.
    pub root_kind: TraceKind,
    /// The kind of the trace of what the roots refer to.
    pub object_kind: TraceKind,
}

impl ProcessRootNode {
    /// The packet that traces the root objects `nodes`.
    pub fn new(nodes: Vec<ObjectReference>, bucket: WorkBucketStage, root_kind: TraceKind, object_kind: TraceKind) -> (p:
        Self)
        ensures
            p.roots == nodes,
            p.bucket == bucket,
            p.root_kind == root_kind,
            p.object_kind == object_kind,
    {
        ProcessRootNode { roots: nodes, bucket, root_kind, object_kind }
    }
}

/// A packet that stands where a plan has no packet that traces slots. It
/// can do no work.
#[derive(Clone, Copy, PartialEq, Eq, Structural, Debug)]
pub struct UnsupportedProcessEdges;

/// One packet for each of `n` mutators that readies the mutator.
pub open spec fn prepare_mutator_packets(n: int) -> Seq<WorkPacket> {
    Seq::new(n as nat, |i: int| WorkPacket::PrepareMutator(PrepareMutator { mutator: i as usize }))
}

/// One packet for each of `n` mutators that ends the collection for the
/// mutator.
pub open spec fn release_mutator_packets(n: int) -> Seq<WorkPacket> {
    Seq::new(n as nat, |i: int| WorkPacket::ReleaseMutator(ReleaseMutator { mutator: i as usize }))
}

/// One packet for each of `n` mutators that scans the roots of the
/// mutator.
pub open spec fn scan_mutator_packets(n: int, context: GCWorkContext) -> Seq<WorkPacket> {
    Seq::new(
        n as nat,
        |i: int| WorkPacket::ScanMutatorRoots(ScanMutatorRoots { mutator: i as usize, context }),
    )
}

/// Whether every worker has `packet` set aside for it in `after` on top
/// of what it had in `before`.
pub open spec fn designated_to_all(
    before: Seq<Vec<WorkPacket>>,
    after: Seq<Vec<WorkPacket>>,
    packet: WorkPacket,
) -> bool {
    &&& after.len() == before.len()
    &&& forall|w: int| 0 <= w < before.len() ==> (#[trigger] after[w])@ == before[w]@.push(packet)
}

/// Makes one packet for each mutator by `make`.
fn mutator_packets(n: usize, release: bool) -> (packets: Vec<WorkPacket>)
    ensures
        packets@ == (if release {
            release_mutator_packets(n as int)
        } else {
            prepare_mutator_packets(n as int)
        }),
{
    let mut packets: Vec<WorkPacket> = Vec::new();
    let mut i: usize = 0;
    while i < n
        invariant
            i <= n,
            packets@.len() == i,
            forall|k: int|
                0 <= k < i ==> packets@[k] == (if release {
                    WorkPacket::ReleaseMutator(ReleaseMutator { mutator: k as usize })
                } else {
                    WorkPacket::PrepareMutator(PrepareMutator { mutator: k as usize })
                }),
        decreases n - i,
    {
        if release {
            packets.push(WorkPacket::ReleaseMutator(ReleaseMutator::new(i)));
        } else {
            packets.push(WorkPacket::PrepareMutator(PrepareMutator::new(i)));
        }
        i += 1;
    }
    proof {
        if release {
            assert(packets@ =~= release_mutator_packets(n as int));
        } else {
            assert(packets@ =~= prepare_mutator_packets(n as int));
        }
    }
    packets
}

/// Sets one packet aside for every worker: the packet that readies the
/// worker, or the one that ends the collection for it.
fn designate_to_all(scheduler: &mut GCWorkScheduler, release: bool)
    requires
        old(scheduler).wf(),
    ensures
        final(scheduler).wf(),
        final(scheduler).work_buckets == old(scheduler).work_buckets,
        final(scheduler).mutators_paused == old(scheduler).mutators_paused,
        final(scheduler).worker_live_bytes == old(scheduler).worker_live_bytes,
        designated_to_all(
            old(scheduler).designated_work@,
            final(scheduler).designated_work@,
            if release {
                WorkPacket::ReleaseCollector(ReleaseCollector)
            } else {
                WorkPacket::PrepareCollector(PrepareCollector)
            },
        ),
{
    let n = scheduler.num_workers();
    let mut w: usize = 0;
    while w < n
        invariant
            w <= n,
            n == old(scheduler).designated_work@.len(),
            scheduler.wf(),
            scheduler.work_buckets == old(scheduler).work_buckets,
            scheduler.mutators_paused == old(scheduler).mutators_paused,
            scheduler.worker_live_bytes == old(scheduler).worker_live_bytes,
            scheduler.designated_work@.len() == n,
            forall|k: int|
                0 <= k < w ==> (#[trigger] scheduler.designated_work@[k])@ == old(scheduler).designated_work@[k]@.push(
                    if release {
                        WorkPacket::ReleaseCollector(ReleaseCollector)
                    } else {
                        WorkPacket::PrepareCollector(PrepareCollector)
                    },
                ),
            forall|k: int|
                w <= k < n ==> (#[trigger] scheduler.designated_work@[k]) == old(scheduler).designated_work@[k],
        decreases n - w,
    {
        if release {
            scheduler.push_designated(w, WorkPacket::ReleaseCollector(ReleaseCollector));
        } else {
            scheduler.push_designated(w, WorkPacket::PrepareCollector(PrepareCollector));
        }
        w += 1;
    }
}

impl ScheduleCollection {
    /// What running the packet leaves behind: `after_self`, `after_worker` and
    /// `after` are the packet, the worker and the collector afterwards.
    pub open spec fn done(
        &self,
        after_self: Self,
        worker: crate::scheduler::worker::GCWorker,
        after_worker: crate::scheduler::worker::GCWorker,
        before: crate::mmtk::MMTK,
        after: crate::mmtk::MMTK,
    ) -> bool {
        &&& after.wf()
        &&& after_worker == worker
        &&& after.vm == before.vm
        &&& after.options == before.options
        &&& after.gc_count == (if before.gc_count < usize::MAX {
            (before.gc_count + 1) as usize
        } else {
            usize::MAX
        })
        &&& after.state == (GlobalState {
            emergency_collection: before.state.is_emergency(
                if before.plan.immix_space@.is_defrag_enabled() {
                    before.plan.last_gc_was_defrag
                } else {
                    true
                },
                before.options.heap_can_grow,
            ),
            gc_status: GcStatus::GcPrepare,
            ..before.state
        })
        &&& after.plan.emergency_notified == (before.plan.emergency_notified || after.state.emergency_collection)
        &&& after.plan.constraints == before.plan.constraints
        &&& after.plan.last_gc_was_defrag == before.plan.last_gc_was_defrag
        &&& after.plan.total_pages == before.plan.total_pages
        &&& after.plan.immix_space@ == (crate::policy::immix::immixspace::ImmixSpaceView {
            defrag: crate::policy::immix::defrag::DefragView {
                in_defrag: after.plan.immix_space@.defrag.in_defrag,
                ..before.plan.immix_space@.defrag
            },
            ..before.plan.immix_space@
        })
        &&& after.plan.immix_space@.defrag.in_defrag
            == crate::policy::immix::defrag::defrag_decision(
            before.plan.immix_space@.is_defrag_enabled(),
            after.state.emergency_collection,
            true,
            before.state.cur_collection_attempts,
            before.state.user_triggered_collection,
            before.plan.immix_space@.reusable_blocks.blocks().len() == 0,
            before.options.full_heap_system_gc,
        )
        &&& crate::scheduler::scheduler::common_work_scheduled(
            before.scheduler,
            after.scheduler,
            crate::plan::global::collection_context(
                after.plan.immix_space@.defrag.in_defrag,
            ),
        )
    }

    /// Starts a collection: counts it, decides whether it is an emergency
    /// collection and tells the plan if so, records that the collection
    /// is being readied, and lets the plan schedule the work.
    pub fn do_work(&mut self, worker: &mut GCWorker, mmtk: &mut MMTK)
        requires
            old(mmtk).wf(),
        ensures
            old(self).done(*final(self), *old(worker), *final(worker), *old(mmtk), *final(mmtk)),
    {
        if mmtk.gc_count < usize::MAX {
            mmtk.gc_count = mmtk.gc_count + 1;
        }
        let exhaustive = mmtk.plan.last_collection_was_exhaustive();
        let is_emergency = mmtk.state.set_collection_kind(exhaustive, mmtk.options.heap_can_grow);
        if is_emergency {
            mmtk.plan.notify_emergency_collection();
        }
        mmtk.set_gc_status(GcStatus::GcPrepare);
        mmtk.plan.schedule_collection(
            &mut mmtk.scheduler,
            &mmtk.state,
            mmtk.options.full_heap_system_gc,
        );
    }
}

impl Prepare {
    /// Whether the packet can run: the numbers that the plan reports fit
    /// a machine word when they are summed up.
    pub open spec fn ready(&self, mmtk: &MMTK) -> bool {
        mmtk.plan.stats_fit()
    }

    /// What running the packet leaves behind: `after_self`, `after_worker` and
    /// `after` are the packet, the worker and the collector afterwards.
    pub open spec fn done(
        &self,
        after_self: Self,
        worker: crate::scheduler::worker::GCWorker,
        after_worker: crate::scheduler::worker::GCWorker,
        before: crate::mmtk::MMTK,
        after: crate::mmtk::MMTK,
    ) -> bool {
        &&& after.wf()
        &&& after_self == (*self)
        &&& after_worker == worker
        &&& after.vm == before.vm
        &&& after.options == before.options
        &&& after.state == before.state
        &&& after.gc_count == before.gc_count
        &&& crate::plan::global::only_space_changed(before.plan, after.plan)
        &&& crate::policy::immix::prepare::space_prepared(
            before.plan.immix_space@,
            after.plan.immix_space@,
            (crate::policy::immix::defrag::StatsForDefrag {
                total_pages: before.plan.total_pages,
                reserved_pages: before.plan.immix_space@.pr.reserved_pages,
                collection_reserved_pages: (before.plan.immix_space@.pr.reserved_pages
                    * crate::policy::immix::defrag::DEFRAG_HEADROOM_PERCENT / 100) as usize,
            }),
        )
        &&& after.scheduler.packets(WorkBucketStage::Prepare) == before.scheduler.packets(
            WorkBucketStage::Prepare,
        ) + crate::policy::immix::prepare::prepare_packets(
            before.plan.immix_space@.chunk_map.allocated_chunks(
                before.plan.immix_space@.chunk_map.allocated.len() as int,
            ),
            crate::policy::immix::prepare::packet_threshold(after.plan.immix_space@),
        ) + (if before.plan.constraints.needs_prepare_mutator {
            prepare_mutator_packets(before.vm.mutators@.len() as int)
        } else {
            Seq::empty()
        })
        &&& after.scheduler.packets(WorkBucketStage::ClearVOBits) == before.scheduler.packets(WorkBucketStage::ClearVOBits)
            + crate::policy::immix::prepare::vo_packets(after.plan.immix_space@, true)
        &&& forall|stage: WorkBucketStage|
            stage != WorkBucketStage::Prepare && stage != WorkBucketStage::ClearVOBits
                ==> #[trigger] after.scheduler.work_buckets@[stage.spec_index()] == before.scheduler.work_buckets@[stage.spec_index()]
        &&& designated_to_all(
            before.scheduler.designated_work@,
            after.scheduler.designated_work@,
            WorkPacket::PrepareCollector(PrepareCollector),
        )
        &&& after.scheduler.mutators_paused == before.scheduler.mutators_paused
        &&& after.scheduler.worker_live_bytes == before.scheduler.worker_live_bytes
    }

    /// Readies the plan for the collection, adds one packet for each
    /// mutator that readies the mutator if the plan asks for it, and sets
    /// the packet that readies a worker aside for every worker.
    pub fn do_work(&mut self, worker: &mut GCWorker, mmtk: &mut MMTK)
        requires
            old(mmtk).wf(),
            old(self).ready(old(mmtk)),
        ensures
            old(self).done(*final(self), *old(worker), *final(worker), *old(mmtk), *final(mmtk)),
    {
        mmtk.plan.prepare(worker.tls, &mut mmtk.scheduler);
        let ghost mid = mmtk.scheduler;
        if mmtk.plan.constraints().needs_prepare_mutator {
            let prepare_mutator_packets = mutator_packets(mmtk.vm.number_of_mutators(), false);
            mmtk.scheduler.bulk_add(WorkBucketStage::Prepare, prepare_mutator_packets);
        } else {
            assert(mid.packets(WorkBucketStage::Prepare) + Seq::<WorkPacket>::empty()
                =~= mid.packets(WorkBucketStage::Prepare));
        }
        designate_to_all(&mut mmtk.scheduler, false);
    }
}

impl PrepareMutator {
    /// Whether the packet can run: its mutator exists.
    pub open spec fn ready(&self, mmtk: &MMTK) -> bool {
        self.mutator < mmtk.vm.mutators@.len()
    }

    /// What running the packet leaves behind: `after_self`, `after_worker` and
    /// `after` are the packet, the worker and the collector afterwards.
    pub open spec fn done(
        &self,
        after_self: Self,
        worker: crate::scheduler::worker::GCWorker,
        after_worker: crate::scheduler::worker::GCWorker,
        before: crate::mmtk::MMTK,
        after: crate::mmtk::MMTK,
    ) -> bool {
        &&& after.wf()
        &&& after_self == (*self)
        &&& after_worker == worker
        &&& only_mutator_changed(before, after, self.mutator as int)
        &&& mutator_reset(
            before.vm.mutators@[self.mutator as int],
            after.vm.mutators@[self.mutator as int],
        )
    }

    /// Readies the mutator: its allocator gives up the memory that it
    /// holds.
    pub fn do_work(&mut self, worker: &mut GCWorker, mmtk: &mut MMTK)
        requires
            old(mmtk).wf(),
            old(self).ready(old(mmtk)),
        ensures
            old(self).done(*final(self), *old(worker), *final(worker), *old(mmtk), *final(mmtk)),
    {
        mmtk.vm.mutators[self.mutator].prepare(worker.tls);
    }
}

/// Whether `after` differs from `before` at most in the mutator at
/// position `mutator`.
pub open spec fn only_mutator_changed(before: MMTK, after: MMTK, mutator: int) -> bool {
    &&& after.plan == before.plan
    &&& after.scheduler == before.scheduler
    &&& after.state == before.state
    &&& after.options == before.options
    &&& after.gc_count == before.gc_count
    &&& after.vm.objects == before.vm.objects
    &&& after.vm.vm_roots == before.vm.vm_roots
    &&& after.vm.pinning_roots == before.vm.pinning_roots
    &&& after.vm.tpinning_roots == before.vm.tpinning_roots
    &&& after.vm.weak_ref_rounds == before.vm.weak_ref_rounds
    &&& after.vm.slot_enqueuing == before.vm.slot_enqueuing
    &&& after.vm.mutators_stopped == before.vm.mutators_stopped
    &&& after.vm.initial_scan_complete == before.vm.initial_scan_complete
    &&& after.vm.post_forwarding_done == before.vm.post_forwarding_done
    &&& after.vm.mutators@.len() == before.vm.mutators@.len()
    &&& forall|i: int|
        0 <= i < before.vm.mutators@.len() && i != mutator ==> after.vm.mutators@[i]
            == before.vm.mutators@[i]
}

/// Whether `after` is the mutator `before` with an allocator that holds
/// no memory.
pub open spec fn mutator_reset(
    before: crate::vm::vm_binding::Mutator,
    after: crate::vm::vm_binding::Mutator,
) -> bool {
    &&& after.tls == before.tls
    &&& after.roots == before.roots
    &&& after.allocator.copy == before.allocator.copy
    &&& after.allocator.cursor == 0
    &&& after.allocator.limit == 0
    &&& after.allocator.line.is_none()
}

impl PrepareCollector {
    /// What running the packet leaves behind: `after_self`, `after_worker` and
    /// `after` are the packet, the worker and the collector afterwards.
    pub open spec fn done(
        &self,
        after_self: Self,
        worker: crate::scheduler::worker::GCWorker,
        after_worker: crate::scheduler::worker::GCWorker,
        before: crate::mmtk::MMTK,
        after: crate::mmtk::MMTK,
    ) -> bool {
        &&& after == before
        &&& after_worker.tls == worker.tls
        &&& after_worker.ordinal == worker.ordinal
        &&& after_worker.live_bytes == worker.live_bytes
        &&& forall|space: crate::policy::immix::immixspace::ImmixSpaceView|
            worker.copy.flags_ok() ==> #[trigger] after_worker.wf(space)
    }

    /// Readies the worker: its allocators give up the memory that they
    /// hold.
    pub fn do_work(&mut self, worker: &mut GCWorker, mmtk: &mut MMTK)
        requires
            old(mmtk).wf(),
        ensures
            old(self).done(*final(self), *old(worker), *final(worker), *old(mmtk), *final(mmtk)),
    {
        worker.copy.prepare();
        mmtk.plan.prepare_worker(worker);
    }
}

impl Release {
    /// What running the packet leaves behind: `after_self`, `after_worker` and
    /// `after` are the packet, the worker and the collector afterwards.
    pub open spec fn done(
        &self,
        after_self: Self,
        worker: crate::scheduler::worker::GCWorker,
        after_worker: crate::scheduler::worker::GCWorker,
        before: crate::mmtk::MMTK,
        after: crate::mmtk::MMTK,
    ) -> bool {
        &&& after.wf()
        &&& after_self == (*self)
        &&& after_worker == worker
        &&& after.vm == before.vm
        &&& after.options == before.options
        &&& after.gc_count == before.gc_count
        &&& after.state == (if before.options.count_live_bytes_in_gc {
            GlobalState {
                live_bytes_in_last_gc: crate::scheduler::scheduler::saturating_total(
                    before.scheduler.worker_live_bytes@,
                ),
                ..before.state
            }
        } else {
            before.state
        })
        &&& crate::plan::global::only_space_changed(before.plan, after.plan)
        &&& after.plan.immix_space@ == crate::policy::immix::prepare::space_released(
            before.plan.immix_space@,
            true,
        )
        &&& after.scheduler.packets(WorkBucketStage::Release) == before.scheduler.packets(
            WorkBucketStage::Release,
        ) + crate::policy::immix::prepare::sweep_packets(
            before.plan.immix_space@.chunk_map.allocated_chunks(
                before.plan.immix_space@.chunk_map.allocated.len() as int,
            ),
        ) + release_mutator_packets(before.vm.mutators@.len() as int)
        &&& forall|stage: WorkBucketStage|
            stage != WorkBucketStage::Release ==> #[trigger] after.scheduler.work_buckets@[stage.spec_index()] == before.scheduler.work_buckets@[stage.spec_index()]
        &&& designated_to_all(
            before.scheduler.designated_work@,
            after.scheduler.designated_work@,
            WorkPacket::ReleaseCollector(ReleaseCollector),
        )
        &&& after.scheduler.mutators_paused == before.scheduler.mutators_paused
        &&& before.options.count_live_bytes_in_gc ==> forall|w: int|
            0 <= w < after.scheduler.worker_live_bytes@.len() ==> after.scheduler.worker_live_bytes@[w] == 0
        &&& !before.options.count_live_bytes_in_gc ==> after.scheduler.worker_live_bytes
            == before.scheduler.worker_live_bytes
    }

    /// Lets the plan start to reclaim memory, adds one packet for each
    /// mutator that ends the collection for the mutator, sets the packet
    /// that ends the collection for a worker aside for every worker, and,
    /// if live bytes are counted, files the sum of what the workers
    /// counted.
    pub fn do_work(&mut self, worker: &mut GCWorker, mmtk: &mut MMTK)
        requires
            old(mmtk).wf(),
        ensures
            old(self).done(*final(self), *old(worker), *final(worker), *old(mmtk), *final(mmtk)),
    {
        mmtk.plan.release(worker.tls, &mut mmtk.scheduler);
        let release_mutator_packets = mutator_packets(mmtk.vm.number_of_mutators(), true);
        mmtk.scheduler.bulk_add(WorkBucketStage::Release, release_mutator_packets);
        designate_to_all(&mut mmtk.scheduler, true);
        if mmtk.options.count_live_bytes_in_gc {
            let live_bytes = mmtk.scheduler.get_and_clear_worker_live_bytes();
            mmtk.state.live_bytes_in_last_gc = live_bytes;
        }
    }
}

impl ReleaseMutator {
    /// Whether the packet can run: its mutator exists.
    pub open spec fn ready(&self, mmtk: &MMTK) -> bool {
        self.mutator < mmtk.vm.mutators@.len()
    }

    /// What running the packet leaves behind: `after_self`, `after_worker` and
    /// `after` are the packet, the worker and the collector afterwards.
    pub open spec fn done(
        &self,
        after_self: Self,
        worker: crate::scheduler::worker::GCWorker,
        after_worker: crate::scheduler::worker::GCWorker,
        before: crate::mmtk::MMTK,
        after: crate::mmtk::MMTK,
    ) -> bool {
        &&& after.wf()
        &&& after_self == (*self)
        &&& after_worker == worker
        &&& only_mutator_changed(before, after, self.mutator as int)
        &&& mutator_reset(
            before.vm.mutators@[self.mutator as int],
            after.vm.mutators@[self.mutator as int],
        )
    }

    /// Ends the collection for the mutator: its allocator gives up the
    /// memory that it holds.
    pub fn do_work(&mut self, worker: &mut GCWorker, mmtk: &mut MMTK)
        requires
            old(mmtk).wf(),
            old(self).ready(old(mmtk)),
        ensures
            old(self).done(*final(self), *old(worker), *final(worker), *old(mmtk), *final(mmtk)),
    {
        mmtk.vm.mutators[self.mutator].release(worker.tls);
    }
}

impl ReleaseCollector {
    /// What running the packet leaves behind: `after_self`, `after_worker` and
    /// `after` are the packet, the worker and the collector afterwards.
    pub open spec fn done(
        &self,
        after_self: Self,
        worker: crate::scheduler::worker::GCWorker,
        after_worker: crate::scheduler::worker::GCWorker,
        before: crate::mmtk::MMTK,
        after: crate::mmtk::MMTK,
    ) -> bool {
        &&& after == before
        &&& after_worker.tls == worker.tls
        &&& after_worker.ordinal == worker.ordinal
        &&& after_worker.live_bytes == worker.live_bytes
        &&& forall|space: crate::policy::immix::immixspace::ImmixSpaceView|
            worker.copy.flags_ok() ==> #[trigger] after_worker.wf(space)
    }

    /// Ends the collection for the worker: its allocators give up the
    /// memory that they hold.
    pub fn do_work(&mut self, worker: &mut GCWorker, mmtk: &mut MMTK)
        requires
            old(mmtk).wf(),
        ensures
            old(self).done(*final(self), *old(worker), *final(worker), *old(mmtk), *final(mmtk)),
    {
        worker.copy.release();
    }
}

impl StopMutators {
    /// What running the packet leaves behind: `after_self`, `after_worker` and
    /// `after` are the packet, the worker and the collector afterwards.
    pub open spec fn done(
        &self,
        after_self: Self,
        worker: crate::scheduler::worker::GCWorker,
        after_worker: crate::scheduler::worker::GCWorker,
        before: crate::mmtk::MMTK,
        after: crate::mmtk::MMTK,
    ) -> bool {
        &&& after.wf()
        &&& after_self == (*self)
        &&& after_worker == worker
        &&& after.plan == before.plan
        &&& after.options == before.options
        &&& after.gc_count == before.gc_count
        &&& after.state == (GlobalState {
            scanned_stacks: 0,
            stacks_prepared: false,
            ..before.state
        })
        &&& after.vm == (crate::vm::vm_binding::VMBinding {
            mutators_stopped: true,
            ..before.vm
        })
        &&& after.scheduler.mutators_paused
        &&& after.scheduler.designated_work == before.scheduler.designated_work
        &&& after.scheduler.worker_live_bytes == before.scheduler.worker_live_bytes
        &&& after.scheduler.packets(WorkBucketStage::Prepare) == (before.scheduler.packets(
            WorkBucketStage::Prepare,
        ) + scan_mutator_packets(before.vm.mutators@.len() as int, self.context)).push(
            WorkPacket::ScanVMSpecificRoots(ScanVMSpecificRoots { context: self.context }),
        )
        &&& forall|stage: WorkBucketStage|
            stage != WorkBucketStage::Prepare ==> #[trigger] after.scheduler.work_buckets@[stage.spec_index()] == before.scheduler.work_buckets@[stage.spec_index()]
    }

    /// Stops the mutators: readies the count of the scanned stacks, adds
    /// one packet for each mutator that scans its roots, lets the stages
    /// after the first open, and adds the packet that scans the roots
    /// that belong to no mutator.
    pub fn do_work(&mut self, worker: &mut GCWorker, mmtk: &mut MMTK)
        requires
            old(mmtk).wf(),
        ensures
            old(self).done(*final(self), *old(worker), *final(worker), *old(mmtk), *final(mmtk)),
    {
        mmtk.state.prepare_for_stack_scanning();
        mmtk.vm.mutators_stopped = true;
        let n = mmtk.vm.number_of_mutators();
        let context = self.context;
        let mut i: usize = 0;
        let ghost first = mmtk.scheduler;
        proof {
            assert(first.packets(WorkBucketStage::Prepare) + scan_mutator_packets(0, context)
                =~= first.packets(WorkBucketStage::Prepare));
        }
        while i < n
            invariant
                i <= n,
                n == mmtk.vm.mutators@.len(),
                mmtk.scheduler.wf(),
                first.wf(),
                mmtk.scheduler.designated_work == first.designated_work,
                mmtk.scheduler.worker_live_bytes == first.worker_live_bytes,
                mmtk.scheduler.mutators_paused == first.mutators_paused,
                mmtk.plan == old(mmtk).plan,
                mmtk.options == old(mmtk).options,
                mmtk.gc_count == old(mmtk).gc_count,
                mmtk.state == (GlobalState {
                    scanned_stacks: 0,
                    stacks_prepared: false,
                    ..old(mmtk).state
                }),
                mmtk.vm == (crate::vm::vm_binding::VMBinding {
                    mutators_stopped: true,
                    ..old(mmtk).vm
                }),
                mmtk.scheduler.packets(WorkBucketStage::Prepare) == first.packets(
                    WorkBucketStage::Prepare,
                ) + scan_mutator_packets(i as int, context),
                forall|stage: WorkBucketStage|
                    stage != WorkBucketStage::Prepare
                        ==> #[trigger] mmtk.scheduler.work_buckets@[stage.spec_index()]
                        == first.work_buckets@[stage.spec_index()],
            decreases n - i,
        {
            mmtk.scheduler.add(
                WorkBucketStage::Prepare,
                WorkPacket::ScanMutatorRoots(ScanMutatorRoots { mutator: i, context }),
            );
            proof {
                assert((first.packets(WorkBucketStage::Prepare) + scan_mutator_packets(
                    i as int,
                    context,
                )).push(WorkPacket::ScanMutatorRoots(ScanMutatorRoots { mutator: i, context }))
                    =~= first.packets(WorkBucketStage::Prepare) + scan_mutator_packets(
                    i + 1,
                    context,
                ));
            }
            i += 1;
        }
        mmtk.scheduler.notify_mutators_paused();
        mmtk.scheduler.add(
            WorkBucketStage::Prepare,
            WorkPacket::ScanVMSpecificRoots(ScanVMSpecificRoots::new(context)),
        );
    }
}

impl VMPostForwarding {
    /// What running the packet leaves behind: `after_self`, `after_worker` and
    /// `after` are the packet, the worker and the collector afterwards.
    pub open spec fn done(
        &self,
        after_self: Self,
        worker: crate::scheduler::worker::GCWorker,
        after_worker: crate::scheduler::worker::GCWorker,
        before: crate::mmtk::MMTK,
        after: crate::mmtk::MMTK,
    ) -> bool {
        &&& after.wf()
        &&& after_worker == worker
        &&& after.plan == before.plan
        &&& after.scheduler == before.scheduler
        &&& after.state == before.state
        &&& after.options == before.options
        &&& after.gc_count == before.gc_count
        &&& after.vm == (crate::vm::vm_binding::VMBinding {
            post_forwarding_done: true,
            ..before.vm
        })
    }

    /// Tells the runtime that forwarding is over.
    pub fn do_work(&mut self, worker: &mut GCWorker, mmtk: &mut MMTK)
        requires
            old(mmtk).wf(),
        ensures
            old(self).done(*final(self), *old(worker), *final(worker), *old(mmtk), *final(mmtk)),
    {
        mmtk.vm.post_forwarding_done = true;
    }
}

impl VMProcessWeakRefs {
    /// What running the packet leaves behind: `after_self`, `after_worker` and
    /// `after` are the packet, the worker and the collector afterwards.
    pub open spec fn done(
        &self,
        after_self: Self,
        worker: crate::scheduler::worker::GCWorker,
        after_worker: crate::scheduler::worker::GCWorker,
        before: crate::mmtk::MMTK,
        after: crate::mmtk::MMTK,
    ) -> bool {
        &&& after.wf()
        &&& after_self == (*self)
        &&& after_worker == worker
        &&& after.plan == before.plan
        &&& after.state == before.state
        &&& after.options == before.options
        &&& after.gc_count == before.gc_count
        &&& after.vm == (crate::vm::vm_binding::VMBinding {
            weak_ref_rounds: if before.vm.weak_ref_rounds > 0 {
                (before.vm.weak_ref_rounds - 1) as usize
            } else {
                0
            },
            ..before.vm
        })
        &&& before.vm.weak_ref_rounds == 0 ==> after.scheduler == before.scheduler
        &&& before.vm.weak_ref_rounds > 0 ==> before.scheduler.same_but(
            &after.scheduler,
            WorkBucketStage::VMRefClosure,
        ) && after.scheduler.packets(WorkBucketStage::VMRefClosure) == before.scheduler.packets(WorkBucketStage::VMRefClosure) && after.scheduler.sentinel(
            WorkBucketStage::VMRefClosure,
        ) == Some(WorkPacket::VMProcessWeakRefs(VMProcessWeakRefs { kind: self.kind }))
    }

    /// Lets the runtime process its weak references. If the runtime asks
    /// for another round, the packet is set up again as the sentinel of
    /// its stage, so that it runs once more after the trace that this
    /// round set off.
    pub fn do_work(&mut self, worker: &mut GCWorker, mmtk: &mut MMTK)
        requires
            old(mmtk).wf(),
        ensures
            old(self).done(*final(self), *old(worker), *final(worker), *old(mmtk), *final(mmtk)),
    {
        let stage = WorkBucketStage::VMRefClosure;
        let need_to_repeat = mmtk.vm.process_weak_refs(worker.tls);
        if need_to_repeat {
            let new_self = WorkPacket::VMProcessWeakRefs(VMProcessWeakRefs::new(self.kind));
            mmtk.scheduler.set_sentinel(stage, new_self);
        }
    }
}

impl VMForwardWeakRefs {
    /// What running the packet leaves behind: `after_self`, `after_worker` and
    /// `after` are the packet, the worker and the collector afterwards.
    pub open spec fn done(
        &self,
        after_self: Self,
        worker: crate::scheduler::worker::GCWorker,
        after_worker: crate::scheduler::worker::GCWorker,
        before: crate::mmtk::MMTK,
        after: crate::mmtk::MMTK,
    ) -> bool {
        &&& after == before
        &&& after_self == (*self)
        &&& after_worker == worker
    }

    /// Lets the runtime forward its weak references. The runtime of this
    /// model keeps none.
    pub fn do_work(&mut self, worker: &mut GCWorker, mmtk: &mut MMTK)
        requires
            old(mmtk).wf(),
        ensures
            old(self).done(*final(self), *old(worker), *final(worker), *old(mmtk), *final(mmtk)),
    {
        mmtk.vm.forward_weak_refs(worker.tls);
    }
}

/// What a packet that traces slots offers to the packets and tracers that
/// are made for it.
pub trait ProcessEdgesWork: Sized {
    /// Whether packets of this type can trace.
    spec fn supported() -> bool;

    /// Whether packets of this type can make packets that scan.
    spec fn makes_scan_work() -> bool;

    /// Whether the trace of the packet is of a known kind.
    spec fn spec_kind_ok(&self) -> bool;

    /// The stage that the packet and the work that it makes belong to.
    spec fn spec_bucket(&self) -> WorkBucketStage;

    /// The kind of the trace of the packet.
    spec fn spec_kind(&self) -> TraceKind;

    /// The objects that the trace of the packet reached and that wait to
    /// be scanned.
    spec fn spec_nodes(&self) -> Seq<ObjectReference>;

    /// Traces `object` by way of the plan. Returns the object that stands
    /// for `object` from now on.
    fn trace_object(&mut self, object: ObjectReference, worker: &mut GCWorker, mmtk: &mut MMTK) -> (r:
        ObjectReference)
        requires
            Self::supported(),
            old(mmtk).wf(),
            old(self).spec_kind_ok(),
            old(worker).wf(old(mmtk).plan.immix_space@),
        ensures
            crate::scheduler::edges::traced_frame(*old(mmtk), *final(mmtk), old(self).spec_bucket()),
            final(mmtk).scheduler == old(mmtk).scheduler,
            final(worker).wf(final(mmtk).plan.immix_space@),
            final(self).spec_kind_ok(),
            final(self).spec_bucket() == old(self).spec_bucket(),
            final(self).spec_kind() == old(self).spec_kind(),
            crate::plan::global::plan_traced(
                old(mmtk).plan.immix_space@,
                final(mmtk).plan.immix_space@,
                old(self).spec_nodes(),
                final(self).spec_nodes(),
                old(mmtk).vm.objects@,
                final(mmtk).vm.objects@,
                object,
                r,
                old(self).spec_kind(),
                old(worker).copy.allocates_marked(old(mmtk).plan.immix_space@),
            ),
    ;

    /// The packet that scans `nodes` for this packet.
    fn create_scan_work(&self, nodes: Vec<ObjectReference>) -> (work: WorkPacket)
        requires
            Self::makes_scan_work(),
        ensures
            match work {
                WorkPacket::PlanScanObjects(w) => w.buffer == nodes && w.bucket == self.spec_bucket()
                    && w.kind == self.spec_kind() && !w.concurrent,
                WorkPacket::ScanObjects(w) => w.buffer == nodes && w.bucket == self.spec_bucket()
                    && w.kind == self.spec_kind() && !w.concurrent,
                _ => false,
            },
    ;
}

impl ProcessEdgesWork for PlanProcessEdges {
    open spec fn supported() -> bool {
        true
    }

    open spec fn makes_scan_work() -> bool {
        true
    }

    open spec fn spec_kind_ok(&self) -> bool {
        is_trace_kind(self.kind)
    }

    open spec fn spec_bucket(&self) -> WorkBucketStage {
        self.base.bucket
    }

    open spec fn spec_kind(&self) -> TraceKind {
        self.kind
    }

    open spec fn spec_nodes(&self) -> Seq<ObjectReference> {
        self.base.nodes@
    }

    fn trace_object(&mut self, object: ObjectReference, worker: &mut GCWorker, mmtk: &mut MMTK) -> (r:
        ObjectReference) {
        PlanProcessEdges::trace_object(self, object, worker, mmtk)
    }

    fn create_scan_work(&self, nodes: Vec<ObjectReference>) -> (work: WorkPacket) {
        WorkPacket::PlanScanObjects(PlanProcessEdges::create_scan_work(self, nodes))
    }
}

impl SFTProcessEdges {
    /// The packet that would trace `slots`.
    pub fn new(slots: Vec<Slot>, roots: bool, bucket: WorkBucketStage) -> (p: Self)
        ensures
            p.base.slots == slots,
            p.base.nodes@.len() == 0,
            p.base.worker.is_none(),
            p.base.roots == roots,
            p.base.pushes == 0,
            p.base.bucket == bucket,
    {
        SFTProcessEdges { base: ProcessEdgesBase::new(slots, roots, bucket) }
    }
}

impl ProcessEdgesWork for SFTProcessEdges {
    open spec fn supported() -> bool {
        false
    }

    open spec fn makes_scan_work() -> bool {
        true
    }

    open spec fn spec_kind_ok(&self) -> bool {
        true
    }

    open spec fn spec_bucket(&self) -> WorkBucketStage {
        self.base.bucket
    }

    open spec fn spec_kind(&self) -> TraceKind {
        TRACE_KIND_FAST
    }

    open spec fn spec_nodes(&self) -> Seq<ObjectReference> {
        self.base.nodes@
    }

    fn trace_object(&mut self, object: ObjectReference, worker: &mut GCWorker, mmtk: &mut MMTK) -> (r:
        ObjectReference) {
        object
    }

    fn create_scan_work(&self, nodes: Vec<ObjectReference>) -> (work: WorkPacket) {
        WorkPacket::ScanObjects(ScanObjects::new(nodes, false, self.base.bucket, TRACE_KIND_FAST))
    }
}

impl ProcessEdgesWork for UnsupportedProcessEdges {
    open spec fn supported() -> bool {
        false
    }

    open spec fn makes_scan_work() -> bool {
        false
    }

    open spec fn spec_kind_ok(&self) -> bool {
        true
    }

    open spec fn spec_bucket(&self) -> WorkBucketStage {
        WorkBucketStage::Unconstrained
    }

    open spec fn spec_kind(&self) -> TraceKind {
        TRACE_KIND_FAST
    }

    open spec fn spec_nodes(&self) -> Seq<ObjectReference> {
        Seq::empty()
    }

    fn trace_object(&mut self, object: ObjectReference, worker: &mut GCWorker, mmtk: &mut MMTK) -> (r:
        ObjectReference) {
        object
    }

    fn create_scan_work(&self, nodes: Vec<ObjectReference>) -> (work: WorkPacket) {
        WorkPacket::ScanObjects(
            ScanObjects::new(nodes, false, WorkBucketStage::Unconstrained, TRACE_KIND_FAST),
        )
    }
}

/// What a packet that scans objects offers.
pub trait ScanObjectsWork: Sized {
    /// The stage that the packet and the work that it makes belong to.
    spec fn spec_bucket(&self) -> WorkBucketStage;

    /// Whether the plan looks at an object after the packet scanned it.
    spec fn looks_after(&self) -> bool;

    /// The stage that the packet and the work that it makes belong to.
    fn get_bucket(&self) -> (bucket: WorkBucketStage)
        ensures
            bucket == self.spec_bucket(),
    ;

    /// Called after `object` was scanned: lets the plan look at the
    /// object if the packet is of the kind that does so.
    fn post_scan_object(&self, object: ObjectReference, worker: &GCWorker, mmtk: &mut MMTK)
        requires
            old(mmtk).wf(),
            worker.wf(old(mmtk).plan.immix_space@),
        ensures
            final(mmtk).wf(),
            worker.wf(final(mmtk).plan.immix_space@),
            crate::plan::global::only_space_changed(old(mmtk).plan, final(mmtk).plan),
            final(mmtk).state == old(mmtk).state,
            final(mmtk).options == old(mmtk).options,
            final(mmtk).gc_count == old(mmtk).gc_count,
            final(mmtk).vm == old(mmtk).vm,
            final(mmtk).scheduler == old(mmtk).scheduler,
            !self.looks_after() ==> final(mmtk).plan == old(mmtk).plan,
            self.looks_after() ==> final(mmtk).plan.immix_space@
                == crate::scheduler::scan::post_scanned(
                old(mmtk).plan.immix_space@,
                old(mmtk).vm.objects@,
                object,
            ),
    ;
}

impl ScanObjectsWork for ScanObjects {
    open spec fn spec_bucket(&self) -> WorkBucketStage {
        self.bucket
    }

    open spec fn looks_after(&self) -> bool {
        false
    }

    fn get_bucket(&self) -> (bucket: WorkBucketStage) {
        self.bucket
    }

    fn post_scan_object(&self, object: ObjectReference, worker: &GCWorker, mmtk: &mut MMTK) {
    }
}

impl ScanObjectsWork for PlanScanObjects {
    open spec fn spec_bucket(&self) -> WorkBucketStage {
        self.bucket
    }

    open spec fn looks_after(&self) -> bool {
        true
    }

    fn get_bucket(&self) -> (bucket: WorkBucketStage) {
        self.bucket
    }

    fn post_scan_object(&self, object: ObjectReference, worker: &GCWorker, mmtk: &mut MMTK) {
        crate::scheduler::scan::post_scan_object(object, worker, mmtk);
    }
}

} // verus!
