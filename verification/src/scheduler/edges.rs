//! The packets that trace the object graph: those that trace slots, and
//! those that scan the objects that the trace reached.

use crate::mmtk::MMTK;
use crate::plan::global::only_space_changed;
use crate::plan::global::plan_traced;
use crate::policy::gc_work::TraceKind;
use crate::policy::immix::immixspace::ImmixSpaceView;
use crate::policy::immix::immixspace::TRACE_KIND_DEFRAG;
use crate::scheduler::gc_work::is_trace_kind;
use crate::scheduler::gc_work::PlanProcessEdges;
use crate::scheduler::gc_work::PlanScanObjects;
use crate::scheduler::gc_work::ProcessEdgesBase;
use crate::scheduler::scheduler::GCWorkScheduler;
use crate::scheduler::work::WorkPacket;
use crate::scheduler::work_bucket::WorkBucketStage;
use crate::scheduler::worker::GCWorker;
use crate::util::address::ObjectReference;
use crate::vm::object_model::ObjectView;
use crate::vm::slot::Slot;
use crate::scheduler::closure::lemma_no_slots_traced;
use crate::scheduler::closure::lemma_one_more_slot_traced;
use crate::scheduler::closure::lemma_trace_in_place;
use crate::scheduler::closure::never_moves;
use crate::scheduler::closure::slot_traced;
use crate::scheduler::closure::slots_traced;
use vstd::prelude::*;

verus! {

/// Whether `a` is the start of `b`.
pub open spec fn is_prefix<T>(a: Seq<T>, b: Seq<T>) -> bool {
    a.len() <= b.len() && b.subrange(0, a.len() as int) == a
}

/// Whether `after` differs from `before` at most in the space, in the
/// objects of the runtime, and in the bucket of `stage`, to which packets
/// may have been added.
pub open spec fn traced_frame(before: MMTK, after: MMTK, stage: WorkBucketStage) -> bool {
    &&& after.wf()
    &&& only_space_changed(before.plan, after.plan)
    &&& after.state == before.state
    &&& after.options == before.options
    &&& after.gc_count == before.gc_count
    &&& after.vm.mutators == before.vm.mutators
    &&& after.vm.vm_roots == before.vm.vm_roots
    &&& after.vm.pinning_roots == before.vm.pinning_roots
    &&& after.vm.tpinning_roots == before.vm.tpinning_roots
    &&& after.vm.weak_ref_rounds == before.vm.weak_ref_rounds
    &&& after.vm.slot_enqueuing == before.vm.slot_enqueuing
    &&& after.vm.mutators_stopped == before.vm.mutators_stopped
    &&& after.vm.initial_scan_complete == before.vm.initial_scan_complete
    &&& after.vm.post_forwarding_done == before.vm.post_forwarding_done
    &&& after.scheduler.designated_work == before.scheduler.designated_work
    &&& after.scheduler.mutators_paused == before.scheduler.mutators_paused
    &&& after.scheduler.work_buckets@.len() == before.scheduler.work_buckets@.len()
    &&& forall|s: WorkBucketStage|
        s != stage ==> #[trigger] after.scheduler.work_buckets@[s.spec_index()]
            == before.scheduler.work_buckets@[s.spec_index()]
    &&& is_prefix(before.scheduler.packets(stage), after.scheduler.packets(stage))
    &&& after.scheduler.sentinel(stage) == before.scheduler.sentinel(stage)
}

/// A frame that follows another for the same stage is one, as far as the
/// live bytes of the workers go.
pub proof fn lemma_traced_frame_transitive(a: MMTK, b: MMTK, c: MMTK, stage: WorkBucketStage)
    requires
        traced_frame(a, b, stage),
        traced_frame(b, c, stage),
    ensures
        traced_frame(a, c, stage),
{
    let pa = a.scheduler.packets(stage);
    let pb = b.scheduler.packets(stage);
    let pc = c.scheduler.packets(stage);
    assert(pc.subrange(0, pa.len() as int) =~= pb.subrange(0, pa.len() as int));
    assert forall|s: WorkBucketStage| s != stage implies #[trigger] c.scheduler.work_buckets@[s.spec_index()]
        == a.scheduler.work_buckets@[s.spec_index()] by {
        assert(b.scheduler.work_buckets@[s.spec_index()] == a.scheduler.work_buckets@[s.spec_index()]);
    }
}

/// Nothing is a frame.
pub proof fn lemma_traced_frame_reflexive(a: MMTK, stage: WorkBucketStage)
    requires
        a.wf(),
    ensures
        traced_frame(a, a, stage),
{
    let pa = a.scheduler.packets(stage);
    assert(pa.subrange(0, pa.len() as int) =~= pa);
}

/// The objects of the runtime after a trace stored the object `traced`,
/// which stands for `object` from now on, back to `slot`: the slot is
/// written if the trace may move objects, if the object moved, and if the
/// slot still exists.
pub open spec fn slot_updated(
    vm: Map<usize, ObjectView>,
    slot: Slot,
    object: ObjectReference,
    traced: ObjectReference,
    kind: TraceKind,
) -> Map<usize, ObjectView> {
    if kind == TRACE_KIND_DEFRAG && traced != object && slot.valid(vm) {
        vm.insert(
            slot.holder.0,
            ObjectView {
                size: vm[slot.holder.0].size,
                fields: vm[slot.holder.0].fields.update(slot.index as int, traced.0),
            },
        )
    } else {
        vm
    }
}

/// What processing one slot leaves behind: nothing changes for a slot that
/// does not exist or holds no reference; otherwise the plan traces the
/// object that the slot refers to, and the slot is updated.
pub open spec fn slot_processed(
    before: ImmixSpaceView,
    after: ImmixSpaceView,
    nodes_before: Seq<ObjectReference>,
    nodes_after: Seq<ObjectReference>,
    vm_before: Map<usize, ObjectView>,
    vm_after: Map<usize, ObjectView>,
    slot: Slot,
    kind: TraceKind,
    marked: bool,
) -> bool {
    if !slot.valid(vm_before) || slot.value(vm_before) == 0 {
        after == before && vm_after == vm_before && nodes_after == nodes_before
    } else {
        exists|traced: ObjectReference, vm_traced: Map<usize, ObjectView>|
            #![trigger slot_updated(vm_traced, slot, ObjectReference(slot.value(vm_before)), traced, kind)]
            {
                &&& plan_traced(
                    before,
                    after,
                    nodes_before,
                    nodes_after,
                    vm_before,
                    vm_traced,
                    ObjectReference(slot.value(vm_before)),
                    traced,
                    kind,
                    marked,
                )
                &&& vm_after == slot_updated(
                    vm_traced,
                    slot,
                    ObjectReference(slot.value(vm_before)),
                    traced,
                    kind,
                )
            }
    }
}

/// What processing `slots` one after the other leaves behind.
pub open spec fn slots_processed(
    before: ImmixSpaceView,
    after: ImmixSpaceView,
    nodes_before: Seq<ObjectReference>,
    nodes_after: Seq<ObjectReference>,
    vm_before: Map<usize, ObjectView>,
    vm_after: Map<usize, ObjectView>,
    slots: Seq<Slot>,
    kind: TraceKind,
    marked: bool,
) -> bool
    decreases slots.len(),
{
    if slots.len() == 0 {
        after == before && vm_after == vm_before && nodes_after == nodes_before
    } else {
        exists|mid: ImmixSpaceView, nodes_mid: Seq<ObjectReference>, vm_mid: Map<usize, ObjectView>|
            #![trigger slot_processed(mid, after, nodes_mid, nodes_after, vm_mid, vm_after, slots.last(), kind, marked)]
            {
                &&& slots_processed(
                    before,
                    mid,
                    nodes_before,
                    nodes_mid,
                    vm_before,
                    vm_mid,
                    slots.drop_last(),
                    kind,
                    marked,
                )
                &&& slot_processed(
                    mid,
                    after,
                    nodes_mid,
                    nodes_after,
                    vm_mid,
                    vm_after,
                    slots.last(),
                    kind,
                    marked,
                )
            }
    }
}

/// Whether `packet` is a packet fresh from its making that traces `slots`
/// for the stage `bucket` with a trace of kind `kind`, and whose slots
/// are no roots.
pub open spec fn traces_slots(
    packet: WorkPacket,
    slots: Seq<Slot>,
    bucket: WorkBucketStage,
    kind: TraceKind,
) -> bool {
    match packet {
        WorkPacket::PlanProcessEdges(p) => {
            &&& p.base.slots@ == slots
            &&& p.base.nodes@.len() == 0
            &&& p.base.worker.is_none()
            &&& !p.base.roots
            &&& p.base.pushes == 0
            &&& p.base.bucket == bucket
            &&& p.kind == kind
        },
        _ => false,
    }
}

impl PlanProcessEdges {
    /// The kind of the trace is one of the kinds of trace.
    pub open spec fn wf(&self) -> bool {
        is_trace_kind(self.kind)
    }

    /// The packet that traces `slots` with a trace of kind `kind`.
    pub fn new(slots: Vec<Slot>, roots: bool, bucket: WorkBucketStage, kind: TraceKind) -> (p: Self)
        ensures
            p.base.slots == slots,
            p.base.nodes@.len() == 0,
            p.base.worker.is_none(),
            p.base.roots == roots,
            p.base.pushes == 0,
            p.base.bucket == bucket,
            p.kind == kind,
    {
        PlanProcessEdges { base: ProcessEdgesBase::new(slots, roots, bucket), kind }
    }

    /// The packet that scans `nodes` for this packet.
    pub fn create_scan_work(&self, nodes: Vec<ObjectReference>) -> (work: PlanScanObjects)
        ensures
            work.buffer == nodes,
            !work.concurrent,
            work.bucket == self.base.bucket,
            work.kind == self.kind,
    {
        PlanScanObjects::new(nodes, false, self.base.bucket, self.kind)
    }

    /// Traces `object` by way of the plan. Returns the object that stands
    /// for `object` from now on.
    pub fn trace_object(&mut self, object: ObjectReference, worker: &mut GCWorker, mmtk: &mut MMTK) -> (r:
        ObjectReference)
        requires
            old(mmtk).wf(),
            old(self).wf(),
            old(worker).wf(old(mmtk).plan.immix_space@),
        ensures
            traced_frame(*old(mmtk), *final(mmtk), old(self).base.bucket),
            final(mmtk).scheduler == old(mmtk).scheduler,
            final(worker).wf(final(mmtk).plan.immix_space@),
            final(worker).tls == old(worker).tls,
            final(worker).ordinal == old(worker).ordinal,
            final(worker).live_bytes == old(worker).live_bytes,
            final(self).kind == old(self).kind,
            final(self).base.slots == old(self).base.slots,
            final(self).base.worker == old(self).base.worker,
            final(self).base.roots == old(self).base.roots,
            final(self).base.pushes == old(self).base.pushes,
            final(self).base.bucket == old(self).base.bucket,
            final(worker).copy.allocates_marked(final(mmtk).plan.immix_space@) == old(worker).copy.allocates_marked(old(mmtk).plan.immix_space@),
            plan_traced(
                old(mmtk).plan.immix_space@,
                final(mmtk).plan.immix_space@,
                old(self).base.nodes@,
                final(self).base.nodes@,
                old(mmtk).vm.objects@,
                final(mmtk).vm.objects@,
                object,
                r,
                old(self).kind,
                old(worker).copy.allocates_marked(old(mmtk).plan.immix_space@),
            ),
    {
        broadcast use crate::plan::tracing::lemma_vector_queue_nodes;

        proof {
            lemma_traced_frame_reflexive(*mmtk, self.base.bucket);
        }
        let r = mmtk.plan.trace_object(
            &mut self.base.nodes,
            object,
            worker,
            &mut mmtk.vm.objects,
            self.kind,
        );
        proof {
            let p = old(mmtk).scheduler.packets(old(self).base.bucket);
            assert(p.subrange(0, p.len() as int) =~= p);
        }
        r
    }

    /// Processes one slot: loads the reference that it holds, traces the
    /// object, and stores the reference back if the object moved. A slot
    /// that does not exist or holds no reference is passed over.
    pub fn process_slot(&mut self, slot: Slot, worker: &mut GCWorker, mmtk: &mut MMTK)
        requires
            old(mmtk).wf(),
            old(self).wf(),
            old(worker).wf(old(mmtk).plan.immix_space@),
        ensures
            traced_frame(*old(mmtk), *final(mmtk), old(self).base.bucket),
            final(mmtk).scheduler == old(mmtk).scheduler,
            final(worker).wf(final(mmtk).plan.immix_space@),
            final(worker).tls == old(worker).tls,
            final(worker).ordinal == old(worker).ordinal,
            final(worker).live_bytes == old(worker).live_bytes,
            final(self).kind == old(self).kind,
            final(self).base.slots == old(self).base.slots,
            final(self).base.worker == old(self).base.worker,
            final(self).base.roots == old(self).base.roots,
            final(self).base.pushes == old(self).base.pushes,
            final(self).base.bucket == old(self).base.bucket,
            final(worker).copy.allocates_marked(final(mmtk).plan.immix_space@) == old(worker).copy.allocates_marked(old(mmtk).plan.immix_space@),
            slot_processed(
                old(mmtk).plan.immix_space@,
                final(mmtk).plan.immix_space@,
                old(self).base.nodes@,
                final(self).base.nodes@,
                old(mmtk).vm.objects@,
                final(mmtk).vm.objects@,
                slot,
                old(self).kind,
                old(worker).copy.allocates_marked(old(mmtk).plan.immix_space@),
            ),
            never_moves(old(self).kind) ==> final(mmtk).vm.objects@ == old(mmtk).vm.objects@
                && slot_traced(
                old(mmtk).plan.immix_space@,
                final(mmtk).plan.immix_space@,
                old(mmtk).vm.objects@,
                slot,
                old(self).base.nodes@,
                final(self).base.nodes@,
            ),
    {
        if !slot.is_valid(&mmtk.vm.objects) {
            proof {
                lemma_traced_frame_reflexive(*mmtk, self.base.bucket);
            }
            return ;
        }
        let object = match slot.load(&mmtk.vm.objects) {
            Some(object) => object,
            None => {
                proof {
                    lemma_traced_frame_reflexive(*mmtk, self.base.bucket);
                }
                return ;
            },
        };
        let new_object = self.trace_object(object, worker, mmtk);
        let ghost vm_traced = mmtk.vm.objects@;
        let ghost mid = *mmtk;
        if crate::policy::immix::immixspace::ImmixSpace::may_move_objects(self.kind) && new_object
            != object {
            if slot.is_valid(&mmtk.vm.objects) {
                slot.store(&mut mmtk.vm.objects, new_object);
            }
        }
        proof {
            assert(mmtk.vm.objects@ == slot_updated(
                vm_traced,
                slot,
                object,
                new_object,
                old(self).kind,
            ));
            let p = old(mmtk).scheduler.packets(old(self).base.bucket);
            assert(p.subrange(0, p.len() as int) =~= p);
            if never_moves(old(self).kind) {
                lemma_trace_in_place(
                    old(mmtk).plan.immix_space@,
                    mmtk.plan.immix_space@,
                    old(self).base.nodes@,
                    self.base.nodes@,
                    old(mmtk).vm.objects@,
                    vm_traced,
                    object,
                    new_object,
                    old(self).kind,
                    old(worker).copy.allocates_marked(old(mmtk).plan.immix_space@),
                );
            }
        }
    }

    /// Processes all slots of the packet, in their order.
    pub fn process_slots(&mut self, worker: &mut GCWorker, mmtk: &mut MMTK)
        requires
            old(mmtk).wf(),
            old(self).wf(),
            old(worker).wf(old(mmtk).plan.immix_space@),
        ensures
            traced_frame(*old(mmtk), *final(mmtk), old(self).base.bucket),
            final(mmtk).scheduler == old(mmtk).scheduler,
            final(worker).wf(final(mmtk).plan.immix_space@),
            final(worker).tls == old(worker).tls,
            final(worker).ordinal == old(worker).ordinal,
            final(worker).live_bytes == old(worker).live_bytes,
            final(self).kind == old(self).kind,
            final(self).base.slots == old(self).base.slots,
            final(self).base.worker == old(self).base.worker,
            final(self).base.roots == old(self).base.roots,
            final(self).base.pushes == old(self).base.pushes,
            final(self).base.bucket == old(self).base.bucket,
            final(worker).copy.allocates_marked(final(mmtk).plan.immix_space@) == old(worker).copy.allocates_marked(old(mmtk).plan.immix_space@),
            slots_processed(
                old(mmtk).plan.immix_space@,
                final(mmtk).plan.immix_space@,
                old(self).base.nodes@,
                final(self).base.nodes@,
                old(mmtk).vm.objects@,
                final(mmtk).vm.objects@,
                old(self).base.slots@,
                old(self).kind,
                old(worker).copy.allocates_marked(old(mmtk).plan.immix_space@),
            ),
            never_moves(old(self).kind) ==> final(mmtk).vm.objects@ == old(mmtk).vm.objects@
                && slots_traced(
                old(mmtk).plan.immix_space@,
                final(mmtk).plan.immix_space@,
                old(mmtk).vm.objects@,
                old(self).base.slots@,
                old(self).base.nodes@,
                final(self).base.nodes@,
            ),
    {
        proof {
            lemma_traced_frame_reflexive(*mmtk, self.base.bucket);
            lemma_no_slots_traced(
                mmtk.plan.immix_space@,
                mmtk.vm.objects@,
                self.base.nodes@,
            );
            assert(self.base.slots@.subrange(0, 0) =~= Seq::<Slot>::empty());
        }
        let n = self.base.slots.len();
        let mut i: usize = 0;
        while i < n
            invariant
                i <= n,
                n == self.base.slots@.len(),
                self.wf(),
                traced_frame(*old(mmtk), *mmtk, old(self).base.bucket),
                mmtk.scheduler == old(mmtk).scheduler,
                worker.wf(mmtk.plan.immix_space@),
                worker.tls == old(worker).tls,
                worker.ordinal == old(worker).ordinal,
                worker.live_bytes == old(worker).live_bytes,
                self.kind == old(self).kind,
                self.base.slots == old(self).base.slots,
                self.base.worker == old(self).base.worker,
                self.base.roots == old(self).base.roots,
                self.base.pushes == old(self).base.pushes,
                self.base.bucket == old(self).base.bucket,
                old(mmtk).wf(),
                worker.copy.allocates_marked(mmtk.plan.immix_space@) == old(worker).copy.allocates_marked(old(mmtk).plan.immix_space@),
                slots_processed(
                    old(mmtk).plan.immix_space@,
                    mmtk.plan.immix_space@,
                    old(self).base.nodes@,
                    self.base.nodes@,
                    old(mmtk).vm.objects@,
                    mmtk.vm.objects@,
                    old(self).base.slots@.subrange(0, i as int),
                    old(self).kind,
                    old(worker).copy.allocates_marked(old(mmtk).plan.immix_space@),
                ),
                never_moves(old(self).kind) ==> mmtk.vm.objects@ == old(mmtk).vm.objects@
                    && slots_traced(
                    old(mmtk).plan.immix_space@,
                    mmtk.plan.immix_space@,
                    old(mmtk).vm.objects@,
                    old(self).base.slots@.subrange(0, i as int),
                    old(self).base.nodes@,
                    self.base.nodes@,
                ),
            decreases n - i,
        {
            let slot = self.base.slots[i];
            let ghost mid = *mmtk;
            let ghost nodes_mid = self.base.nodes@;
            self.process_slot(slot, worker, mmtk);
            proof {
                lemma_traced_frame_transitive(*old(mmtk), mid, *mmtk, old(self).base.bucket);
                let next = old(self).base.slots@.subrange(0, i + 1);
                assert(next.drop_last() =~= old(self).base.slots@.subrange(0, i as int));
                assert(next.last() == slot);
                assert(slot_processed(
                    mid.plan.immix_space@,
                    mmtk.plan.immix_space@,
                    nodes_mid,
                    self.base.nodes@,
                    mid.vm.objects@,
                    mmtk.vm.objects@,
                    next.last(),
                    old(self).kind,
                    old(worker).copy.allocates_marked(old(mmtk).plan.immix_space@),
                ));
                if never_moves(old(self).kind) {
                    lemma_one_more_slot_traced(
                        old(mmtk).plan.immix_space@,
                        mid.plan.immix_space@,
                        mmtk.plan.immix_space@,
                        old(mmtk).vm.objects@,
                        old(self).base.slots@.subrange(0, i as int),
                        slot,
                        old(self).base.nodes@,
                        nodes_mid,
                        self.base.nodes@,
                    );
                    assert(old(self).base.slots@.subrange(0, i as int).push(slot) =~= old(self).base.slots@.subrange(0, i + 1));
                }
            }
            i += 1;
        }
        proof {
            assert(old(self).base.slots@.subrange(0, n as int) =~= old(self).base.slots@);
        }
    }

    /// Splits the packet: the second half of its slots goes to a new
    /// packet in the bucket of the packet, and the count of pushes
    /// becomes the number of slots that stay, or the largest count where
    /// that number is larger. A packet with fewer than two slots is left
    /// as it is.
    pub fn flush_half(&mut self, scheduler: &mut GCWorkScheduler)
        requires
            old(scheduler).wf(),
        ensures
            final(self).kind == old(self).kind,
            final(self).base.nodes == old(self).base.nodes,
            final(self).base.worker == old(self).base.worker,
            final(self).base.roots == old(self).base.roots,
            final(self).base.bucket == old(self).base.bucket,
            old(self).base.slots@.len() <= 1 ==> *final(self) == *old(self) && *final(scheduler)
                == *old(scheduler),
            old(self).base.slots@.len() > 1 ==> {
                let half = old(self).base.slots@.len() / 2;
                &&& final(self).base.slots@ == old(self).base.slots@.subrange(0, half as int)
                &&& final(self).base.pushes == (if half > 0xffff_ffff {
                    0xffff_ffffu32
                } else {
                    half as u32
                })
                &&& old(scheduler).same_but(final(scheduler), old(self).base.bucket)
                &&& final(scheduler).packets(old(self).base.bucket).len() == old(scheduler).packets(
                    old(self).base.bucket,
                ).len() + 1
                &&& is_prefix(
                    old(scheduler).packets(old(self).base.bucket),
                    final(scheduler).packets(old(self).base.bucket),
                )
                &&& final(scheduler).sentinel(old(self).base.bucket) == old(scheduler).sentinel(
                    old(self).base.bucket,
                )
                &&& traces_slots(
                    final(scheduler).packets(old(self).base.bucket).last(),
                    old(self).base.slots@.subrange(half as int, old(self).base.slots@.len() as int),
                    old(self).base.bucket,
                    old(self).kind,
                )
            },
    {
        if self.base.slots.len() <= 1 {
            return ;
        }
        let half = self.base.slots.len() / 2;
        let slots = self.base.slots.split_off(half);
        self.base.pushes = if self.base.slots.len() > 0xffff_ffff {
            0xffff_ffff
        } else {
            self.base.slots.len() as u32
        };
        let w = PlanProcessEdges::new(slots, false, self.base.bucket, self.kind);
        let ghost before = old(scheduler).packets(old(self).base.bucket);
        scheduler.add(self.base.bucket, WorkPacket::PlanProcessEdges(w));
        proof {
            assert(before.push(WorkPacket::PlanProcessEdges(w)).subrange(0, before.len() as int)
                =~= before);
        }
    }
}

} // verus!
