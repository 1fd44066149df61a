//! Scanning: how the objects that a trace reached give up the slots that
//! the trace goes on with.

use crate::mmtk::MMTK;
use crate::plan::global::only_space_changed;
use crate::policy::gc_work::TraceKind;
use crate::policy::immix::immixspace::ImmixSpaceView;
use crate::scheduler::edges::is_prefix;
use crate::scheduler::edges::lemma_traced_frame_reflexive;
use crate::scheduler::edges::lemma_traced_frame_transitive;
use crate::scheduler::edges::traced_frame;
use crate::scheduler::gc_work::is_trace_kind;
use crate::scheduler::gc_work::PlanProcessEdges;
use crate::scheduler::gc_work::PlanScanObjects;
use crate::scheduler::gc_work::ScanObjects;
use crate::scheduler::scheduler::GCWorkScheduler;
use crate::scheduler::work::packet_slots;
use crate::scheduler::work::WorkPacket;
use crate::scheduler::work_bucket::WorkBucketStage;
use crate::scheduler::worker::GCWorker;
use crate::util::address::ObjectReference;
use crate::util::constants::EDGES_WORK_BUFFER_SIZE;
use crate::vm::slot::Slot;
use crate::policy::immix::marks::lemma_lines_marked_keeps_marks;
use crate::policy::immix::marks::lemma_marks_extended_reflexive;
use crate::policy::immix::marks::lemma_marks_extended_transitive;
use crate::policy::immix::marks::marks_extended;
use crate::plan::global::plan_traced;
use crate::vm::object_model::ObjectView;
use crate::policy::immix::immixspace::TRACE_KIND_DEFRAG;
use crate::scheduler::closure::lemma_trace_in_place;
use crate::scheduler::edges::slot_processed;
use crate::scheduler::edges::slot_updated;
use crate::scheduler::edges::slots_processed;
use crate::vm::vm_binding::object_slots;
use vstd::prelude::*;

verus! {

/// The slots of `packets`, in the order of the packets.
pub open spec fn all_packet_slots(packets: Seq<WorkPacket>) -> Seq<Slot>
    decreases packets.len(),
{
    if packets.len() == 0 {
        Seq::empty()
    } else {
        all_packet_slots(packets.drop_last()) + packet_slots(packets.last())
    }
}

/// The slots of the fields of all of `objects`, in the order of the
/// objects.
pub open spec fn buffer_slots(
    vm: Map<usize, crate::vm::object_model::ObjectView>,
    objects: Seq<ObjectReference>,
) -> Seq<Slot>
    decreases objects.len(),
{
    if objects.len() == 0 {
        Seq::empty()
    } else {
        buffer_slots(vm, objects.drop_last()) + crate::vm::vm_binding::object_slots(
            vm,
            objects.last(),
        )
    }
}

/// The objects that a packet is to scan.
pub open spec fn packet_nodes(packet: WorkPacket) -> Seq<ObjectReference> {
    match packet {
        WorkPacket::PlanScanObjects(p) => p.buffer@,
        WorkPacket::ScanObjects(p) => p.buffer@,
        _ => Seq::empty(),
    }
}

/// The objects that `packets` are to scan, in the order of the packets.
pub open spec fn all_packet_nodes(packets: Seq<WorkPacket>) -> Seq<ObjectReference>
    decreases packets.len(),
{
    if packets.len() == 0 {
        Seq::empty()
    } else {
        all_packet_nodes(packets.drop_last()) + packet_nodes(packets.last())
    }
}

/// A trace by the plan enqueues at the end of the queue: what holds of a
/// queue holds of the queue with `front` before it.
pub proof fn lemma_plan_traced_after(
    front: Seq<ObjectReference>,
    before: ImmixSpaceView,
    after: ImmixSpaceView,
    queue_before: Seq<ObjectReference>,
    queue_after: Seq<ObjectReference>,
    vm_before: Map<usize, ObjectView>,
    vm_after: Map<usize, ObjectView>,
    object: ObjectReference,
    result: ObjectReference,
    kind: TraceKind,
    marked: bool,
)
    requires
        plan_traced(
            before,
            after,
            queue_before,
            queue_after,
            vm_before,
            vm_after,
            object,
            result,
            kind,
            marked,
        ),
    ensures
        plan_traced(
            before,
            after,
            front + queue_before,
            front + queue_after,
            vm_before,
            vm_after,
            object,
            result,
            kind,
            marked,
        ),
{
    assert(front + queue_before.push(object) =~= (front + queue_before).push(object));
    assert(front + queue_before.push(result) =~= (front + queue_before).push(result));
}

/// Collects the slots of the objects that are scanned, and hands them on
/// in packets that trace slots, each as large as a packet gets.
pub struct ObjectsClosure {
    /// The slots collected since the last packet was made.
    pub buffer: Vec<Slot>,
    /// The stage of the packets.
    pub bucket: WorkBucketStage,
    /// The kind of the trace of the slots.
    pub kind: TraceKind,
}

impl ObjectsClosure {
    /// A closure that holds no slot.
    pub fn new(bucket: WorkBucketStage, kind: TraceKind) -> (c: Self)
        ensures
            c.buffer@.len() == 0,
            c.bucket == bucket,
            c.kind == kind,
    {
        ObjectsClosure { buffer: Vec::new(), bucket, kind }
    }

    /// Hands the slots collected so far on in one packet, if there are
    /// any.
    pub fn flush(&mut self, scheduler: &mut GCWorkScheduler)
        requires
            old(scheduler).wf(),
        ensures
            final(self).buffer@.len() == 0,
            final(self).bucket == old(self).bucket,
            final(self).kind == old(self).kind,
            old(scheduler).same_but(final(scheduler), old(self).bucket),
            final(scheduler).sentinel(old(self).bucket) == old(scheduler).sentinel(old(self).bucket),
            is_prefix(
                old(scheduler).packets(old(self).bucket),
                final(scheduler).packets(old(self).bucket),
            ),
            all_packet_slots(final(scheduler).packets(old(self).bucket)) == all_packet_slots(
                old(scheduler).packets(old(self).bucket),
            ) + old(self).buffer@,
            old(self).buffer@.len() == 0 ==> *final(scheduler) == *old(scheduler),
            all_packet_nodes(final(scheduler).packets(old(self).bucket)) == all_packet_nodes(
                old(scheduler).packets(old(self).bucket),
            ),
    {
        let ghost before = scheduler.packets(self.bucket);
        if self.buffer.len() == 0 {
            proof {
                assert(before.subrange(0, before.len() as int) =~= before);
                assert(all_packet_slots(before) + self.buffer@ =~= all_packet_slots(before));
            }
            return ;
        }
        let mut slots: Vec<Slot> = Vec::new();
        slots.append(&mut self.buffer);
        let packet = PlanProcessEdges::new(slots, false, self.bucket, self.kind);
        scheduler.add(self.bucket, WorkPacket::PlanProcessEdges(packet));
        proof {
            let after = scheduler.packets(self.bucket);
            assert(after.subrange(0, before.len() as int) =~= before);
            assert(after.drop_last() =~= before);
            assert(all_packet_nodes(after) =~= all_packet_nodes(before));
        }
    }

    /// Takes one slot, and hands the slots collected on in a packet when
    /// they are as many as a packet takes.
    pub fn visit_slot(&mut self, slot: Slot, scheduler: &mut GCWorkScheduler)
        requires
            old(scheduler).wf(),
        ensures
            final(self).bucket == old(self).bucket,
            final(self).kind == old(self).kind,
            final(self).buffer@.len() < EDGES_WORK_BUFFER_SIZE || final(self).buffer@.len() <= old(self).buffer@.len(),
            old(scheduler).same_but(final(scheduler), old(self).bucket),
            final(scheduler).sentinel(old(self).bucket) == old(scheduler).sentinel(old(self).bucket),
            is_prefix(
                old(scheduler).packets(old(self).bucket),
                final(scheduler).packets(old(self).bucket),
            ),
            all_packet_slots(final(scheduler).packets(old(self).bucket)) + final(self).buffer@
                == (all_packet_slots(old(scheduler).packets(old(self).bucket)) + old(self).buffer@).push(slot),
            all_packet_nodes(final(scheduler).packets(old(self).bucket)) == all_packet_nodes(
                old(scheduler).packets(old(self).bucket),
            ),
    {
        let ghost before = scheduler.packets(self.bucket);
        self.buffer.push(slot);
        if self.buffer.len() >= EDGES_WORK_BUFFER_SIZE {
            self.flush(scheduler);
            proof {
                assert(all_packet_slots(scheduler.packets(self.bucket)) + self.buffer@
                    =~= (all_packet_slots(before) + old(self).buffer@).push(slot));
            }
        } else {
            proof {
                assert(before.subrange(0, before.len() as int) =~= before);
                assert(all_packet_slots(before) + self.buffer@ =~= (all_packet_slots(before) + old(self).buffer@).push(slot));
            }
        }
    }
}

/// Traces objects on behalf of the runtime, for a runtime that traces the
/// fields of an object itself, and hands the objects that the trace
/// reached on in packets that scan objects.
pub struct ProcessEdgesWorkTracer {
    /// The packet whose trace the tracer uses.
    pub process_edges_work: PlanProcessEdges,
    /// The stage of the packets that the tracer makes.
    pub stage: WorkBucketStage,
}

impl ProcessEdgesWorkTracer {
    /// The tracer is sound when its trace is of a known kind and its
    /// packets go to its own stage.
    pub open spec fn wf(&self) -> bool {
        self.process_edges_work.wf() && self.process_edges_work.base.bucket == self.stage
    }

    /// The objects that the trace reached and that wait to be scanned:
    /// those in the packets of the stage of the tracer, and those that
    /// the tracer holds.
    pub open spec fn reached(&self, scheduler: GCWorkScheduler) -> Seq<ObjectReference> {
        all_packet_nodes(scheduler.packets(self.stage)) + self.process_edges_work.base.nodes@
    }

    /// Hands the objects that the trace reached on in a packet that
    /// scans them. There must be such objects.
    pub fn flush(&mut self, scheduler: &mut GCWorkScheduler)
        requires
            old(scheduler).wf(),
            old(self).process_edges_work.base.nodes@.len() > 0,
        ensures
            final(self).stage == old(self).stage,
            final(self).process_edges_work.kind == old(self).process_edges_work.kind,
            final(self).process_edges_work.base.bucket == old(self).process_edges_work.base.bucket,
            final(self).process_edges_work.base.nodes@.len() == 0,
            old(scheduler).same_but(final(scheduler), old(self).stage),
            final(scheduler).sentinel(old(self).stage) == old(scheduler).sentinel(old(self).stage),
            final(scheduler).packets(old(self).stage).len() == old(scheduler).packets(
                old(self).stage,
            ).len() + 1,
            is_prefix(old(scheduler).packets(old(self).stage), final(scheduler).packets(old(self).stage)),
            match final(scheduler).packets(old(self).stage).last() {
                WorkPacket::PlanScanObjects(work) => work.buffer@ == old(self).process_edges_work.base.nodes@ && work.kind == old(self).process_edges_work.kind
                    && work.bucket == old(self).process_edges_work.base.bucket,
                _ => false,
            },
            final(self).reached(*final(scheduler)) == old(self).reached(*old(scheduler)),
            all_packet_slots(final(scheduler).packets(old(self).stage)) == all_packet_slots(
                old(scheduler).packets(old(self).stage),
            ),
    {
        let ghost before = scheduler.packets(self.stage);
        let next_nodes = self.process_edges_work.base.pop_nodes();
        let work_packet = self.process_edges_work.create_scan_work(next_nodes);
        scheduler.add(self.stage, WorkPacket::PlanScanObjects(work_packet));
        proof {
            let after = scheduler.packets(self.stage);
            assert(after.subrange(0, before.len() as int) =~= before);
            assert(after.drop_last() =~= before);
            assert(all_packet_nodes(after) + self.process_edges_work.base.nodes@
                =~= all_packet_nodes(before) + old(self).process_edges_work.base.nodes@);
            assert(all_packet_slots(after) =~= all_packet_slots(before));
        }
    }

    /// Hands the objects that the trace reached on if they are as many as
    /// a packet takes.
    pub fn flush_if_full(&mut self, scheduler: &mut GCWorkScheduler)
        requires
            old(scheduler).wf(),
        ensures
            final(self).stage == old(self).stage,
            final(self).process_edges_work.kind == old(self).process_edges_work.kind,
            final(self).process_edges_work.base.bucket == old(self).process_edges_work.base.bucket,
            final(self).process_edges_work.base.nodes@.len() < EDGES_WORK_BUFFER_SIZE,
            old(self).process_edges_work.base.nodes@.len() < EDGES_WORK_BUFFER_SIZE ==> *final(self)
                == *old(self) && *final(scheduler) == *old(scheduler),
            old(scheduler).same_but(final(scheduler), old(self).stage),
            final(scheduler).sentinel(old(self).stage) == old(scheduler).sentinel(old(self).stage),
            is_prefix(old(scheduler).packets(old(self).stage), final(scheduler).packets(old(self).stage)),
            final(self).reached(*final(scheduler)) == old(self).reached(*old(scheduler)),
            all_packet_slots(final(scheduler).packets(old(self).stage)) == all_packet_slots(
                old(scheduler).packets(old(self).stage),
            ),
    {
        if self.process_edges_work.base.nodes.is_full() {
            self.flush(scheduler);
        } else {
            proof {
                let p = scheduler.packets(self.stage);
                assert(p.subrange(0, p.len() as int) =~= p);
            }
        }
    }

    /// Hands the objects that the trace reached on if there are any.
    pub fn flush_if_not_empty(&mut self, scheduler: &mut GCWorkScheduler)
        requires
            old(scheduler).wf(),
        ensures
            final(self).stage == old(self).stage,
            final(self).process_edges_work.kind == old(self).process_edges_work.kind,
            final(self).process_edges_work.base.bucket == old(self).process_edges_work.base.bucket,
            final(self).process_edges_work.base.nodes@.len() == 0,
            old(self).process_edges_work.base.nodes@.len() == 0 ==> *final(self) == *old(self)
                && *final(scheduler) == *old(scheduler),
            old(self).process_edges_work.base.nodes@.len() > 0 ==> final(scheduler).packets(
                old(self).stage,
            ).len() == old(scheduler).packets(old(self).stage).len() + 1 && (match final(scheduler).packets(old(self).stage).last() {
                WorkPacket::PlanScanObjects(work) => work.buffer@ == old(self).process_edges_work.base.nodes@ && work.kind == old(self).process_edges_work.kind
                    && work.bucket == old(self).process_edges_work.base.bucket,
                _ => false,
            }),
            old(scheduler).same_but(final(scheduler), old(self).stage),
            final(scheduler).sentinel(old(self).stage) == old(scheduler).sentinel(old(self).stage),
            is_prefix(old(scheduler).packets(old(self).stage), final(scheduler).packets(old(self).stage)),
            final(self).reached(*final(scheduler)) == old(self).reached(*old(scheduler)),
            all_packet_slots(final(scheduler).packets(old(self).stage)) == all_packet_slots(
                old(scheduler).packets(old(self).stage),
            ),
    {
        if !self.process_edges_work.base.nodes.is_empty() {
            self.flush(scheduler);
        } else {
            proof {
                let p = scheduler.packets(self.stage);
                assert(p.subrange(0, p.len() as int) =~= p);
            }
        }
    }

    /// Traces `object`, and hands the objects that the trace reached on
    /// as soon as they are as many as a packet takes.
    pub fn trace_object(&mut self, object: ObjectReference, worker: &mut GCWorker, mmtk: &mut MMTK) -> (r:
        ObjectReference)
        requires
            old(mmtk).wf(),
            old(self).wf(),
            old(worker).wf(old(mmtk).plan.immix_space@),
        ensures
            final(self).wf(),
            final(self).stage == old(self).stage,
            final(self).process_edges_work.kind == old(self).process_edges_work.kind,
            final(self).process_edges_work.base.nodes@.len() < EDGES_WORK_BUFFER_SIZE,
            traced_frame(*old(mmtk), *final(mmtk), old(self).stage),
            final(mmtk).scheduler.worker_live_bytes == old(mmtk).scheduler.worker_live_bytes,
            final(worker).wf(final(mmtk).plan.immix_space@),
            final(worker).tls == old(worker).tls,
            final(worker).ordinal == old(worker).ordinal,
            final(worker).live_bytes == old(worker).live_bytes,
            final(worker).copy.allocates_marked(final(mmtk).plan.immix_space@) == old(worker).copy.allocates_marked(old(mmtk).plan.immix_space@),
            all_packet_slots(final(mmtk).scheduler.packets(old(self).stage)) == all_packet_slots(
                old(mmtk).scheduler.packets(old(self).stage),
            ),
            plan_traced(
                old(mmtk).plan.immix_space@,
                final(mmtk).plan.immix_space@,
                old(self).reached(old(mmtk).scheduler),
                final(self).reached(final(mmtk).scheduler),
                old(mmtk).vm.objects@,
                final(mmtk).vm.objects@,
                object,
                r,
                old(self).process_edges_work.kind,
                old(worker).copy.allocates_marked(old(mmtk).plan.immix_space@),
            ),
    {
        let result = self.process_edges_work.trace_object(object, worker, mmtk);
        let ghost mid = *mmtk;
        let ghost nodes_mid = self.process_edges_work.base.nodes@;
        self.flush_if_full(&mut mmtk.scheduler);
        proof {
            lemma_scheduler_frame(mid, *mmtk, self.stage);
            lemma_traced_frame_transitive(*old(mmtk), mid, *mmtk, self.stage);
            lemma_plan_traced_after(
                all_packet_nodes(old(mmtk).scheduler.packets(self.stage)),
                old(mmtk).plan.immix_space@,
                mmtk.plan.immix_space@,
                old(self).process_edges_work.base.nodes@,
                nodes_mid,
                old(mmtk).vm.objects@,
                mmtk.vm.objects@,
                object,
                result,
                old(self).process_edges_work.kind,
                old(worker).copy.allocates_marked(old(mmtk).plan.immix_space@),
            );
        }
        result
    }
}

/// A change of the scheduler in the bucket of one stage, to which packets
/// were added, is a frame.
pub proof fn lemma_scheduler_frame(before: MMTK, after: MMTK, stage: WorkBucketStage)
    requires
        before.wf(),
        after.plan == before.plan,
        after.state == before.state,
        after.options == before.options,
        after.gc_count == before.gc_count,
        after.vm == before.vm,
        before.scheduler.same_but(&after.scheduler, stage),
        is_prefix(before.scheduler.packets(stage), after.scheduler.packets(stage)),
        after.scheduler.sentinel(stage) == before.scheduler.sentinel(stage),
    ensures
        traced_frame(before, after, stage),
{
}

/// Makes the tracers by which the runtime traces what it keeps.
#[derive(Clone, Copy, PartialEq, Eq, Structural, Debug)]
pub struct ProcessEdgesWorkTracerContext {
    /// The stage of the packets that a tracer makes.
    pub stage: WorkBucketStage,
    /// The kind of the trace.
    pub kind: TraceKind,
}

/// Scans `object` for a runtime that traces the fields of an object
/// itself: traces every reference that the object holds, and stores the
/// reference back where the object that it refers to moved.
pub fn scan_object_and_trace_edges(
    object: ObjectReference,
    tracer: &mut ProcessEdgesWorkTracer,
    worker: &mut GCWorker,
    mmtk: &mut MMTK,
)
    requires
        old(mmtk).wf(),
        old(tracer).wf(),
        old(worker).wf(old(mmtk).plan.immix_space@),
    ensures
        final(tracer).wf(),
        final(tracer).stage == old(tracer).stage,
        final(tracer).process_edges_work.kind == old(tracer).process_edges_work.kind,
        traced_frame(*old(mmtk), *final(mmtk), old(tracer).stage),
        final(mmtk).scheduler.worker_live_bytes == old(mmtk).scheduler.worker_live_bytes,
        final(worker).wf(final(mmtk).plan.immix_space@),
        final(worker).tls == old(worker).tls,
        final(worker).ordinal == old(worker).ordinal,
        final(worker).live_bytes == old(worker).live_bytes,
        final(worker).copy.allocates_marked(final(mmtk).plan.immix_space@) == old(worker).copy.allocates_marked(old(mmtk).plan.immix_space@),
        all_packet_slots(final(mmtk).scheduler.packets(old(tracer).stage)) == all_packet_slots(
            old(mmtk).scheduler.packets(old(tracer).stage),
        ),
        slots_processed(
            old(mmtk).plan.immix_space@,
            final(mmtk).plan.immix_space@,
            old(tracer).reached(old(mmtk).scheduler),
            final(tracer).reached(final(mmtk).scheduler),
            old(mmtk).vm.objects@,
            final(mmtk).vm.objects@,
            object_slots(old(mmtk).vm.objects@, object),
            old(tracer).process_edges_work.kind,
            old(worker).copy.allocates_marked(old(mmtk).plan.immix_space@),
        ),
{
    proof {
        lemma_traced_frame_reflexive(*mmtk, tracer.stage);
    }
    if !mmtk.vm.objects.contains(object) {
        return ;
    }
    let count = mmtk.vm.objects.number_of_fields(object);
    let ghost slots = object_slots(old(mmtk).vm.objects@, object);
    let ghost kind = tracer.process_edges_work.kind;
    let ghost marked = worker.copy.allocates_marked(mmtk.plan.immix_space@);
    let mut i: usize = 0;
    proof {
        assert(slots.subrange(0, 0) =~= Seq::<Slot>::empty());
    }
    while i < count
        invariant
            i <= count,
            count == slots.len(),
            slots == object_slots(old(mmtk).vm.objects@, object),
            old(mmtk).vm.objects@.contains_key(object.0),
            kind == old(tracer).process_edges_work.kind,
            marked == old(worker).copy.allocates_marked(old(mmtk).plan.immix_space@),
            mmtk.wf(),
            tracer.wf(),
            tracer.stage == old(tracer).stage,
            tracer.process_edges_work.kind == old(tracer).process_edges_work.kind,
            traced_frame(*old(mmtk), *mmtk, old(tracer).stage),
            mmtk.scheduler.worker_live_bytes == old(mmtk).scheduler.worker_live_bytes,
            worker.wf(mmtk.plan.immix_space@),
            worker.tls == old(worker).tls,
            worker.ordinal == old(worker).ordinal,
            worker.live_bytes == old(worker).live_bytes,
            worker.copy.allocates_marked(mmtk.plan.immix_space@) == marked,
            all_packet_slots(mmtk.scheduler.packets(old(tracer).stage)) == all_packet_slots(
                old(mmtk).scheduler.packets(old(tracer).stage),
            ),
            slots_processed(
                old(mmtk).plan.immix_space@,
                mmtk.plan.immix_space@,
                old(tracer).reached(old(mmtk).scheduler),
                tracer.reached(mmtk.scheduler),
                old(mmtk).vm.objects@,
                mmtk.vm.objects@,
                slots.subrange(0, i as int),
                kind,
                marked,
            ),
        decreases count - i,
    {
        let slot = Slot { holder: object, index: i };
        let ghost before = *mmtk;
        let ghost reached_before = tracer.reached(mmtk.scheduler);
        if slot.is_valid(&mmtk.vm.objects) {
            match slot.load(&mmtk.vm.objects) {
                Some(child) => {
                    let new_child = tracer.trace_object(child, worker, mmtk);
                    let ghost mid = *mmtk;
                    if new_child != child && slot.is_valid(&mmtk.vm.objects) {
                        slot.store(&mut mmtk.vm.objects, new_child);
                    }
                    proof {
                        lemma_traced_frame_reflexive(mid, tracer.stage);
                        assert(traced_frame(mid, *mmtk, tracer.stage));
                        lemma_traced_frame_transitive(before, mid, *mmtk, tracer.stage);
                        lemma_traced_frame_transitive(*old(mmtk), before, *mmtk, tracer.stage);
                        if kind != TRACE_KIND_DEFRAG {
                            lemma_trace_in_place(
                                before.plan.immix_space@,
                                mid.plan.immix_space@,
                                reached_before,
                                tracer.reached(mmtk.scheduler),
                                before.vm.objects@,
                                mid.vm.objects@,
                                child,
                                new_child,
                                kind,
                                marked,
                            );
                        }
                        assert(mmtk.vm.objects@ == slot_updated(
                            mid.vm.objects@,
                            slot,
                            child,
                            new_child,
                            kind,
                        ));
                    }
                },
                None => {},
            }
        }
        proof {
            let next = slots.subrange(0, i + 1);
            assert(next.drop_last() =~= slots.subrange(0, i as int));
            assert(next.last() == slot);
            assert(slot_processed(
                before.plan.immix_space@,
                mmtk.plan.immix_space@,
                reached_before,
                tracer.reached(mmtk.scheduler),
                before.vm.objects@,
                mmtk.vm.objects@,
                next.last(),
                kind,
                marked,
            ));
        }
        i += 1;
    }
    proof {
        assert(slots.subrange(0, count as int) =~= slots);
    }
}

/// The space after the plan looked at `object`, which was scanned: where
/// lines are marked at scan time, the lines of an object of the space
/// are marked.
pub open spec fn post_scanned(
    space: ImmixSpaceView,
    vm: Map<usize, ObjectView>,
    object: ObjectReference,
) -> ImmixSpaceView {
    if space.holds_object(vm, object) && space.modes.mark_line_at_scan_time
        && !space.modes.block_only {
        space.with_meta(space.lines_marked(space.meta, object, vm[object.0].size as int))
    } else {
        space
    }
}

/// The space after the plan looked at each of `objects`, in their order.
pub open spec fn objects_post_scanned(
    space: ImmixSpaceView,
    vm: Map<usize, ObjectView>,
    objects: Seq<ObjectReference>,
) -> ImmixSpaceView
    decreases objects.len(),
{
    if objects.len() == 0 {
        space
    } else {
        post_scanned(objects_post_scanned(space, vm, objects.drop_last()), vm, objects.last())
    }
}

/// What scanning `object` with a tracer leaves behind: the slots of the
/// object are processed, and the plan looks at the object afterwards if
/// `post_scan` says so.
pub open spec fn object_traced(
    before: ImmixSpaceView,
    after: ImmixSpaceView,
    nodes_before: Seq<ObjectReference>,
    nodes_after: Seq<ObjectReference>,
    vm_before: Map<usize, ObjectView>,
    vm_after: Map<usize, ObjectView>,
    object: ObjectReference,
    kind: TraceKind,
    marked: bool,
    post_scan: bool,
) -> bool {
    exists|mid: ImmixSpaceView|
        #![trigger slots_processed(before, mid, nodes_before, nodes_after, vm_before, vm_after, object_slots(vm_before, object), kind, marked)]
        {
            &&& slots_processed(
                before,
                mid,
                nodes_before,
                nodes_after,
                vm_before,
                vm_after,
                object_slots(vm_before, object),
                kind,
                marked,
            )
            &&& after == (if post_scan {
                post_scanned(mid, vm_after, object)
            } else {
                mid
            })
        }
}

/// What scanning `objects` with a tracer, one after the other, leaves
/// behind.
pub open spec fn objects_traced(
    before: ImmixSpaceView,
    after: ImmixSpaceView,
    nodes_before: Seq<ObjectReference>,
    nodes_after: Seq<ObjectReference>,
    vm_before: Map<usize, ObjectView>,
    vm_after: Map<usize, ObjectView>,
    objects: Seq<ObjectReference>,
    kind: TraceKind,
    marked: bool,
    post_scan: bool,
) -> bool
    decreases objects.len(),
{
    if objects.len() == 0 {
        after == before && vm_after == vm_before && nodes_after == nodes_before
    } else {
        exists|mid: ImmixSpaceView, nodes_mid: Seq<ObjectReference>, vm_mid: Map<usize, ObjectView>|
            #![trigger object_traced(mid, after, nodes_mid, nodes_after, vm_mid, vm_after, objects.last(), kind, marked, post_scan)]
            {
                &&& objects_traced(
                    before,
                    mid,
                    nodes_before,
                    nodes_mid,
                    vm_before,
                    vm_mid,
                    objects.drop_last(),
                    kind,
                    marked,
                    post_scan,
                )
                &&& object_traced(
                    mid,
                    after,
                    nodes_mid,
                    nodes_after,
                    vm_mid,
                    vm_after,
                    objects.last(),
                    kind,
                    marked,
                    post_scan,
                )
            }
    }
}

/// What scanning the objects of `buffer` leaves behind. Where the runtime
/// hands out the slots of objects, the slots of the objects join the
/// slots that wait to be traced, and the plan looks at each object if
/// `post_scan` says so. Otherwise the objects are scanned with a tracer,
/// and the objects that the trace reached join those that wait to be
/// scanned.
pub open spec fn objects_scanned(
    slot_enqueuing: bool,
    before: ImmixSpaceView,
    after: ImmixSpaceView,
    vm_before: Map<usize, ObjectView>,
    vm_after: Map<usize, ObjectView>,
    slots_before: Seq<Slot>,
    slots_after: Seq<Slot>,
    nodes_before: Seq<ObjectReference>,
    nodes_after: Seq<ObjectReference>,
    buffer: Seq<ObjectReference>,
    kind: TraceKind,
    marked: bool,
    post_scan: bool,
) -> bool {
    if slot_enqueuing {
        &&& vm_after == vm_before
        &&& after == (if post_scan {
            objects_post_scanned(before, vm_before, buffer)
        } else {
            before
        })
        &&& slots_after == slots_before + buffer_slots(vm_before, buffer)
        &&& nodes_after == nodes_before
    } else {
        &&& objects_traced(
            before,
            after,
            nodes_before,
            nodes_after,
            vm_before,
            vm_after,
            buffer,
            kind,
            marked,
            post_scan,
        )
        &&& slots_after == slots_before
    }
}

/// The count of live bytes of a worker that held `held` after the sizes
/// of those of `objects` that the runtime knows were added. The count
/// stops at the largest machine word.
pub open spec fn live_bytes_counted(
    vm: Map<usize, ObjectView>,
    objects: Seq<ObjectReference>,
    held: usize,
) -> usize
    decreases objects.len(),
{
    if objects.len() == 0 {
        held
    } else {
        let counted = live_bytes_counted(vm, objects.drop_last(), held);
        if !vm.contains_key(objects.last().0) {
            counted
        } else if counted + vm[objects.last().0].size > usize::MAX {
            usize::MAX
        } else {
            (counted + vm[objects.last().0].size) as usize
        }
    }
}

/// The counts of live bytes of the workers after the worker at position
/// `ordinal` added the sizes of those of `objects` that the runtime
/// knows. A position that is no worker's changes nothing.
pub open spec fn live_bytes_added(
    counts: Seq<usize>,
    ordinal: usize,
    vm: Map<usize, ObjectView>,
    objects: Seq<ObjectReference>,
) -> Seq<usize> {
    if ordinal < counts.len() {
        counts.update(ordinal as int, live_bytes_counted(vm, objects, counts[ordinal as int]))
    } else {
        counts
    }
}

/// What scanning the objects of `buffer` for the stage `bucket` leaves
/// behind, by the worker at position `ordinal`: the sizes of the objects
/// are counted if live bytes are counted, and the objects are scanned.
pub open spec fn scan_done(
    before: MMTK,
    after: MMTK,
    ordinal: usize,
    marked: bool,
    buffer: Seq<ObjectReference>,
    bucket: WorkBucketStage,
    kind: TraceKind,
    post_scan: bool,
) -> bool {
    &&& after.scheduler.worker_live_bytes@ == (if before.options.count_live_bytes_in_gc {
        live_bytes_added(
            before.scheduler.worker_live_bytes@,
            ordinal,
            before.vm.objects@,
            buffer,
        )
    } else {
        before.scheduler.worker_live_bytes@
    })
    &&& objects_scanned(
        before.vm.slot_enqueuing,
        before.plan.immix_space@,
        after.plan.immix_space@,
        before.vm.objects@,
        after.vm.objects@,
        all_packet_slots(before.scheduler.packets(bucket)),
        all_packet_slots(after.scheduler.packets(bucket)),
        all_packet_nodes(before.scheduler.packets(bucket)),
        all_packet_nodes(after.scheduler.packets(bucket)),
        buffer,
        kind,
        marked,
        post_scan,
    )
}

/// Scanning no object changes nothing.
pub proof fn lemma_nothing_scanned(
    mmtk: MMTK,
    ordinal: usize,
    marked: bool,
    bucket: WorkBucketStage,
    kind: TraceKind,
    post_scan: bool,
)
    ensures
        scan_done(mmtk, mmtk, ordinal, marked, Seq::empty(), bucket, kind, post_scan),
{
    let counts = mmtk.scheduler.worker_live_bytes@;
    if ordinal < counts.len() {
        assert(counts.update(ordinal as int, counts[ordinal as int]) =~= counts);
    }
    let waiting = all_packet_slots(mmtk.scheduler.packets(bucket));
    assert(waiting + buffer_slots(mmtk.vm.objects@, Seq::<ObjectReference>::empty()) =~= waiting);
}

/// The plan's look at objects that were scanned extends the marks of the
/// objects by nothing.
pub proof fn lemma_scanned_keeps_marks(
    space: ImmixSpaceView,
    vm: Map<usize, ObjectView>,
    objects: Seq<ObjectReference>,
)
    requires
        space.wf(),
    ensures
        marks_extended(space, objects_post_scanned(space, vm, objects), None),
        objects_post_scanned(space, vm, objects).wf(),
    decreases objects.len(),
{
    if objects.len() == 0 {
        lemma_marks_extended_reflexive(space);
    } else {
        let mid = objects_post_scanned(space, vm, objects.drop_last());
        let object = objects.last();
        lemma_scanned_keeps_marks(space, vm, objects.drop_last());
        lemma_marks_extended_reflexive(mid);
        if mid.holds_object(vm, object) && mid.modes.mark_line_at_scan_time
            && !mid.modes.block_only {
            let size = vm[object.0].size as int;
            lemma_lines_marked_keeps_marks(mid, object, size);
            crate::policy::immix::immixspace::lemma_fill_lines_keeps_blocks(
                mid,
                crate::policy::immix::line::span_start(object.0 as int),
                crate::policy::immix::line::span_bytes(object.0 as int, size),
                mid.line_mark_state,
            );
        }
        lemma_marks_extended_transitive(space, mid, post_scanned(mid, vm, object), None, None);
    }
}

impl ProcessEdgesWorkTracerContext {
    /// Makes a tracer, lets the runtime scan each of `objects` with it,
    /// lets the plan look at each object afterwards if `post_scan` says
    /// so, and hands on the objects that the trace reached and that are
    /// left in the tracer.
    pub fn with_tracer(
        &self,
        worker: &mut GCWorker,
        mmtk: &mut MMTK,
        objects: &Vec<ObjectReference>,
        post_scan: bool,
    )
        requires
            old(mmtk).wf(),
            is_trace_kind(self.kind),
            old(worker).wf(old(mmtk).plan.immix_space@),
        ensures
            traced_frame(*old(mmtk), *final(mmtk), self.stage),
            final(mmtk).scheduler.worker_live_bytes == old(mmtk).scheduler.worker_live_bytes,
            final(worker).wf(final(mmtk).plan.immix_space@),
            final(worker).tls == old(worker).tls,
            final(worker).ordinal == old(worker).ordinal,
            final(worker).live_bytes == old(worker).live_bytes,
            final(worker).copy.allocates_marked(final(mmtk).plan.immix_space@) == old(worker).copy.allocates_marked(old(mmtk).plan.immix_space@),
            all_packet_slots(final(mmtk).scheduler.packets(self.stage)) == all_packet_slots(
                old(mmtk).scheduler.packets(self.stage),
            ),
            objects_traced(
                old(mmtk).plan.immix_space@,
                final(mmtk).plan.immix_space@,
                all_packet_nodes(old(mmtk).scheduler.packets(self.stage)),
                all_packet_nodes(final(mmtk).scheduler.packets(self.stage)),
                old(mmtk).vm.objects@,
                final(mmtk).vm.objects@,
                objects@,
                self.kind,
                old(worker).copy.allocates_marked(old(mmtk).plan.immix_space@),
                post_scan,
            ),
    {
        let mut process_edges_work = PlanProcessEdges::new(Vec::new(), false, self.stage, self.kind);
        process_edges_work.base.set_worker(worker);
        let mut tracer = ProcessEdgesWorkTracer { process_edges_work, stage: self.stage };
        let ghost first = all_packet_nodes(mmtk.scheduler.packets(self.stage));
        let ghost marked = worker.copy.allocates_marked(mmtk.plan.immix_space@);
        proof {
            lemma_traced_frame_reflexive(*mmtk, self.stage);
            assert(objects@.subrange(0, 0) =~= Seq::<ObjectReference>::empty());
            assert(tracer.reached(mmtk.scheduler) =~= first);
        }
        let n = objects.len();
        let mut i: usize = 0;
        while i < n
            invariant
                i <= n,
                n == objects@.len(),
                tracer.wf(),
                tracer.stage == self.stage,
                tracer.process_edges_work.kind == self.kind,
                traced_frame(*old(mmtk), *mmtk, self.stage),
                mmtk.scheduler.worker_live_bytes == old(mmtk).scheduler.worker_live_bytes,
                worker.wf(mmtk.plan.immix_space@),
                worker.tls == old(worker).tls,
                worker.ordinal == old(worker).ordinal,
                worker.live_bytes == old(worker).live_bytes,
                first == all_packet_nodes(old(mmtk).scheduler.packets(self.stage)),
                marked == old(worker).copy.allocates_marked(old(mmtk).plan.immix_space@),
                worker.copy.allocates_marked(mmtk.plan.immix_space@) == marked,
                all_packet_slots(mmtk.scheduler.packets(self.stage)) == all_packet_slots(
                    old(mmtk).scheduler.packets(self.stage),
                ),
                objects_traced(
                    old(mmtk).plan.immix_space@,
                    mmtk.plan.immix_space@,
                    first,
                    tracer.reached(mmtk.scheduler),
                    old(mmtk).vm.objects@,
                    mmtk.vm.objects@,
                    objects@.subrange(0, i as int),
                    self.kind,
                    marked,
                    post_scan,
                ),
            decreases n - i,
        {
            let object = objects[i];
            let ghost before = *mmtk;
            let ghost reached_before = tracer.reached(mmtk.scheduler);
            scan_object_and_trace_edges(object, &mut tracer, worker, mmtk);
            let ghost mid = *mmtk;
            if post_scan {
                post_scan_object(object, worker, mmtk);
            }
            proof {
                lemma_post_scan_frame(mid, *mmtk, self.stage);
                lemma_traced_frame_transitive(before, mid, *mmtk, self.stage);
                lemma_traced_frame_transitive(*old(mmtk), before, *mmtk, self.stage);
                let next = objects@.subrange(0, i + 1);
                assert(next.drop_last() =~= objects@.subrange(0, i as int));
                assert(next.last() == object);
                assert(object_traced(
                    before.plan.immix_space@,
                    mmtk.plan.immix_space@,
                    reached_before,
                    tracer.reached(mmtk.scheduler),
                    before.vm.objects@,
                    mmtk.vm.objects@,
                    next.last(),
                    self.kind,
                    marked,
                    post_scan,
                ));
            }
            i += 1;
        }
        let ghost mid = *mmtk;
        let ghost reached = tracer.reached(mmtk.scheduler);
        tracer.flush_if_not_empty(&mut mmtk.scheduler);
        proof {
            lemma_scheduler_frame(mid, *mmtk, self.stage);
            lemma_traced_frame_transitive(*old(mmtk), mid, *mmtk, self.stage);
            assert(objects@.subrange(0, n as int) =~= objects@);
            assert(all_packet_nodes(mmtk.scheduler.packets(self.stage)) =~= reached);
        }
    }
}

/// A change that is at most one of the space is a frame.
pub proof fn lemma_post_scan_frame(before: MMTK, after: MMTK, stage: WorkBucketStage)
    requires
        before.wf(),
        after.wf(),
        only_space_changed(before.plan, after.plan),
        after.state == before.state,
        after.options == before.options,
        after.gc_count == before.gc_count,
        after.vm == before.vm,
        after.scheduler == before.scheduler,
    ensures
        traced_frame(before, after, stage),
{
    let p = before.scheduler.packets(stage);
    assert(p.subrange(0, p.len() as int) =~= p);
}

/// Lets the plan look at an object that was scanned. The allocators of
/// the worker keep fitting the space.
pub fn post_scan_object(object: ObjectReference, worker: &GCWorker, mmtk: &mut MMTK)
    requires
        old(mmtk).wf(),
        worker.wf(old(mmtk).plan.immix_space@),
    ensures
        final(mmtk).wf(),
        only_space_changed(old(mmtk).plan, final(mmtk).plan),
        final(mmtk).state == old(mmtk).state,
        final(mmtk).options == old(mmtk).options,
        final(mmtk).gc_count == old(mmtk).gc_count,
        final(mmtk).vm == old(mmtk).vm,
        final(mmtk).scheduler == old(mmtk).scheduler,
        worker.wf(final(mmtk).plan.immix_space@),
        final(mmtk).plan.immix_space@ == post_scanned(
            old(mmtk).plan.immix_space@,
            old(mmtk).vm.objects@,
            object,
        ),
        marks_extended(old(mmtk).plan.immix_space@, final(mmtk).plan.immix_space@, None),
{
    proof {
        let space = mmtk.plan.immix_space@;
        lemma_marks_extended_reflexive(space);
        if space.holds_object(mmtk.vm.objects@, object) && space.modes.mark_line_at_scan_time
            && !space.modes.block_only {
            let size = mmtk.vm.objects@[object.0].size as int;
            lemma_lines_marked_keeps_marks(space, object, size);
            crate::policy::immix::immixspace::lemma_fill_lines_keeps_blocks(
                space,
                crate::policy::immix::line::span_start(object.0 as int),
                crate::policy::immix::line::span_bytes(object.0 as int, size),
                space.line_mark_state,
            );
            crate::policy::immix::copy_context::lemma_same_blocks_keep_fitting(
                space,
                space.with_meta(space.lines_marked(space.meta, object, size)),
                worker.copy,
            );
        }
    }
    mmtk.plan.post_scan_object(object, &mmtk.vm.objects);
}

/// Scans the objects of `buffer`: of the objects whose slots the runtime
/// hands out, the slots go on in packets that trace slots, in the bucket
/// of `bucket`; the other objects the runtime traces itself, by way of a
/// tracer. If live bytes are counted, the sizes of the objects are added
/// to the count of the worker. After an object is scanned the plan looks
/// at it if `post_scan` says so.
pub fn do_work_common(
    buffer: &Vec<ObjectReference>,
    worker: &mut GCWorker,
    mmtk: &mut MMTK,
    bucket: WorkBucketStage,
    kind: TraceKind,
    post_scan: bool,
)
    requires
        old(mmtk).wf(),
        is_trace_kind(kind),
        old(worker).wf(old(mmtk).plan.immix_space@),
    ensures
        traced_frame(*old(mmtk), *final(mmtk), bucket),
        final(worker).wf(final(mmtk).plan.immix_space@),
        final(worker).tls == old(worker).tls,
        final(worker).ordinal == old(worker).ordinal,
        final(worker).live_bytes == old(worker).live_bytes,
        final(worker).copy.allocates_marked(final(mmtk).plan.immix_space@) == old(worker).copy.allocates_marked(old(mmtk).plan.immix_space@),
        scan_done(
            *old(mmtk),
            *final(mmtk),
            old(worker).ordinal,
            old(worker).copy.allocates_marked(old(mmtk).plan.immix_space@),
            buffer@,
            bucket,
            kind,
            post_scan,
        ),
        old(mmtk).vm.slot_enqueuing ==> final(mmtk).vm.objects == old(mmtk).vm.objects,
        old(mmtk).vm.slot_enqueuing && !post_scan ==> final(mmtk).plan == old(mmtk).plan,
        old(mmtk).vm.slot_enqueuing ==> marks_extended(
            old(mmtk).plan.immix_space@,
            final(mmtk).plan.immix_space@,
            None,
        ),
{
    let tls = worker.tls;
    proof {
        lemma_traced_frame_reflexive(*mmtk, bucket);
        lemma_marks_extended_reflexive(mmtk.plan.immix_space@);
    }
    if mmtk.options.count_live_bytes_in_gc {
        count_live_bytes(buffer, worker.ordinal, mmtk);
        proof {
            lemma_traced_frame_reflexive(*old(mmtk), bucket);
        }
    }
    let ghost counted = *mmtk;
    let mut scan_later: Vec<ObjectReference> = Vec::new();
    let mut closure = ObjectsClosure::new(bucket, kind);
    let n = buffer.len();
    let mut i: usize = 0;
    proof {
        let base = all_packet_slots(old(mmtk).scheduler.packets(bucket));
        assert(buffer@.subrange(0, 0) =~= Seq::<ObjectReference>::empty());
        assert(base + closure.buffer@ =~= base + buffer_slots(
            old(mmtk).vm.objects@,
            buffer@.subrange(0, 0),
        ));
        assert(scan_later@ =~= buffer@.subrange(0, 0));
    }
    while i < n
        invariant
            i <= n,
            n == buffer@.len(),
            closure.bucket == bucket,
            closure.kind == kind,
            traced_frame(*old(mmtk), *mmtk, bucket),
            mmtk.scheduler.worker_live_bytes == counted.scheduler.worker_live_bytes,
            mmtk.vm == old(mmtk).vm,
            !post_scan ==> mmtk.plan == old(mmtk).plan,
            worker.wf(mmtk.plan.immix_space@),
            *worker == *old(worker),
            worker.copy.allocates_marked(mmtk.plan.immix_space@) == old(worker).copy.allocates_marked(old(mmtk).plan.immix_space@),
            mmtk.vm.slot_enqueuing ==> scan_later@.len() == 0,
            !mmtk.vm.slot_enqueuing ==> scan_later@ == buffer@.subrange(0, i as int)
                && closure.buffer@.len() == 0 && mmtk.plan == old(mmtk).plan && mmtk.scheduler
                == counted.scheduler,
            marks_extended(old(mmtk).plan.immix_space@, mmtk.plan.immix_space@, None),
            mmtk.vm.slot_enqueuing ==> all_packet_slots(mmtk.scheduler.packets(bucket))
                + closure.buffer@ == all_packet_slots(old(mmtk).scheduler.packets(bucket))
                + buffer_slots(old(mmtk).vm.objects@, buffer@.subrange(0, i as int)),
            all_packet_nodes(mmtk.scheduler.packets(bucket)) == all_packet_nodes(
                old(mmtk).scheduler.packets(bucket),
            ),
            mmtk.vm.slot_enqueuing && post_scan ==> mmtk.plan.immix_space@ == objects_post_scanned(
                old(mmtk).plan.immix_space@,
                old(mmtk).vm.objects@,
                buffer@.subrange(0, i as int),
            ),
        decreases n - i,
    {
        let object = buffer[i];
        let ghost before = *mmtk;
        proof {
            let next = buffer@.subrange(0, i + 1);
            assert(next.drop_last() =~= buffer@.subrange(0, i as int));
            assert(next.last() == buffer@[i as int]);
        }
        if mmtk.vm.support_slot_enqueuing(tls, object) {
            let slots = mmtk.vm.scan_object(tls, object);
            visit_slots(&mut closure, &slots, &mut mmtk.scheduler);
            proof {
                let base = all_packet_slots(old(mmtk).scheduler.packets(bucket));
                let so_far = buffer_slots(old(mmtk).vm.objects@, buffer@.subrange(0, i as int));
                assert(base + so_far + slots@ =~= base + (so_far + slots@));
            }
            let ghost mid = *mmtk;
            proof {
                lemma_scheduler_frame(before, mid, bucket);
            }
            if post_scan {
                post_scan_object(object, worker, mmtk);
            }
            proof {
                lemma_marks_extended_reflexive(mid.plan.immix_space@);
                lemma_marks_extended_transitive(
                    old(mmtk).plan.immix_space@,
                    mid.plan.immix_space@,
                    mmtk.plan.immix_space@,
                    None,
                    None,
                );
                lemma_post_scan_frame(mid, *mmtk, bucket);
                lemma_traced_frame_transitive(before, mid, *mmtk, bucket);
                lemma_traced_frame_transitive(*old(mmtk), before, *mmtk, bucket);
            }
        } else {
            scan_later.push(object);
            proof {
                assert(scan_later@ =~= buffer@.subrange(0, i + 1));
            }
        }
        i += 1;
    }
    let ghost scanned = *mmtk;
    closure.flush(&mut mmtk.scheduler);
    proof {
        lemma_scheduler_frame(scanned, *mmtk, bucket);
        lemma_traced_frame_transitive(*old(mmtk), scanned, *mmtk, bucket);
        assert(buffer@.subrange(0, n as int) =~= buffer@);
    }
    if scan_later.len() > 0 {
        let object_tracer_context = ProcessEdgesWorkTracerContext { stage: bucket, kind };
        let ghost flushed = *mmtk;
        object_tracer_context.with_tracer(worker, mmtk, &scan_later, post_scan);
        proof {
            lemma_traced_frame_transitive(*old(mmtk), flushed, *mmtk, bucket);
        }
    } else {
        proof {
            if !mmtk.vm.slot_enqueuing {
                assert(buffer@ =~= Seq::<ObjectReference>::empty());
            }
        }
    }
}

/// Hands all of `slots` to `closure`, in their order.
fn visit_slots(closure: &mut ObjectsClosure, slots: &Vec<Slot>, scheduler: &mut GCWorkScheduler)
    requires
        old(scheduler).wf(),
    ensures
        final(closure).bucket == old(closure).bucket,
        final(closure).kind == old(closure).kind,
        old(scheduler).same_but(final(scheduler), old(closure).bucket),
        final(scheduler).sentinel(old(closure).bucket) == old(scheduler).sentinel(
            old(closure).bucket,
        ),
        is_prefix(
            old(scheduler).packets(old(closure).bucket),
            final(scheduler).packets(old(closure).bucket),
        ),
        all_packet_slots(final(scheduler).packets(old(closure).bucket)) + final(closure).buffer@
            == all_packet_slots(old(scheduler).packets(old(closure).bucket)) + old(closure).buffer@
            + slots@,
        all_packet_nodes(final(scheduler).packets(old(closure).bucket)) == all_packet_nodes(
            old(scheduler).packets(old(closure).bucket),
        ),
{
    let ghost bucket = closure.bucket;
    let ghost first = all_packet_slots(scheduler.packets(bucket)) + closure.buffer@;
    let n = slots.len();
    let mut i: usize = 0;
    proof {
        let p = scheduler.packets(bucket);
        assert(p.subrange(0, p.len() as int) =~= p);
        assert(first + slots@.subrange(0, 0) =~= first);
    }
    while i < n
        invariant
            i <= n,
            n == slots@.len(),
            bucket == old(closure).bucket,
            closure.bucket == bucket,
            closure.kind == old(closure).kind,
            first == all_packet_slots(old(scheduler).packets(bucket)) + old(closure).buffer@,
            old(scheduler).same_but(scheduler, bucket),
            scheduler.sentinel(bucket) == old(scheduler).sentinel(bucket),
            is_prefix(old(scheduler).packets(bucket), scheduler.packets(bucket)),
            all_packet_slots(scheduler.packets(bucket)) + closure.buffer@ == first + slots@.subrange(
                0,
                i as int,
            ),
            all_packet_nodes(scheduler.packets(bucket)) == all_packet_nodes(
                old(scheduler).packets(bucket),
            ),
        decreases n - i,
    {
        let ghost before = *scheduler;
        closure.visit_slot(slots[i], scheduler);
        proof {
            let pa = old(scheduler).packets(bucket);
            let pb = before.packets(bucket);
            let pc = scheduler.packets(bucket);
            assert(pc.subrange(0, pa.len() as int) =~= pb.subrange(0, pa.len() as int));
            assert((first + slots@.subrange(0, i as int)).push(slots@[i as int]) =~= first
                + slots@.subrange(0, i + 1));
            assert forall|s: WorkBucketStage| s != bucket implies #[trigger] scheduler.work_buckets@[s.spec_index()]
                == old(scheduler).work_buckets@[s.spec_index()] by {
                assert(before.work_buckets@[s.spec_index()] == old(scheduler).work_buckets@[s.spec_index()]);
            }
        }
        i += 1;
    }
    proof {
        assert(slots@.subrange(0, n as int) =~= slots@);
    }
}

/// Adds the sizes of the objects of `buffer` that the runtime knows to the
/// count of live bytes of the worker at position `ordinal`.
fn count_live_bytes(buffer: &Vec<ObjectReference>, ordinal: usize, mmtk: &mut MMTK)
    requires
        old(mmtk).wf(),
    ensures
        final(mmtk).wf(),
        final(mmtk).plan == old(mmtk).plan,
        final(mmtk).state == old(mmtk).state,
        final(mmtk).options == old(mmtk).options,
        final(mmtk).gc_count == old(mmtk).gc_count,
        final(mmtk).vm == old(mmtk).vm,
        final(mmtk).scheduler.work_buckets == old(mmtk).scheduler.work_buckets,
        final(mmtk).scheduler.designated_work == old(mmtk).scheduler.designated_work,
        final(mmtk).scheduler.mutators_paused == old(mmtk).scheduler.mutators_paused,
        final(mmtk).scheduler.worker_live_bytes@ == live_bytes_added(
            old(mmtk).scheduler.worker_live_bytes@,
            ordinal,
            old(mmtk).vm.objects@,
            buffer@,
        ),
{
    let n = buffer.len();
    let mut i: usize = 0;
    proof {
        assert(buffer@.subrange(0, 0) =~= Seq::<ObjectReference>::empty());
        if ordinal < mmtk.scheduler.worker_live_bytes@.len() {
            assert(mmtk.scheduler.worker_live_bytes@ =~= mmtk.scheduler.worker_live_bytes@.update(
                ordinal as int,
                mmtk.scheduler.worker_live_bytes@[ordinal as int],
            ));
        }
    }
    while i < n
        invariant
            i <= n,
            n == buffer@.len(),
            mmtk.scheduler.worker_live_bytes@ == live_bytes_added(
                old(mmtk).scheduler.worker_live_bytes@,
                ordinal,
                old(mmtk).vm.objects@,
                buffer@.subrange(0, i as int),
            ),
            mmtk.wf(),
            mmtk.plan == old(mmtk).plan,
            mmtk.state == old(mmtk).state,
            mmtk.options == old(mmtk).options,
            mmtk.gc_count == old(mmtk).gc_count,
            mmtk.vm == old(mmtk).vm,
            mmtk.scheduler.work_buckets == old(mmtk).scheduler.work_buckets,
            mmtk.scheduler.designated_work == old(mmtk).scheduler.designated_work,
            mmtk.scheduler.mutators_paused == old(mmtk).scheduler.mutators_paused,
        decreases n - i,
    {
        let object = buffer[i];
        proof {
            let next = buffer@.subrange(0, i + 1);
            assert(next.drop_last() =~= buffer@.subrange(0, i as int));
            assert(next.last() == object);
        }
        if mmtk.vm.objects.contains(object) {
            let size = mmtk.vm.objects.get_current_size(object);
            mmtk.scheduler.increase_live_bytes(ordinal, size);
            proof {
                if ordinal < old(mmtk).scheduler.worker_live_bytes@.len() {
                    let first = old(mmtk).scheduler.worker_live_bytes@;
                    let held = live_bytes_counted(
                        old(mmtk).vm.objects@,
                        buffer@.subrange(0, i as int),
                        first[ordinal as int],
                    );
                    let counted = live_bytes_counted(
                        old(mmtk).vm.objects@,
                        buffer@.subrange(0, i + 1),
                        first[ordinal as int],
                    );
                    assert(first.update(ordinal as int, held).update(ordinal as int, counted)
                        =~= first.update(ordinal as int, counted));
                }
            }
        }
        i += 1;
    }
    proof {
        assert(buffer@.subrange(0, n as int) =~= buffer@);
    }
}

impl ScanObjects {
    /// What running the packet leaves behind: `after_self`, `after_worker` and
    /// `after` are the packet, the worker and the collector afterwards.
    pub open spec fn done(
        &self,
        after_self: Self,
        worker: crate::scheduler::worker::GCWorker,
        after_worker: crate::scheduler::worker::GCWorker,
        before: crate::mmtk::MMTK,
        after: crate::mmtk::MMTK,
    ) -> bool {
        &&& after_self == (*self)
        &&& traced_frame(before, after, self.bucket)
        &&& after_worker.wf(after.plan.immix_space@)
        &&& after_worker.tls == worker.tls
        &&& after_worker.ordinal == worker.ordinal
        &&& after_worker.live_bytes == worker.live_bytes
        &&& before.vm.slot_enqueuing ==> after.vm.objects == before.vm.objects && after.plan == before.plan
        &&& after_worker.copy.allocates_marked(after.plan.immix_space@) == worker.copy.allocates_marked(before.plan.immix_space@)
        &&& scan_done(
            before,
            after,
            worker.ordinal,
            worker.copy.allocates_marked(before.plan.immix_space@),
            self.buffer@,
            self.bucket,
            self.kind,
            false,
        )
    }

    /// Scans the objects of the packet. The plan does not look at the
    /// objects afterwards.
    pub fn do_work(&mut self, worker: &mut GCWorker, mmtk: &mut MMTK)
        requires
            old(mmtk).wf(),
            is_trace_kind(old(self).kind),
            old(worker).wf(old(mmtk).plan.immix_space@),
        ensures
            old(self).done(*final(self), *old(worker), *final(worker), *old(mmtk), *final(mmtk)),
    {
        do_work_common(&self.buffer, worker, mmtk, self.bucket, self.kind, false);
    }
}

impl PlanScanObjects {
    /// What running the packet leaves behind: `after_self`, `after_worker` and
    /// `after` are the packet, the worker and the collector afterwards.
    pub open spec fn done(
        &self,
        after_self: Self,
        worker: crate::scheduler::worker::GCWorker,
        after_worker: crate::scheduler::worker::GCWorker,
        before: crate::mmtk::MMTK,
        after: crate::mmtk::MMTK,
    ) -> bool {
        &&& after_self == (*self)
        &&& traced_frame(before, after, self.bucket)
        &&& after_worker.wf(after.plan.immix_space@)
        &&& after_worker.tls == worker.tls
        &&& after_worker.ordinal == worker.ordinal
        &&& after_worker.live_bytes == worker.live_bytes
        &&& before.vm.slot_enqueuing ==> after.vm.objects == before.vm.objects
        &&& after_worker.copy.allocates_marked(after.plan.immix_space@) == worker.copy.allocates_marked(before.plan.immix_space@)
        &&& scan_done(
            before,
            after,
            worker.ordinal,
            worker.copy.allocates_marked(before.plan.immix_space@),
            self.buffer@,
            self.bucket,
            self.kind,
            true,
        )
        &&& before.vm.slot_enqueuing ==> marks_extended(
            before.plan.immix_space@,
            after.plan.immix_space@,
            None,
        )
    }

    /// Scans the objects of the packet, and lets the plan look at each of
    /// them afterwards.
    pub fn do_work(&mut self, worker: &mut GCWorker, mmtk: &mut MMTK)
        requires
            old(mmtk).wf(),
            is_trace_kind(old(self).kind),
            old(worker).wf(old(mmtk).plan.immix_space@),
        ensures
            old(self).done(*final(self), *old(worker), *final(worker), *old(mmtk), *final(mmtk)),
    {
        do_work_common(&self.buffer, worker, mmtk, self.bucket, self.kind, true);
    }
}

} // verus!
