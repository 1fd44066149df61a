//! The Immix plan: one Immix space and the decisions of a collection over
//! it.

use crate::plan::tracing::ObjectQueue;
use crate::policy::gc_work::TraceKind;
use crate::policy::immix::block::Block;
use crate::policy::immix::block::BlockState;
use crate::policy::immix::immixspace::ImmixSpace;
use crate::policy::immix::immixspace::ImmixSpaceView;
use crate::policy::immix::immixspace::TRACE_KIND_DEFRAG;
use crate::policy::immix::immixspace::TRACE_KIND_FAST;
use crate::policy::gc_work::TRACE_KIND_TRANSITIVE_PIN;
use crate::scheduler::worker::GCWorker;
use crate::util::address::ObjectReference;
use crate::util::copy::CopySemantics;
use crate::vm::object_model::ObjectModel;
use crate::vm::object_model::ObjectView;
use vstd::prelude::*;
use crate::policy::immix::forwarding::space_traced;
use crate::scheduler::scheduler::GCWorkScheduler;
use crate::scheduler::work_bucket::WorkBucketStage;
use crate::scheduler::scan::post_scan_object;

verus! {

/// What a plan asks of the collector.
#[derive(Clone, Copy, PartialEq, Eq, Structural, Debug)]
pub struct PlanConstraints {
    /// Whether the mutators are readied before a collection.
    pub needs_prepare_mutator: bool,
    /// Whether the plan keeps a log bit for each object.
    pub needs_log_bit: bool,
    /// Whether the plan may move objects.
    pub moves_objects: bool,
}

/// The Immix plan.
pub struct Plan {
    /// The space of the plan.
    pub immix_space: ImmixSpace,
    /// What the plan asks of the collector.
    pub constraints: PlanConstraints,
    /// Whether the last collection defragmented.
    pub last_gc_was_defrag: bool,
    /// The number of pages of the heap.
    pub total_pages: usize,
    /// Whether the plan was told of an emergency collection.
    pub emergency_notified: bool,
}

impl Plan {
    /// The plan is sound when its space is.
    pub open spec fn wf(&self) -> bool {
        self.immix_space@.wf()
    }

    /// A plan over `immix_space` for a heap of `total_pages` pages.
    pub fn new(immix_space: ImmixSpace, total_pages: usize) -> (plan: Self)
        requires
            immix_space@.wf(),
        ensures
            plan.wf(),
            plan.immix_space == immix_space,
            plan.total_pages == total_pages,
            !plan.last_gc_was_defrag,
            !plan.emergency_notified,
            plan.constraints == (PlanConstraints {
                needs_prepare_mutator: true,
                needs_log_bit: immix_space@.needs_log_bit,
                moves_objects: !immix_space@.args.never_move_objects,
            }),
    {
        let constraints = PlanConstraints {
            needs_prepare_mutator: true,
            needs_log_bit: immix_space.common.needs_log_bit,
            moves_objects: immix_space.is_movable(),
        };
        Plan {
            immix_space,
            constraints,
            last_gc_was_defrag: false,
            total_pages,
            emergency_notified: false,
        }
    }

    /// What the plan asks of the collector.
    pub fn constraints(&self) -> (c: PlanConstraints)
        ensures
            c == self.constraints,
    {
        self.constraints
    }

    /// Whether the last collection looked at the whole heap.
    pub fn last_collection_was_exhaustive(&self) -> (r: bool)
        ensures
            r == (if self.immix_space@.is_defrag_enabled() {
                self.last_gc_was_defrag
            } else {
                true
            }),
    {
        self.immix_space.is_last_gc_exhaustive(self.last_gc_was_defrag)
    }

    /// Tells the plan that the collection that starts is an emergency
    /// collection.
    pub fn notify_emergency_collection(&mut self)
        ensures
            *final(self) == (Plan { emergency_notified: true, ..*old(self) }),
    {
        self.emergency_notified = true;
    }

    /// Whether the current collection may move objects.
    pub fn current_gc_may_move_object(&self) -> (r: bool)
        ensures
            r == self.immix_space@.defrag.in_defrag,
    {
        self.immix_space.in_defrag()
    }

    /// Ends a collection: records whether it defragmented.
    pub fn end_of_gc(&mut self)
        requires
            old(self).wf(),
        ensures
            final(self).wf(),
            final(self).last_gc_was_defrag == old(self).immix_space@.defrag.in_defrag,
            final(self).constraints == old(self).constraints,
            final(self).total_pages == old(self).total_pages,
            final(self).emergency_notified == old(self).emergency_notified,
    {
        let did_defrag = self.immix_space.end_of_gc();
        self.last_gc_was_defrag = did_defrag;
    }

    /// Readies a worker for a collection. The Immix plan has nothing to
    /// ready.
    pub fn prepare_worker(&self, worker: &mut GCWorker)
        ensures
            *final(worker) == *old(worker),
    {
    }

    /// Whether the plan can trace `object`: it is an object of the
    /// runtime in a block of the space that is in use, and no worker is
    /// in the middle of forwarding it.
    pub open spec fn traceable(space: ImmixSpaceView, vm: Map<usize, ObjectView>, object: ObjectReference) -> bool {
        &&& space.holds_object(vm, object)
        &&& crate::util::object_forwarding::forwarding_status(space.meta, object.0 as int)
            != crate::util::object_forwarding::BEING_FORWARDED
    }

    /// Whether the plan can trace `object`.
    pub fn is_traceable(&self, vm: &ObjectModel, object: ObjectReference) -> (r: bool)
        requires
            self.wf(),
        ensures
            r == Self::traceable(self.immix_space@, vm@, object),
    {
        if !self.immix_space.in_space(object) {
            return false;
        }
        if !vm.contains(object) {
            return false;
        }
        let size = vm.get_current_size(object);
        if size == 0 || size % 8 != 0 || size > crate::policy::immix::MAX_IMMIX_OBJECT_SIZE {
            return false;
        }
        let end: usize = self.immix_space.metadata.start().0 + self.immix_space.metadata.chunks()
            * crate::util::constants::BYTES_IN_CHUNK;
        if size > end - object.0 {
            return false;
        }
        proof {
            crate::policy::immix::immixspace::lemma_block_of_in_space(
                self.immix_space@.meta,
                object.0 as int,
            );
        }
        let block = Block::containing(object);
        if block.get_state(&self.immix_space.metadata) == BlockState::Unallocated {
            return false;
        }
        crate::util::object_forwarding::get_forwarding_status(&self.immix_space.metadata, object)
            != crate::util::object_forwarding::BEING_FORWARDED
    }
}

/// What a trace by the plan leaves behind: nothing changes for an object
/// that the plan cannot trace; any other object is traced by the space.
pub open spec fn plan_traced(
    before: ImmixSpaceView,
    after: ImmixSpaceView,
    queue_before: Seq<ObjectReference>,
    queue_after: Seq<ObjectReference>,
    vm_before: Map<usize, ObjectView>,
    vm_after: Map<usize, ObjectView>,
    object: ObjectReference,
    result: ObjectReference,
    kind: TraceKind,
    marked: bool,
) -> bool {
    if !Plan::traceable(before, vm_before, object) {
        &&& result == object
        &&& after == before
        &&& queue_after == queue_before
        &&& vm_after == vm_before
    } else {
        space_traced(
            before,
            after,
            queue_before,
            queue_after,
            vm_before,
            vm_after,
            object,
            result,
            effective_kind(before, kind),
            marked,
        )
    }
}

/// The kind of trace that the space is asked for: where blocks are the
/// unit of liveness the defragmenting trace becomes the trace that marks
/// and never moves.
pub open spec fn effective_kind(space: ImmixSpaceView, kind: TraceKind) -> TraceKind {
    if kind == TRACE_KIND_DEFRAG && space.modes.block_only {
        TRACE_KIND_FAST
    } else {
        kind
    }
}

/// Whether `after` differs from `before` at most in its space.
pub open spec fn only_space_changed(before: Plan, after: Plan) -> bool {
    &&& after.constraints == before.constraints
    &&& after.last_gc_was_defrag == before.last_gc_was_defrag
    &&& after.total_pages == before.total_pages
    &&& after.emergency_notified == before.emergency_notified
}

impl Plan {
    /// Traces `object` with a trace of kind `kind`. An object that the
    /// plan cannot trace is returned as it is.
    pub fn trace_object<Q: ObjectQueue>(
        &mut self,
        queue: &mut Q,
        object: ObjectReference,
        worker: &mut GCWorker,
        vm: &mut ObjectModel,
        kind: TraceKind,
    ) -> (r: ObjectReference)
        requires
            old(self).wf(),
            old(worker).wf(old(self).immix_space@),
            kind == TRACE_KIND_FAST || kind == TRACE_KIND_DEFRAG || kind == TRACE_KIND_TRANSITIVE_PIN,
        ensures
            final(self).wf(),
            only_space_changed(*old(self), *final(self)),
            final(worker).wf(final(self).immix_space@),
            final(worker).tls == old(worker).tls,
            final(worker).ordinal == old(worker).ordinal,
            final(worker).live_bytes == old(worker).live_bytes,
            final(worker).copy.allocates_marked(final(self).immix_space@) == old(worker).copy.allocates_marked(old(self).immix_space@),
            plan_traced(
                old(self).immix_space@,
                final(self).immix_space@,
                old(queue).nodes(),
                final(queue).nodes(),
                old(vm)@,
                final(vm)@,
                object,
                r,
                kind,
                old(worker).copy.allocates_marked(old(self).immix_space@),
            ),
    {
        if !self.is_traceable(vm, object) {
            return object;
        }
        let kind = if kind == TRACE_KIND_DEFRAG && self.immix_space.modes.block_only {
            TRACE_KIND_FAST
        } else {
            kind
        };
        self.immix_space.trace_object(queue, object, Some(CopySemantics::DefaultCopy), worker, vm, kind)
    }

    /// Traces `object` with a trace that never moves objects, so that the
    /// objects of the runtime stay as they are. An object that the plan
    /// cannot trace is passed over. Returns `object`.
    pub fn trace_object_in_place<Q: ObjectQueue>(
        &mut self,
        queue: &mut Q,
        object: ObjectReference,
        worker: &mut GCWorker,
        vm: &ObjectModel,
        kind: TraceKind,
    ) -> (r: ObjectReference)
        requires
            old(self).wf(),
            old(worker).wf(old(self).immix_space@),
            kind == TRACE_KIND_FAST || kind == TRACE_KIND_TRANSITIVE_PIN,
        ensures
            r == object,
            final(self).wf(),
            only_space_changed(*old(self), *final(self)),
            final(worker).wf(final(self).immix_space@),
            *final(worker) == *old(worker),
            plan_traced(
                old(self).immix_space@,
                final(self).immix_space@,
                old(queue).nodes(),
                final(queue).nodes(),
                vm@,
                vm@,
                object,
                r,
                kind,
                old(worker).copy.allocates_marked(old(self).immix_space@),
            ),
            final(queue).nodes() == old(queue).nodes() || final(queue).nodes() == old(queue).nodes().push(object),
    {
        if !self.is_traceable(vm, object) {
            return object;
        }
        proof {
            crate::policy::immix::immixspace::lemma_block_of_in_space(
                self.immix_space@.meta,
                object.0 as int,
            );
            crate::policy::immix::forwarding::lemma_marked_in_place_keeps_fitting(
                self.immix_space@,
                object,
                vm@[object.0].size as int,
                worker.copy,
            );
        }
        self.immix_space.trace_object_without_moving(queue, object, vm)
    }

    /// Lets the space look at an object that was scanned. An object that
    /// the plan cannot trace is passed over.
    pub fn post_scan_object(&mut self, object: ObjectReference, vm: &ObjectModel)
        requires
            old(self).wf(),
        ensures
            final(self).wf(),
            only_space_changed(*old(self), *final(self)),
            final(self).immix_space@ == (if old(self).immix_space@.holds_object(vm@, object) {
                old(self).immix_space@.with_meta(
                    if old(self).immix_space@.modes.mark_line_at_scan_time && !old(self).immix_space@.modes.block_only {
                        old(self).immix_space@.lines_marked(
                            old(self).immix_space@.meta,
                            object,
                            vm@[object.0].size as int,
                        )
                    } else {
                        old(self).immix_space@.meta
                    },
                )
            } else {
                old(self).immix_space@
            }),
    {
        if self.holds_object(vm, object) {
            self.immix_space.post_scan_object(object, vm);
        }
    }

    /// Whether `object` is an object of the runtime in a block of the
    /// space that is in use.
    pub fn holds_object(&self, vm: &ObjectModel, object: ObjectReference) -> (r: bool)
        requires
            self.wf(),
        ensures
            r == self.immix_space@.holds_object(vm@, object),
    {
        if !self.immix_space.in_space(object) {
            return false;
        }
        if !vm.contains(object) {
            return false;
        }
        let size = vm.get_current_size(object);
        if size == 0 || size % 8 != 0 || size > crate::policy::immix::MAX_IMMIX_OBJECT_SIZE {
            return false;
        }
        let end: usize = self.immix_space.metadata.start().0 + self.immix_space.metadata.chunks()
            * crate::util::constants::BYTES_IN_CHUNK;
        if size > end - object.0 {
            return false;
        }
        proof {
            crate::policy::immix::immixspace::lemma_block_of_in_space(
                self.immix_space@.meta,
                object.0 as int,
            );
        }
        let block = Block::containing(object);
        block.get_state(&self.immix_space.metadata) != BlockState::Unallocated
    }

    /// What the plan tells the space about the heap before a collection.
    pub fn stats_for_defrag(&self) -> (stats: crate::policy::immix::defrag::StatsForDefrag)
        ensures
            stats == (crate::policy::immix::defrag::StatsForDefrag {
                total_pages: self.total_pages,
                reserved_pages: self.immix_space@.pr.reserved_pages,
                collection_reserved_pages: (self.immix_space@.pr.reserved_pages
                    * crate::policy::immix::defrag::DEFRAG_HEADROOM_PERCENT / 100) as usize,
            }),
    {
        crate::policy::immix::defrag::StatsForDefrag {
            total_pages: self.total_pages,
            reserved_pages: self.immix_space.pr.reserved_pages(),
            collection_reserved_pages: self.immix_space.defrag_headroom_pages(),
        }
    }

    /// Whether the numbers that the plan reports fit a machine word when
    /// they are summed up.
    pub open spec fn stats_fit(&self) -> bool {
        self.total_pages + 2 * self.immix_space@.pr.reserved_pages <= usize::MAX
    }

    /// Readies the plan, and with it the space, for a collection of the
    /// whole heap.
    pub fn prepare(&mut self, tls: crate::util::opaque_pointer::VMWorkerThread, scheduler: &mut GCWorkScheduler)
        requires
            old(self).wf(),
            old(self).stats_fit(),
            old(scheduler).wf(),
        ensures
            final(self).wf(),
            final(scheduler).wf(),
            only_space_changed(*old(self), *final(self)),
            crate::policy::immix::prepare::space_prepared(
                old(self).immix_space@,
                final(self).immix_space@,
                (crate::policy::immix::defrag::StatsForDefrag {
                    total_pages: old(self).total_pages,
                    reserved_pages: old(self).immix_space@.pr.reserved_pages,
                    collection_reserved_pages: (old(self).immix_space@.pr.reserved_pages
                        * crate::policy::immix::defrag::DEFRAG_HEADROOM_PERCENT / 100) as usize,
                }),
            ),
            final(scheduler).packets(WorkBucketStage::Prepare) == old(scheduler).packets(
                WorkBucketStage::Prepare,
            ) + crate::policy::immix::prepare::prepare_packets(
                old(self).immix_space@.chunk_map.allocated_chunks(
                    old(self).immix_space@.chunk_map.allocated.len() as int,
                ),
                crate::policy::immix::prepare::packet_threshold(final(self).immix_space@),
            ),
            final(scheduler).packets(WorkBucketStage::ClearVOBits) == old(scheduler).packets(
                WorkBucketStage::ClearVOBits,
            ) + crate::policy::immix::prepare::vo_packets(final(self).immix_space@, true),
            forall|stage: WorkBucketStage|
                stage != WorkBucketStage::Prepare && stage != WorkBucketStage::ClearVOBits
                    ==> #[trigger] final(scheduler).work_buckets@[stage.spec_index()] == old(scheduler).work_buckets@[stage.spec_index()],
            final(scheduler).sentinel(WorkBucketStage::Prepare) == old(scheduler).sentinel(
                WorkBucketStage::Prepare,
            ),
            final(scheduler).sentinel(WorkBucketStage::ClearVOBits) == old(scheduler).sentinel(
                WorkBucketStage::ClearVOBits,
            ),
            final(scheduler).designated_work == old(scheduler).designated_work,
            final(scheduler).mutators_paused == old(scheduler).mutators_paused,
            final(scheduler).worker_live_bytes == old(scheduler).worker_live_bytes,
    {
        let stats = self.stats_for_defrag();
        self.immix_space.prepare(true, stats, scheduler);
    }

    /// Lets the plan, and with it the space, start to reclaim memory
    /// after the trace of a collection of the whole heap.
    pub fn release(&mut self, tls: crate::util::opaque_pointer::VMWorkerThread, scheduler: &mut GCWorkScheduler)
        requires
            old(self).wf(),
            old(scheduler).wf(),
        ensures
            final(self).wf(),
            only_space_changed(*old(self), *final(self)),
            final(self).immix_space@ == crate::policy::immix::prepare::space_released(
                old(self).immix_space@,
                true,
            ),
            old(scheduler).same_but(final(scheduler), WorkBucketStage::Release),
            final(scheduler).packets(WorkBucketStage::Release) == old(scheduler).packets(
                WorkBucketStage::Release,
            ) + crate::policy::immix::prepare::sweep_packets(
                old(self).immix_space@.chunk_map.allocated_chunks(
                    old(self).immix_space@.chunk_map.allocated.len() as int,
                ),
            ),
            final(scheduler).sentinel(WorkBucketStage::Release) == old(scheduler).sentinel(
                WorkBucketStage::Release,
            ),
    {
        self.immix_space.release(true, scheduler);
    }

    /// Decides whether the collection that starts defragments, and
    /// schedules the packets that every collection runs. The trace of the
    /// object graph is the defragmenting one if the collection
    /// defragments, and the one that never moves otherwise.
    pub fn schedule_collection(
        &mut self,
        scheduler: &mut GCWorkScheduler,
        state: &crate::global_state::GlobalState,
        full_heap_system_gc: bool,
    )
        requires
            old(self).wf(),
            old(scheduler).wf(),
        ensures
            final(self).wf(),
            only_space_changed(*old(self), *final(self)),
            final(self).immix_space@ == (ImmixSpaceView {
                defrag: crate::policy::immix::defrag::DefragView {
                    in_defrag: final(self).immix_space@.defrag.in_defrag,
                    ..old(self).immix_space@.defrag
                },
                ..old(self).immix_space@
            }),
            final(self).immix_space@.defrag.in_defrag
                == crate::policy::immix::defrag::defrag_decision(
                old(self).immix_space@.is_defrag_enabled(),
                state.emergency_collection,
                true,
                state.cur_collection_attempts,
                state.user_triggered_collection,
                old(self).immix_space@.reusable_blocks.blocks().len() == 0,
                full_heap_system_gc,
            ),
            crate::scheduler::scheduler::common_work_scheduled(
                *old(scheduler),
                *final(scheduler),
                collection_context(final(self).immix_space@.defrag.in_defrag),
            ),
    {
        let in_defrag = self.immix_space.decide_whether_to_defrag(
            state.emergency_collection,
            true,
            state.cur_collection_attempts,
            state.user_triggered_collection,
            full_heap_system_gc,
        );
        let kind = if in_defrag {
            TRACE_KIND_DEFRAG
        } else {
            TRACE_KIND_FAST
        };
        scheduler.schedule_common_work(
            crate::scheduler::gc_work::GCWorkContext {
                default_kind: kind,
                pinning_kind: TRACE_KIND_TRANSITIVE_PIN,
            },
        );
    }
}

/// The kinds of trace of a collection that defragments or does not.
pub open spec fn collection_context(in_defrag: bool) -> crate::scheduler::gc_work::GCWorkContext {
    crate::scheduler::gc_work::GCWorkContext {
        default_kind: if in_defrag {
            TRACE_KIND_DEFRAG
        } else {
            TRACE_KIND_FAST
        },
        pinning_kind: TRACE_KIND_TRANSITIVE_PIN,
    }
}

} // verus!
