//! Tracing with opportunistic copying: the protocol by which workers
//! settle who evacuates an object.

use ::atomic::Atomic;
use crate::plan::tracing::ObjectQueue;
use crate::policy::gc_work::TRACE_KIND_TRANSITIVE_PIN;
use crate::policy::gc_work::TraceKind;
use crate::policy::immix::block::Block;
use crate::policy::immix::block::BlockState;
use crate::policy::immix::block::MARK_MARKED;
use crate::policy::immix::block::block_is_defrag_source;
use crate::policy::immix::block::block_state;
use crate::policy::immix::copy_context::copy_target_ready;
use crate::policy::immix::copy_context::lemma_same_blocks_keep_fitting;
use crate::policy::immix::immixspace::ImmixSpace;
use crate::policy::immix::immixspace::ImmixSpaceView;
use crate::policy::immix::immixspace::block_of;
use crate::policy::immix::immixspace::lemma_block_of_in_space;
use crate::policy::immix::immixspace::lemma_fill_lines_keeps_blocks;
use crate::policy::immix::immixspace::lemma_fill_same_shape;
use crate::policy::immix::immixspace::lemma_meta_update_wf;
use crate::policy::immix::immixspace::lemma_set_state_wf;
use crate::policy::immix::immixspace::lemma_store_keeps_blocks;
use crate::policy::immix::immixspace::lemma_store_same_shape;
use crate::policy::immix::immixspace::same_shape;
use crate::policy::immix::line::span_bytes;
use crate::policy::immix::line::span_start;
use crate::util::address::Address;
use crate::util::address::ObjectReference;
use crate::util::metadata::SideMetadataSpec;
use crate::util::metadata::SideMetadataView;
use crate::vm::object_model::ObjectModel;
use crate::vm::object_model::ObjectView;
use vstd::prelude::*;
use crate::policy::immix::copy_context::lemma_copy_marked_keeps_fitting;
use crate::util::object_forwarding::forwarding_status;
use crate::policy::immix::immixspace::TRACE_KIND_DEFRAG;
use crate::policy::immix::immixspace::TRACE_KIND_FAST;

verus! {

/// The table `spec` of `meta`.
pub open spec fn table(meta: SideMetadataView, spec: SideMetadataSpec) -> Seq<u8> {
    meta.tables[spec.spec_ordinal()]
}

/// Whether blocks that are in use in `before` are in use in `after`, and
/// blocks that are marked in `before` are marked in `after`.
pub open spec fn blocks_kept(before: SideMetadataView, after: SideMetadataView) -> bool {
    &&& forall|b: int|
        before.contains(b) && b % 32768 == 0 && block_state(before, b) != BlockState::Unallocated
            ==> #[trigger] block_state(after, b) != BlockState::Unallocated
    &&& forall|b: int|
        before.contains(b) && b % 32768 == 0 && block_state(before, b) == BlockState::Marked
            ==> #[trigger] block_state(after, b) == BlockState::Marked
}

/// What forwarding `object` to `target` changes in a space: the target is
/// marked, as are its lines unless that waits until the target is
/// scanned; the target is recorded as valid where the space keeps such
/// records, and as unlogged if `logged` says so and the space records
/// that; the forwarding word of `object` says "forwarded" and points to
/// the target; and the block of the target is in use, and marked if
/// `marked` says so. Blocks may have been taken into use; nothing else
/// changed.
#[verifier::opaque]
pub open spec fn forwarded(
    before: ImmixSpaceView,
    after: ImmixSpaceView,
    object: ObjectReference,
    target: ObjectReference,
    size: int,
    marked: bool,
    logged: bool,
) -> bool {
    let m = before.meta;
    let n = after.meta;
    &&& same_shape(m, n)
    &&& table(n, SideMetadataSpec::ObjectMark) == table(m, SideMetadataSpec::ObjectMark).update(
        m.index(SideMetadataSpec::ObjectMark, target.0 as int),
        before.mark_state,
    )
    &&& table(n, SideMetadataSpec::ForwardingBits) == table(
        m,
        SideMetadataSpec::ForwardingBits,
    ).update(
        m.index(SideMetadataSpec::ForwardingBits, object.0 as int),
        crate::util::object_forwarding::FORWARDED,
    )
    &&& n.pointers == m.pointers.update(
        m.index(SideMetadataSpec::ForwardingPointer, object.0 as int),
        target.0,
    )
    &&& table(n, SideMetadataSpec::LineMark) == (if before.modes.mark_line_at_scan_time {
        table(m, SideMetadataSpec::LineMark)
    } else {
        crate::util::metadata::filled(
            table(m, SideMetadataSpec::LineMark),
            m.index(SideMetadataSpec::LineMark, span_start(target.0 as int)),
            span_bytes(target.0 as int, size) / 256,
            before.line_mark_state,
        )
    })
    &&& table(n, SideMetadataSpec::VoBit) == (if before.modes.vo_bit {
        table(m, SideMetadataSpec::VoBit).update(
            m.index(SideMetadataSpec::VoBit, target.0 as int),
            1u8,
        )
    } else {
        table(m, SideMetadataSpec::VoBit)
    })
    &&& table(n, SideMetadataSpec::LogBit) == (if logged && before.args.unlog_object_when_traced {
        table(m, SideMetadataSpec::LogBit).update(
            m.index(SideMetadataSpec::LogBit, target.0 as int),
            1u8,
        )
    } else {
        table(m, SideMetadataSpec::LogBit)
    })
    &&& table(n, SideMetadataSpec::PinningBit) == table(m, SideMetadataSpec::PinningBit)
    &&& copy_target_ready(after, target.0 as int, size, marked)
    &&& blocks_kept(m, n)
    &&& after.args == before.args
    &&& after.modes == before.modes
    &&& after.needs_log_bit == before.needs_log_bit
    &&& after.mark_state == before.mark_state
    &&& after.line_mark_state == before.line_mark_state
    &&& after.line_unavail_state == before.line_unavail_state
    &&& after.sweeps_pending == before.sweeps_pending
    &&& after.defrag.in_defrag == before.defrag.in_defrag
    &&& after.defrag.mark_histograms == before.defrag.mark_histograms
    &&& after.defrag.spill_threshold == before.defrag.spill_threshold
    &&& after.reusable_blocks.local == before.reusable_blocks.local
}

/// What a write to a table changes in the tables.
pub proof fn lemma_store_tables(meta: SideMetadataView, spec: SideMetadataSpec, addr: int, value: u8)
    requires
        meta.wf(),
        meta.has(spec),
        meta.contains(addr),
    ensures
        table(meta.store(spec, addr, value), spec) == table(meta, spec).update(
            meta.index(spec, addr),
            value,
        ),
        forall|other: SideMetadataSpec|
            other != spec ==> #[trigger] table(meta.store(spec, addr, value), other) == table(
                meta,
                other,
            ),
        meta.store(spec, addr, value).pointers == meta.pointers,
        same_shape(meta, meta.store(spec, addr, value)),
        meta.store(spec, addr, value).wf(),
{
    lemma_store_same_shape(meta, spec, addr, value);
}

/// What a fill of a table changes in the tables.
pub proof fn lemma_fill_tables(
    meta: SideMetadataView,
    spec: SideMetadataSpec,
    addr: int,
    bytes: int,
    value: u8,
)
    requires
        meta.wf(),
        meta.has(spec),
    ensures
        table(meta.fill(spec, addr, bytes, value), spec) == crate::util::metadata::filled(
            table(meta, spec),
            meta.index(spec, addr),
            bytes / spec.spec_region_bytes(),
            value,
        ),
        forall|other: SideMetadataSpec|
            other != spec ==> #[trigger] table(meta.fill(spec, addr, bytes, value), other) == table(
                meta,
                other,
            ),
        meta.fill(spec, addr, bytes, value).pointers == meta.pointers,
        same_shape(meta, meta.fill(spec, addr, bytes, value)),
        meta.fill(spec, addr, bytes, value).wf(),
{
    lemma_fill_same_shape(meta, spec, addr, bytes, value);
}

/// Shapes that are the same as a third are the same.
pub proof fn lemma_same_shape_transitive(a: SideMetadataView, b: SideMetadataView, c: SideMetadataView)
    requires
        same_shape(a, b),
        same_shape(b, c),
    ensures
        same_shape(a, c),
{
    assert forall|t: int| 0 <= t < a.tables.len() implies (#[trigger] a.tables[t]).len()
        == c.tables[t].len() by {
        assert(b.tables[t].len() == a.tables[t].len());
    }
}

impl ImmixSpace {
    /// Copies `object` and publishes the copy: allocates memory for it,
    /// lets the runtime copy the object, marks the copy and sets the
    /// forwarding word of `object`. Returns the copy, or `None` when the
    /// space has no memory left for it, in which case nothing but the
    /// allocators changed.
    pub fn forward_object(
        &mut self,
        object: ObjectReference,
        semantics: crate::util::copy::CopySemantics,
        copy_context: &mut crate::util::copy::GCWorkerCopyContext,
        vm: &mut ObjectModel,
    ) -> (r: Option<ObjectReference>)
        requires
            old(self)@.wf(),
            !old(self)@.modes.block_only,
            old(self)@.holds_object(old(vm)@, object),
            old(copy_context).wf(old(self)@),
        ensures
            final(self)@.wf(),
            final(copy_context).wf(final(self)@),
            final(copy_context).allocates_marked(final(self)@) == old(copy_context).allocates_marked(
                old(self)@,
            ),
            match r {
                None => {
                    &&& final(vm)@ == old(vm)@
                    &&& crate::util::allocators::immix_allocator::allocation_frame(
                        old(self)@,
                        final(self)@,
                    )
                    &&& !final(self)@.pr.can_acquire()
                },
                Some(target) => {
                    &&& final(vm)@ == old(vm)@.insert(target.0, old(vm)@[object.0])
                    &&& final(self)@.holds_object(final(vm)@, target)
                    &&& forwarded(
                        old(self)@,
                        final(self)@,
                        object,
                        target,
                        old(vm)@[object.0].size as int,
                        old(copy_context).allocates_marked(old(self)@),
                        false,
                    )
                },
            },
            old(self)@.pr.can_acquire() ==> r.is_some(),
    {
        let bytes = vm.get_current_size(object);
        let ghost before = self@;
        let ghost marked = copy_context.allocates_marked(before);
        let addr = copy_context.alloc_copy(self, object, bytes, 8, 0, semantics);
        if addr.is_zero() {
            return None;
        }
        let ghost mid = self@;
        proof {
            crate::util::allocators::immix_allocator::lemma_allocation_frame_keeps(before, mid);
            lemma_block_of_in_space(mid.meta, addr.0 as int);
            lemma_forward_steps(
                before,
                mid,
                object,
                ObjectReference(addr.0),
                bytes as int,
                marked,
                *copy_context,
            );
        }
        let target = vm.copy(object, addr);
        copy_context.post_copy(self, vm, target, bytes, semantics);
        if self.modes.vo_bit {
            self.metadata.store(SideMetadataSpec::VoBit, Address(target.0), 1);
        }
        crate::util::object_forwarding::publish_forwarded_object(&mut self.metadata, object, target);
        Some(target)
    }
}

/// The side metadata after a copy of `object` at `target` was marked,
/// recorded as valid, and published.
pub open spec fn forward_published(
    mid: ImmixSpaceView,
    object: ObjectReference,
    target: ObjectReference,
    size: int,
) -> SideMetadataView {
    let m1 = mid.copy_marked(target, size);
    let m2 = if mid.modes.vo_bit {
        m1.store(SideMetadataSpec::VoBit, target.0 as int, 1)
    } else {
        m1
    };
    m2.store_pointer(object.0 as int, target.0).store(
        SideMetadataSpec::ForwardingBits,
        object.0 as int,
        crate::util::object_forwarding::FORWARDED,
    )
}

/// Marking, recording and publishing a copy after its memory was
/// allocated amounts to forwarding, and keeps the space sound and the
/// allocators fitting at every step.
#[verifier::rlimit(80)]
pub proof fn lemma_forward_steps(
    before: ImmixSpaceView,
    mid: ImmixSpaceView,
    object: ObjectReference,
    target: ObjectReference,
    size: int,
    marked: bool,
    context: crate::util::copy::GCWorkerCopyContext,
)
    requires
        before.wf(),
        mid.wf(),
        !before.modes.block_only,
        before.in_space(object),
        crate::util::allocators::immix_allocator::allocation_frame(before, mid),
        copy_target_ready(mid, target.0 as int, size, marked),
        size > 0,
        context.wf(mid),
    ensures
        mid.in_space(target),
        mid.in_space(object),
        target.0 + size <= mid.meta.end(),
        block_state(mid.meta, block_of(target.0 as int)) != BlockState::Unallocated,
        mid.with_meta(mid.copy_marked(target, size)).wf(),
        context.wf(mid.with_meta(mid.copy_marked(target, size))),
        mid.modes.vo_bit ==> mid.copy_marked(target, size).has(SideMetadataSpec::VoBit)
            && mid.copy_marked(target, size).wf(),
        forall|step: SideMetadataView|
            step == (if mid.modes.vo_bit {
                mid.copy_marked(target, size).store(SideMetadataSpec::VoBit, target.0 as int, 1)
            } else {
                mid.copy_marked(target, size)
            }) ==> #[trigger] crate::util::object_forwarding::can_forward(step, object),
        mid.with_meta(forward_published(mid, object, target, size)).wf(),
        context.wf(mid.with_meta(forward_published(mid, object, target, size))),
        forwarded(
            before,
            mid.with_meta(forward_published(mid, object, target, size)),
            object,
            target,
            size,
            marked,
            false,
        ),
{
    crate::util::allocators::immix_allocator::lemma_allocation_frame_keeps(before, mid);
    lemma_block_of_in_space(mid.meta, target.0 as int);
    lemma_copy_marked_keeps_fitting(mid, target, size, context);
    lemma_copy_marked_tables(mid, target, size);
    let m1 = mid.copy_marked(target, size);
    let v1 = mid.with_meta(m1);
    assert(v1.wf());
    let m2 = if mid.modes.vo_bit {
        m1.store(SideMetadataSpec::VoBit, target.0 as int, 1)
    } else {
        m1
    };
    if mid.modes.vo_bit {
        lemma_store_keeps_blocks(v1, SideMetadataSpec::VoBit, target.0 as int, 1);
        lemma_store_tables(m1, SideMetadataSpec::VoBit, target.0 as int, 1);
    }
    let v2 = mid.with_meta(m2);
    assert(v2.wf());
    let m3 = m2.store_pointer(object.0 as int, target.0);
    lemma_store_pointer(m2, object.0 as int, target.0);
    lemma_pointer_update_wf(v2, m3);
    let v3 = mid.with_meta(m3);
    lemma_store_keeps_blocks(
        v3,
        SideMetadataSpec::ForwardingBits,
        object.0 as int,
        crate::util::object_forwarding::FORWARDED,
    );
    lemma_store_tables(
        m3,
        SideMetadataSpec::ForwardingBits,
        object.0 as int,
        crate::util::object_forwarding::FORWARDED,
    );
    let n = forward_published(mid, object, target, size);
    let m = before.meta;
    assert forall|b: int| block_state(n, b) == block_state(mid.meta, b) by {
        assert(block_state(m1, b) == block_state(mid.meta, b));
        assert(block_state(m2, b) == block_state(m1, b));
        assert(block_state(m3, b) == block_state(m2, b));
    }
    lemma_same_blocks_keep_fitting(mid, mid.with_meta(n), context);
    lemma_same_shape_transitive(mid.meta, m1, m2);
    lemma_same_shape_transitive(mid.meta, m2, m3);
    lemma_same_shape_transitive(mid.meta, m3, n);
    assert(same_shape(m, mid.meta)) by {
        reveal(crate::util::allocators::immix_allocator::allocation_frame);
    }
    lemma_same_shape_transitive(m, mid.meta, n);
    assert(blocks_kept(m, n)) by {
        reveal(crate::util::allocators::immix_allocator::allocation_frame);
    }
    assert(forall|spec: SideMetadataSpec|
        spec != SideMetadataSpec::BlockMark && spec != SideMetadataSpec::BlockHoles && spec
            != SideMetadataSpec::BlockDefragSource ==> table(mid.meta, spec) == table(m, spec)) by {
        reveal(crate::util::allocators::immix_allocator::allocation_frame);
    }
    assert(table(mid.meta, SideMetadataSpec::ObjectMark) == table(m, SideMetadataSpec::ObjectMark));
    assert(table(mid.meta, SideMetadataSpec::LineMark) == table(m, SideMetadataSpec::LineMark));
    assert(table(mid.meta, SideMetadataSpec::VoBit) == table(m, SideMetadataSpec::VoBit));
    assert(table(mid.meta, SideMetadataSpec::LogBit) == table(m, SideMetadataSpec::LogBit));
    assert(table(mid.meta, SideMetadataSpec::PinningBit) == table(m, SideMetadataSpec::PinningBit));
    assert(table(mid.meta, SideMetadataSpec::ForwardingBits) == table(
        m,
        SideMetadataSpec::ForwardingBits,
    ));
    assert(table(n, SideMetadataSpec::ObjectMark) == table(m1, SideMetadataSpec::ObjectMark)) by {
        assert(table(m2, SideMetadataSpec::ObjectMark) == table(m1, SideMetadataSpec::ObjectMark));
    }
    assert(table(n, SideMetadataSpec::LineMark) == table(m1, SideMetadataSpec::LineMark)) by {
        assert(table(m2, SideMetadataSpec::LineMark) == table(m1, SideMetadataSpec::LineMark));
    }
    assert(table(n, SideMetadataSpec::VoBit) == table(m2, SideMetadataSpec::VoBit));
    assert(table(n, SideMetadataSpec::LogBit) == table(m, SideMetadataSpec::LogBit)) by {
        assert(table(m1, SideMetadataSpec::LogBit) == table(mid.meta, SideMetadataSpec::LogBit));
        assert(table(m2, SideMetadataSpec::LogBit) == table(m1, SideMetadataSpec::LogBit));
    }
    assert(table(n, SideMetadataSpec::PinningBit) == table(m, SideMetadataSpec::PinningBit)) by {
        assert(table(m1, SideMetadataSpec::PinningBit) == table(
            mid.meta,
            SideMetadataSpec::PinningBit,
        ));
        assert(table(m2, SideMetadataSpec::PinningBit) == table(m1, SideMetadataSpec::PinningBit));
    }
    assert(table(m3, SideMetadataSpec::ForwardingBits) == table(m, SideMetadataSpec::ForwardingBits))
        by {
        assert(table(m1, SideMetadataSpec::ForwardingBits) == table(
            mid.meta,
            SideMetadataSpec::ForwardingBits,
        ));
        assert(table(m2, SideMetadataSpec::ForwardingBits) == table(
            m1,
            SideMetadataSpec::ForwardingBits,
        ));
    }
    assert(n.pointers == m.pointers.update(
        m.index(SideMetadataSpec::ForwardingPointer, object.0 as int),
        target.0,
    )) by {
        reveal(crate::util::allocators::immix_allocator::allocation_frame);
        assert(m1.pointers == mid.meta.pointers);
        assert(m2.pointers == m1.pointers);
    }
    assert(block_state(n, block_of(target.0 as int)) == block_state(
        mid.meta,
        block_of(target.0 as int),
    ));
    assert(forwarded(before, mid.with_meta(n), object, target, size, marked, false)) by {
        reveal(forwarded);
    }
}

impl ImmixSpaceView {
    /// The side metadata after the worker that won the right to forward
    /// `object` left it where it is: the object is marked, its forwarding
    /// word is cleared, its block is marked, and so are its lines unless
    /// that waits until the object is scanned; the object is recorded as
    /// valid and as unlogged where the space keeps such records.
    pub open spec fn marked_by_winner(self, object: ObjectReference, size: int) -> SideMetadataView {
        let m1 = self.meta.store(SideMetadataSpec::ObjectMark, object.0 as int, self.mark_state);
        let m2 = m1.store(
            SideMetadataSpec::ForwardingBits,
            object.0 as int,
            crate::util::object_forwarding::FORWARDING_NOT_TRIGGERED_YET,
        );
        let m3 = m2.store(SideMetadataSpec::BlockMark, block_of(object.0 as int), MARK_MARKED);
        let m4 = if self.modes.vo_bit {
            m3.store(SideMetadataSpec::VoBit, object.0 as int, 1)
        } else {
            m3
        };
        let m5 = if self.modes.mark_line_at_scan_time {
            m4
        } else {
            self.lines_marked(m4, object, size)
        };
        if self.args.unlog_object_when_traced {
            m5.store(SideMetadataSpec::LogBit, object.0 as int, 1)
        } else {
            m5
        }
    }

    /// The content after a worker tried to win the right to forward
    /// `object`.
    pub open spec fn after_attempt(self, object: ObjectReference) -> Self {
        if crate::util::object_forwarding::forwarding_status(self.meta, object.0 as int)
            == crate::util::object_forwarding::FORWARDING_NOT_TRIGGERED_YET {
            self.with_meta(
                self.meta.store(
                    SideMetadataSpec::ForwardingBits,
                    object.0 as int,
                    crate::util::object_forwarding::BEING_FORWARDED,
                ),
            )
        } else {
            self
        }
    }
}

/// What a trace without moving leaves behind: on the first visit the
/// object is marked and enqueued, and on a later visit nothing changes.
pub open spec fn traced_without_moving(
    before: ImmixSpaceView,
    after: ImmixSpaceView,
    queue_before: Seq<ObjectReference>,
    queue_after: Seq<ObjectReference>,
    object: ObjectReference,
    size: int,
) -> bool {
    if before.is_marked(object) {
        after == before && queue_after == queue_before
    } else {
        after == before.with_meta(before.marked_in_place(object, size)) && queue_after
            == queue_before.push(object)
    }
}

/// Whether `after` is what the winner leaves that tried to copy `object`,
/// found no memory for the copy, and marked the object in place: some
/// content `mid` that differs from `before` by what an allocation may
/// change, with the object marked in place.
#[verifier::opaque]
pub open spec fn marked_after_failed_copy(
    before: ImmixSpaceView,
    after: ImmixSpaceView,
    object: ObjectReference,
    size: int,
) -> bool {
    exists|mid: ImmixSpaceView|
        #![trigger mid.marked_by_winner(object, size)]
        {
            &&& crate::util::allocators::immix_allocator::allocation_frame(before, mid)
            &&& mid.wf()
            &&& after == mid.with_meta(mid.marked_by_winner(object, size))
        }
}

/// A content `mid` shows that `after` is what a failed copy leaves.
pub proof fn lemma_marked_after_failed_copy(
    before: ImmixSpaceView,
    mid: ImmixSpaceView,
    after: ImmixSpaceView,
    object: ObjectReference,
    size: int,
)
    requires
        crate::util::allocators::immix_allocator::allocation_frame(before, mid),
        mid.wf(),
        after == mid.with_meta(mid.marked_by_winner(object, size)),
    ensures
        marked_after_failed_copy(before, after, object, size),
{
    reveal(marked_after_failed_copy);
}

/// What a trace with opportunistic copying leaves behind, after the
/// try to win the right to forward `object` found the forwarding state
/// `found`.
///
/// A worker that lost gets what the winner left, the copy or the object
/// itself, and changes nothing. The winner clears the forwarding word of
/// an object that is marked already. It marks and enqueues in place an
/// object that is pinned, or for which no headroom is left outside of a
/// nursery collection. Any other object it forwards and enqueues the copy;
/// if the space has no memory for the copy, it marks and enqueues the
/// object in place.
pub open spec fn traced_with_copy(
    before: ImmixSpaceView,
    after: ImmixSpaceView,
    queue_before: Seq<ObjectReference>,
    queue_after: Seq<ObjectReference>,
    vm_before: Map<usize, ObjectView>,
    vm_after: Map<usize, ObjectView>,
    object: ObjectReference,
    result: ObjectReference,
    found: u8,
    marked: bool,
    nursery_collection: bool,
) -> bool {
    let size = vm_before[object.0].size as int;
    if found != crate::util::object_forwarding::FORWARDING_NOT_TRIGGERED_YET {
        &&& result == crate::util::object_forwarding::forwarded_object(before.meta, object)
        &&& after == before
        &&& queue_after == queue_before
        &&& vm_after == vm_before
    } else if before.is_marked(object) {
        &&& result == object
        &&& after == before.with_meta(
            before.meta.store(
                SideMetadataSpec::ForwardingBits,
                object.0 as int,
                crate::util::object_forwarding::FORWARDING_NOT_TRIGGERED_YET,
            ),
        )
        &&& queue_after == queue_before
        &&& vm_after == vm_before
    } else if before.is_pinned(object) || (!nursery_collection && before.defrag.space_exhausted) {
        &&& result == object
        &&& after == before.with_meta(before.marked_by_winner(object, size))
        &&& queue_after == queue_before.push(object)
        &&& vm_after == vm_before
    } else if crate::util::object_forwarding::forwarding_status(after.meta, object.0 as int)
        == crate::util::object_forwarding::FORWARDED {
        &&& forwarded(before, after, object, result, size, marked, true)
        &&& queue_after == queue_before.push(result)
        &&& vm_after == vm_before.insert(result.0, vm_before[object.0])
    } else {
        &&& result == object
        &&& queue_after == queue_before.push(object)
        &&& vm_after == vm_before
        &&& !after.pr.can_acquire()
        &&& marked_after_failed_copy(before, after, object, size)
    }
}

/// What marking in place as the winner changes in the tables, and that it
/// keeps the space sound.
pub proof fn lemma_marked_by_winner(view: ImmixSpaceView, object: ObjectReference, size: int)
    requires
        view.wf(),
        !view.modes.block_only,
        view.in_space(object),
        block_state(view.meta, block_of(object.0 as int)) != BlockState::Unallocated,
    ensures
        view.with_meta(view.marked_by_winner(object, size)).wf(),
        view.with_meta(view.marked_by_winner(object, size)).is_marked(object),
        crate::util::object_forwarding::forwarding_status(
            view.marked_by_winner(object, size),
            object.0 as int,
        ) == crate::util::object_forwarding::FORWARDING_NOT_TRIGGERED_YET,
        block_state(view.marked_by_winner(object, size), block_of(object.0 as int))
            == BlockState::Marked,
        blocks_kept(view.meta, view.marked_by_winner(object, size)),
        same_shape(view.meta, view.marked_by_winner(object, size)),
        view.marked_by_winner(object, size).pointers == view.meta.pointers,
{
    let o = object.0 as int;
    let b = block_of(o);
    lemma_block_of_in_space(view.meta, o);
    lemma_store_keeps_blocks(view, SideMetadataSpec::ObjectMark, o, view.mark_state);
    lemma_store_tables(view.meta, SideMetadataSpec::ObjectMark, o, view.mark_state);
    let m1 = view.meta.store(SideMetadataSpec::ObjectMark, o, view.mark_state);
    let v1 = view.with_meta(m1);
    lemma_store_keeps_blocks(v1, SideMetadataSpec::ForwardingBits, o, 0);
    lemma_store_tables(m1, SideMetadataSpec::ForwardingBits, o, 0);
    let m2 = m1.store(SideMetadataSpec::ForwardingBits, o, 0);
    let v2 = view.with_meta(m2);
    assert(block_state(m2, b) == block_state(view.meta, b)) by {
        assert(block_state(m1, b) == block_state(view.meta, b));
    }
    lemma_set_state_wf(v2, Block(b as usize), BlockState::Marked);
    lemma_store_tables(m2, SideMetadataSpec::BlockMark, b, MARK_MARKED);
    let m3 = m2.store(SideMetadataSpec::BlockMark, b, MARK_MARKED);
    let v3 = view.with_meta(m3);
    assert forall|x: int| view.meta.contains(x) && x % 32768 == 0 implies #[trigger] block_state(m3, x)
        == (if x == b {
        BlockState::Marked
    } else {
        block_state(view.meta, x)
    }) by {
        assert(block_state(m2, x) == block_state(m1, x));
        assert(block_state(m1, x) == block_state(view.meta, x));
    }
    let m4 = if view.modes.vo_bit {
        m3.store(SideMetadataSpec::VoBit, o, 1)
    } else {
        m3
    };
    if view.modes.vo_bit {
        lemma_store_keeps_blocks(v3, SideMetadataSpec::VoBit, o, 1);
        lemma_store_tables(m3, SideMetadataSpec::VoBit, o, 1);
    }
    let v4 = view.with_meta(m4);
    let m5 = if view.modes.mark_line_at_scan_time {
        m4
    } else {
        view.lines_marked(m4, object, size)
    };
    if !view.modes.mark_line_at_scan_time {
        lemma_fill_lines_keeps_blocks(
            v4,
            span_start(o),
            span_bytes(o, size),
            view.line_mark_state,
        );
        lemma_fill_tables(
            m4,
            SideMetadataSpec::LineMark,
            span_start(o),
            span_bytes(o, size),
            view.line_mark_state,
        );
    }
    let v5 = view.with_meta(m5);
    let m6 = view.marked_by_winner(object, size);
    if view.args.unlog_object_when_traced {
        lemma_store_keeps_blocks(v5, SideMetadataSpec::LogBit, o, 1);
        lemma_store_tables(m5, SideMetadataSpec::LogBit, o, 1);
    }
    assert forall|x: int| view.meta.contains(x) && x % 32768 == 0 implies #[trigger] block_state(m6, x)
        == (if x == b {
        BlockState::Marked
    } else {
        block_state(view.meta, x)
    }) by {
        assert(block_state(m6, x) == block_state(m5, x));
        assert(block_state(m5, x) == block_state(m4, x));
        assert(block_state(m4, x) == block_state(m3, x));
    }
    lemma_same_shape_transitive(view.meta, m1, m2);
    lemma_same_shape_transitive(view.meta, m2, m3);
    lemma_same_shape_transitive(view.meta, m3, m4);
    lemma_same_shape_transitive(view.meta, m4, m5);
    lemma_same_shape_transitive(view.meta, m5, m6);
    assert(table(m6, SideMetadataSpec::ObjectMark) == table(m1, SideMetadataSpec::ObjectMark)) by {
        assert(table(m2, SideMetadataSpec::ObjectMark) == table(m1, SideMetadataSpec::ObjectMark));
        assert(table(m3, SideMetadataSpec::ObjectMark) == table(m2, SideMetadataSpec::ObjectMark));
        assert(table(m4, SideMetadataSpec::ObjectMark) == table(m3, SideMetadataSpec::ObjectMark));
        assert(table(m5, SideMetadataSpec::ObjectMark) == table(m4, SideMetadataSpec::ObjectMark));
    }
    assert(table(m6, SideMetadataSpec::ForwardingBits) == table(m2, SideMetadataSpec::ForwardingBits))
        by {
        assert(table(m3, SideMetadataSpec::ForwardingBits) == table(
            m2,
            SideMetadataSpec::ForwardingBits,
        ));
        assert(table(m4, SideMetadataSpec::ForwardingBits) == table(
            m3,
            SideMetadataSpec::ForwardingBits,
        ));
        assert(table(m5, SideMetadataSpec::ForwardingBits) == table(
            m4,
            SideMetadataSpec::ForwardingBits,
        ));
    }
    crate::util::metadata::lemma_index_in_table(view.meta, SideMetadataSpec::ObjectMark, o);
    crate::util::metadata::lemma_index_in_table(view.meta, SideMetadataSpec::ForwardingBits, o);
}

impl ImmixSpace {
    /// Marks `object` in place on behalf of the worker that won the right
    /// to forward it.
    pub(crate) fn mark_in_place_as_winner(&mut self, object: ObjectReference, vm: &ObjectModel)
        requires
            old(self)@.wf(),
            !old(self)@.modes.block_only,
            old(self)@.holds_object(vm@, object),
        ensures
            final(self)@.wf(),
            final(self)@ == old(self)@.with_meta(
                old(self)@.marked_by_winner(object, vm@[object.0].size as int),
            ),
    {
        let mark_state = self.mark_state;
        self.attempt_mark(object, mark_state);
        proof {
            lemma_store_keeps_blocks(
                self@,
                SideMetadataSpec::ForwardingBits,
                object.0 as int,
                crate::util::object_forwarding::FORWARDING_NOT_TRIGGERED_YET,
            );
        }
        crate::util::object_forwarding::clear_forwarding_bits(&mut self.metadata, object);
        proof {
            lemma_block_of_in_space(self@.meta, object.0 as int);
        }
        self.set_block_state(Block::containing(object), BlockState::Marked);
        if self.modes.vo_bit {
            proof {
                lemma_store_keeps_blocks(self@, SideMetadataSpec::VoBit, object.0 as int, 1);
            }
            self.metadata.store(SideMetadataSpec::VoBit, Address(object.0), 1);
        }
        if !self.modes.mark_line_at_scan_time {
            self.mark_lines(object, vm);
        }
        self.unlog_object_if_needed(object);
    }

    /// Records the copy `target` of `object` as unlogged if the space
    /// does so for traced objects.
    fn unlog_copy(
        &mut self,
        object: ObjectReference,
        target: ObjectReference,
        worker: &crate::scheduler::worker::GCWorker,
        before: Ghost<ImmixSpaceView>,
        size: Ghost<int>,
        marked: Ghost<bool>,
    )
        requires
            old(self)@.wf(),
            before@.wf(),
            before@.in_space(object),
            old(self)@.in_space(target),
            worker.wf(old(self)@),
            forwarded(before@, old(self)@, object, target, size@, marked@, false),
        ensures
            final(self)@.wf(),
            worker.wf(final(self)@),
            worker.copy.allocates_marked(final(self)@) == worker.copy.allocates_marked(old(self)@),
            final(self)@.modes == before@.modes,
            final(self)@.pr == old(self)@.pr,
            forwarded(before@, final(self)@, object, target, size@, marked@, true),
            crate::util::object_forwarding::forwarding_status(final(self)@.meta, object.0 as int)
                == crate::util::object_forwarding::FORWARDED,
    {
        proof {
            lemma_forwarded_then_unlogged(before@, self@, object, target, size@, marked@);
            if self@.args.unlog_object_when_traced {
                lemma_store_keeps_blocks(self@, SideMetadataSpec::LogBit, target.0 as int, 1);
                lemma_same_blocks_keep_fitting(
                    self@,
                    self@.with_meta(self@.meta.store(SideMetadataSpec::LogBit, target.0 as int, 1)),
                    worker.copy,
                );
            }
        }
        self.unlog_object_if_needed(target);
    }

    /// Marks `object` in place after the try to copy it found no memory.
    fn mark_after_failed_copy(
        &mut self,
        object: ObjectReference,
        worker: &crate::scheduler::worker::GCWorker,
        vm: &ObjectModel,
        before: Ghost<ImmixSpaceView>,
    )
        requires
            old(self)@.wf(),
            !old(self)@.modes.block_only,
            old(self)@.holds_object(vm@, object),
            worker.wf(old(self)@),
            crate::util::allocators::immix_allocator::allocation_frame(before@, old(self)@),
        ensures
            final(self)@.wf(),
            worker.wf(final(self)@),
            worker.copy.allocates_marked(final(self)@) == worker.copy.allocates_marked(old(self)@),
            final(self)@.modes == old(self)@.modes,
            final(self)@.pr == old(self)@.pr,
            marked_after_failed_copy(before@, final(self)@, object, vm@[object.0].size as int),
            crate::util::object_forwarding::forwarding_status(final(self)@.meta, object.0 as int)
                == crate::util::object_forwarding::FORWARDING_NOT_TRIGGERED_YET,
    {
        let ghost mid = self@;
        let ghost size = vm@[object.0].size as int;
        proof {
            lemma_marked_by_winner(mid, object, size);
            lemma_same_blocks_keep_fitting(
                mid,
                mid.with_meta(mid.marked_by_winner(object, size)),
                worker.copy,
            );
            lemma_marked_after_failed_copy(
                before@,
                mid,
                mid.with_meta(mid.marked_by_winner(object, size)),
                object,
                size,
            );
        }
        self.mark_in_place_as_winner(object, vm);
    }

    /// Forwards `object` as the worker that won the right to do so, or
    /// marks it in place if the space has no memory for the copy.
    fn forward_or_mark(
        &mut self,
        object: ObjectReference,
        semantics: crate::util::copy::CopySemantics,
        worker: &mut crate::scheduler::worker::GCWorker,
        vm: &mut ObjectModel,
    ) -> (r: ObjectReference)
        requires
            old(self)@.wf(),
            !old(self)@.modes.block_only,
            old(self)@.holds_object(old(vm)@, object),
            old(worker).wf(old(self)@),
        ensures
            final(self)@.wf(),
            final(worker).wf(final(self)@),
            final(worker).tls == old(worker).tls,
            final(worker).ordinal == old(worker).ordinal,
            final(worker).live_bytes == old(worker).live_bytes,
            final(worker).copy.allocates_marked(final(self)@) == old(worker).copy.allocates_marked(
                old(self)@,
            ),
            final(self)@.modes == old(self)@.modes,
            if crate::util::object_forwarding::forwarding_status(final(self)@.meta, object.0 as int)
                == crate::util::object_forwarding::FORWARDED {
                &&& forwarded(
                    old(self)@,
                    final(self)@,
                    object,
                    r,
                    old(vm)@[object.0].size as int,
                    old(worker).copy.allocates_marked(old(self)@),
                    true,
                )
                &&& final(vm)@ == old(vm)@.insert(r.0, old(vm)@[object.0])
            } else {
                &&& r == object
                &&& final(vm)@ == old(vm)@
                &&& !final(self)@.pr.can_acquire()
                &&& marked_after_failed_copy(
                    old(self)@,
                    final(self)@,
                    object,
                    old(vm)@[object.0].size as int,
                )
            },
    {
        let ghost size = vm@[object.0].size as int;
        let ghost before = self@;
        let ghost marked = worker.copy.allocates_marked(before);
        match self.forward_object(object, semantics, &mut worker.copy, vm) {
            Some(target) => {
                self.unlog_copy(object, target, worker, Ghost(before), Ghost(size), Ghost(marked));
                target
            },
            None => {
                proof {
                    crate::util::allocators::immix_allocator::lemma_allocation_frame_keeps(
                        before,
                        self@,
                    );
                    lemma_block_of_in_space(before.meta, object.0 as int);
                }
                self.mark_after_failed_copy(object, worker, vm, Ghost(before));
                object
            },
        }
    }

    /// Finishes a trace with opportunistic copying as the worker that won
    /// the right to forward `object`.
    fn trace_as_winner<Q: ObjectQueue>(
        &mut self,
        queue: &mut Q,
        object: ObjectReference,
        semantics: crate::util::copy::CopySemantics,
        worker: &mut crate::scheduler::worker::GCWorker,
        vm: &mut ObjectModel,
        nursery_collection: bool,
    ) -> (r: ObjectReference)
        requires
            old(self)@.wf(),
            !old(self)@.modes.block_only,
            old(self)@.holds_object(old(vm)@, object),
            old(worker).wf(old(self)@),
        ensures
            final(self)@.wf(),
            final(worker).wf(final(self)@),
            final(worker).tls == old(worker).tls,
            final(worker).ordinal == old(worker).ordinal,
            final(worker).live_bytes == old(worker).live_bytes,
            final(worker).copy.allocates_marked(final(self)@) == old(worker).copy.allocates_marked(
                old(self)@,
            ),
            traced_with_copy(
                old(self)@,
                final(self)@,
                old(queue).nodes(),
                final(queue).nodes(),
                old(vm)@,
                final(vm)@,
                object,
                r,
                crate::util::object_forwarding::FORWARDING_NOT_TRIGGERED_YET,
                old(worker).copy.allocates_marked(old(self)@),
                nursery_collection,
            ),
    {
        let ghost size = vm@[object.0].size as int;
        if self.is_marked(object) {
            proof {
                lemma_store_keeps_blocks(
                    self@,
                    SideMetadataSpec::ForwardingBits,
                    object.0 as int,
                    crate::util::object_forwarding::FORWARDING_NOT_TRIGGERED_YET,
                );
                lemma_same_blocks_keep_fitting(
                    self@,
                    self@.with_meta(
                        self@.meta.store(
                            SideMetadataSpec::ForwardingBits,
                            object.0 as int,
                            crate::util::object_forwarding::FORWARDING_NOT_TRIGGERED_YET,
                        ),
                    ),
                    worker.copy,
                );
            }
            crate::util::object_forwarding::clear_forwarding_bits(&mut self.metadata, object);
            object
        } else if self.is_pinned(object) || (!nursery_collection && self.defrag.space_exhausted()) {
            proof {
                lemma_marked_by_winner(self@, object, size);
                lemma_same_blocks_keep_fitting(
                    self@,
                    self@.with_meta(self@.marked_by_winner(object, size)),
                    worker.copy,
                );
            }
            self.mark_in_place_as_winner(object, vm);
            queue.enqueue(object);
            object
        } else {
            let new_object = self.forward_or_mark(object, semantics, worker, vm);
            queue.enqueue(new_object);
            new_object
        }
    }

    /// Finishes a trace with opportunistic copying after the try to win
    /// the right to forward `object` found the forwarding state
    /// `forwarding_status`. Returns the object that stands for `object`
    /// from now on. A worker that lost waits for the winner, so the
    /// winner must be done.
    pub fn trace_forwarding_result<Q: ObjectQueue>(
        &mut self,
        queue: &mut Q,
        object: ObjectReference,
        forwarding_status: u8,
        semantics: crate::util::copy::CopySemantics,
        worker: &mut crate::scheduler::worker::GCWorker,
        vm: &mut ObjectModel,
        nursery_collection: bool,
    ) -> (r: ObjectReference)
        requires
            old(self)@.wf(),
            !old(self)@.modes.block_only,
            old(self)@.holds_object(old(vm)@, object),
            old(worker).wf(old(self)@),
            forwarding_status != crate::util::object_forwarding::FORWARDING_NOT_TRIGGERED_YET
                ==> crate::util::object_forwarding::forwarding_status(
                old(self)@.meta,
                object.0 as int,
            ) != crate::util::object_forwarding::BEING_FORWARDED,
            forwarding_status == crate::util::object_forwarding::FORWARDED
                ==> crate::util::object_forwarding::forwarding_status(
                old(self)@.meta,
                object.0 as int,
            ) == crate::util::object_forwarding::FORWARDED,
        ensures
            final(self)@.wf(),
            final(worker).wf(final(self)@),
            final(worker).tls == old(worker).tls,
            final(worker).ordinal == old(worker).ordinal,
            final(worker).live_bytes == old(worker).live_bytes,
            final(worker).copy.allocates_marked(final(self)@) == old(worker).copy.allocates_marked(
                old(self)@,
            ),
            traced_with_copy(
                old(self)@,
                final(self)@,
                old(queue).nodes(),
                final(queue).nodes(),
                old(vm)@,
                final(vm)@,
                object,
                r,
                forwarding_status,
                old(worker).copy.allocates_marked(old(self)@),
                nursery_collection,
            ),
    {
        if crate::util::object_forwarding::state_is_forwarded_or_being_forwarded(forwarding_status) {
            let bits = if forwarding_status == crate::util::object_forwarding::FORWARDED {
                forwarding_status
            } else {
                crate::util::object_forwarding::BEING_FORWARDED
            };
            crate::util::object_forwarding::spin_and_get_forwarded_object(
                &self.metadata,
                object,
                bits,
            )
        } else {
            self.trace_as_winner(queue, object, semantics, worker, vm, nursery_collection)
        }
    }

    /// Traces `object` and evacuates it if that is called for and
    /// possible. Returns the object that stands for `object` from now on.
    /// No other worker may be in the middle of forwarding `object`, else
    /// the wait for it would not end.
    pub fn trace_object_with_opportunistic_copy<Q: ObjectQueue>(
        &mut self,
        queue: &mut Q,
        object: ObjectReference,
        semantics: crate::util::copy::CopySemantics,
        worker: &mut crate::scheduler::worker::GCWorker,
        vm: &mut ObjectModel,
        nursery_collection: bool,
    ) -> (r: ObjectReference)
        requires
            old(self)@.wf(),
            !old(self)@.modes.block_only,
            old(self)@.holds_object(old(vm)@, object),
            old(worker).wf(old(self)@),
            crate::util::object_forwarding::forwarding_status(old(self)@.meta, object.0 as int)
                != crate::util::object_forwarding::BEING_FORWARDED,
        ensures
            final(self)@.wf(),
            final(worker).wf(final(self)@),
            final(worker).tls == old(worker).tls,
            final(worker).ordinal == old(worker).ordinal,
            final(worker).live_bytes == old(worker).live_bytes,
            final(worker).copy.allocates_marked(final(self)@) == old(worker).copy.allocates_marked(
                old(self)@,
            ),
            traced_with_copy(
                old(self)@.after_attempt(object),
                final(self)@,
                old(queue).nodes(),
                final(queue).nodes(),
                old(vm)@,
                final(vm)@,
                object,
                r,
                crate::util::object_forwarding::forwarding_status(old(self)@.meta, object.0 as int),
                old(worker).copy.allocates_marked(old(self)@),
                nursery_collection,
            ),
    {
        proof {
            lemma_store_keeps_blocks(
                self@,
                SideMetadataSpec::ForwardingBits,
                object.0 as int,
                crate::util::object_forwarding::BEING_FORWARDED,
            );
            lemma_same_blocks_keep_fitting(self@, self@.after_attempt(object), worker.copy);
        }
        let forwarding_status = crate::util::object_forwarding::attempt_to_forward(
            &mut self.metadata,
            object,
        );
        self.trace_forwarding_result(
            queue,
            object,
            forwarding_status,
            semantics,
            worker,
            vm,
            nursery_collection,
        )
    }
}

/// Recording the copy as unlogged completes what forwarding changes.
#[verifier::rlimit(40)]
pub proof fn lemma_forwarded_then_unlogged(
    before: ImmixSpaceView,
    mid: ImmixSpaceView,
    object: ObjectReference,
    target: ObjectReference,
    size: int,
    marked: bool,
)
    requires
        before.wf(),
        mid.wf(),
        before.in_space(object),
        forwarded(before, mid, object, target, size, marked, false),
    ensures
        forwarded(
            before,
            mid.with_meta(
                if mid.args.unlog_object_when_traced {
                    mid.meta.store(SideMetadataSpec::LogBit, target.0 as int, 1)
                } else {
                    mid.meta
                },
            ),
            object,
            target,
            size,
            marked,
            true,
        ),
        crate::util::object_forwarding::forwarding_status(
            mid.meta.store(SideMetadataSpec::LogBit, target.0 as int, 1),
            object.0 as int,
        ) == crate::util::object_forwarding::FORWARDED,
        crate::util::object_forwarding::forwarding_status(mid.meta, object.0 as int)
            == crate::util::object_forwarding::FORWARDED,
        mid.modes == before.modes,
{
    reveal(forwarded);
    crate::util::metadata::lemma_index_in_table(
        before.meta,
        SideMetadataSpec::ForwardingBits,
        object.0 as int,
    );
    assert(mid.meta.index(SideMetadataSpec::ForwardingBits, object.0 as int) == before.meta.index(
        SideMetadataSpec::ForwardingBits,
        object.0 as int,
    ));
    if mid.args.unlog_object_when_traced {
        let after = mid.with_meta(mid.meta.store(SideMetadataSpec::LogBit, target.0 as int, 1));
        lemma_store_tables(mid.meta, SideMetadataSpec::LogBit, target.0 as int, 1);
        lemma_store_keeps_blocks(mid, SideMetadataSpec::LogBit, target.0 as int, 1);
        lemma_same_shape_transitive(before.meta, mid.meta, after.meta);
        assert(blocks_kept(before.meta, after.meta)) by {
            assert forall|b: int| block_state(after.meta, b) == block_state(mid.meta, b) by {}
        }
        assert(table(after.meta, SideMetadataSpec::ObjectMark) == table(
            mid.meta,
            SideMetadataSpec::ObjectMark,
        ));
        assert(table(after.meta, SideMetadataSpec::ForwardingBits) == table(
            mid.meta,
            SideMetadataSpec::ForwardingBits,
        ));
        assert(table(after.meta, SideMetadataSpec::LineMark) == table(
            mid.meta,
            SideMetadataSpec::LineMark,
        ));
        assert(table(after.meta, SideMetadataSpec::VoBit) == table(mid.meta, SideMetadataSpec::VoBit));
        assert(table(after.meta, SideMetadataSpec::PinningBit) == table(
            mid.meta,
            SideMetadataSpec::PinningBit,
        ));
        assert(mid.meta.index(SideMetadataSpec::LogBit, target.0 as int) == before.meta.index(
            SideMetadataSpec::LogBit,
            target.0 as int,
        ));
    }
}

/// Whether a trace of kind `kind` may move `object`: the trace is the
/// defragmenting one, and the block of the object is to be evacuated.
pub open spec fn trace_moves(view: ImmixSpaceView, object: ObjectReference, kind: TraceKind) -> bool {
    kind == TRACE_KIND_DEFRAG && block_is_defrag_source(view.meta, block_of(object.0 as int))
}

/// What a trace of kind `kind` leaves behind: what a trace with
/// opportunistic copying leaves if the trace may move the object, and
/// what a trace without moving leaves otherwise.
pub open spec fn space_traced(
    before: ImmixSpaceView,
    after: ImmixSpaceView,
    queue_before: Seq<ObjectReference>,
    queue_after: Seq<ObjectReference>,
    vm_before: Map<usize, ObjectView>,
    vm_after: Map<usize, ObjectView>,
    object: ObjectReference,
    result: ObjectReference,
    kind: TraceKind,
    marked: bool,
) -> bool {
    if trace_moves(before, object, kind) {
        traced_with_copy(
            before.after_attempt(object),
            after,
            queue_before,
            queue_after,
            vm_before,
            vm_after,
            object,
            result,
            crate::util::object_forwarding::forwarding_status(before.meta, object.0 as int),
            marked,
            false,
        )
    } else {
        &&& result == object
        &&& vm_after == vm_before
        &&& traced_without_moving(
            before,
            after,
            queue_before,
            queue_after,
            object,
            vm_before[object.0].size as int,
        )
    }
}

/// Marking an object in place keeps blocks in use and marked blocks
/// marked, so that allocators keep fitting the space.
pub proof fn lemma_marked_in_place_keeps_fitting(
    view: ImmixSpaceView,
    object: ObjectReference,
    size: int,
    context: crate::util::copy::GCWorkerCopyContext,
)
    requires
        view.wf(),
        view.in_space(object),
        block_state(view.meta, block_of(object.0 as int)) != BlockState::Unallocated,
        context.wf(view),
    ensures
        context.wf(view.with_meta(view.marked_in_place(object, size))),
{
    let o = object.0 as int;
    let b = block_of(o);
    lemma_block_of_in_space(view.meta, o);
    lemma_store_keeps_blocks(view, SideMetadataSpec::ObjectMark, o, view.mark_state);
    let m1 = view.meta.store(SideMetadataSpec::ObjectMark, o, view.mark_state);
    let v1 = view.with_meta(m1);
    let m2 = if view.modes.block_only {
        m1.store(SideMetadataSpec::BlockMark, b, MARK_MARKED)
    } else if view.modes.mark_line_at_scan_time {
        m1
    } else {
        view.lines_marked(m1, object, size)
    };
    if view.modes.block_only {
        lemma_set_state_wf(v1, Block(b as usize), BlockState::Marked);
    } else if !view.modes.mark_line_at_scan_time {
        lemma_fill_lines_keeps_blocks(v1, span_start(o), span_bytes(o, size), view.line_mark_state);
    }
    let v2 = view.with_meta(m2);
    assert(v2.wf());
    assert forall|x: int| view.meta.contains(x) && x % 32768 == 0 implies #[trigger] block_state(m2, x)
        == (if x == b && view.modes.block_only {
        BlockState::Marked
    } else {
        block_state(view.meta, x)
    }) by {
        assert(block_state(m1, x) == block_state(view.meta, x));
    }
    let m3 = if view.modes.vo_bit {
        m2.store(SideMetadataSpec::VoBit, o, 1)
    } else {
        m2
    };
    if view.modes.vo_bit {
        lemma_store_keeps_blocks(v2, SideMetadataSpec::VoBit, o, 1);
    }
    let v3 = view.with_meta(m3);
    let m4 = view.marked_in_place(object, size);
    if view.args.unlog_object_when_traced {
        lemma_store_keeps_blocks(v3, SideMetadataSpec::LogBit, o, 1);
    }
    assert forall|x: int| view.meta.contains(x) && x % 32768 == 0 implies #[trigger] block_state(m4, x)
        == (if x == b && view.modes.block_only {
        BlockState::Marked
    } else {
        block_state(view.meta, x)
    }) by {
        assert(block_state(m4, x) == block_state(m3, x));
        assert(block_state(m3, x) == block_state(m2, x));
    }
    lemma_same_blocks_keep_fitting(view, view.with_meta(m4), context);
}

impl ImmixSpace {
    /// Traces `object` with a trace of kind `kind`: the defragmenting
    /// trace evacuates the object if it can and if the block of the
    /// object is to be evacuated; every other trace marks the object in
    /// place. Returns the object that stands for `object` from now on.
    pub fn trace_object<Q: ObjectQueue>(
        &mut self,
        queue: &mut Q,
        object: ObjectReference,
        copy: Option<crate::util::copy::CopySemantics>,
        worker: &mut crate::scheduler::worker::GCWorker,
        vm: &mut ObjectModel,
        kind: TraceKind,
    ) -> (r: ObjectReference)
        requires
            old(self)@.wf(),
            old(self)@.holds_object(old(vm)@, object),
            old(worker).wf(old(self)@),
            kind == TRACE_KIND_FAST || kind == TRACE_KIND_DEFRAG || kind == TRACE_KIND_TRANSITIVE_PIN,
            trace_moves(old(self)@, object, kind) ==> copy.is_some() && !old(self)@.modes.block_only
                && crate::util::object_forwarding::forwarding_status(
                old(self)@.meta,
                object.0 as int,
            ) != crate::util::object_forwarding::BEING_FORWARDED,
        ensures
            final(self)@.wf(),
            final(worker).wf(final(self)@),
            final(worker).tls == old(worker).tls,
            final(worker).ordinal == old(worker).ordinal,
            final(worker).live_bytes == old(worker).live_bytes,
            final(worker).copy.allocates_marked(final(self)@) == old(worker).copy.allocates_marked(
                old(self)@,
            ),
            space_traced(
                old(self)@,
                final(self)@,
                old(queue).nodes(),
                final(queue).nodes(),
                old(vm)@,
                final(vm)@,
                object,
                r,
                kind,
                old(worker).copy.allocates_marked(old(self)@),
            ),
    {
        proof {
            lemma_block_of_in_space(self@.meta, object.0 as int);
            lemma_marked_in_place_keeps_fitting(
                self@,
                object,
                vm@[object.0].size as int,
                worker.copy,
            );
        }
        if kind == TRACE_KIND_TRANSITIVE_PIN {
            self.trace_object_without_moving(queue, object, vm)
        } else if kind == TRACE_KIND_DEFRAG {
            if Block::containing(object).is_defrag_source(&self.metadata) {
                match copy {
                    Some(semantics) => self.trace_object_with_opportunistic_copy(
                        queue,
                        object,
                        semantics,
                        worker,
                        vm,
                        false,
                    ),
                    None => object,
                }
            } else {
                self.trace_object_without_moving(queue, object, vm)
            }
        } else {
            self.trace_object_without_moving(queue, object, vm)
        }
    }
}

/// What writing a forwarding pointer changes.
pub proof fn lemma_store_pointer(meta: SideMetadataView, addr: int, value: usize)
    requires
        meta.wf(),
        meta.has(SideMetadataSpec::ForwardingPointer),
        meta.contains(addr),
    ensures
        same_shape(meta, meta.store_pointer(addr, value)),
        meta.store_pointer(addr, value).wf(),
        meta.store_pointer(addr, value).tables == meta.tables,
        forall|b: int| block_state(meta.store_pointer(addr, value), b) == block_state(meta, b),
{
    crate::util::metadata::lemma_index_in_table(meta, SideMetadataSpec::ForwardingPointer, addr);
}

/// A space stays sound when only its forwarding pointers change.
pub proof fn lemma_pointer_update_wf(view: ImmixSpaceView, meta: SideMetadataView)
    requires
        view.wf(),
        meta.wf(),
        same_shape(view.meta, meta),
        meta.tables == view.meta.tables,
    ensures
        view.with_meta(meta).wf(),
{
    assert forall|b: int| block_state(meta, b) == block_state(view.meta, b) by {}
    lemma_meta_update_wf(view, meta);
}

/// What finishing a copy changes in the tables.
pub proof fn lemma_copy_marked_tables(view: ImmixSpaceView, object: ObjectReference, size: int)
    requires
        view.wf(),
        !view.modes.block_only,
        view.in_space(object),
    ensures
        same_shape(view.meta, view.copy_marked(object, size)),
        view.copy_marked(object, size).pointers == view.meta.pointers,
        table(view.copy_marked(object, size), SideMetadataSpec::ObjectMark) == table(
            view.meta,
            SideMetadataSpec::ObjectMark,
        ).update(view.meta.index(SideMetadataSpec::ObjectMark, object.0 as int), view.mark_state),
        table(view.copy_marked(object, size), SideMetadataSpec::LineMark) == (
        if view.modes.mark_line_at_scan_time {
            table(view.meta, SideMetadataSpec::LineMark)
        } else {
            crate::util::metadata::filled(
                table(view.meta, SideMetadataSpec::LineMark),
                view.meta.index(SideMetadataSpec::LineMark, span_start(object.0 as int)),
                span_bytes(object.0 as int, size) / 256,
                view.line_mark_state,
            )
        }),
        forall|other: SideMetadataSpec|
            other != SideMetadataSpec::ObjectMark && other != SideMetadataSpec::LineMark
                ==> #[trigger] table(view.copy_marked(object, size), other) == table(view.meta, other),
        forall|b: int| block_state(view.copy_marked(object, size), b) == block_state(view.meta, b),
{
    lemma_store_tables(view.meta, SideMetadataSpec::ObjectMark, object.0 as int, view.mark_state);
    lemma_store_keeps_blocks(view, SideMetadataSpec::ObjectMark, object.0 as int, view.mark_state);
    let m1 = view.meta.store(SideMetadataSpec::ObjectMark, object.0 as int, view.mark_state);
    if !view.modes.mark_line_at_scan_time {
        assert(m1.has(SideMetadataSpec::LineMark)) by {
            assert(table(m1, SideMetadataSpec::LineMark) == table(
                view.meta,
                SideMetadataSpec::LineMark,
            ));
        }
        lemma_fill_tables(
            m1,
            SideMetadataSpec::LineMark,
            span_start(object.0 as int),
            span_bytes(object.0 as int, size),
            view.line_mark_state,
        );
        lemma_fill_lines_keeps_blocks(
            view.with_meta(m1),
            span_start(object.0 as int),
            span_bytes(object.0 as int, size),
            view.line_mark_state,
        );
        let m2 = view.copy_marked(object, size);
        lemma_same_shape_transitive(view.meta, m1, m2);
        assert forall|b: int| block_state(m2, b) == block_state(view.meta, b) by {
            assert(block_state(m1, b) == block_state(view.meta, b));
        }
        assert forall|other: SideMetadataSpec|
            other != SideMetadataSpec::ObjectMark && other != SideMetadataSpec::LineMark implies #[trigger] table(
            m2,
            other,
        ) == table(view.meta, other) by {
            assert(table(m1, other) == table(view.meta, other));
        }
    }
}

} // verus!
