//! What holds of an Immix space whatever the order of the calls: marks are
//! written once, objects are forwarded once, and a traced object
//! survives.

use crate::policy::immix::block::block_state;
use crate::policy::immix::block::BlockState;
use crate::policy::immix::forwarding::forwarded;
use crate::policy::immix::forwarding::lemma_marked_by_winner;
use crate::policy::immix::forwarding::marked_after_failed_copy;
use crate::policy::immix::forwarding::space_traced;
use crate::policy::immix::forwarding::trace_moves;
use crate::policy::immix::forwarding::traced_with_copy;
use crate::policy::immix::forwarding::traced_without_moving;
use crate::policy::immix::immixspace::block_of;
use crate::policy::immix::immixspace::lemma_block_of_in_space;
use crate::policy::immix::immixspace::lemma_marked_in_place_keeps_mark;
use crate::policy::immix::immixspace::lemma_store_same_shape;
use crate::policy::immix::immixspace::ImmixSpaceView;
use crate::policy::gc_work::TraceKind;
use crate::util::address::ObjectReference;
use crate::util::metadata::SideMetadataSpec;
use crate::util::object_forwarding::forwarded_object;
use crate::util::object_forwarding::forwarding_status;
use crate::util::object_forwarding::BEING_FORWARDED;
use crate::util::object_forwarding::FORWARDED;
use crate::util::object_forwarding::FORWARDING_NOT_TRIGGERED_YET;
use crate::vm::object_model::ObjectView;
use vstd::prelude::*;

verus! {

/// Whether `object` survives the collection as far as `view` tells: it is
/// marked, or it is forwarded to an object that is marked.
pub open spec fn survives(view: ImmixSpaceView, object: ObjectReference) -> bool {
    view.is_marked(object) || (forwarding_status(view.meta, object.0 as int) == FORWARDED
        && view.is_marked(ObjectReference(view.meta.load_pointer(object.0 as int))))
}

/// An attempt to mark an object that follows another attempt with the
/// same mark state writes nothing: only the first attempt succeeds.
pub proof fn lemma_second_attempt_fails(view: ImmixSpaceView, object: ObjectReference, mark_state: u8)
    requires
        view.wf(),
        view.in_space(object),
    ensures
        view.with_meta(
            view.meta.store(SideMetadataSpec::ObjectMark, object.0 as int, mark_state),
        ).is_marked_with(object, mark_state),
{
    lemma_store_same_shape(view.meta, SideMetadataSpec::ObjectMark, object.0 as int, mark_state);
}

/// After the marks of the objects were cleared where `object` lies, an
/// attempt to mark the object with a mark state other than zero succeeds
/// again.
pub proof fn lemma_attempt_succeeds_after_clearing(
    view: ImmixSpaceView,
    object: ObjectReference,
    mark_state: u8,
    start: int,
    bytes: int,
)
    requires
        view.wf(),
        view.in_space(object),
        mark_state != 0,
        view.meta.start <= start,
        start % 8 == 0,
        bytes % 8 == 0,
        start <= object.0 < start + bytes,
        start + bytes <= view.meta.end(),
    ensures
        !view.with_meta(
            view.meta.fill(SideMetadataSpec::ObjectMark, start, bytes, 0),
        ).is_marked_with(object, mark_state),
{
    crate::util::metadata::lemma_index_in_table(
        view.meta,
        SideMetadataSpec::ObjectMark,
        object.0 as int,
    );
    let first = view.meta.index(SideMetadataSpec::ObjectMark, start);
    let cell = view.meta.index(SideMetadataSpec::ObjectMark, object.0 as int);
    let s = view.meta.start as int;
    let o = object.0 as int;
    assert(s % 8 == 0);
    assert(o % 8 == 0);
    assert((start - s) % 8 == 0);
    assert((o - s) % 8 == 0);
    assert(start - s == 8 * first);
    assert(o - s == 8 * cell);
    assert(bytes == 8 * (bytes / 8));
    assert(first <= cell < first + bytes / 8);
}

/// A second trace without moving of the same object enqueues nothing: the
/// object is enqueued at most once.
pub proof fn lemma_trace_twice_enqueues_once(
    first: ImmixSpaceView,
    second: ImmixSpaceView,
    third: ImmixSpaceView,
    queue_first: Seq<ObjectReference>,
    queue_second: Seq<ObjectReference>,
    queue_third: Seq<ObjectReference>,
    object: ObjectReference,
    size: int,
)
    requires
        first.wf(),
        first.in_space(object),
        traced_without_moving(first, second, queue_first, queue_second, object, size),
        traced_without_moving(second, third, queue_second, queue_third, object, size),
    ensures
        third == second,
        queue_third == queue_second,
        queue_third == queue_first || queue_third == queue_first.push(object),
{
    if !first.is_marked(object) {
        lemma_marked_in_place_keeps_mark(first, object, size);
    }
}

/// What the winner of the right to forward an object leaves behind
/// settles the object: its forwarding state is not "being forwarded", the
/// object that stands for it is marked, and that object is the object
/// itself or the copy that its forwarding pointer names.
pub proof fn lemma_winner_settles(
    before: ImmixSpaceView,
    after: ImmixSpaceView,
    queue_before: Seq<ObjectReference>,
    queue_after: Seq<ObjectReference>,
    vm_before: Map<usize, ObjectView>,
    vm_after: Map<usize, ObjectView>,
    object: ObjectReference,
    result: ObjectReference,
    marked: bool,
    nursery_collection: bool,
)
    requires
        before.wf(),
        !before.modes.block_only,
        before.in_space(object),
        block_state(before.meta, block_of(object.0 as int)) != BlockState::Unallocated,
        traced_with_copy(
            before,
            after,
            queue_before,
            queue_after,
            vm_before,
            vm_after,
            object,
            result,
            FORWARDING_NOT_TRIGGERED_YET,
            marked,
            nursery_collection,
        ),
    ensures
        forwarding_status(after.meta, object.0 as int) != BEING_FORWARDED,
        forwarded_object(after.meta, object) == result,
        after.is_marked(result),
        after.mark_state == before.mark_state,
        result == object || forwarding_status(after.meta, object.0 as int) == FORWARDED,
        survives(after, object),
        after.meta.start == before.meta.start,
        after.meta.chunks == before.meta.chunks,
        after.modes == before.modes,
{
    let o = object.0 as int;
    let size = vm_before[object.0].size as int;
    crate::util::metadata::lemma_index_in_table(before.meta, SideMetadataSpec::ForwardingBits, o);
    crate::util::metadata::lemma_index_in_table(before.meta, SideMetadataSpec::ObjectMark, o);
    crate::util::metadata::lemma_index_in_table(before.meta, SideMetadataSpec::ForwardingPointer, o);
    if before.is_marked(object) {
        lemma_store_same_shape(
            before.meta,
            SideMetadataSpec::ForwardingBits,
            o,
            FORWARDING_NOT_TRIGGERED_YET,
        );
    } else if before.is_pinned(object) || (!nursery_collection && before.defrag.space_exhausted) {
        lemma_marked_by_winner(before, object, size);
    } else if forwarding_status(after.meta, o) == FORWARDED {
        reveal(forwarded);
        let t = result.0 as int;
        assert(after.meta.contains(t));
        crate::util::metadata::lemma_index_in_table(before.meta, SideMetadataSpec::ObjectMark, t);
        assert(after.meta.index(SideMetadataSpec::ObjectMark, t) == before.meta.index(
            SideMetadataSpec::ObjectMark,
            t,
        ));
        assert(after.meta.index(SideMetadataSpec::ForwardingPointer, o) == before.meta.index(
            SideMetadataSpec::ForwardingPointer,
            o,
        ));
    } else {
        reveal(marked_after_failed_copy);
        let mid = choose|mid: ImmixSpaceView|
            #![trigger mid.marked_by_winner(object, size)]
            {
                &&& crate::util::allocators::immix_allocator::allocation_frame(before, mid)
                &&& mid.wf()
                &&& after == mid.with_meta(mid.marked_by_winner(object, size))
            };
        crate::util::allocators::immix_allocator::lemma_allocation_frame_keeps(before, mid);
        lemma_block_of_in_space(before.meta, o);
        lemma_marked_by_winner(mid, object, size);
    }
}

/// Of two traces with opportunistic copying of the same object that
/// follow one another, the first settles the object and the second
/// returns what the first returned, and neither enqueues nor copies
/// anything: an object is forwarded once, and every worker gets the same
/// object for it.
#[verifier::rlimit(80)]
pub proof fn lemma_forwarded_once(
    first: ImmixSpaceView,
    second: ImmixSpaceView,
    third: ImmixSpaceView,
    queues: (Seq<ObjectReference>, Seq<ObjectReference>, Seq<ObjectReference>),
    vms: (Map<usize, ObjectView>, Map<usize, ObjectView>, Map<usize, ObjectView>),
    object: ObjectReference,
    results: (ObjectReference, ObjectReference),
    marked: (bool, bool),
    nursery_collection: (bool, bool),
)
    requires
        first.wf(),
        !first.modes.block_only,
        first.in_space(object),
        block_state(first.meta, block_of(object.0 as int)) != BlockState::Unallocated,
        forwarding_status(first.meta, object.0 as int) == FORWARDING_NOT_TRIGGERED_YET,
        traced_with_copy(
            first.after_attempt(object),
            second,
            queues.0,
            queues.1,
            vms.0,
            vms.1,
            object,
            results.0,
            forwarding_status(first.meta, object.0 as int),
            marked.0,
            nursery_collection.0,
        ),
        second.wf(),
        traced_with_copy(
            second.after_attempt(object),
            third,
            queues.1,
            queues.2,
            vms.1,
            vms.2,
            object,
            results.1,
            forwarding_status(second.meta, object.0 as int),
            marked.1,
            nursery_collection.1,
        ),
    ensures
        results.1 == results.0,
        queues.2 == queues.1,
        vms.2 == vms.1,
        third.is_marked(results.1),
{
    let o = object.0 as int;
    let attempted = first.after_attempt(object);
    crate::policy::immix::immixspace::lemma_store_keeps_blocks(
        first,
        SideMetadataSpec::ForwardingBits,
        o,
        BEING_FORWARDED,
    );
    lemma_store_same_shape(first.meta, SideMetadataSpec::ForwardingBits, o, BEING_FORWARDED);
    lemma_winner_settles(
        attempted,
        second,
        queues.0,
        queues.1,
        vms.0,
        vms.1,
        object,
        results.0,
        marked.0,
        nursery_collection.0,
    );
    assert(second.meta.contains(o));
    crate::util::metadata::lemma_index_in_table(second.meta, SideMetadataSpec::ForwardingBits, o);
    if forwarding_status(second.meta, o) == FORWARDING_NOT_TRIGGERED_YET {
        lemma_store_same_shape(second.meta, SideMetadataSpec::ForwardingBits, o, BEING_FORWARDED);
        let again = second.after_attempt(object);
        assert(again.is_marked(object));
        lemma_store_same_shape(
            again.meta,
            SideMetadataSpec::ForwardingBits,
            o,
            FORWARDING_NOT_TRIGGERED_YET,
        );
    }
}

/// An object that is traced survives the collection: after the trace it
/// is marked, or it is forwarded to a copy that is marked. Where the
/// trace may move the object, the object is not forwarded yet, or it is
/// forwarded to a copy that is marked.
pub proof fn lemma_traced_object_survives(
    before: ImmixSpaceView,
    after: ImmixSpaceView,
    queue_before: Seq<ObjectReference>,
    queue_after: Seq<ObjectReference>,
    vm_before: Map<usize, ObjectView>,
    vm_after: Map<usize, ObjectView>,
    object: ObjectReference,
    result: ObjectReference,
    kind: TraceKind,
    marked: bool,
)
    requires
        before.wf(),
        before.in_space(object),
        block_state(before.meta, block_of(object.0 as int)) != BlockState::Unallocated,
        trace_moves(before, object, kind) ==> !before.modes.block_only && (forwarding_status(
            before.meta,
            object.0 as int,
        ) == FORWARDING_NOT_TRIGGERED_YET || (forwarding_status(before.meta, object.0 as int)
            == FORWARDED && before.is_marked(
            ObjectReference(before.meta.load_pointer(object.0 as int)),
        ))),
        space_traced(
            before,
            after,
            queue_before,
            queue_after,
            vm_before,
            vm_after,
            object,
            result,
            kind,
            marked,
        ),
    ensures
        survives(after, object),
        after.is_marked(result) || (result.0 == before.meta.load_pointer(object.0 as int)
            && before.is_marked(result)),
{
    let o = object.0 as int;
    let size = vm_before[object.0].size as int;
    if trace_moves(before, object, kind) {
        let found = forwarding_status(before.meta, o);
        let attempted = before.after_attempt(object);
        if found == FORWARDING_NOT_TRIGGERED_YET {
            crate::policy::immix::immixspace::lemma_store_keeps_blocks(
                before,
                SideMetadataSpec::ForwardingBits,
                o,
                BEING_FORWARDED,
            );
            lemma_store_same_shape(before.meta, SideMetadataSpec::ForwardingBits, o, BEING_FORWARDED);
            lemma_winner_settles(
                attempted,
                after,
                queue_before,
                queue_after,
                vm_before,
                vm_after,
                object,
                result,
                marked,
                false,
            );
        } else {
            assert(attempted == before);
            assert(after == before);
            assert(result == ObjectReference(before.meta.load_pointer(o)));
        }
    } else {
        if !before.is_marked(object) {
            lemma_marked_in_place_keeps_mark(before, object, size);
        }
        assert(after.is_marked(object));
    }
}

} // verus!
