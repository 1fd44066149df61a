//! What marking in place changes, seen from all objects of the space.

use crate::policy::immix::block::block_state;
use crate::policy::immix::block::Block;
use crate::policy::immix::block::BlockState;
use crate::policy::immix::block::MARK_MARKED;
use crate::policy::immix::immixspace::block_of;
use crate::policy::immix::immixspace::lemma_block_of_in_space;
use crate::policy::immix::immixspace::lemma_fill_lines_keeps_blocks;
use crate::policy::immix::immixspace::lemma_fill_same_shape;
use crate::policy::immix::immixspace::lemma_set_state_wf;
use crate::policy::immix::immixspace::lemma_store_keeps_blocks;
use crate::policy::immix::immixspace::lemma_store_same_shape;
use crate::policy::immix::immixspace::ImmixSpaceView;
use crate::policy::immix::line::span_bytes;
use crate::policy::immix::line::span_start;
use crate::util::address::ObjectReference;
use crate::util::metadata::SideMetadataSpec;
use crate::util::metadata::SideMetadataView;
use crate::util::object_forwarding::forwarding_status;
use vstd::prelude::*;

verus! {

/// Whether `after` has the marks of `before` and, if `added` names an
/// object, the mark of that object; the same forwarding states; and the
/// same blocks in use.
pub open spec fn marks_extended(
    before: ImmixSpaceView,
    after: ImmixSpaceView,
    added: Option<ObjectReference>,
) -> bool {
    &&& after.meta.start == before.meta.start
    &&& after.meta.chunks == before.meta.chunks
    &&& after.mark_state == before.mark_state
    &&& forall|x: ObjectReference|
        before.in_space(x) ==> #[trigger] after.is_marked(x) == (before.is_marked(x) || added
            == Some(x))
    &&& forall|a: int|
        before.meta.contains(a) ==> #[trigger] forwarding_status(after.meta, a)
            == forwarding_status(before.meta, a)
    &&& forall|b: int|
        before.meta.contains(b) && b % 32768 == 0 ==> (#[trigger] block_state(after.meta, b)
            == BlockState::Unallocated) == (block_state(before.meta, b) == BlockState::Unallocated)
}

/// Nothing changes the marks of nothing.
pub proof fn lemma_marks_extended_reflexive(view: ImmixSpaceView)
    ensures
        marks_extended(view, view, None),
{
}

/// Marks that were extended by no object and then by at most one are
/// extended by that one, and the other way round.
pub proof fn lemma_marks_extended_transitive(
    a: ImmixSpaceView,
    b: ImmixSpaceView,
    c: ImmixSpaceView,
    first: Option<ObjectReference>,
    second: Option<ObjectReference>,
)
    requires
        marks_extended(a, b, first),
        marks_extended(b, c, second),
        first.is_none() || second.is_none(),
    ensures
        marks_extended(
            a,
            c,
            if first.is_some() {
                first
            } else {
                second
            },
        ),
{
    let added = if first.is_some() {
        first
    } else {
        second
    };
    assert forall|x: ObjectReference| a.in_space(x) implies #[trigger] c.is_marked(x) == (a.is_marked(
        x,
    ) || added == Some(x)) by {
        assert(b.in_space(x));
        assert(b.is_marked(x) == (a.is_marked(x) || first == Some(x)));
    }
    assert forall|p: int| a.meta.contains(p) implies #[trigger] forwarding_status(c.meta, p)
        == forwarding_status(a.meta, p) by {
        assert(forwarding_status(b.meta, p) == forwarding_status(a.meta, p));
    }
    assert forall|p: int| a.meta.contains(p) && p % 32768 == 0 implies (#[trigger] block_state(
        c.meta,
        p,
    ) == BlockState::Unallocated) == (block_state(a.meta, p) == BlockState::Unallocated) by {
        assert((block_state(b.meta, p) == BlockState::Unallocated) == (block_state(a.meta, p)
            == BlockState::Unallocated));
    }
}

/// A write to a table that holds neither the marks of the objects nor the
/// forwarding states nor the states of the blocks extends the marks by
/// nothing.
pub proof fn lemma_other_store_keeps_marks(
    view: ImmixSpaceView,
    spec: SideMetadataSpec,
    addr: int,
    value: u8,
)
    requires
        view.wf(),
        view.meta.has(spec),
        view.meta.contains(addr),
        spec != SideMetadataSpec::ObjectMark,
        spec != SideMetadataSpec::ForwardingBits,
        spec != SideMetadataSpec::BlockMark,
    ensures
        marks_extended(view, view.with_meta(view.meta.store(spec, addr, value)), None),
{
    lemma_store_same_shape(view.meta, spec, addr, value);
    lemma_store_keeps_blocks(view, spec, addr, value);
}

/// Marking lines extends the marks of the objects by nothing.
pub proof fn lemma_lines_marked_keeps_marks(view: ImmixSpaceView, object: ObjectReference, size: int)
    requires
        view.wf(),
        !view.modes.block_only,
    ensures
        marks_extended(view, view.with_meta(view.lines_marked(view.meta, object, size)), None),
{
    lemma_fill_same_shape(
        view.meta,
        SideMetadataSpec::LineMark,
        span_start(object.0 as int),
        span_bytes(object.0 as int, size),
        view.line_mark_state,
    );
    lemma_fill_lines_keeps_blocks(
        view,
        span_start(object.0 as int),
        span_bytes(object.0 as int, size),
        view.line_mark_state,
    );
}

/// Marking an object in place extends the marks by that object.
pub proof fn lemma_marked_in_place_extends_marks(
    view: ImmixSpaceView,
    object: ObjectReference,
    size: int,
)
    requires
        view.wf(),
        view.in_space(object),
        block_state(view.meta, block_of(object.0 as int)) != BlockState::Unallocated,
    ensures
        marks_extended(view, view.with_meta(view.marked_in_place(object, size)), Some(object)),
        view.with_meta(view.marked_in_place(object, size)).wf(),
{
    let o = object.0 as int;
    let b = block_of(o);
    lemma_block_of_in_space(view.meta, o);
    lemma_store_keeps_blocks(view, SideMetadataSpec::ObjectMark, o, view.mark_state);
    lemma_store_same_shape(view.meta, SideMetadataSpec::ObjectMark, o, view.mark_state);
    let m1 = view.meta.store(SideMetadataSpec::ObjectMark, o, view.mark_state);
    let v1 = view.with_meta(m1);
    assert(marks_extended(view, v1, Some(object))) by {
        assert forall|x: ObjectReference| view.in_space(x) implies #[trigger] v1.is_marked(x) == (
        view.is_marked(x) || Some(object) == Some(x)) by {
            lemma_distinct_objects(view.meta, x.0 as int, o);
        }
    }
    let v2 = if view.modes.block_only {
        v1.with_meta(m1.store(SideMetadataSpec::BlockMark, b, MARK_MARKED))
    } else if view.modes.mark_line_at_scan_time {
        v1
    } else {
        v1.with_meta(view.lines_marked(m1, object, size))
    };
    if view.modes.block_only {
        lemma_set_state_wf(v1, Block(b as usize), BlockState::Marked);
        lemma_store_same_shape(m1, SideMetadataSpec::BlockMark, b, MARK_MARKED);
        assert(marks_extended(v1, v2, None));
    } else if view.modes.mark_line_at_scan_time {
        lemma_marks_extended_reflexive(v1);
    } else {
        lemma_lines_marked_keeps_marks(v1, object, size);
        assert(v1.lines_marked(m1, object, size) == view.lines_marked(m1, object, size));
    }
    assert(v2.wf());
    lemma_marks_extended_transitive(view, v1, v2, Some(object), None);
    let v3 = if view.modes.vo_bit {
        v2.with_meta(v2.meta.store(SideMetadataSpec::VoBit, o, 1))
    } else {
        v2
    };
    if view.modes.vo_bit {
        lemma_other_store_keeps_marks(v2, SideMetadataSpec::VoBit, o, 1);
        lemma_store_keeps_blocks(v2, SideMetadataSpec::VoBit, o, 1);
    } else {
        lemma_marks_extended_reflexive(v2);
    }
    lemma_marks_extended_transitive(view, v2, v3, Some(object), None);
    let v4 = view.with_meta(view.marked_in_place(object, size));
    if view.args.unlog_object_when_traced {
        lemma_other_store_keeps_marks(v3, SideMetadataSpec::LogBit, o, 1);
        lemma_store_keeps_blocks(v3, SideMetadataSpec::LogBit, o, 1);
        assert(v4 == v3.with_meta(v3.meta.store(SideMetadataSpec::LogBit, o, 1)));
    } else {
        lemma_marks_extended_reflexive(v3);
        assert(v4 == v3);
    }
    lemma_marks_extended_transitive(view, v3, v4, Some(object), None);
}

/// Two objects of a space have different cells in the tables that
/// describe objects.
pub proof fn lemma_distinct_objects(meta: SideMetadataView, a: int, b: int)
    requires
        meta.wf(),
        meta.contains(a),
        meta.contains(b),
        a % 8 == 0,
        b % 8 == 0,
    ensures
        (meta.index(SideMetadataSpec::ObjectMark, a) == meta.index(SideMetadataSpec::ObjectMark, b))
            == (a == b),
{
    let s = meta.start as int;
    assert(s % 8 == 0);
    assert((a - s) % 8 == 0);
    assert((b - s) % 8 == 0);
    assert(a - s == 8 * ((a - s) / 8));
    assert(b - s == 8 * ((b - s) / 8));
}

} // verus!
