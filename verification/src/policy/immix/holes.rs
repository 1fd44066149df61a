//! The search for holes: runs of lines that can be allocated into.

use ::atomic::Atomic;
use crate::policy::immix::block::BYTES_IN_BLOCK;
use crate::policy::immix::block::block_line_marks;
use crate::policy::immix::block::marked_lines;
use crate::policy::immix::immixspace::ImmixSpace;
use crate::policy::immix::immixspace::block_of;
use crate::policy::immix::immixspace::lemma_block_of_in_space;
use crate::policy::immix::line::Line;
use crate::util::atomic_cell::load_u8;
use vstd::prelude::*;

verus! {

/// Whether a line with mark `mark` cannot be allocated into: it was live
/// in the last collection or is live in this one.
pub open spec fn line_unavailable(mark: u8, unavail_state: u8, current_state: u8) -> bool {
    mark == unavail_state || mark == current_state
}

/// Whether the lines `start` up to `end` are the first hole at or after
/// line `from`: every line from `from` up to `start` is unavailable, every
/// line of the hole is available, and the hole ends with the block or
/// before an unavailable line.
pub open spec fn is_next_hole(
    marks: Seq<u8>,
    unavail_state: u8,
    current_state: u8,
    from: int,
    start: int,
    end: int,
) -> bool {
    &&& from <= start < end <= marks.len()
    &&& forall|i: int|
        from <= i < start ==> line_unavailable(#[trigger] marks[i], unavail_state, current_state)
    &&& forall|i: int|
        start <= i < end ==> !line_unavailable(#[trigger] marks[i], unavail_state, current_state)
    &&& (end == marks.len() || line_unavailable(marks[end], unavail_state, current_state))
}

/// Whether no line at or after line `from` can be allocated into.
pub open spec fn no_hole_from(marks: Seq<u8>, unavail_state: u8, current_state: u8, from: int) -> bool {
    forall|i: int|
        from <= i < marks.len() ==> line_unavailable(#[trigger] marks[i], unavail_state, current_state)
}

/// Searches the marks of the lines of a block for the first hole at or
/// after line `from`. Returns the first line of the hole and the line
/// after its last, or `None` when there is no hole.
pub fn next_available_lines(marks: &Vec<u8>, unavail_state: u8, current_state: u8, from: usize) -> (r:
    Option<(usize, usize)>)
    requires
        from <= marks@.len(),
    ensures
        match r {
            Some((start, end)) => is_next_hole(
                marks@,
                unavail_state,
                current_state,
                from as int,
                start as int,
                end as int,
            ),
            None => no_hole_from(marks@, unavail_state, current_state, from as int),
        },
{
    let mut cursor: usize = from;
    while cursor < marks.len()
        invariant
            from <= cursor <= marks@.len(),
            forall|i: int|
                from <= i < cursor ==> line_unavailable(
                    #[trigger] marks@[i],
                    unavail_state,
                    current_state,
                ),
        ensures
            from <= cursor <= marks@.len(),
            forall|i: int|
                from <= i < cursor ==> line_unavailable(
                    #[trigger] marks@[i],
                    unavail_state,
                    current_state,
                ),
            cursor == marks@.len() || !line_unavailable(
                marks@[cursor as int],
                unavail_state,
                current_state,
            ),
        decreases marks@.len() - cursor,
    {
        let mark = marks[cursor];
        if mark != unavail_state && mark != current_state {
            break ;
        }
        cursor += 1;
    }
    if cursor == marks.len() {
        return None;
    }
    let start: usize = cursor;
    while cursor < marks.len()
        invariant
            start <= cursor <= marks@.len(),
            start < marks@.len(),
            !line_unavailable(marks@[start as int], unavail_state, current_state),
            forall|i: int|
                start <= i < cursor ==> !line_unavailable(
                    #[trigger] marks@[i],
                    unavail_state,
                    current_state,
                ),
        ensures
            start < cursor <= marks@.len(),
            forall|i: int|
                start <= i < cursor ==> !line_unavailable(
                    #[trigger] marks@[i],
                    unavail_state,
                    current_state,
                ),
            cursor == marks@.len() || line_unavailable(
                marks@[cursor as int],
                unavail_state,
                current_state,
            ),
        decreases marks@.len() - cursor,
    {
        let mark = marks[cursor];
        if mark == unavail_state || mark == current_state {
            break ;
        }
        cursor += 1;
    }
    Some((start, cursor))
}

impl ImmixSpace {
    /// Searches for the next hole in the block of `search_start`, from
    /// that line on. Returns the first line of the hole and the line after
    /// its last, or `None` when the rest of the block holds no hole.
    #[verifier::rlimit(30)]
    pub fn get_next_available_lines(&self, search_start: Line) -> (r: Option<(Line, Line)>)
        requires
            self@.wf(),
            !self@.modes.block_only,
            search_start.wf(),
            self@.meta.contains(search_start.0 as int),
        ensures
            match r {
                Some((start, end)) => {
                    &&& start.0 == block_of(search_start.0 as int) + start.spec_index_within_block() * 256
                    &&& start.wf()
                    &&& end.wf()
                    &&& end.0 > start.0
                    &&& end.0 <= block_of(search_start.0 as int) + BYTES_IN_BLOCK
                    &&& is_next_hole(
                        block_line_marks(self@.meta, block_of(search_start.0 as int)),
                        self@.line_unavail_state,
                        self@.line_mark_state,
                        search_start.spec_index_within_block(),
                        start.spec_index_within_block(),
                        (end.0 - block_of(search_start.0 as int)) / 256,
                    )
                },
                None => no_hole_from(
                    block_line_marks(self@.meta, block_of(search_start.0 as int)),
                    self@.line_unavail_state,
                    self@.line_mark_state,
                    search_start.spec_index_within_block(),
                ),
            },
    {
        let unavail_state = load_u8(&self.line_unavail_state);
        let current_state = load_u8(&self.line_mark_state);
        let block = search_start.block();
        proof {
            lemma_block_of_in_space(self@.meta, search_start.0 as int);
        }
        let mark_data = block.line_mark_table(&self.metadata);
        let start_cursor = search_start.get_index_within_block();
        match next_available_lines(&mark_data, unavail_state, current_state, start_cursor) {
            None => None,
            Some((first, limit)) => {
                let start = block.line(first);
                let end = Line(block.0 + limit * 256);
                proof {
                    let base = block.0 as int;
                    assert(base == block_of(search_start.0 as int));
                    assert(base % 256 == 0);
                    assert(end.0 == base + limit * 256);
                    assert((end.0 - base) / 256 == limit as int);
                    assert(end.0 % 256 == 0);
                    assert(start.spec_index_within_block() == first as int);
                }
                Some((start, end))
            },
        }
    }
}

/// The number of lines at or after line `from` that can be allocated
/// into.
pub open spec fn available_from(marks: Seq<u8>, unavail_state: u8, current_state: u8, from: int) -> int
    decreases marks.len() - from,
{
    if from < 0 || from >= marks.len() {
        0
    } else {
        available_from(marks, unavail_state, current_state, from + 1) + if line_unavailable(
            marks[from],
            unavail_state,
            current_state,
        ) {
            0int
        } else {
            1int
        }
    }
}

/// Whether `holes` is what a walk over the holes of a block finds that
/// starts at line `from`: every hole is the next hole after the one
/// before it, and no hole follows the last.
pub open spec fn hole_walk(
    marks: Seq<u8>,
    unavail_state: u8,
    current_state: u8,
    from: int,
    holes: Seq<(int, int)>,
) -> bool
    decreases holes.len(),
{
    if holes.len() == 0 {
        no_hole_from(marks, unavail_state, current_state, from)
    } else {
        &&& is_next_hole(marks, unavail_state, current_state, from, holes[0].0, holes[0].1)
        &&& hole_walk(marks, unavail_state, current_state, holes[0].1, holes.drop_first())
    }
}

/// The number of lines in `holes`.
pub open spec fn lines_in_holes(holes: Seq<(int, int)>) -> int
    decreases holes.len(),
{
    if holes.len() == 0 {
        0
    } else {
        holes[0].1 - holes[0].0 + lines_in_holes(holes.drop_first())
    }
}

/// Lines that cannot be allocated into do not count.
proof fn lemma_skip_unavailable(marks: Seq<u8>, u: u8, c: u8, from: int, to: int)
    requires
        0 <= from <= to <= marks.len(),
        forall|i: int| from <= i < to ==> line_unavailable(#[trigger] marks[i], u, c),
    ensures
        available_from(marks, u, c, from) == available_from(marks, u, c, to),
    decreases to - from,
{
    if from < to {
        lemma_skip_unavailable(marks, u, c, from + 1, to);
    }
}

/// Lines that can be allocated into count one each.
proof fn lemma_count_available(marks: Seq<u8>, u: u8, c: u8, from: int, to: int)
    requires
        0 <= from <= to <= marks.len(),
        forall|i: int| from <= i < to ==> !line_unavailable(#[trigger] marks[i], u, c),
    ensures
        available_from(marks, u, c, from) == (to - from) + available_from(marks, u, c, to),
    decreases to - from,
{
    if from < to {
        lemma_count_available(marks, u, c, from + 1, to);
    }
}

/// Every line of a hole that a walk finds lies at or after the start of
/// the walk and can be allocated into.
pub proof fn lemma_hole_line(
    marks: Seq<u8>,
    unavail_state: u8,
    current_state: u8,
    from: int,
    holes: Seq<(int, int)>,
    k: int,
    i: int,
)
    requires
        0 <= from <= marks.len(),
        hole_walk(marks, unavail_state, current_state, from, holes),
        0 <= k < holes.len(),
        holes[k].0 <= i < holes[k].1,
    ensures
        from <= i < marks.len(),
        !line_unavailable(marks[i], unavail_state, current_state),
    decreases holes.len(),
{
    let start = holes[0].0;
    let end = holes[0].1;
    let rest = holes.drop_first();
    assert(is_next_hole(marks, unavail_state, current_state, from, start, end));
    assert(hole_walk(marks, unavail_state, current_state, end, rest));
    if k > 0 {
        assert(rest[k - 1] == holes[k]);
        lemma_hole_line(marks, unavail_state, current_state, end, rest, k - 1, i);
    }
}

/// A walk over the holes of a block, from line `from` on, finds as many
/// lines as there are lines at or after `from` that can be allocated
/// into.
pub proof fn lemma_holes_cover_available_lines(
    marks: Seq<u8>,
    unavail_state: u8,
    current_state: u8,
    from: int,
    holes: Seq<(int, int)>,
)
    requires
        0 <= from <= marks.len(),
        hole_walk(marks, unavail_state, current_state, from, holes),
    ensures
        lines_in_holes(holes) == available_from(marks, unavail_state, current_state, from),
    decreases holes.len(),
{
    if holes.len() == 0 {
        lemma_skip_unavailable(marks, unavail_state, current_state, from, marks.len() as int);
    } else {
        let start = holes[0].0;
        let end = holes[0].1;
        let rest = holes.drop_first();
        assert(is_next_hole(marks, unavail_state, current_state, from, start, end));
        assert(hole_walk(marks, unavail_state, current_state, end, rest));
        lemma_holes_cover_available_lines(marks, unavail_state, current_state, end, rest);
        assert(lines_in_holes(holes) == end - start + lines_in_holes(rest));
        lemma_skip_unavailable(marks, unavail_state, current_state, from, start);
        lemma_count_available(marks, unavail_state, current_state, start, end);
    }
}

/// Where the state that makes a line unavailable is the state of the
/// last collection, the lines that can be allocated into are the lines
/// that the collection did not mark.
pub proof fn lemma_available_is_unmarked(marks: Seq<u8>, state: u8, from: int)
    requires
        0 <= from <= marks.len(),
    ensures
        available_from(marks, state, state, from) + crate::policy::immix::block::marked_lines(
            marks.subrange(from, marks.len() as int),
            state,
        ) == marks.len() - from,
    decreases marks.len() - from,
{
    let tail = marks.subrange(from, marks.len() as int);
    if from < marks.len() {
        lemma_available_is_unmarked(marks, state, from + 1);
        let shorter = marks.subrange(from + 1, marks.len() as int);
        lemma_marked_lines_front(tail, state);
        assert(tail.drop_first() =~= shorter);
    } else {
        assert(tail.len() == 0);
    }
}

/// The marked lines of a sequence are those of its tail, and its first
/// line if that is marked.
proof fn lemma_marked_lines_front(marks: Seq<u8>, state: u8)
    requires
        marks.len() > 0,
    ensures
        crate::policy::immix::block::marked_lines(marks, state)
            == crate::policy::immix::block::marked_lines(marks.drop_first(), state) + if marks[0]
            == state {
            1int
        } else {
            0int
        },
    decreases marks.len(),
{
    let ml = |s: Seq<u8>| crate::policy::immix::block::marked_lines(s, state);
    if marks.len() > 1 {
        let front = marks.drop_last();
        let tail = marks.drop_first();
        lemma_marked_lines_front(front, state);
        assert(front.drop_first() =~= tail.drop_last());
        assert(tail.last() == marks.last());
        assert(front[0] == marks[0]);
        assert(ml(marks) == ml(front) + if marks.last() == state {
            1int
        } else {
            0int
        });
        assert(ml(tail) == ml(tail.drop_last()) + if tail.last() == state {
            1int
        } else {
            0int
        });
    } else {
        assert(marks.drop_first().len() == 0);
        assert(marks.drop_last().len() == 0);
        assert(ml(marks.drop_last()) == 0);
        assert(ml(marks.drop_first()) == 0);
        assert(marks.last() == marks[0]);
    }
}

/// After a collection, a walk over the holes of a block that starts at
/// the first line finds as many lines as the block has lines that the
/// collection did not mark: for a reusable block, all lines but the
/// unavailable ones. That each of these lines can be allocated into is
/// what `lemma_hole_line` states.
pub proof fn lemma_holes_of_swept_block(marks: Seq<u8>, state: u8, holes: Seq<(int, int)>)
    requires
        hole_walk(marks, state, state, 0, holes),
    ensures
        lines_in_holes(holes) == marks.len() - crate::policy::immix::block::marked_lines(
            marks,
            state,
        ),
{
    lemma_holes_cover_available_lines(marks, state, state, 0, holes);
    lemma_available_is_unmarked(marks, state, 0);
    assert(marks.subrange(0, marks.len() as int) =~= marks);
}

} // verus!
