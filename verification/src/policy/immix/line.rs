//! Lines: the unit by which the memory of a block is reclaimed.

use crate::policy::immix::block::Block;
use crate::util::address::Address;
use crate::util::address::ObjectReference;
use crate::util::metadata::SideMetadataContext;
use crate::util::metadata::SideMetadataSpec;
use crate::util::metadata::SideMetadataView;
use vstd::prelude::*;

verus! {

/// Base-two logarithm of the size of a line.
pub const LOG_BYTES_IN_LINE: usize = 8;

/// Size of a line in bytes.
pub const BYTES_IN_LINE: usize = 256;

/// The mark state that the rotation of line mark states starts from. Zero
/// is kept for lines that were never marked.
pub const RESET_MARK_STATE: u8 = 1;

/// The last mark state before the rotation starts again.
pub const MAX_MARK_STATE: u8 = 127;

/// The start of the first line that holds a byte of an object at `addr`.
pub open spec fn span_start(addr: int) -> int {
    addr - addr % 256
}

/// The number of bytes in the lines that an object of `size` bytes at
/// `addr` lies in, fully or in part.
pub open spec fn span_bytes(addr: int, size: int) -> int {
    let end = addr + size;
    if end % 256 == 0 {
        end - span_start(addr)
    } else {
        end - end % 256 + 256 - span_start(addr)
    }
}

/// Whether the line at `line` holds a byte of an object of `size` bytes at
/// `addr`.
pub open spec fn line_overlaps(line: int, addr: int, size: int) -> bool {
    line < addr + size && addr < line + 256
}

/// A line, named by the address at which it starts.
#[derive(Clone, Copy, PartialEq, Eq, Structural, Debug, Hash)]
pub struct Line(pub usize);

impl Line {
    /// A line starts on a multiple of its size.
    pub open spec fn wf(self) -> bool {
        self.0 % BYTES_IN_LINE == 0
    }

    /// The index of the line within the block that holds it.
    pub open spec fn spec_index_within_block(self) -> int {
        (self.0 as int % 32768) / 256
    }

    /// The line that starts at `addr`.
    pub fn from_aligned_address(addr: Address) -> (l: Line)
        requires
            addr.0 % BYTES_IN_LINE == 0,
        ensures
            l.0 == addr.0,
            l.wf(),
    {
        Line(addr.0)
    }

    /// The line that `addr` lies in.
    pub fn from_unaligned_address(addr: Address) -> (l: Line)
        ensures
            l.0 == span_start(addr.0 as int),
            l.wf(),
    {
        Line(addr.0 - addr.0 % BYTES_IN_LINE)
    }

    /// Whether `addr` is the start of a line.
    pub fn is_aligned(addr: Address) -> (r: bool)
        ensures
            r == (addr.0 % BYTES_IN_LINE == 0),
    {
        addr.0 % BYTES_IN_LINE == 0
    }

    /// The address at which the line starts.
    pub fn start(self) -> (a: Address)
        ensures
            a.0 == self.0,
    {
        Address(self.0)
    }

    /// The address just past the line.
    pub fn end(self) -> (a: Address)
        requires
            self.0 + BYTES_IN_LINE <= usize::MAX,
        ensures
            a.0 == self.0 + BYTES_IN_LINE,
    {
        Address(self.0 + BYTES_IN_LINE)
    }

    /// The block that holds the line.
    pub fn block(self) -> (b: Block)
        ensures
            b.0 == self.0 - self.0 % 32768,
            b.wf(),
    {
        Block(self.0 - self.0 % 32768)
    }

    /// The index of the line within the block that holds it.
    pub fn get_index_within_block(self) -> (index: usize)
        ensures
            index == self.spec_index_within_block(),
            index < 128,
            self.wf() ==> self.0 == self.0 - self.0 % 32768 + index * 256,
    {
        (self.0 % 32768) / BYTES_IN_LINE
    }

    /// The line that follows this one.
    pub fn next(self) -> (l: Line)
        requires
            self.0 + BYTES_IN_LINE <= usize::MAX,
        ensures
            l.0 == self.0 + BYTES_IN_LINE,
    {
        Line(self.0 + BYTES_IN_LINE)
    }

    /// The line `n` lines after this one.
    pub fn next_nth(self, n: usize) -> (l: Line)
        requires
            self.0 + n * BYTES_IN_LINE <= usize::MAX,
        ensures
            l.0 == self.0 + n * BYTES_IN_LINE,
    {
        Line(self.0 + n * BYTES_IN_LINE)
    }

    /// Writes `state` as the mark of the line.
    pub fn mark(self, meta: &mut SideMetadataContext, state: u8)
        requires
            old(meta)@.wf(),
            old(meta)@.has(SideMetadataSpec::LineMark),
            old(meta)@.contains(self.0 as int),
        ensures
            final(meta)@ == old(meta)@.store(SideMetadataSpec::LineMark, self.0 as int, state),
            final(meta)@.wf(),
    {
        meta.store(SideMetadataSpec::LineMark, Address(self.0), state);
    }

    /// Whether the mark of the line is `state`.
    pub fn is_marked(self, meta: &SideMetadataContext, state: u8) -> (r: bool)
        requires
            meta@.wf(),
            meta@.has(SideMetadataSpec::LineMark),
            meta@.contains(self.0 as int),
        ensures
            r == (meta@.load(SideMetadataSpec::LineMark, self.0 as int) == state),
    {
        meta.load(SideMetadataSpec::LineMark, Address(self.0)) == state
    }

    /// Writes `state` as the mark of every line that holds a byte of the
    /// object, which is `size` bytes long.
    pub fn mark_lines_for_object(
        meta: &mut SideMetadataContext,
        object: ObjectReference,
        size: usize,
        state: u8,
    )
        requires
            old(meta)@.wf(),
            old(meta)@.has(SideMetadataSpec::LineMark),
            old(meta)@.contains(object.0 as int),
            size > 0,
            object.0 + size <= old(meta)@.end(),
        ensures
            final(meta)@ == old(meta)@.fill(
                SideMetadataSpec::LineMark,
                span_start(object.0 as int),
                span_bytes(object.0 as int, size as int),
                state,
            ),
            final(meta)@.wf(),
    {
        let space_end: usize = meta.start().0 + meta.chunks() * crate::util::constants::BYTES_IN_CHUNK;
        let (start, bytes) = span_of(meta.start().0, space_end, object.0, size);
        meta.fill(SideMetadataSpec::LineMark, Address(start), bytes, state);
    }
}

/// The start and the size in bytes of the lines that an object of `size`
/// bytes at `addr` lies in, in a space from `space_start` to `space_end`.
#[verifier::rlimit(30)]
fn span_of(space_start: usize, space_end: usize, addr: usize, size: usize) -> (r: (usize, usize))
    requires
        space_start % 256 == 0,
        space_end % 256 == 0,
        space_start <= addr,
        size > 0,
        addr + size <= space_end,
    ensures
        r.0 == span_start(addr as int),
        r.1 == span_bytes(addr as int, size as int),
        space_start <= r.0,
        r.0 + r.1 <= space_end,
        r.0 % 256 == 0,
        r.1 % 256 == 0,
{
    proof {
        lemma_span_covers(space_start as int, addr as int, size as int, space_start as int);
        let e = (addr + size) as int;
        let q = e / 256;
        assert(e == 256 * q + e % 256);
        if e % 256 != 0 {
            assert(256 * (q + 1) <= space_end);
        }
    }
    let start_line = Line::from_unaligned_address(Address(addr));
    let end: usize = addr + size;
    let mut end_line = Line::from_unaligned_address(Address(end));
    if !Line::is_aligned(Address(end)) {
        end_line = end_line.next();
    }
    (start_line.0, end_line.0 - start_line.0)
}

/// The lines whose cells a span covers are the lines that hold a byte of
/// the object.
pub proof fn lemma_span_covers(start: int, addr: int, size: int, line: int)
    requires
        start % 256 == 0,
        start <= addr,
        start <= line,
        size > 0,
        line % 256 == 0,
    ensures
        span_start(addr) % 256 == 0,
        span_bytes(addr, size) % 256 == 0,
        span_bytes(addr, size) > 0,
        start <= span_start(addr),
        addr + size <= span_start(addr) + span_bytes(addr, size) < addr + size + 256,
        ((span_start(addr) - start) / 256 <= (line - start) / 256 < (span_start(addr) - start) / 256
            + span_bytes(addr, size) / 256) == line_overlaps(line, addr, size),
{
    let s = start / 256;
    let l = line / 256;
    let a = addr / 256;
    let r = addr % 256;
    let end = addr + size;
    let e = end / 256;
    let re = end % 256;
    assert(start == 256 * s);
    assert(line == 256 * l);
    assert(addr == 256 * a + r);
    assert(end == 256 * e + re);
    assert(span_start(addr) == 256 * a);
    assert((span_start(addr) - start) / 256 == a - s);
    assert((line - start) / 256 == l - s);
    if re == 0 {
        assert(span_bytes(addr, size) == 256 * (e - a));
        assert(span_bytes(addr, size) / 256 == e - a);
    } else {
        assert(span_bytes(addr, size) == 256 * (e + 1 - a));
        assert(span_bytes(addr, size) / 256 == e + 1 - a);
    }
}

/// After the lines of an object were marked, a line holds the new mark
/// exactly if it holds a byte of the object; every other line keeps its
/// mark.
pub proof fn lemma_marked_lines(view: SideMetadataView, addr: int, size: int, state: u8, line: int)
    requires
        view.wf(),
        view.has(SideMetadataSpec::LineMark),
        view.contains(addr),
        size > 0,
        addr + size <= view.end(),
        view.contains(line),
        line % 256 == 0,
    ensures
        view.fill(SideMetadataSpec::LineMark, span_start(addr), span_bytes(addr, size), state).load(
            SideMetadataSpec::LineMark,
            line,
        ) == (if line_overlaps(line, addr, size) {
            state
        } else {
            view.load(SideMetadataSpec::LineMark, line)
        }),
{
    crate::util::metadata::lemma_index_in_table(view, SideMetadataSpec::LineMark, line);
    lemma_span_covers(view.start as int, addr, size, line);
}

} // verus!
