//! Blocks: the unit by which a space takes memory from its page resource
//! and gives it back.

use crate::policy::immix::line::Line;
use crate::util::address::Address;
use crate::util::address::ObjectReference;
use crate::util::heap::chunk_map::Chunk;
use crate::util::metadata::SideMetadataContext;
use crate::util::metadata::SideMetadataSpec;
use crate::util::metadata::SideMetadataView;
use vstd::prelude::*;

verus! {

/// Base-two logarithm of the size of a block.
pub const LOG_BYTES_IN_BLOCK: usize = 15;

/// Size of a block in bytes.
pub const BYTES_IN_BLOCK: usize = 32768;

/// Base-two logarithm of the number of lines in a block.
pub const LOG_LINES_IN_BLOCK: usize = 7;

/// Number of lines in a block.
pub const LINES_IN_BLOCK: usize = 128;

/// Base-two logarithm of the number of pages in a block.
pub const LOG_PAGES_IN_BLOCK: usize = 3;

/// Number of pages in a block.
pub const PAGES_IN_BLOCK: usize = 8;

/// The state byte of a block that is not in use.
pub const MARK_UNALLOCATED: u8 = 0;

/// The state byte of a block that is in use and holds no marked object.
pub const MARK_UNMARKED: u8 = 255;

/// The state byte of a block that holds a marked object.
pub const MARK_MARKED: u8 = 254;

/// The state of a block.
#[derive(Clone, Copy, PartialEq, Eq, Structural, Debug)]
pub enum BlockState {
    /// The block is not in use.
    Unallocated,
    /// The block is in use, and nothing in it was marked in this cycle.
    Unmarked,
    /// The block is in use and holds marked objects.
    Marked,
    /// The block is in use, and some of its lines can be allocated into.
    Reusable {
        /// The number of lines that cannot be allocated into.
        unavailable_lines: u8,
    },
}

impl BlockState {
    /// A reusable state counts at least one and at most 253 unavailable
    /// lines, so that its byte differs from those of the other states.
    pub open spec fn wf(self) -> bool {
        match self {
            BlockState::Reusable { unavailable_lines } => 1 <= unavailable_lines <= 253,
            _ => true,
        }
    }

    /// The state that a byte stands for.
    pub open spec fn spec_from_byte(byte: u8) -> BlockState {
        if byte == MARK_UNALLOCATED {
            BlockState::Unallocated
        } else if byte == MARK_UNMARKED {
            BlockState::Unmarked
        } else if byte == MARK_MARKED {
            BlockState::Marked
        } else {
            BlockState::Reusable { unavailable_lines: byte }
        }
    }

    /// The byte that stands for a state.
    pub open spec fn spec_to_byte(self) -> u8 {
        match self {
            BlockState::Unallocated => MARK_UNALLOCATED,
            BlockState::Unmarked => MARK_UNMARKED,
            BlockState::Marked => MARK_MARKED,
            BlockState::Reusable { unavailable_lines } => unavailable_lines,
        }
    }

    /// The state that a byte stands for.
    pub fn from_byte(byte: u8) -> (state: BlockState)
        ensures
            state == Self::spec_from_byte(byte),
            state.wf(),
            state.spec_to_byte() == byte,
    {
        if byte == MARK_UNALLOCATED {
            BlockState::Unallocated
        } else if byte == MARK_UNMARKED {
            BlockState::Unmarked
        } else if byte == MARK_MARKED {
            BlockState::Marked
        } else {
            BlockState::Reusable { unavailable_lines: byte }
        }
    }

    /// The byte that stands for a state.
    pub fn to_byte(self) -> (byte: u8)
        ensures
            byte == self.spec_to_byte(),
            self.wf() ==> Self::spec_from_byte(byte) == self,
    {
        match self {
            BlockState::Unallocated => MARK_UNALLOCATED,
            BlockState::Unmarked => MARK_UNMARKED,
            BlockState::Marked => MARK_MARKED,
            BlockState::Reusable { unavailable_lines } => unavailable_lines,
        }
    }

    /// Whether the state is `Reusable`.
    pub fn is_reusable(self) -> (r: bool)
        ensures
            r == (self is Reusable),
    {
        match self {
            BlockState::Reusable { .. } => true,
            _ => false,
        }
    }
}

/// The state of the block at `block` according to `view`.
pub open spec fn block_state(view: SideMetadataView, block: int) -> BlockState {
    BlockState::spec_from_byte(view.load(SideMetadataSpec::BlockMark, block))
}

/// Whether the block at `block` is to be evacuated according to `view`.
pub open spec fn block_is_defrag_source(view: SideMetadataView, block: int) -> bool {
    view.load(SideMetadataSpec::BlockDefragSource, block) != 0
}

/// The number of holes recorded for the block at `block` in `view`.
pub open spec fn block_holes(view: SideMetadataView, block: int) -> int {
    view.load(SideMetadataSpec::BlockHoles, block) as int
}

/// The marks of the lines of the block at `block`, in address order.
pub open spec fn block_line_marks(view: SideMetadataView, block: int) -> Seq<u8> {
    Seq::new(128, |i: int| view.load(SideMetadataSpec::LineMark, block + i * 256))
}

/// The side metadata owns the three tables that describe blocks.
pub open spec fn has_block_tables(view: SideMetadataView) -> bool {
    &&& view.has(SideMetadataSpec::BlockMark)
    &&& view.has(SideMetadataSpec::BlockDefragSource)
    &&& view.has(SideMetadataSpec::BlockHoles)
}

/// The zero byte stands for an unallocated block.
pub proof fn lemma_zero_block_is_unallocated()
    ensures
        BlockState::spec_from_byte(0) == BlockState::Unallocated,
{
}

/// The side metadata after the block at `block` was taken into use.
pub open spec fn initialized(view: SideMetadataView, block: int, copy: bool) -> SideMetadataView {
    view.store(
        SideMetadataSpec::BlockMark,
        block,
        if copy {
            MARK_MARKED
        } else {
            MARK_UNMARKED
        },
    ).store(SideMetadataSpec::BlockHoles, block, 0).store(SideMetadataSpec::BlockDefragSource, block, 0)
}

/// A block, named by the address at which it starts.
#[derive(Clone, Copy, PartialEq, Eq, Structural, Debug, Hash)]
pub struct Block(pub usize);

impl Block {
    /// A block starts on a multiple of its size.
    pub open spec fn wf(self) -> bool {
        self.0 % BYTES_IN_BLOCK == 0
    }

    /// The block lies in the space that `view` describes.
    pub open spec fn in_space(self, view: SideMetadataView) -> bool {
        self.wf() && view.contains(self.0 as int)
    }

    /// The block that starts at `addr`.
    pub fn from_aligned_address(addr: Address) -> (b: Block)
        requires
            addr.0 % BYTES_IN_BLOCK == 0,
        ensures
            b.0 == addr.0,
            b.wf(),
    {
        Block(addr.0)
    }

    /// The block that `addr` lies in.
    pub fn from_unaligned_address(addr: Address) -> (b: Block)
        ensures
            b.0 == addr.0 - addr.0 % BYTES_IN_BLOCK,
            b.wf(),
    {
        Block(addr.0 - addr.0 % BYTES_IN_BLOCK)
    }

    /// The block that holds the start of `object`.
    pub fn containing(object: ObjectReference) -> (b: Block)
        ensures
            b.0 == object.0 - object.0 % BYTES_IN_BLOCK,
            b.wf(),
    {
        Block(object.0 - object.0 % BYTES_IN_BLOCK)
    }

    /// The address at which the block starts.
    pub fn start(self) -> (a: Address)
        ensures
            a.0 == self.0,
    {
        Address(self.0)
    }

    /// The address just past the block.
    pub fn end(self) -> (a: Address)
        requires
            self.0 + BYTES_IN_BLOCK <= usize::MAX,
        ensures
            a.0 == self.0 + BYTES_IN_BLOCK,
    {
        Address(self.0 + BYTES_IN_BLOCK)
    }

    /// The chunk that holds the block.
    pub fn chunk(self) -> (c: Chunk)
        ensures
            c.0 == self.0 - self.0 % 4194304,
            c.wf(),
    {
        Chunk(self.0 - self.0 % 4194304)
    }

    /// The first line of the block.
    pub fn start_line(self) -> (l: Line)
        requires
            self.wf(),
        ensures
            l.0 == self.0,
            l.wf(),
    {
        Line(self.0)
    }

    /// The line with index `index` in the block.
    pub fn line(self, index: usize) -> (l: Line)
        requires
            self.wf(),
            index < LINES_IN_BLOCK,
            self.0 + BYTES_IN_BLOCK <= usize::MAX,
        ensures
            l.0 == self.0 + index * 256,
            l.wf(),
            l.spec_index_within_block() == index,
    {
        Line(self.0 + index * 256)
    }

    /// Reads the state of the block.
    pub fn get_state(self, meta: &SideMetadataContext) -> (state: BlockState)
        requires
            meta@.wf(),
            meta@.has(SideMetadataSpec::BlockMark),
            meta@.contains(self.0 as int),
        ensures
            state == block_state(meta@, self.0 as int),
            state.wf(),
    {
        BlockState::from_byte(meta.load(SideMetadataSpec::BlockMark, Address(self.0)))
    }

    /// Writes the state of the block.
    pub fn set_state(self, meta: &mut SideMetadataContext, state: BlockState)
        requires
            old(meta)@.wf(),
            old(meta)@.has(SideMetadataSpec::BlockMark),
            old(meta)@.contains(self.0 as int),
            state.wf(),
        ensures
            final(meta)@ == old(meta)@.store(
                SideMetadataSpec::BlockMark,
                self.0 as int,
                state.spec_to_byte(),
            ),
            final(meta)@.wf(),
            block_state(final(meta)@, self.0 as int) == state,
    {
        let byte = state.to_byte();
        meta.store(SideMetadataSpec::BlockMark, Address(self.0), byte);
        proof {
            crate::util::metadata::lemma_index_in_table(
                old(meta)@,
                SideMetadataSpec::BlockMark,
                self.0 as int,
            );
        }
    }

    /// Whether the block is to be evacuated.
    pub fn is_defrag_source(self, meta: &SideMetadataContext) -> (r: bool)
        requires
            meta@.wf(),
            meta@.has(SideMetadataSpec::BlockDefragSource),
            meta@.contains(self.0 as int),
        ensures
            r == block_is_defrag_source(meta@, self.0 as int),
    {
        meta.load(SideMetadataSpec::BlockDefragSource, Address(self.0)) != 0
    }

    /// Records whether the block is to be evacuated.
    pub fn set_as_defrag_source(self, meta: &mut SideMetadataContext, defrag: bool)
        requires
            old(meta)@.wf(),
            old(meta)@.has(SideMetadataSpec::BlockDefragSource),
            old(meta)@.contains(self.0 as int),
        ensures
            final(meta)@ == old(meta)@.store(
                SideMetadataSpec::BlockDefragSource,
                self.0 as int,
                if defrag {
                    1u8
                } else {
                    0u8
                },
            ),
            final(meta)@.wf(),
            block_is_defrag_source(final(meta)@, self.0 as int) == defrag,
    {
        meta.store(
            SideMetadataSpec::BlockDefragSource,
            Address(self.0),
            if defrag {
                1
            } else {
                0
            },
        );
        proof {
            crate::util::metadata::lemma_index_in_table(
                old(meta)@,
                SideMetadataSpec::BlockDefragSource,
                self.0 as int,
            );
        }
    }

    /// Reads the number of holes recorded for the block.
    pub fn get_holes(self, meta: &SideMetadataContext) -> (holes: usize)
        requires
            meta@.wf(),
            meta@.has(SideMetadataSpec::BlockHoles),
            meta@.contains(self.0 as int),
        ensures
            holes == block_holes(meta@, self.0 as int),
    {
        let byte: u8 = meta.load(SideMetadataSpec::BlockHoles, Address(self.0));
        byte as usize
    }

    /// Records the number of holes of the block.
    pub fn set_holes(self, meta: &mut SideMetadataContext, holes: usize)
        requires
            old(meta)@.wf(),
            old(meta)@.has(SideMetadataSpec::BlockHoles),
            old(meta)@.contains(self.0 as int),
            holes <= 255,
        ensures
            final(meta)@ == old(meta)@.store(SideMetadataSpec::BlockHoles, self.0 as int, holes as u8),
            final(meta)@.wf(),
            block_holes(final(meta)@, self.0 as int) == holes,
    {
        meta.store(SideMetadataSpec::BlockHoles, Address(self.0), holes as u8);
        proof {
            crate::util::metadata::lemma_index_in_table(
                old(meta)@,
                SideMetadataSpec::BlockHoles,
                self.0 as int,
            );
        }
    }

    /// Takes the block into use: its state becomes `Marked` for a block
    /// that objects are copied into and `Unmarked` otherwise, it has no
    /// holes, and it is not to be evacuated.
    pub fn init(self, meta: &mut SideMetadataContext, copy: bool)
        requires
            old(meta)@.wf(),
            has_block_tables(old(meta)@),
            old(meta)@.contains(self.0 as int),
        ensures
            final(meta)@ == initialized(old(meta)@, self.0 as int, copy),
            final(meta)@.wf(),
            block_state(final(meta)@, self.0 as int) == (if copy {
                BlockState::Marked
            } else {
                BlockState::Unmarked
            }),
            block_holes(final(meta)@, self.0 as int) == 0,
            !block_is_defrag_source(final(meta)@, self.0 as int),
    {
        self.set_state(
            meta,
            if copy {
                BlockState::Marked
            } else {
                BlockState::Unmarked
            },
        );
        self.set_holes(meta, 0);
        self.set_as_defrag_source(meta, false);
        proof {
            crate::util::metadata::lemma_index_in_table(
                old(meta)@,
                SideMetadataSpec::BlockMark,
                self.0 as int,
            );
            crate::util::metadata::lemma_index_in_table(
                old(meta)@,
                SideMetadataSpec::BlockHoles,
                self.0 as int,
            );
        }
    }

    /// Takes the block out of use: its state becomes `Unallocated`.
    pub fn deinit(self, meta: &mut SideMetadataContext)
        requires
            old(meta)@.wf(),
            old(meta)@.has(SideMetadataSpec::BlockMark),
            old(meta)@.contains(self.0 as int),
        ensures
            final(meta)@ == old(meta)@.store(
                SideMetadataSpec::BlockMark,
                self.0 as int,
                MARK_UNALLOCATED,
            ),
            final(meta)@.wf(),
            block_state(final(meta)@, self.0 as int) == BlockState::Unallocated,
    {
        self.set_state(meta, BlockState::Unallocated);
    }

    /// Sweeps the block, which is in use, with `line_mark_state` as the
    /// mark of the lines that are live. A block without a live line is
    /// given back to the page resource; a block whose lines are all live
    /// is marked; any other block becomes reusable. The live lines of a
    /// block that stays in use are added to the histogram. Returns whether
    /// the block was dead.
    pub fn sweep(
        self,
        space: &mut crate::policy::immix::immixspace::ImmixSpace,
        mark_histogram: &mut crate::policy::immix::defrag::Histogram,
        line_mark_state: Option<u8>,
    ) -> (dead: bool)
        requires
            old(space)@.wf(),
            self.in_space(old(space)@.meta),
            block_state(old(space)@.meta, self.0 as int) != BlockState::Unallocated,
            !old(space)@.modes.block_only ==> line_mark_state.is_some(),
            old(mark_histogram)@.len() == crate::policy::immix::defrag::NUM_BINS,
            forall|i: int|
                0 <= i < crate::policy::immix::defrag::NUM_BINS ==> old(mark_histogram)@[i]
                    + LINES_IN_BLOCK <= usize::MAX,
        ensures
            final(space)@.wf(),
            final(space)@ == old(space)@.swept_block(
                self,
                if line_mark_state.is_some() {
                    line_mark_state.unwrap()
                } else {
                    0
                },
            ),
            final(mark_histogram)@ == crate::policy::immix::sweep::swept_histogram(
                old(mark_histogram)@,
                old(space)@,
                self,
                if line_mark_state.is_some() {
                    line_mark_state.unwrap()
                } else {
                    0
                },
            ),
            dead == old(space)@.block_is_dead(
                self,
                if line_mark_state.is_some() {
                    line_mark_state.unwrap()
                } else {
                    0
                },
            ),
    {
        space.sweep_block(self, mark_histogram, line_mark_state)
    }

    /// The marks of the lines of the block, in address order.
    pub fn line_mark_table(self, meta: &SideMetadataContext) -> (marks: Vec<u8>)
        requires
            meta@.wf(),
            meta@.has(SideMetadataSpec::LineMark),
            self.in_space(meta@),
        ensures
            marks@ == block_line_marks(meta@, self.0 as int),
            marks@.len() == LINES_IN_BLOCK,
    {
        let mut marks: Vec<u8> = Vec::new();
        let mut i: usize = 0;
        while i < LINES_IN_BLOCK
            invariant
                meta@.wf(),
                meta@.has(SideMetadataSpec::LineMark),
                self.in_space(meta@),
                i <= LINES_IN_BLOCK,
                marks@.len() == i,
                forall|j: int|
                    0 <= j < i ==> marks@[j] == meta@.load(
                        SideMetadataSpec::LineMark,
                        self.0 + j * 256,
                    ),
            decreases LINES_IN_BLOCK - i,
        {
            let line = self.line(i);
            marks.push(meta.load(SideMetadataSpec::LineMark, line.start()));
            i += 1;
        }
        marks
    }
}

/// The number of lines among `marks` that are marked with `state`.
pub open spec fn marked_lines(marks: Seq<u8>, state: u8) -> nat
    decreases marks.len(),
{
    if marks.len() == 0 {
        0
    } else {
        marked_lines(marks.drop_last(), state) + if marks.last() == state {
            1nat
        } else {
            0nat
        }
    }
}

/// Whether a hole starts at line `i`: the line is not marked with `state`,
/// and it is the first line or follows a line that is.
pub open spec fn starts_hole(marks: Seq<u8>, state: u8, i: int) -> bool {
    marks[i] != state && (i == 0 || marks[i - 1] == state)
}

/// The number of holes among `marks`: of maximal runs of lines that are not
/// marked with `state`.
pub open spec fn hole_count(marks: Seq<u8>, state: u8) -> nat
    decreases marks.len(),
{
    if marks.len() == 0 {
        0
    } else {
        hole_count(marks.drop_last(), state) + if starts_hole(marks, state, marks.len() - 1) {
            1nat
        } else {
            0nat
        }
    }
}

/// No more lines are marked than there are; all are marked exactly if
/// every single one is, and none exactly if no single one is.
pub proof fn lemma_marked_lines_bounds(marks: Seq<u8>, state: u8)
    ensures
        marked_lines(marks, state) <= marks.len(),
        marked_lines(marks, state) == marks.len() <==> forall|i: int|
            0 <= i < marks.len() ==> marks[i] == state,
        marked_lines(marks, state) == 0 <==> forall|i: int|
            0 <= i < marks.len() ==> marks[i] != state,
    decreases marks.len(),
{
    if marks.len() > 0 {
        let front = marks.drop_last();
        lemma_marked_lines_bounds(front, state);
        assert(forall|i: int| 0 <= i < front.len() ==> front[i] == marks[i]);
        if marked_lines(marks, state) == marks.len() {
            assert forall|i: int| 0 <= i < marks.len() implies marks[i] == state by {
                if i < front.len() {
                    assert(front[i] == marks[i]);
                }
            }
        }
        if marked_lines(marks, state) == 0 {
            assert forall|i: int| 0 <= i < marks.len() implies marks[i] != state by {
                if i < front.len() {
                    assert(front[i] == marks[i]);
                }
            }
        }
    }
}

/// Two holes are separated by a marked line, so there are at most half as
/// many holes as lines, rounded up. Where no line is a hole's start there
/// is no hole at all.
pub proof fn lemma_hole_count_bounds(marks: Seq<u8>, state: u8)
    ensures
        2 * hole_count(marks, state) <= marks.len() + (if marks.len() > 0 && marks.last() != state {
            1int
        } else {
            0int
        }),
        marked_lines(marks, state) == marks.len() ==> hole_count(marks, state) == 0,
        marked_lines(marks, state) < marks.len() ==> hole_count(marks, state) >= 1,
    decreases marks.len(),
{
    if marks.len() > 0 {
        let front = marks.drop_last();
        lemma_hole_count_bounds(front, state);
        lemma_marked_lines_bounds(front, state);
        lemma_marked_lines_bounds(marks, state);
        if front.len() > 0 {
            assert(front.last() == marks[marks.len() - 2]);
        }
    }
}

/// The blocks that were found partly free, waiting to be allocated into.
/// A block that is pushed becomes visible to `pop` once the pool is
/// flushed.
pub struct ReusableBlockPool {
    blocks: Vec<Block>,
    flushed: usize,
}

/// The mathematical content of a pool of reusable blocks.
#[verifier::ext_equal]
pub struct ReusableBlockPoolView {
    /// The blocks pushed since the pool was last flushed, oldest first.
    pub local: Seq<Block>,
    /// The blocks that can be popped; the last one is popped first.
    pub global: Seq<Block>,
}

impl ReusableBlockPoolView {
    /// All blocks of the pool: the poppable ones, then the others.
    pub open spec fn blocks(self) -> Seq<Block> {
        self.global + self.local
    }
}

impl View for ReusableBlockPool {
    type V = ReusableBlockPoolView;

    closed spec fn view(&self) -> ReusableBlockPoolView {
        if self.flushed <= self.blocks@.len() {
            ReusableBlockPoolView {
                local: self.blocks@.subrange(self.flushed as int, self.blocks@.len() as int),
                global: self.blocks@.subrange(0, self.flushed as int),
            }
        } else {
            ReusableBlockPoolView { local: Seq::empty(), global: self.blocks@ }
        }
    }
}

impl ReusableBlockPool {
    /// An empty pool.
    pub fn new() -> (pool: Self)
        ensures
            pool@.local.len() == 0,
            pool@.global.len() == 0,
    {
        ReusableBlockPool { blocks: Vec::new(), flushed: 0 }
    }

    /// The number of blocks in the pool, whether they can be popped yet or
    /// not.
    pub fn len(&self) -> (n: usize)
        ensures
            n == self@.blocks().len(),
    {
        self.blocks.len()
    }

    /// The number of blocks that can be popped.
    pub fn flushed_len(&self) -> (n: usize)
        ensures
            n == self@.global.len(),
    {
        if self.flushed > self.blocks.len() {
            self.blocks.len()
        } else {
            self.flushed
        }
    }

    /// Adds a block to the pool.
    pub fn push(&mut self, block: Block)
        ensures
            final(self)@.local == old(self)@.local.push(block),
            final(self)@.global == old(self)@.global,
    {
        if self.flushed > self.blocks.len() {
            self.flushed = self.blocks.len();
        }
        self.blocks.push(block);
    }

    /// Takes a block out of the pool: the one that became poppable last.
    /// Returns `None` when no block can be popped.
    pub fn pop(&mut self) -> (r: Option<Block>)
        ensures
            final(self)@.local == old(self)@.local,
            old(self)@.global.len() == 0 ==> r.is_none() && final(self)@.global == old(self)@.global,
            old(self)@.global.len() > 0 ==> r == Some(old(self)@.global.last()) && final(self)@.global
                == old(self)@.global.drop_last(),
    {
        if self.flushed > self.blocks.len() {
            self.flushed = self.blocks.len();
        }
        if self.flushed == 0 {
            None
        } else {
            self.flushed = self.flushed - 1;
            let block = self.blocks.remove(self.flushed);
            Some(block)
        }
    }

    /// Empties the pool.
    pub fn reset(&mut self)
        ensures
            final(self)@.local.len() == 0,
            final(self)@.global.len() == 0,
    {
        self.blocks.clear();
        self.flushed = 0;
    }

    /// Makes every block of the pool poppable.
    pub fn flush_all(&mut self)
        ensures
            final(self)@.local.len() == 0,
            final(self)@.global == old(self)@.blocks(),
    {
        self.flushed = self.blocks.len();
    }

    /// The block at position `index` among all blocks of the pool.
    pub fn get(&self, index: usize) -> (block: Block)
        requires
            index < self@.blocks().len(),
        ensures
            block == self@.blocks()[index as int],
    {
        self.blocks[index]
    }
}

} // verus!
