//! Sweeping: how an Immix space finds out after a trace which blocks and
//! lines are live.

use ::atomic::Atomic;
use crate::policy::immix::block::BYTES_IN_BLOCK;
use crate::policy::immix::block::Block;
use crate::policy::immix::block::BlockState;
use crate::policy::immix::block::LINES_IN_BLOCK;
use crate::policy::immix::block::MARK_MARKED;
use crate::policy::immix::block::MARK_UNALLOCATED;
use crate::policy::immix::block::ReusableBlockPoolView;
use crate::policy::immix::block::block_is_defrag_source;
use crate::policy::immix::block::block_line_marks;
use crate::policy::immix::block::block_state;
use crate::policy::immix::block::hole_count;
use crate::policy::immix::block::marked_lines;
use crate::policy::immix::defrag::DefragView;
use crate::policy::immix::defrag::Histogram;
use crate::policy::immix::defrag::NUM_BINS;
use crate::policy::immix::forwarding::lemma_store_tables;
use crate::policy::immix::forwarding::table;
use crate::policy::immix::immixspace::ImmixSpace;
use crate::policy::immix::immixspace::ImmixSpaceView;
use crate::policy::immix::immixspace::lemma_allocated_block_below_cursor;
use crate::policy::immix::immixspace::lemma_fill_keeps_blocks;
use crate::policy::immix::immixspace::lemma_fill_same_shape;
use crate::policy::immix::immixspace::lemma_released_block_in_space;
use crate::policy::immix::immixspace::lemma_set_state_wf;
use crate::policy::immix::immixspace::lemma_store_keeps_blocks;
use crate::policy::immix::immixspace::same_shape;
use crate::policy::immix::prepare::lemma_chunk_block_in_space;
use crate::util::atomic_cell::fetch_sub_usize;
use crate::util::atomic_cell::load_u8;
use crate::util::atomic_cell::wrapping_difference;
use crate::util::constants::BYTES_IN_CHUNK;
use crate::util::heap::chunk_map::Chunk;
use crate::util::heap::chunk_map::ChunkMapView;
use crate::util::metadata::SideMetadataSpec;
use vstd::prelude::*;
use crate::policy::immix::immixspace::lemma_store_same_shape;

verus! {

impl ImmixSpaceView {
    /// The content after `block` was given back to the page resource.
    pub open spec fn released(self, block: Block) -> Self {
        ImmixSpaceView {
            meta: self.meta.store(SideMetadataSpec::BlockMark, block.0 as int, MARK_UNALLOCATED),
            pr: self.pr.after_release(block),
            ..self
        }
    }

    /// The content after `block` was swept with `state` as the mark of
    /// the lines that are live.
    ///
    /// A block without a live line is given back to the page resource. A
    /// block whose lines are all live is marked. Any other block becomes
    /// reusable, with its count of live lines as the count of unavailable
    /// lines, and joins the pool of reusable blocks. The number of holes
    /// of the block is recorded. Where blocks are the unit of liveness,
    /// an unmarked block is given back and nothing else changes.
    pub open spec fn swept_block(self, block: Block, state: u8) -> Self {
        let marks = block_line_marks(self.meta, block.0 as int);
        let live = marked_lines(marks, state);
        let holes = hole_count(marks, state);
        if self.modes.block_only {
            if block_state(self.meta, block.0 as int) == BlockState::Unmarked {
                self.released(block)
            } else {
                self
            }
        } else if live == 0 {
            self.released(block)
        } else if live == LINES_IN_BLOCK {
            self.with_meta(
                self.meta.store(SideMetadataSpec::BlockMark, block.0 as int, MARK_MARKED).store(
                    SideMetadataSpec::BlockHoles,
                    block.0 as int,
                    0,
                ),
            )
        } else {
            ImmixSpaceView {
                meta: self.meta.store(SideMetadataSpec::BlockMark, block.0 as int, live as u8).store(
                    SideMetadataSpec::BlockHoles,
                    block.0 as int,
                    holes as u8,
                ),
                reusable_blocks: ReusableBlockPoolView {
                    local: self.reusable_blocks.local.push(block),
                    ..self.reusable_blocks
                },
                ..self
            }
        }
    }

    /// Whether sweeping `block` finds it dead: without a live line, or
    /// unmarked where blocks are the unit of liveness.
    pub open spec fn block_is_dead(self, block: Block, state: u8) -> bool {
        if self.modes.block_only {
            block_state(self.meta, block.0 as int) == BlockState::Unmarked
        } else {
            marked_lines(block_line_marks(self.meta, block.0 as int), state) == 0
        }
    }

    /// The content after every block that was given back became ready to
    /// be handed out again, and every reusable block ready to be popped.
    pub open spec fn flushed(self) -> Self {
        ImmixSpaceView {
            reusable_blocks: ReusableBlockPoolView {
                local: Seq::empty(),
                global: self.reusable_blocks.blocks(),
            },
            pr: self.pr.after_flush(),
            ..self
        }
    }
}

/// The histogram after a block was swept: the live lines of a block
/// that stays in use are added to the bin of its number of holes.
pub open spec fn swept_histogram(
    histogram: Seq<usize>,
    view: ImmixSpaceView,
    block: Block,
    state: u8,
) -> Seq<usize> {
    let marks = block_line_marks(view.meta, block.0 as int);
    let live = marked_lines(marks, state);
    let holes = hole_count(marks, state) as int;
    if view.modes.block_only || live == 0 {
        histogram
    } else {
        histogram.update(holes, (histogram[holes] + live) as usize)
    }
}

/// Giving back a block that is in use keeps a space sound.
pub proof fn lemma_released_wf(view: ImmixSpaceView, block: Block)
    requires
        view.wf(),
        block.in_space(view.meta),
        block_state(view.meta, block.0 as int) != BlockState::Unallocated,
    ensures
        view.released(block).wf(),
        block_state(view.released(block).meta, block.0 as int) == BlockState::Unallocated,
        forall|b: int|
            view.meta.contains(b) && b % 32768 == 0 && b != block.0 ==> #[trigger] block_state(
                view.released(block).meta,
                b,
            ) == block_state(view.meta, b),
{
    lemma_allocated_block_below_cursor(view, block.0 as int);
    lemma_set_state_wf(view, block, BlockState::Unallocated);
    let after = view.released(block);
    let all = after.released_blocks();
    let old_all = view.released_blocks();
    assert(after.pr.wf()) by {
        assert forall|i: int| 0 <= i < after.pr.local.len() implies after.pr.holds(
            #[trigger] after.pr.local[i],
        ) by {
            if i < view.pr.local.len() {
                assert(view.pr.holds(view.pr.local[i]));
            }
        }
        assert forall|i: int| 0 <= i < after.pr.free.len() implies after.pr.holds(
            #[trigger] after.pr.free[i],
        ) by {
            assert(view.pr.holds(view.pr.free[i]));
        }
    }
    assert forall|i: int| 0 <= i < after.reusable_blocks.blocks().len() implies (
    #[trigger] after.reusable_blocks.blocks()[i]).in_space(after.meta) by {
        assert(view.reusable_blocks.blocks()[i].in_space(view.meta));
    }
    assert forall|i: int| 0 <= i < all.len() implies block_state(
        after.meta,
        (#[trigger] all[i]).0 as int,
    ) == BlockState::Unallocated by {
        if i < old_all.len() {
            assert(all[i] == old_all[i]);
            lemma_released_block_in_space(view, i);
            assert(block_state(view.meta, old_all[i].0 as int) == BlockState::Unallocated);
        } else {
            assert(all[i] == block);
        }
    }
    assert forall|i: int, j: int| 0 <= i < j < all.len() implies all[i] != all[j] by {
        assert(all[i] == old_all[i]);
        if j < old_all.len() {
            assert(all[j] == old_all[j]);
        } else {
            assert(all[j] == block);
            assert(block_state(view.meta, old_all[i].0 as int) == BlockState::Unallocated);
        }
    }
    assert forall|b: int|
        after.meta.contains(b) && b % 32768 == 0 && b >= after.pr.cursor implies #[trigger] block_state(
        after.meta,
        b,
    ) == BlockState::Unallocated by {
        assert(block_state(view.meta, b) == BlockState::Unallocated);
    }
}

/// Sweeping a block that is in use keeps a space sound, and changes the
/// state of no other block and the mark of no line.
pub proof fn lemma_swept_block_wf(view: ImmixSpaceView, block: Block, state: u8)
    requires
        view.wf(),
        block.in_space(view.meta),
        block_state(view.meta, block.0 as int) != BlockState::Unallocated,
    ensures
        view.swept_block(block, state).wf(),
        forall|b: int|
            view.meta.contains(b) && b % 32768 == 0 && b != block.0 ==> #[trigger] block_state(
                view.swept_block(block, state).meta,
                b,
            ) == block_state(view.meta, b),
        table(view.swept_block(block, state).meta, SideMetadataSpec::LineMark) == table(
            view.meta,
            SideMetadataSpec::LineMark,
        ),
        view.swept_block(block, state).modes == view.modes,
        view.swept_block(block, state).chunk_map == view.chunk_map,
        view.swept_block(block, state).defrag == view.defrag,
        view.swept_block(block, state).line_mark_state == view.line_mark_state,
        view.swept_block(block, state).sweeps_pending == view.sweeps_pending,
{
    let marks = block_line_marks(view.meta, block.0 as int);
    let live = marked_lines(marks, state);
    let holes = hole_count(marks, state);
    crate::policy::immix::block::lemma_marked_lines_bounds(marks, state);
    crate::policy::immix::block::lemma_hole_count_bounds(marks, state);
    let b = block.0 as int;
    if view.modes.block_only {
        if block_state(view.meta, b) == BlockState::Unmarked {
            lemma_released_wf(view, block);
            lemma_store_tables(view.meta, SideMetadataSpec::BlockMark, b, MARK_UNALLOCATED);
        }
    } else if live == 0 {
        lemma_released_wf(view, block);
        lemma_store_tables(view.meta, SideMetadataSpec::BlockMark, b, MARK_UNALLOCATED);
    } else {
        let new_state = if live == LINES_IN_BLOCK {
            BlockState::Marked
        } else {
            BlockState::Reusable { unavailable_lines: live as u8 }
        };
        let byte = new_state.spec_to_byte();
        let stored: u8 = if live == LINES_IN_BLOCK {
            0
        } else {
            holes as u8
        };
        lemma_set_state_wf(view, block, new_state);
        lemma_store_tables(view.meta, SideMetadataSpec::BlockMark, b, byte);
        let m1 = view.meta.store(SideMetadataSpec::BlockMark, b, byte);
        let v1 = view.with_meta(m1);
        lemma_store_keeps_blocks(v1, SideMetadataSpec::BlockHoles, b, stored);
        lemma_store_tables(m1, SideMetadataSpec::BlockHoles, b, stored);
        let m2 = m1.store(SideMetadataSpec::BlockHoles, b, stored);
        let v2 = view.with_meta(m2);
        assert(v2.wf());
        let after = view.swept_block(block, state);
        assert(after.meta == m2);
        if live != LINES_IN_BLOCK {
            assert forall|i: int| 0 <= i < after.reusable_blocks.blocks().len() implies (
            #[trigger] after.reusable_blocks.blocks()[i]).in_space(after.meta) by {
                if i < view.reusable_blocks.blocks().len() {
                    assert(after.reusable_blocks.blocks()[i] == view.reusable_blocks.blocks()[i]);
                    assert(view.reusable_blocks.blocks()[i].in_space(view.meta));
                } else {
                    assert(after.reusable_blocks.blocks()[i] == block);
                }
            }
            assert(after.fresh_blocks_unallocated()) by {
                assert(v2.fresh_blocks_unallocated());
            }
            assert(after.released_blocks_unallocated()) by {
                assert(v2.released_blocks_unallocated());
                assert(after.released_blocks() == v2.released_blocks());
            }
        }
        assert forall|x: int|
            view.meta.contains(x) && x % 32768 == 0 && x != block.0 implies #[trigger] block_state(
            after.meta,
            x,
        ) == block_state(view.meta, x) by {
            assert(block_state(m2, x) == block_state(m1, x));
        }
    }
}

impl ImmixSpace {
    /// Counts the lines of `block` that are marked with `state`, and its
    /// holes.
    fn count_lines(&self, block: Block, state: u8) -> (r: (usize, usize))
        requires
            self@.wf(),
            !self@.modes.block_only,
            block.in_space(self@.meta),
        ensures
            r.0 == marked_lines(block_line_marks(self@.meta, block.0 as int), state),
            r.1 == hole_count(block_line_marks(self@.meta, block.0 as int), state),
            r.0 <= LINES_IN_BLOCK,
            r.1 <= 64,
            r.0 == LINES_IN_BLOCK ==> r.1 == 0,
    {
        let marks = block.line_mark_table(&self.metadata);
        let mut marked: usize = 0;
        let mut holes: usize = 0;
        let mut prev_line_is_marked = true;
        let mut i: usize = 0;
        proof {
            assert(marks@.subrange(0, 0) =~= Seq::<u8>::empty());
        }
        while i < LINES_IN_BLOCK
            invariant
                i <= LINES_IN_BLOCK,
                marks@.len() == LINES_IN_BLOCK,
                marked == marked_lines(marks@.subrange(0, i as int), state),
                holes == hole_count(marks@.subrange(0, i as int), state),
                marked <= i,
                holes <= i,
                prev_line_is_marked == (i == 0 || marks@[i - 1] == state),
            decreases LINES_IN_BLOCK - i,
        {
            proof {
                let next = marks@.subrange(0, i + 1);
                assert(next.drop_last() =~= marks@.subrange(0, i as int));
                assert(next.last() == marks@[i as int]);
                if i > 0 {
                    assert(next[i - 1] == marks@[i - 1]);
                }
            }
            if marks[i] == state {
                marked += 1;
                prev_line_is_marked = true;
            } else {
                if prev_line_is_marked {
                    holes += 1;
                }
                prev_line_is_marked = false;
            }
            i += 1;
        }
        proof {
            assert(marks@.subrange(0, i as int) =~= marks@);
            crate::policy::immix::block::lemma_hole_count_bounds(marks@, state);
            crate::policy::immix::block::lemma_marked_lines_bounds(marks@, state);
        }
        (marked, holes)
    }

    /// Sweeps `block`: see `Block::sweep`.
    pub fn sweep_block(
        &mut self,
        block: Block,
        mark_histogram: &mut Histogram,
        line_mark_state: Option<u8>,
    ) -> (dead: bool)
        requires
            old(self)@.wf(),
            block.in_space(old(self)@.meta),
            block_state(old(self)@.meta, block.0 as int) != BlockState::Unallocated,
            !old(self)@.modes.block_only ==> line_mark_state.is_some(),
            old(mark_histogram)@.len() == NUM_BINS,
            forall|i: int| 0 <= i < NUM_BINS ==> old(mark_histogram)@[i] + LINES_IN_BLOCK <= usize::MAX,
        ensures
            final(self)@.wf(),
            final(self)@ == old(self)@.swept_block(
                block,
                if line_mark_state.is_some() {
                    line_mark_state.unwrap()
                } else {
                    0
                },
            ),
            final(mark_histogram)@ == swept_histogram(
                old(mark_histogram)@,
                old(self)@,
                block,
                if line_mark_state.is_some() {
                    line_mark_state.unwrap()
                } else {
                    0
                },
            ),
            dead == old(self)@.block_is_dead(
                block,
                if line_mark_state.is_some() {
                    line_mark_state.unwrap()
                } else {
                    0
                },
            ),
    {
        let ghost state: u8 = if line_mark_state.is_some() {
            line_mark_state.unwrap()
        } else {
            0
        };
        proof {
            lemma_swept_block_wf(old(self)@, block, state);
        }
        if self.modes.block_only {
            match block.get_state(&self.metadata) {
                BlockState::Unmarked => {
                    self.release_block(block);
                    true
                },
                _ => false,
            }
        } else {
            let line_mark_state: u8 = match line_mark_state {
                Some(state) => state,
                None => 0,
            };
            let (marked_lines, holes) = self.count_lines(block, line_mark_state);
            if marked_lines == 0 {
                self.release_block(block);
                true
            } else {
                if marked_lines != LINES_IN_BLOCK {
                    self.set_block_state(
                        block,
                        BlockState::Reusable { unavailable_lines: marked_lines as u8 },
                    );
                    self.reusable_blocks.push(block);
                } else {
                    self.set_block_state(block, BlockState::Marked);
                }
                mark_histogram.add(holes, marked_lines);
                block.set_holes(&mut self.metadata, holes);
                proof {
                    assert(self@.reusable_blocks =~= old(self)@.swept_block(
                        block,
                        state,
                    ).reusable_blocks);
                    assert(self@ == old(self)@.swept_block(block, state));
                }
                false
            }
        }
    }

    /// Makes the blocks that were given back ready to be handed out
    /// again, and the reusable blocks ready to be popped.
    pub fn flush_page_resource(&mut self)
        requires
            old(self)@.wf(),
        ensures
            final(self)@.wf(),
            final(self)@ == old(self)@.flushed(),
    {
        self.reusable_blocks.flush_all();
        self.pr.flush_all();
        proof {
            let before = old(self)@;
            let after = self@;
            assert(after.reusable_blocks =~= before.flushed().reusable_blocks);
            assert(after.reusable_blocks.blocks() =~= before.reusable_blocks.blocks());
            assert(after.released_blocks() =~= before.released_blocks());
            assert forall|i: int| 0 <= i < after.reusable_blocks.blocks().len() implies (
            #[trigger] after.reusable_blocks.blocks()[i]).in_space(after.meta) by {
                assert(before.reusable_blocks.blocks()[i].in_space(before.meta));
            }
            assert forall|b: int|
                after.meta.contains(b) && b % 32768 == 0 && b >= after.pr.cursor implies #[trigger] block_state(
                after.meta,
                b,
            ) == BlockState::Unallocated by {
                assert(block_state(before.meta, b) == BlockState::Unallocated);
            }
        }
    }

    /// Records that one sweeping work packet has finished. The packet
    /// that finishes last flushes the page resource. Returns whether this
    /// one did.
    pub fn finish_one_work_packet(&mut self) -> (flushed: bool)
        requires
            old(self)@.wf(),
        ensures
            final(self)@.wf(),
            flushed == (old(self)@.sweeps_pending == 1),
            final(self)@ == (if flushed {
                ImmixSpaceView { sweeps_pending: 0, ..old(self)@.flushed() }
            } else {
                ImmixSpaceView {
                    sweeps_pending: wrapping_difference(old(self)@.sweeps_pending, 1),
                    ..old(self)@
                }
            }),
    {
        if 1 == fetch_sub_usize(&mut self.sweeps_pending, 1) {
            proof {
                assert(self@.wf()) by {
                    assert(self@.fresh_blocks_unallocated()) by {
                        assert(old(self)@.fresh_blocks_unallocated());
                    }
                    assert forall|i: int| 0 <= i < self@.reusable_blocks.blocks().len() implies (
                    #[trigger] self@.reusable_blocks.blocks()[i]).in_space(self@.meta) by {
                        assert(old(self)@.reusable_blocks.blocks()[i].in_space(old(self)@.meta));
                    }
                    assert(self@.released_blocks_unallocated()) by {
                        assert(old(self)@.released_blocks_unallocated());
                    }
                }
            }
            self.flush_page_resource();
            true
        } else {
            proof {
                assert(self@.fresh_blocks_unallocated()) by {
                    assert(old(self)@.fresh_blocks_unallocated());
                }
                assert forall|i: int| 0 <= i < self@.reusable_blocks.blocks().len() implies (
                #[trigger] self@.reusable_blocks.blocks()[i]).in_space(self@.meta) by {
                    assert(old(self)@.reusable_blocks.blocks()[i].in_space(old(self)@.meta));
                }
                assert(self@.released_blocks_unallocated()) by {
                    assert(old(self)@.released_blocks_unallocated());
                }
            }
            false
        }
    }
}

/// How far the sweep of a chunk has come: the space, the histogram of the
/// chunk, and the number of blocks found live.
pub struct SweepProgress {
    /// The content of the space.
    pub view: ImmixSpaceView,
    /// The histogram of the chunk.
    pub histogram: Seq<usize>,
    /// The number of blocks found live.
    pub live_blocks: int,
}

/// Whether the sweep clears the forwarding states of the objects of a
/// block before it sweeps the block: it does so after a collection that
/// may have moved objects, for the blocks that were evacuated if the
/// collection defragmented, and for all blocks otherwise.
pub open spec fn clears_forwarding(view: ImmixSpaceView, block: Block, moving: bool) -> bool {
    moving && (if view.defrag.in_defrag {
        block_is_defrag_source(view.meta, block.0 as int)
    } else {
        true
    })
}

/// The content of a space after the forwarding states of the objects of
/// `block` were cleared, if the sweep clears them.
pub open spec fn forwarding_cleared(view: ImmixSpaceView, block: Block, moving: bool) -> ImmixSpaceView {
    if clears_forwarding(view, block, moving) {
        view.with_meta(
            view.meta.fill(
                SideMetadataSpec::ForwardingBits,
                block.0 as int,
                BYTES_IN_BLOCK as int,
                0,
            ),
        )
    } else {
        view
    }
}

/// The progress of a sweep after one more block: an unallocated block is
/// passed over; of any other block the forwarding states are cleared if
/// the sweep clears them, and the block is swept.
pub open spec fn block_swept_in_chunk(
    progress: SweepProgress,
    block: Block,
    state: u8,
    moving: bool,
) -> SweepProgress {
    if block_state(progress.view.meta, block.0 as int) == BlockState::Unallocated {
        progress
    } else {
        let cleared = forwarding_cleared(progress.view, block, moving);
        SweepProgress {
            view: cleared.swept_block(block, state),
            histogram: swept_histogram(progress.histogram, cleared, block, state),
            live_blocks: progress.live_blocks + if cleared.block_is_dead(block, state) {
                0int
            } else {
                1int
            },
        }
    }
}

/// The progress of a sweep after the first `n` blocks of the chunk at
/// `chunk`.
pub open spec fn blocks_swept(
    start: SweepProgress,
    chunk: int,
    n: int,
    state: u8,
    moving: bool,
) -> SweepProgress
    decreases n,
{
    if n <= 0 {
        start
    } else {
        block_swept_in_chunk(
            blocks_swept(start, chunk, n - 1, state, moving),
            Block((chunk + (n - 1) * 32768) as usize),
            state,
            moving,
        )
    }
}

/// The content of a space after the chunk `chunk` was swept, before the
/// sweep is counted as finished: every block of the chunk is swept; the
/// chunk is recorded as free if no block is live; and the histogram of
/// the chunk is filed.
pub open spec fn chunk_swept(view: ImmixSpaceView, chunk: Chunk, moving: bool) -> ImmixSpaceView {
    let start = SweepProgress {
        view,
        histogram: Seq::new(NUM_BINS as nat, |i: int| 0usize),
        live_blocks: 0,
    };
    let done = blocks_swept(start, chunk.0 as int, 128, view.line_mark_state, moving);
    ImmixSpaceView {
        chunk_map: if done.live_blocks == 0 {
            ChunkMapView {
                allocated: done.view.chunk_map.allocated.update(
                    done.view.chunk_map.index(chunk),
                    false,
                ),
                ..done.view.chunk_map
            }
        } else {
            done.view.chunk_map
        },
        defrag: DefragView {
            mark_histograms: done.view.defrag.mark_histograms.push(done.histogram),
            ..done.view.defrag
        },
        ..done.view
    }
}

/// The content of a space after one sweeping work packet was counted as
/// finished: the packet that finishes last flushes the page resource.
pub open spec fn sweep_finished(view: ImmixSpaceView) -> ImmixSpaceView {
    if view.sweeps_pending == 1 {
        ImmixSpaceView { sweeps_pending: 0, ..view.flushed() }
    } else {
        ImmixSpaceView { sweeps_pending: wrapping_difference(view.sweeps_pending, 1), ..view }
    }
}

/// Clearing forwarding states keeps a space sound and the states and line
/// marks of the blocks as they are.
pub proof fn lemma_forwarding_cleared_wf(view: ImmixSpaceView, block: Block, moving: bool)
    requires
        view.wf(),
        block.in_space(view.meta),
    ensures
        forwarding_cleared(view, block, moving).wf(),
        forall|b: int|
            block_state(forwarding_cleared(view, block, moving).meta, b) == block_state(view.meta, b),
        forwarding_cleared(view, block, moving).modes == view.modes,
        forwarding_cleared(view, block, moving).chunk_map == view.chunk_map,
        forwarding_cleared(view, block, moving).defrag == view.defrag,
        forwarding_cleared(view, block, moving).line_mark_state == view.line_mark_state,
        forwarding_cleared(view, block, moving).sweeps_pending == view.sweeps_pending,
        same_shape(view.meta, forwarding_cleared(view, block, moving).meta),
{
    if clears_forwarding(view, block, moving) {
        lemma_fill_keeps_blocks(
            view,
            SideMetadataSpec::ForwardingBits,
            block.0 as int,
            BYTES_IN_BLOCK as int,
            0,
        );
        lemma_fill_same_shape(
            view.meta,
            SideMetadataSpec::ForwardingBits,
            block.0 as int,
            BYTES_IN_BLOCK as int,
            0,
        );
    }
}

/// A chunk sweeping work packet.
#[derive(Clone, Copy, PartialEq, Eq, Structural, Debug)]
pub struct SweepChunk {
    /// The chunk.
    pub chunk: Chunk,
}

impl SweepChunk {
    /// Whether the packet can run: its chunk is an allocated chunk of the
    /// space.
    pub open spec fn ready(&self, space: ImmixSpaceView) -> bool {
        &&& space.wf()
        &&& self.chunk.wf()
        &&& space.meta.contains(self.chunk.0 as int)
        &&& space.chunk_map.is_allocated(self.chunk)
    }

    /// Whether the packet can run.
    pub fn is_ready(&self, space: &ImmixSpace) -> (r: bool)
        requires
            space@.wf(),
        ensures
            r == self.ready(space@),
    {
        if self.chunk.0 % BYTES_IN_CHUNK != 0 {
            return false;
        }
        if !space.metadata.contains(self.chunk.start()) {
            return false;
        }
        match space.chunk_map.get(self.chunk) {
            Some(state) => state.is_allocated(),
            None => false,
        }
    }

    /// What running the packet leaves behind: `after_self`, `after_worker` and
    /// `after` are the packet, the worker and the collector afterwards.
    pub open spec fn done(
        &self,
        after_self: Self,
        worker: crate::scheduler::worker::GCWorker,
        after_worker: crate::scheduler::worker::GCWorker,
        before: crate::mmtk::MMTK,
        after: crate::mmtk::MMTK,
    ) -> bool {
        &&& after.wf()
        &&& after_self == (*self)
        &&& after_worker == worker
        &&& after.plan.immix_space@ == sweep_finished(
            chunk_swept(
                before.plan.immix_space@,
                self.chunk,
                before.plan.immix_space@.defrag.in_defrag,
            ),
        )
        &&& after.scheduler == before.scheduler
        &&& after.state == before.state
        &&& after.vm == before.vm
        &&& after.options == before.options
        &&& after.gc_count == before.gc_count
        &&& after.plan.constraints == before.plan.constraints
        &&& after.plan.last_gc_was_defrag == before.plan.last_gc_was_defrag
        &&& after.plan.total_pages == before.plan.total_pages
        &&& after.plan.emergency_notified == before.plan.emergency_notified
    }

    /// Sweeps the blocks of the chunk, records the chunk as free if no
    /// block of it is live, files the histogram of the chunk, and counts
    /// the sweep as finished.
    pub fn do_work(
        &mut self,
        worker: &mut crate::scheduler::worker::GCWorker,
        mmtk: &mut crate::mmtk::MMTK,
    )
        requires
            old(mmtk).wf(),
            old(self).ready(old(mmtk).plan.immix_space@),
        ensures
            old(self).done(*final(self), *old(worker), *final(worker), *old(mmtk), *final(mmtk)),
    {
        let is_moving_gc = mmtk.plan.current_gc_may_move_object();
        self.sweep_blocks(&mut mmtk.plan.immix_space, is_moving_gc);
        mmtk.plan.immix_space.finish_one_work_packet();
    }

    /// Sweeps one block of the chunk, unless it is unallocated. Returns
    /// whether the block was found live.
    fn sweep_one(
        space: &mut ImmixSpace,
        histogram: &mut Histogram,
        block: Block,
        line_mark_state: Option<u8>,
        is_moving_gc: bool,
        is_defrag_gc: bool,
        live_before: Ghost<int>,
    ) -> (live: bool)
        requires
            old(space)@.wf(),
            block.in_space(old(space)@.meta),
            old(space)@.modes.block_only ==> line_mark_state.is_none(),
            !old(space)@.modes.block_only ==> line_mark_state == Some(
                old(space)@.line_mark_state,
            ),
            is_defrag_gc == old(space)@.defrag.in_defrag,
            old(histogram)@.len() == NUM_BINS,
            forall|i: int| 0 <= i < NUM_BINS ==> old(histogram)@[i] + LINES_IN_BLOCK <= usize::MAX,
        ensures
            final(space)@.wf(),
            block_swept_in_chunk(
                SweepProgress {
                    view: old(space)@,
                    histogram: old(histogram)@,
                    live_blocks: live_before@,
                },
                block,
                old(space)@.line_mark_state,
                is_moving_gc,
            ) == (SweepProgress {
                view: final(space)@,
                histogram: final(histogram)@,
                live_blocks: live_before@ + if live {
                    1int
                } else {
                    0int
                },
            }),
            final(space)@.meta.start == old(space)@.meta.start,
            final(space)@.meta.chunks == old(space)@.meta.chunks,
            final(space)@.modes == old(space)@.modes,
            final(space)@.chunk_map == old(space)@.chunk_map,
            final(space)@.defrag == old(space)@.defrag,
            final(space)@.line_mark_state == old(space)@.line_mark_state,
            final(space)@.sweeps_pending == old(space)@.sweeps_pending,
            final(histogram)@.len() == NUM_BINS,
            forall|i: int|
                0 <= i < NUM_BINS ==> final(histogram)@[i] <= old(histogram)@[i] + LINES_IN_BLOCK,
    {
        let ghost before = space@;
        let ghost state = before.line_mark_state;
        if block.get_state(&space.metadata) == BlockState::Unallocated {
            return false;
        }
        proof {
            lemma_forwarding_cleared_wf(before, block, is_moving_gc);
            let cleared = forwarding_cleared(before, block, is_moving_gc);
            lemma_swept_block_wf(cleared, block, state);
            let marks = block_line_marks(cleared.meta, block.0 as int);
            crate::policy::immix::block::lemma_marked_lines_bounds(marks, state);
            crate::policy::immix::block::lemma_hole_count_bounds(marks, state);
        }
        if is_moving_gc {
            let objects_may_move = if is_defrag_gc {
                block.is_defrag_source(&space.metadata)
            } else {
                true
            };
            if objects_may_move {
                space.metadata.bzero_blocks(
                    SideMetadataSpec::ForwardingBits,
                    block.start(),
                    BYTES_IN_BLOCK,
                );
            }
        }
        let dead = block.sweep(space, histogram, line_mark_state);
        proof {
            if before.modes.block_only {
                let cleared = forwarding_cleared(before, block, is_moving_gc);
                assert(cleared.swept_block(block, 0) == cleared.swept_block(block, state));
            }
        }
        !dead
    }

    /// Sweeps the blocks of the chunk in `space`, records the chunk as
    /// free if no block of it is live, and files the histogram of the
    /// chunk.
    pub fn sweep_blocks(&self, space: &mut ImmixSpace, is_moving_gc: bool)
        requires
            self.ready(old(space)@),
        ensures
            final(space)@.wf(),
            final(space)@ == chunk_swept(old(space)@, self.chunk, is_moving_gc),
    {
        let mut histogram = space.defrag.new_histogram();
        let state: u8 = load_u8(&space.line_mark_state);
        let line_mark_state: Option<u8> = if space.modes.block_only {
            None
        } else {
            Some(state)
        };
        let is_defrag_gc = space.defrag.in_defrag();
        let mut allocated_blocks: usize = 0;
        let ghost first = old(space)@;
        let ghost start = SweepProgress {
            view: first,
            histogram: Seq::new(NUM_BINS as nat, |i: int| 0usize),
            live_blocks: 0,
        };
        proof {
            assert(histogram@ =~= start.histogram);
        }
        let mut j: usize = 0;
        while j < 128
            invariant
                j <= 128,
                self.chunk.wf(),
                first.meta.wf(),
                first.meta.contains(self.chunk.0 as int),
                first.modes.block_only ==> line_mark_state.is_none(),
                !first.modes.block_only ==> line_mark_state == Some(state),
                state == first.line_mark_state,
                is_defrag_gc == first.defrag.in_defrag,
                start == (SweepProgress {
                    view: first,
                    histogram: Seq::new(NUM_BINS as nat, |i: int| 0usize),
                    live_blocks: 0,
                }),
                space@.wf(),
                space@.meta.start == first.meta.start,
                space@.meta.chunks == first.meta.chunks,
                space@.modes == first.modes,
                space@.chunk_map == first.chunk_map,
                space@.defrag == first.defrag,
                space@.line_mark_state == first.line_mark_state,
                space@.sweeps_pending == first.sweeps_pending,
                histogram@.len() == NUM_BINS,
                forall|i: int| 0 <= i < NUM_BINS ==> histogram@[i] <= j * 128,
                allocated_blocks <= j,
                blocks_swept(start, self.chunk.0 as int, j as int, state, is_moving_gc) == (
                SweepProgress {
                    view: space@,
                    histogram: histogram@,
                    live_blocks: allocated_blocks as int,
                }),
            decreases 128 - j,
        {
            proof {
                lemma_chunk_block_in_space(first.meta, self.chunk, j as int);
            }
            let block = Block(self.chunk.0 + j * 32768);
            if Self::sweep_one(
                space,
                &mut histogram,
                block,
                line_mark_state,
                is_moving_gc,
                is_defrag_gc,
                Ghost(allocated_blocks as int),
            ) {
                allocated_blocks += 1;
            }
            j += 1;
        }
        if allocated_blocks == 0 {
            space.chunk_map.set_allocated(self.chunk, false);
        }
        space.defrag.add_completed_mark_histogram(histogram);
        proof {
            let want = chunk_swept(first, self.chunk, is_moving_gc);
            assert(space@.chunk_map == want.chunk_map);
            assert(space@.defrag == want.defrag);
            assert(space@ == want);
            assert(space@.fresh_blocks_unallocated());
            assert(space@.released_blocks_unallocated());
            assert forall|i: int| 0 <= i < space@.reusable_blocks.blocks().len() implies (
            #[trigger] space@.reusable_blocks.blocks()[i]).in_space(space@.meta) by {}
        }
    }
}

/// What the sweep of a block in a space with line marks says of the
/// block: the lines keep their marks; a block without a live line is
/// unallocated; a block that ends marked has the mark of the collection
/// on every one of its lines; and a block that ends reusable counts as
/// unavailable exactly the lines that have the mark of the collection,
/// of which there is at least one and fewer than the block has lines.
pub proof fn lemma_swept_block_state(view: ImmixSpaceView, block: Block, state: u8)
    requires
        view.wf(),
        !view.modes.block_only,
        block.in_space(view.meta),
        block_state(view.meta, block.0 as int) != BlockState::Unallocated,
    ensures
        block_line_marks(view.swept_block(block, state).meta, block.0 as int) == block_line_marks(
            view.meta,
            block.0 as int,
        ),
        match block_state(view.swept_block(block, state).meta, block.0 as int) {
            BlockState::Unallocated => marked_lines(
                block_line_marks(view.meta, block.0 as int),
                state,
            ) == 0,
            BlockState::Marked => forall|i: int|
                0 <= i < LINES_IN_BLOCK ==> #[trigger] block_line_marks(view.meta, block.0 as int)[i]
                    == state,
            BlockState::Reusable { unavailable_lines } => unavailable_lines == marked_lines(
                block_line_marks(view.meta, block.0 as int),
                state,
            ) && 0 < unavailable_lines < LINES_IN_BLOCK,
            BlockState::Unmarked => false,
        },
        crate::policy::immix::block::block_holes(view.swept_block(block, state).meta, block.0 as int)
            == (if marked_lines(block_line_marks(view.meta, block.0 as int), state) == 0 {
            crate::policy::immix::block::block_holes(view.meta, block.0 as int)
        } else {
            hole_count(block_line_marks(view.meta, block.0 as int), state) as int
        }),
{
    let b = block.0 as int;
    let marks = block_line_marks(view.meta, b);
    let live = marked_lines(marks, state);
    let holes = hole_count(marks, state);
    crate::policy::immix::block::lemma_marked_lines_bounds(marks, state);
    crate::policy::immix::block::lemma_hole_count_bounds(marks, state);
    lemma_swept_block_wf(view, block, state);
    let after = view.swept_block(block, state);
    assert(after.meta.start == view.meta.start);
    assert(table(after.meta, SideMetadataSpec::LineMark) == table(
        view.meta,
        SideMetadataSpec::LineMark,
    ));
    assert(block_line_marks(after.meta, b) =~= marks);
    if live == 0 {
        lemma_store_same_shape(view.meta, SideMetadataSpec::BlockMark, b, MARK_UNALLOCATED);
    } else {
        let byte: u8 = if live == LINES_IN_BLOCK {
            MARK_MARKED
        } else {
            live as u8
        };
        let stored: u8 = if live == LINES_IN_BLOCK {
            0
        } else {
            holes as u8
        };
        lemma_store_same_shape(view.meta, SideMetadataSpec::BlockMark, b, byte);
        let m1 = view.meta.store(SideMetadataSpec::BlockMark, b, byte);
        lemma_store_same_shape(m1, SideMetadataSpec::BlockHoles, b, stored);
        assert(m1.has(SideMetadataSpec::BlockHoles)) by {
            assert(m1.tables[SideMetadataSpec::BlockHoles.spec_ordinal()].len()
                == view.meta.tables[SideMetadataSpec::BlockHoles.spec_ordinal()].len());
        }
    }
}

} // verus!
