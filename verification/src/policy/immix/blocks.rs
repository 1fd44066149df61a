//! How an Immix space takes blocks into use and gives them back.

use ::atomic::Atomic;
use crate::policy::immix::block::Block;
use crate::policy::immix::block::BlockState;
use crate::policy::immix::block::LINES_IN_BLOCK;
use crate::policy::immix::block::MARK_MARKED;
use crate::policy::immix::block::MARK_UNALLOCATED;
use crate::policy::immix::block::ReusableBlockPool;
use crate::policy::immix::block::ReusableBlockPoolView;
use crate::policy::immix::block::block_is_defrag_source;
use crate::policy::immix::block::block_state;
use crate::policy::immix::block::has_block_tables;
use crate::policy::immix::block::initialized;
use crate::policy::immix::immixspace::ImmixSpace;
use crate::policy::immix::immixspace::ImmixSpaceView;
use crate::policy::immix::immixspace::lemma_allocated_block_below_cursor;
use crate::policy::immix::immixspace::lemma_distinct_blocks;
use crate::policy::immix::immixspace::lemma_meta_update_wf;
use crate::policy::immix::immixspace::lemma_released_block_in_space;
use crate::policy::immix::immixspace::lemma_set_state_wf;
use crate::policy::immix::immixspace::lemma_store_same_shape;
use crate::policy::immix::immixspace::same_shape;
use crate::util::address::Address;
use crate::util::atomic_cell::fetch_add_usize;
use crate::util::atomic_cell::wrapping_sum;
use crate::util::heap::chunk_map::Chunk;
use crate::util::heap::chunk_map::ChunkMapView;
use crate::util::metadata::SideMetadataContext;
use crate::util::metadata::SideMetadataSpec;
use crate::util::metadata::SideMetadataView;
use crate::util::opaque_pointer::VMThread;
use vstd::prelude::*;

verus! {

/// Whether a worker that asks for a reusable block passes over `block`: a
/// worker that copies does not take a block that is to be evacuated.
pub open spec fn passed_over(meta: SideMetadataView, block: Block, copy: bool) -> bool {
    copy && block_is_defrag_source(meta, block.0 as int)
}

/// The position in `global` of the block that a worker gets that asks for
/// a reusable block: the last one that it does not pass over. Negative
/// when there is none.
pub open spec fn pick_index(meta: SideMetadataView, global: Seq<Block>, copy: bool) -> int
    decreases global.len(),
{
    if global.len() == 0 {
        -1
    } else if passed_over(meta, global.last(), copy) {
        pick_index(meta, global.drop_last(), copy)
    } else {
        global.len() - 1
    }
}

/// The number of lines of a block in state `state` that a worker can
/// allocate into when it takes the block out of the pool.
pub open spec fn lines_delta(state: BlockState) -> int {
    match state {
        BlockState::Reusable { unavailable_lines } => LINES_IN_BLOCK - unavailable_lines,
        BlockState::Unmarked => LINES_IN_BLOCK as int,
        _ => 0,
    }
}

/// Whether a block in state `state` can be taken out of the pool.
pub open spec fn state_is_reusable(state: BlockState) -> bool {
    match state {
        BlockState::Reusable { unavailable_lines } => unavailable_lines <= LINES_IN_BLOCK,
        BlockState::Unmarked => true,
        _ => false,
    }
}

/// The position that `pick_index` gives is that of a block which is not
/// passed over, and every block after it is passed over.
pub proof fn lemma_pick_index(meta: SideMetadataView, global: Seq<Block>, copy: bool)
    ensures
        -1 <= pick_index(meta, global, copy) < global.len(),
        pick_index(meta, global, copy) >= 0 ==> !passed_over(
            meta,
            global[pick_index(meta, global, copy)],
            copy,
        ),
        forall|j: int|
            pick_index(meta, global, copy) < j < global.len() ==> passed_over(
                meta,
                #[trigger] global[j],
                copy,
            ),
    decreases global.len(),
{
    if global.len() > 0 && passed_over(meta, global.last(), copy) {
        let front = global.drop_last();
        lemma_pick_index(meta, front, copy);
        assert forall|j: int|
            pick_index(meta, global, copy) < j < global.len() implies passed_over(
            meta,
            #[trigger] global[j],
            copy,
        ) by {
            if j < front.len() {
                assert(front[j] == global[j]);
            }
        }
    }
}

impl ImmixSpaceView {
    /// Whether the block that a worker would get out of the pool is in a
    /// state in which it can be taken.
    pub open spec fn reusable_block_ready(self, copy: bool) -> bool {
        let i = pick_index(self.meta, self.reusable_blocks.global, copy);
        i >= 0 ==> state_is_reusable(block_state(self.meta, self.reusable_blocks.global[i].0 as int))
    }

    /// The content after a worker took a fresh block, or the same content
    /// when the page resource had none.
    pub open spec fn after_clean_block(self, copy: bool) -> Self {
        if self.pr.can_acquire() {
            let block = Block(self.pr.next_block());
            ImmixSpaceView {
                pr: self.pr.after_acquire(),
                defrag: self.defrag.after_clean_block(copy),
                meta: initialized(self.meta, block.0 as int, copy),
                chunk_map: ChunkMapView {
                    allocated: self.chunk_map.allocated.update(
                        self.chunk_map.index(Chunk((block.0 - block.0 % 4194304) as usize)),
                        true,
                    ),
                    ..self.chunk_map
                },
                lines_consumed: wrapping_sum(self.lines_consumed, LINES_IN_BLOCK),
                ..self
            }
        } else {
            self
        }
    }

    /// The content after a worker asked for a reusable block.
    pub open spec fn after_reusable_block(self, copy: bool) -> Self {
        let i = pick_index(self.meta, self.reusable_blocks.global, copy);
        if self.modes.block_only {
            self
        } else if i < 0 {
            ImmixSpaceView {
                reusable_blocks: ReusableBlockPoolView {
                    global: Seq::empty(),
                    ..self.reusable_blocks
                },
                ..self
            }
        } else {
            let block = self.reusable_blocks.global[i];
            ImmixSpaceView {
                reusable_blocks: ReusableBlockPoolView {
                    global: self.reusable_blocks.global.subrange(0, i),
                    ..self.reusable_blocks
                },
                meta: initialized(self.meta, block.0 as int, copy),
                lines_consumed: wrapping_sum(
                    self.lines_consumed,
                    lines_delta(block_state(self.meta, block.0 as int)) as usize,
                ),
                ..self
            }
        }
    }
}

/// What taking a block into use changes: the state of that block, and
/// nothing in any table that does not describe blocks.
pub proof fn lemma_initialized(meta: SideMetadataView, block: int, copy: bool)
    requires
        meta.wf(),
        has_block_tables(meta),
        meta.contains(block),
        block % 32768 == 0,
    ensures
        same_shape(meta, initialized(meta, block, copy)),
        initialized(meta, block, copy).wf(),
        initialized(meta, block, copy).pointers == meta.pointers,
        forall|x: int|
            meta.contains(x) && x % 32768 == 0 ==> #[trigger] block_state(
                initialized(meta, block, copy),
                x,
            ) == (if x == block {
                if copy {
                    BlockState::Marked
                } else {
                    BlockState::Unmarked
                }
            } else {
                block_state(meta, x)
            }),
        forall|spec: SideMetadataSpec|
            spec != SideMetadataSpec::BlockMark && spec != SideMetadataSpec::BlockHoles && spec
                != SideMetadataSpec::BlockDefragSource ==> initialized(
                meta,
                block,
                copy,
            ).tables[#[trigger] spec.spec_ordinal()] == meta.tables[spec.spec_ordinal()],
{
    let byte = if copy {
        MARK_MARKED
    } else {
        crate::policy::immix::block::MARK_UNMARKED
    };
    let m1 = meta.store(SideMetadataSpec::BlockMark, block, byte);
    lemma_store_same_shape(meta, SideMetadataSpec::BlockMark, block, byte);
    assert(m1.has(SideMetadataSpec::BlockHoles)) by {
        assert(m1.tables[SideMetadataSpec::BlockHoles.spec_ordinal()].len()
            == meta.tables[SideMetadataSpec::BlockHoles.spec_ordinal()].len());
    }
    let m2 = m1.store(SideMetadataSpec::BlockHoles, block, 0);
    lemma_store_same_shape(m1, SideMetadataSpec::BlockHoles, block, 0);
    assert(m2.has(SideMetadataSpec::BlockDefragSource)) by {
        assert(m2.tables[SideMetadataSpec::BlockDefragSource.spec_ordinal()].len()
            == m1.tables[SideMetadataSpec::BlockDefragSource.spec_ordinal()].len());
    }
    let m3 = m2.store(SideMetadataSpec::BlockDefragSource, block, 0);
    lemma_store_same_shape(m2, SideMetadataSpec::BlockDefragSource, block, 0);
    assert(m3 == initialized(meta, block, copy));
    assert forall|t: int| 0 <= t < meta.tables.len() implies (#[trigger] meta.tables[t]).len()
        == m3.tables[t].len() by {
        assert(m1.tables[t].len() == meta.tables[t].len());
        assert(m2.tables[t].len() == m1.tables[t].len());
    }
    assert forall|x: int| meta.contains(x) && x % 32768 == 0 implies #[trigger] block_state(m3, x)
        == (if x == block {
        BlockState::spec_from_byte(byte)
    } else {
        block_state(meta, x)
    }) by {
        assert(m3.load(SideMetadataSpec::BlockMark, x) == m2.load(SideMetadataSpec::BlockMark, x));
        assert(m2.load(SideMetadataSpec::BlockMark, x) == m1.load(SideMetadataSpec::BlockMark, x));
        if x != block {
            lemma_distinct_blocks(meta, x, block);
        }
    }
    assert forall|spec: SideMetadataSpec|
        spec != SideMetadataSpec::BlockMark && spec != SideMetadataSpec::BlockHoles && spec
            != SideMetadataSpec::BlockDefragSource implies m3.tables[#[trigger] spec.spec_ordinal()]
        == meta.tables[spec.spec_ordinal()] by {}
}

/// Taking a block into use that is in use already keeps a space sound.
pub proof fn lemma_initialized_wf(view: ImmixSpaceView, block: Block, copy: bool)
    requires
        view.wf(),
        block.in_space(view.meta),
        block_state(view.meta, block.0 as int) != BlockState::Unallocated,
    ensures
        view.with_meta(initialized(view.meta, block.0 as int, copy)).wf(),
{
    lemma_initialized(view.meta, block.0 as int, copy);
    lemma_meta_update_wf(view, initialized(view.meta, block.0 as int, copy));
}

/// The block that the page resource hands out next is unallocated and is
/// not among the blocks that it keeps.
#[verifier::rlimit(50)]
pub proof fn lemma_next_block(view: ImmixSpaceView)
    requires
        view.wf(),
        view.pr.can_acquire(),
    ensures
        Block(view.pr.next_block()).in_space(view.meta),
        block_state(view.meta, view.pr.next_block() as int) == BlockState::Unallocated,
        view.pr.after_acquire().wf(),
        view.pr.after_acquire().holds(Block(view.pr.next_block())),
        forall|i: int|
            0 <= i < view.pr.after_acquire().free.len() ==> (
            #[trigger] view.pr.after_acquire().free[i]).0 != view.pr.next_block(),
        forall|i: int|
            0 <= i < view.pr.local.len() ==> (#[trigger] view.pr.local[i]).0 != view.pr.next_block(),
{
    let pr = view.pr.after_acquire();
    let all = view.released_blocks();
    if view.pr.free.len() > 0 {
        let last = view.pr.free.len() - 1;
        assert(view.pr.holds(view.pr.free[last]));
        assert(all[last] == view.pr.free[last]);
        lemma_released_block_in_space(view, last);
        assert forall|i: int| 0 <= i < pr.free.len() implies (#[trigger] pr.free[i]).0
            != view.pr.next_block() by {
            assert(all[i] == view.pr.free[i]);
            assert(all[i] != all[last]);
        }
        assert forall|i: int| 0 <= i < view.pr.local.len() implies (#[trigger] view.pr.local[i]).0
            != view.pr.next_block() by {
            assert(all[view.pr.free.len() + i] == view.pr.local[i]);
            assert(all[last] != all[view.pr.free.len() + i]);
        }
    } else {
        assert(block_state(view.meta, view.pr.cursor as int) == BlockState::Unallocated);
        assert forall|i: int| 0 <= i < view.pr.local.len() implies (#[trigger] view.pr.local[i]).0
            != view.pr.next_block() by {
            assert(view.pr.holds(view.pr.local[i]));
        }
    }
    assert forall|i: int| 0 <= i < pr.free.len() implies pr.holds(#[trigger] pr.free[i]) by {
        assert(view.pr.holds(view.pr.free[i]));
    }
    assert forall|i: int| 0 <= i < pr.local.len() implies pr.holds(#[trigger] pr.local[i]) by {
        assert(view.pr.holds(view.pr.local[i]));
    }
}

/// Taking a fresh block keeps a space sound.
pub proof fn lemma_after_clean_block_wf(view: ImmixSpaceView, copy: bool)
    requires
        view.wf(),
    ensures
        view.after_clean_block(copy).wf(),
{
    if view.pr.can_acquire() {
        let block = Block(view.pr.next_block());
        lemma_next_block(view);
        lemma_initialized(view.meta, block.0 as int, copy);
        let after = view.after_clean_block(copy);
        assert forall|s: SideMetadataSpec| after.meta.has(s) == view.meta.has(s) by {
            assert(view.meta.tables[s.spec_ordinal()].len() == after.meta.tables[s.spec_ordinal()].len());
        }
        assert forall|i: int| 0 <= i < after.reusable_blocks.blocks().len() implies (
        #[trigger] after.reusable_blocks.blocks()[i]).in_space(after.meta) by {
            assert(view.reusable_blocks.blocks()[i].in_space(view.meta));
        }
        assert forall|b: int|
            after.meta.contains(b) && b % 32768 == 0 && b >= after.pr.cursor implies #[trigger] block_state(
            after.meta,
            b,
        ) == BlockState::Unallocated by {
            assert(block_state(view.meta, b) == BlockState::Unallocated);
        }
        let all = after.released_blocks();
        let old_all = view.released_blocks();
        assert forall|i: int| 0 <= i < all.len() implies block_state(
            after.meta,
            (#[trigger] all[i]).0 as int,
        ) == BlockState::Unallocated && all[i] == old_all[if i < after.pr.free.len() {
            i
        } else {
            i + (view.pr.free.len() - after.pr.free.len())
        }] by {
            let k = if i < after.pr.free.len() {
                i
            } else {
                i + (view.pr.free.len() - after.pr.free.len())
            };
            assert(all[i] == old_all[k]);
            lemma_released_block_in_space(view, k);
            assert(block_state(view.meta, old_all[k].0 as int) == BlockState::Unallocated);
            if i < after.pr.free.len() {
                assert(after.pr.free[i].0 != block.0);
            } else {
                assert(view.pr.local[i - after.pr.free.len()].0 != block.0);
            }
        }
        assert forall|i: int, j: int| 0 <= i < j < all.len() implies all[i] != all[j] by {
            let ki = if i < after.pr.free.len() {
                i
            } else {
                i + (view.pr.free.len() - after.pr.free.len())
            };
            let kj = if j < after.pr.free.len() {
                j
            } else {
                j + (view.pr.free.len() - after.pr.free.len())
            };
            assert(all[i] == old_all[ki]);
            assert(all[j] == old_all[kj]);
            assert(old_all[ki] != old_all[kj]);
        }
    }
}

impl ImmixSpace {
    /// Takes memory for `pages` pages from the page resource, which hands
    /// it out a block at a time. Returns the zero address when there is
    /// none.
    pub(crate) fn acquire(&mut self, tls: VMThread, pages: usize) -> (addr: Address)
        requires
            old(self)@.wf(),
            pages == crate::policy::immix::block::PAGES_IN_BLOCK,
        ensures
            addr.0 == old(self)@.pr.next_block(),
            final(self)@ == (ImmixSpaceView { pr: old(self)@.pr.after_acquire(), ..old(self)@ }),
            addr.0 != 0 <==> old(self)@.pr.can_acquire(),
    {
        self.pr.acquire_block()
    }

    /// Gives a block that is in use back to the page resource.
    pub fn release_block(&mut self, block: Block)
        requires
            old(self)@.wf(),
            block.in_space(old(self)@.meta),
            block_state(old(self)@.meta, block.0 as int) != BlockState::Unallocated,
        ensures
            final(self)@.wf(),
            final(self)@ == (ImmixSpaceView {
                meta: old(self)@.meta.store(
                    SideMetadataSpec::BlockMark,
                    block.0 as int,
                    MARK_UNALLOCATED,
                ),
                pr: old(self)@.pr.after_release(block),
                ..old(self)@
            }),
            block_state(final(self)@.meta, block.0 as int) == BlockState::Unallocated,
    {
        proof {
            lemma_allocated_block_below_cursor(old(self)@, block.0 as int);
            lemma_set_state_wf(old(self)@, block, BlockState::Unallocated);
        }
        block.deinit(&mut self.metadata);
        self.pr.release_block(block);
        proof {
            let before = old(self)@;
            let after = self@;
            let all = after.released_blocks();
            let old_all = before.released_blocks();
            assert forall|i: int| 0 <= i < after.reusable_blocks.blocks().len() implies (
            #[trigger] after.reusable_blocks.blocks()[i]).in_space(after.meta) by {
                assert(before.reusable_blocks.blocks()[i].in_space(before.meta));
            }
            assert forall|i: int| 0 <= i < all.len() implies block_state(
                after.meta,
                (#[trigger] all[i]).0 as int,
            ) == BlockState::Unallocated by {
                if i < old_all.len() {
                    assert(all[i] == old_all[i]);
                    lemma_released_block_in_space(before, i);
                    assert(block_state(before.meta, old_all[i].0 as int) == BlockState::Unallocated);
                } else {
                    assert(all[i] == block);
                }
            }
            assert forall|i: int, j: int| 0 <= i < j < all.len() implies all[i] != all[j] by {
                assert(all[i] == old_all[i]);
                if j < old_all.len() {
                    assert(all[j] == old_all[j]);
                } else {
                    assert(all[j] == block);
                    assert(block_state(before.meta, old_all[i].0 as int) == BlockState::Unallocated);
                }
            }
            assert forall|b: int|
                after.meta.contains(b) && b % 32768 == 0 && b >= after.pr.cursor implies #[trigger] block_state(
                after.meta,
                b,
            ) == BlockState::Unallocated by {
                assert(block_state(before.meta, b) == BlockState::Unallocated);
            }
        }
    }

    /// Takes a fresh block into use. Returns `None` when the page resource
    /// has none.
    pub fn get_clean_block(&mut self, tls: VMThread, copy: bool) -> (r: Option<Block>)
        requires
            old(self)@.wf(),
        ensures
            final(self)@.wf(),
            final(self)@ == old(self)@.after_clean_block(copy),
            r == (if old(self)@.pr.can_acquire() {
                Some(Block(old(self)@.pr.next_block()))
            } else {
                None
            }),
            r.is_some() ==> r.unwrap().in_space(old(self)@.meta) && block_state(
                old(self)@.meta,
                r.unwrap().0 as int,
            ) == BlockState::Unallocated && block_state(final(self)@.meta, r.unwrap().0 as int) == (
            if copy {
                BlockState::Marked
            } else {
                BlockState::Unmarked
            }),
            crate::util::allocators::immix_allocator::allocation_frame(old(self)@, final(self)@),
    {
        proof {
            lemma_clean_block_frame(old(self)@, copy);
            lemma_after_clean_block_wf(old(self)@, copy);
            if old(self)@.pr.can_acquire() {
                lemma_next_block(old(self)@);
                lemma_initialized(old(self)@.meta, old(self)@.pr.next_block() as int, copy);
            }
        }
        let block_address = self.acquire(tls, crate::policy::immix::block::PAGES_IN_BLOCK);
        if block_address.is_zero() {
            return None;
        }
        self.defrag.notify_new_clean_block(copy);
        let block = Block::from_aligned_address(block_address);
        block.init(&mut self.metadata, copy);
        self.chunk_map.set_allocated(block.chunk(), true);
        fetch_add_usize(&mut self.lines_consumed, LINES_IN_BLOCK);
        proof {
            let chunk = Chunk((block.0 - block.0 % 4194304) as usize);
            assert(old(self)@.chunk_map.covers(chunk));
            let want = old(self)@.after_clean_block(copy);
            assert(self@.pr == want.pr);
            assert(self@.defrag == want.defrag);
            assert(self@.meta == want.meta);
            assert(self@.chunk_map.allocated == want.chunk_map.allocated);
            assert(self@.chunk_map == want.chunk_map);
            assert(self@.lines_consumed == want.lines_consumed);
            assert(self@ == want);
        }
        Some(block)
    }

    /// Looks at the block that a worker would get out of the pool of
    /// reusable blocks, without taking it. Returns whether there is such a
    /// block and its state allows taking it, or there is none.
    pub fn reusable_block_ready(&self, copy: bool) -> (r: bool)
        requires
            self@.wf(),
        ensures
            r == self@.reusable_block_ready(copy),
    {
        let global: usize = self.reusable_blocks.flushed_len();
        let mut i: usize = global;
        let ghost blocks = self@.reusable_blocks.global;
        proof {
            assert(blocks.subrange(0, i as int) =~= blocks);
        }
        while i > 0
            invariant
                self@.wf(),
                blocks == self@.reusable_blocks.global,
                i <= blocks.len(),
                pick_index(self@.meta, blocks, copy) == pick_index(
                    self@.meta,
                    blocks.subrange(0, i as int),
                    copy,
                ),
            decreases i,
        {
            let block = self.reusable_blocks.get(i - 1);
            proof {
                let prefix = blocks.subrange(0, i as int);
                assert(prefix.last() == blocks[i - 1]);
                assert(prefix.drop_last() =~= blocks.subrange(0, i - 1));
                assert(self@.reusable_blocks.blocks()[i - 1] == blocks[i - 1]);
                assert(self@.reusable_blocks.blocks()[i - 1].in_space(self@.meta));
            }
            if copy && block.is_defrag_source(&self.metadata) {
                i -= 1;
            } else {
                return match block.get_state(&self.metadata) {
                    BlockState::Reusable { unavailable_lines } => unavailable_lines as usize
                        <= LINES_IN_BLOCK,
                    BlockState::Unmarked => true,
                    _ => false,
                };
            }
        }
        true
    }

    /// Takes a block out of the pool of reusable blocks and into use. A
    /// worker that copies passes over, and drops from the pool, the blocks
    /// that are to be evacuated. Returns `None` when no block is left.
    #[verifier::rlimit(60)]
    pub fn get_reusable_block(&mut self, copy: bool) -> (r: Option<Block>)
        requires
            old(self)@.wf(),
            old(self)@.reusable_block_ready(copy),
        ensures
            final(self)@.wf(),
            final(self)@ == old(self)@.after_reusable_block(copy),
            r == (if !old(self)@.modes.block_only && pick_index(
                old(self)@.meta,
                old(self)@.reusable_blocks.global,
                copy,
            ) >= 0 {
                Some(
                    old(self)@.reusable_blocks.global[pick_index(
                        old(self)@.meta,
                        old(self)@.reusable_blocks.global,
                        copy,
                    )],
                )
            } else {
                None
            }),
            r.is_some() ==> r.unwrap().in_space(old(self)@.meta) && block_state(
                final(self)@.meta,
                r.unwrap().0 as int,
            ) == (if copy {
                BlockState::Marked
            } else {
                BlockState::Unmarked
            }),
            r.is_some() ==> final(self)@.reusable_blocks.global.len() < old(self)@.reusable_blocks.global.len(),
            final(self)@.pr == old(self)@.pr,
            crate::util::allocators::immix_allocator::allocation_frame(old(self)@, final(self)@),
    {
        proof {
            lemma_reusable_block_frame(old(self)@, copy);
            lemma_pick_index(old(self)@.meta, old(self)@.reusable_blocks.global, copy);
        }
        if self.modes.block_only {
            return None;
        }
        proof {
            assert forall|i: int| 0 <= i < self@.reusable_blocks.global.len() implies (
            #[trigger] self@.reusable_blocks.global[i]).in_space(self@.meta) by {
                assert(self@.reusable_blocks.blocks()[i] == self@.reusable_blocks.global[i]);
            }
        }
        match pop_reusable(&mut self.reusable_blocks, &self.metadata, copy) {
            Some(block) => {
                proof {
                    let i = pick_index(old(self)@.meta, old(self)@.reusable_blocks.global, copy);
                    assert(old(self)@.reusable_blocks.blocks()[i] == block);
                    assert(block.in_space(old(self)@.meta));
                    assert forall|k: int| 0 <= k < self@.reusable_blocks.blocks().len() implies (
                    #[trigger] self@.reusable_blocks.blocks()[k]).in_space(self@.meta) by {
                        if k < i {
                            assert(old(self)@.reusable_blocks.blocks()[k].in_space(old(self)@.meta));
                        } else {
                            let shift = old(self)@.reusable_blocks.global.len() - i;
                            assert(self@.reusable_blocks.blocks()[k] == old(self)@.reusable_blocks.blocks()[k + shift]);
                            assert(old(self)@.reusable_blocks.blocks()[k + shift].in_space(
                                old(self)@.meta,
                            ));
                        }
                    }
                    assert(self@.wf());
                }
                let lines_delta: usize = match block.get_state(&self.metadata) {
                    BlockState::Reusable { unavailable_lines } => LINES_IN_BLOCK
                        - unavailable_lines as usize,
                    BlockState::Unmarked => LINES_IN_BLOCK,
                    _ => 0,
                };
                fetch_add_usize(&mut self.lines_consumed, lines_delta);
                proof {
                    lemma_initialized_wf(self@, block, copy);
                    lemma_initialized(self@.meta, block.0 as int, copy);
                }
                block.init(&mut self.metadata, copy);
                proof {
                    let want = old(self)@.after_reusable_block(copy);
                    assert(self@.reusable_blocks =~= want.reusable_blocks);
                    assert(self@ == want);
                }
                Some(block)
            },
            None => {
                proof {
                    let want = old(self)@.after_reusable_block(copy);
                    assert(self@.reusable_blocks =~= want.reusable_blocks);
                    assert forall|k: int| 0 <= k < self@.reusable_blocks.blocks().len() implies (
                    #[trigger] self@.reusable_blocks.blocks()[k]).in_space(self@.meta) by {
                        let shift = old(self)@.reusable_blocks.global.len();
                        assert(self@.reusable_blocks.blocks()[k] == old(self)@.reusable_blocks.blocks()[k + shift]);
                        assert(old(self)@.reusable_blocks.blocks()[k + shift].in_space(
                            old(self)@.meta,
                        ));
                    }
                    assert(self@ == want);
                }
                None
            },
        }
    }
}

/// Pops blocks from the pool until one comes that the worker does not pass
/// over. Returns that block, or `None` when the pool has none.
fn pop_reusable(pool: &mut ReusableBlockPool, meta: &SideMetadataContext, copy: bool) -> (r: Option<
    Block,
>)
    requires
        meta@.wf(),
        has_block_tables(meta@),
        forall|i: int|
            0 <= i < old(pool)@.global.len() ==> (#[trigger] old(pool)@.global[i]).in_space(meta@),
    ensures
        final(pool)@.local == old(pool)@.local,
        pick_index(meta@, old(pool)@.global, copy) < 0 ==> r.is_none() && final(pool)@.global
            == Seq::<Block>::empty(),
        pick_index(meta@, old(pool)@.global, copy) >= 0 ==> r == Some(
            old(pool)@.global[pick_index(meta@, old(pool)@.global, copy)],
        ) && final(pool)@.global == old(pool)@.global.subrange(
            0,
            pick_index(meta@, old(pool)@.global, copy),
        ),
{
    let ghost blocks = old(pool)@.global;
    proof {
        assert(blocks.subrange(0, blocks.len() as int) =~= blocks);
    }
    loop
        invariant
            meta@.wf(),
            has_block_tables(meta@),
            blocks == old(pool)@.global,
            forall|i: int| 0 <= i < blocks.len() ==> (#[trigger] blocks[i]).in_space(meta@),
            pool@.local == old(pool)@.local,
            pool@.global.len() <= blocks.len(),
            pool@.global == blocks.subrange(0, pool@.global.len() as int),
            pick_index(meta@, blocks, copy) == pick_index(meta@, pool@.global, copy),
        decreases pool@.global.len(),
    {
        let ghost before = pool@.global;
        match pool.pop() {
            Some(block) => {
                proof {
                    let n = before.len() as int;
                    assert(block == blocks[n - 1]);
                    assert(pool@.global =~= blocks.subrange(0, n - 1));
                    assert(before.drop_last() =~= pool@.global);
                }
                if copy && block.is_defrag_source(meta) {
                    continue ;
                }
                return Some(block);
            },
            None => {
                proof {
                    assert(pool@.global =~= Seq::<Block>::empty());
                }
                return None;
            },
        }
    }
}

/// Nothing is an allocation that changes nothing.
pub proof fn lemma_frame_reflexive(view: ImmixSpaceView)
    ensures
        crate::util::allocators::immix_allocator::allocation_frame(view, view),
{
    reveal(crate::util::allocators::immix_allocator::allocation_frame);
}

/// Taking a fresh block changes only what an allocation may change.
pub proof fn lemma_clean_block_frame(view: ImmixSpaceView, copy: bool)
    requires
        view.wf(),
    ensures
        crate::util::allocators::immix_allocator::allocation_frame(view, view.after_clean_block(copy)),
{
    reveal(crate::util::allocators::immix_allocator::allocation_frame);
    if view.pr.can_acquire() {
        lemma_next_block(view);
        lemma_initialized(view.meta, view.pr.next_block() as int, copy);
    }
}

/// Taking a reusable block changes only what an allocation may change.
pub proof fn lemma_reusable_block_frame(view: ImmixSpaceView, copy: bool)
    requires
        view.wf(),
        view.reusable_block_ready(copy),
    ensures
        crate::util::allocators::immix_allocator::allocation_frame(
            view,
            view.after_reusable_block(copy),
        ),
        view.after_reusable_block(copy).pr == view.pr,
{
    reveal(crate::util::allocators::immix_allocator::allocation_frame);
    let i = pick_index(view.meta, view.reusable_blocks.global, copy);
    lemma_pick_index(view.meta, view.reusable_blocks.global, copy);
    if !view.modes.block_only && i >= 0 {
        let block = view.reusable_blocks.global[i];
        assert(view.reusable_blocks.blocks()[i] == block);
        assert(block.in_space(view.meta));
        lemma_initialized(view.meta, block.0 as int, copy);
    }
}

} // verus!
