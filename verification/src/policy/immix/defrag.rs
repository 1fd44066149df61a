//! Defragmentation: whether a collection evacuates blocks, and which.

use crate::policy::immix::block::block_holes;
use crate::policy::immix::block::block_state;
use crate::policy::immix::block::has_block_tables;
use crate::policy::immix::block::Block;
use crate::policy::immix::block::BlockState;
use crate::policy::immix::block::ReusableBlockPool;
use crate::policy::immix::block::LINES_IN_BLOCK;
use crate::policy::immix::block::PAGES_IN_BLOCK;
use crate::util::metadata::SideMetadataContext;
use crate::util::metadata::SideMetadataView;
use vstd::prelude::*;

verus! {

/// The number of bins of a histogram: one for each number of holes that a
/// block can have.
pub const NUM_BINS: usize = 65;

/// Of a hundred free lines, the number that evacuation is taken to fill.
pub const DEFRAG_LINE_REUSE_RATIO_PERCENT: usize = 99;

/// The least number of holes above which a block can be evacuated.
pub const MIN_SPILL_THRESHOLD: usize = 2;

/// The share of the reserved pages, in percent, that is kept free as
/// headroom for evacuation.
pub const DEFRAG_HEADROOM_PERCENT: usize = 2;

/// The number of lines in a page.
pub const LINES_IN_PAGE: usize = 16;

/// What a plan tells a space about its heap before a collection.
#[derive(Clone, Copy, PartialEq, Eq, Structural, Debug)]
pub struct StatsForDefrag {
    /// The number of pages of the heap.
    pub total_pages: usize,
    /// The number of pages in use or set aside.
    pub reserved_pages: usize,
    /// The number of pages set aside for copying during a collection.
    pub collection_reserved_pages: usize,
}

/// A histogram of marked lines: bin `h` counts the lines marked in blocks
/// with `h` holes.
pub struct Histogram {
    bins: Vec<usize>,
}

impl View for Histogram {
    type V = Seq<usize>;

    closed spec fn view(&self) -> Seq<usize> {
        self.bins@
    }
}

impl Histogram {
    /// A histogram with every bin at zero.
    pub fn new() -> (h: Self)
        ensures
            h@.len() == NUM_BINS,
            forall|i: int| 0 <= i < NUM_BINS ==> h@[i] == 0,
    {
        let mut bins: Vec<usize> = Vec::new();
        let mut i: usize = 0;
        while i < NUM_BINS
            invariant
                i <= NUM_BINS,
                bins@.len() == i,
                forall|j: int| 0 <= j < i ==> bins@[j] == 0,
            decreases NUM_BINS - i,
        {
            bins.push(0);
            i += 1;
        }
        Histogram { bins }
    }

    /// The count in bin `bin`.
    pub fn get(&self, bin: usize) -> (count: usize)
        requires
            bin < self@.len(),
        ensures
            count == self@[bin as int],
    {
        self.bins[bin]
    }

    /// Adds `amount` to bin `bin`.
    pub fn add(&mut self, bin: usize, amount: usize)
        requires
            bin < old(self)@.len(),
            old(self)@[bin as int] + amount <= usize::MAX,
        ensures
            final(self)@ == old(self)@.update(bin as int, (old(self)@[bin as int] + amount) as usize),
    {
        let count: usize = self.bins[bin];
        self.bins[bin] = count + amount;
    }
}

/// The bin that a reusable block falls into: its number of holes, or the
/// last bin when it has more.
pub open spec fn spill_bin(view: SideMetadataView, block: Block) -> int {
    if block_holes(view, block.0 as int) < NUM_BINS {
        block_holes(view, block.0 as int)
    } else {
        NUM_BINS - 1
    }
}

/// The number of lines of a block in the reusable pool that can be
/// allocated into.
pub open spec fn block_available_lines(view: SideMetadataView, block: Block) -> int {
    match block_state(view, block.0 as int) {
        BlockState::Reusable { unavailable_lines } => if unavailable_lines <= LINES_IN_BLOCK {
            LINES_IN_BLOCK - unavailable_lines
        } else {
            0
        },
        BlockState::Unmarked => LINES_IN_BLOCK as int,
        _ => 0,
    }
}

/// The number of lines of `blocks` that can be allocated into.
pub open spec fn total_available_lines(view: SideMetadataView, blocks: Seq<Block>) -> int
    decreases blocks.len(),
{
    if blocks.len() == 0 {
        0
    } else {
        total_available_lines(view, blocks.drop_last()) + block_available_lines(view, blocks.last())
    }
}

/// The number of lines that can be allocated into in those of `blocks`
/// that fall into bin `bin`.
pub open spec fn spill_available(view: SideMetadataView, blocks: Seq<Block>, bin: int) -> int
    decreases blocks.len(),
{
    if blocks.len() == 0 {
        0
    } else {
        spill_available(view, blocks.drop_last(), bin) + if spill_bin(view, blocks.last()) == bin {
            block_available_lines(view, blocks.last())
        } else {
            0
        }
    }
}

/// The sum of bin `bin` over `histograms`.
pub open spec fn bin_total(histograms: Seq<Seq<usize>>, bin: int) -> int
    decreases histograms.len(),
{
    if histograms.len() == 0 {
        0
    } else {
        bin_total(histograms.drop_last(), bin) + histograms.last()[bin]
    }
}

/// The lines that evacuating every block with at least `from` holes would
/// take: the lines marked in those blocks, and the free lines in them,
/// which are then no place to copy to.
pub open spec fn demand(
    histograms: Seq<Seq<usize>>,
    view: SideMetadataView,
    blocks: Seq<Block>,
    from: int,
) -> int
    decreases NUM_BINS - from,
{
    if from >= NUM_BINS {
        0
    } else {
        bin_total(histograms, from) + spill_available(view, blocks, from) + demand(
            histograms,
            view,
            blocks,
            from + 1,
        )
    }
}

/// Whether evacuating every block with at least `from` holes would take
/// more than the share of `available_lines` that evacuation can fill.
pub open spec fn overflows(
    available_lines: int,
    histograms: Seq<Seq<usize>>,
    view: SideMetadataView,
    blocks: Seq<Block>,
    from: int,
) -> bool {
    available_lines * 100 < DEFRAG_LINE_REUSE_RATIO_PERCENT * demand(histograms, view, blocks, from)
}

/// Whether `threshold` is the spill threshold: the largest number of
/// holes from which on evacuation would overflow, or the least threshold
/// where there is no such number.
pub open spec fn is_spill_threshold(
    threshold: int,
    available_lines: int,
    histograms: Seq<Seq<usize>>,
    view: SideMetadataView,
    blocks: Seq<Block>,
) -> bool {
    &&& MIN_SPILL_THRESHOLD <= threshold < NUM_BINS
    &&& forall|k: int|
        threshold < k < NUM_BINS ==> !overflows(available_lines, histograms, view, blocks, k)
    &&& (threshold == MIN_SPILL_THRESHOLD || overflows(
        available_lines,
        histograms,
        view,
        blocks,
        threshold,
    ))
}

/// The lines at hand for evacuation: the free lines of the reusable
/// blocks, and the lines of the free pages.
pub open spec fn available_lines_for_defrag(
    view: SideMetadataView,
    blocks: Seq<Block>,
    clean_pages: int,
) -> int {
    total_available_lines(view, blocks) + clean_pages * LINES_IN_PAGE
}

/// The free pages at hand for evacuation before the pages that the plan
/// set aside are added.
pub open spec fn clean_pages_for_defrag(stats: StatsForDefrag, headroom_pages: int) -> int {
    if stats.total_pages + headroom_pages >= stats.reserved_pages {
        stats.total_pages - stats.reserved_pages + headroom_pages
    } else {
        0
    }
}

/// Whether a collection defragments.
pub open spec fn defrag_decision(
    defrag_enabled: bool,
    emergency_collection: bool,
    collect_whole_heap: bool,
    collection_attempts: usize,
    user_triggered: bool,
    exhausted_reusable_space: bool,
    full_heap_system_gc: bool,
) -> bool {
    defrag_enabled && (emergency_collection || collection_attempts > 1 || !exhausted_reusable_space
        || (collect_whole_heap && user_triggered && full_heap_system_gc))
}

/// The mathematical content of the defragmentation state.
#[verifier::ext_equal]
pub struct DefragView {
    /// Whether the current collection defragments.
    pub in_defrag: bool,
    /// Whether the pages at hand for evacuation are used up.
    pub space_exhausted: bool,
    /// The histograms of the blocks swept in the last collection.
    pub mark_histograms: Seq<Seq<usize>>,
    /// A block with more holes than this is evacuated.
    pub spill_threshold: usize,
    /// The number of free pages still at hand for evacuation.
    pub available_clean_pages: usize,
}

impl DefragView {
    /// The content after a space took a fresh block.
    pub open spec fn after_clean_block(self, copy: bool) -> Self {
        if copy {
            DefragView {
                available_clean_pages: if self.available_clean_pages <= PAGES_IN_BLOCK {
                    0
                } else {
                    (self.available_clean_pages - PAGES_IN_BLOCK) as usize
                },
                space_exhausted: self.space_exhausted || self.available_clean_pages
                    <= PAGES_IN_BLOCK,
                ..self
            }
        } else {
            self
        }
    }
}

/// Whether `after` is the defragmentation state readied for a collection
/// from `before`: nothing is exhausted; the pages at hand are counted
/// from what the plan reports and from the headroom; and, if the
/// collection defragments, the spill threshold is the one that the
/// histograms of the last collection and the free lines of `blocks`, the
/// reusable blocks, call for.
pub open spec fn defrag_prepared(
    before: DefragView,
    after: DefragView,
    meta: SideMetadataView,
    blocks: Seq<Block>,
    headroom_pages: int,
    stats: StatsForDefrag,
) -> bool {
    &&& after.in_defrag == before.in_defrag
    &&& after.mark_histograms == before.mark_histograms
    &&& !after.space_exhausted
    &&& after.available_clean_pages == clean_pages_for_defrag(stats, headroom_pages)
        + stats.collection_reserved_pages
    &&& (!before.in_defrag ==> after.spill_threshold == before.spill_threshold)
    &&& (before.in_defrag ==> is_spill_threshold(
        after.spill_threshold as int,
        available_lines_for_defrag(meta, blocks, clean_pages_for_defrag(stats, headroom_pages)),
        before.mark_histograms,
        meta,
        blocks,
    ))
}

/// The defragmentation state of a space.
pub struct Defrag {
    in_defrag_collection: bool,
    defrag_space_exhausted: bool,
    mark_histograms: Vec<Histogram>,
    defrag_spill_threshold: usize,
    available_clean_pages_for_defrag: usize,
}

impl View for Defrag {
    type V = DefragView;

    closed spec fn view(&self) -> DefragView {
        DefragView {
            in_defrag: self.in_defrag_collection,
            space_exhausted: self.defrag_space_exhausted,
            mark_histograms: Seq::new(
                self.mark_histograms@.len(),
                |i: int| self.mark_histograms@[i]@,
            ),
            spill_threshold: self.defrag_spill_threshold,
            available_clean_pages: self.available_clean_pages_for_defrag,
        }
    }
}

/// Every histogram has all its bins.
pub open spec fn histograms_wf(histograms: Seq<Seq<usize>>) -> bool {
    forall|i: int| 0 <= i < histograms.len() ==> (#[trigger] histograms[i]).len() == NUM_BINS
}

proof fn lemma_bin_total_bounds(histograms: Seq<Seq<usize>>, bin: int)
    ensures
        0 <= bin_total(histograms, bin) <= histograms.len() * usize::MAX,
    decreases histograms.len(),
{
    if histograms.len() > 0 {
        lemma_bin_total_bounds(histograms.drop_last(), bin);
    }
}

proof fn lemma_available_bounds(view: SideMetadataView, blocks: Seq<Block>, bin: int)
    ensures
        0 <= spill_available(view, blocks, bin) <= total_available_lines(view, blocks) <= blocks.len()
            * 128,
    decreases blocks.len(),
{
    if blocks.len() > 0 {
        lemma_available_bounds(view, blocks.drop_last(), bin);
    }
}

proof fn lemma_demand_nonnegative(
    histograms: Seq<Seq<usize>>,
    view: SideMetadataView,
    blocks: Seq<Block>,
    from: int,
)
    ensures
        0 <= demand(histograms, view, blocks, from),
    decreases NUM_BINS - from,
{
    if from < NUM_BINS {
        lemma_bin_total_bounds(histograms, from);
        lemma_available_bounds(view, blocks, from);
        lemma_demand_nonnegative(histograms, view, blocks, from + 1);
    }
}

/// Only one number is the spill threshold.
pub proof fn lemma_spill_threshold_unique(
    a: int,
    b: int,
    available_lines: int,
    histograms: Seq<Seq<usize>>,
    view: SideMetadataView,
    blocks: Seq<Block>,
)
    requires
        is_spill_threshold(a, available_lines, histograms, view, blocks),
        is_spill_threshold(b, available_lines, histograms, view, blocks),
    ensures
        a == b,
{
}

impl Defrag {
    /// The state before the first collection: no defragmentation, no
    /// histograms, nothing at hand.
    pub fn new() -> (defrag: Self)
        ensures
            defrag@ == (DefragView {
                in_defrag: false,
                space_exhausted: false,
                mark_histograms: Seq::empty(),
                spill_threshold: 0,
                available_clean_pages: 0,
            }),
    {
        let defrag = Defrag {
            in_defrag_collection: false,
            defrag_space_exhausted: false,
            mark_histograms: Vec::new(),
            defrag_spill_threshold: 0,
            available_clean_pages_for_defrag: 0,
        };
        assert(defrag@.mark_histograms =~= Seq::empty());
        defrag
    }

    /// The state is sound: every histogram has all its bins.
    pub open spec fn wf(&self) -> bool {
        histograms_wf(self@.mark_histograms)
    }

    /// A histogram with every bin at zero.
    pub fn new_histogram(&self) -> (h: Histogram)
        ensures
            h@.len() == NUM_BINS,
            forall|i: int| 0 <= i < NUM_BINS ==> h@[i] == 0,
    {
        Histogram::new()
    }

    /// Files the histogram of a part of the heap that was swept.
    pub fn add_completed_mark_histogram(&mut self, histogram: Histogram)
        requires
            old(self).wf(),
            histogram@.len() == NUM_BINS,
        ensures
            final(self).wf(),
            final(self)@ == (DefragView {
                mark_histograms: old(self)@.mark_histograms.push(histogram@),
                ..old(self)@
            }),
    {
        self.mark_histograms.push(histogram);
        assert(self@.mark_histograms =~= old(self)@.mark_histograms.push(histogram@));
    }

    /// Discards the histograms of the last collection.
    pub fn clear_mark_histograms(&mut self)
        ensures
            final(self).wf(),
            final(self)@ == (DefragView { mark_histograms: Seq::empty(), ..old(self)@ }),
    {
        self.mark_histograms.clear();
        assert(self@.mark_histograms =~= Seq::empty());
    }

    /// Whether the current collection defragments.
    pub fn in_defrag(&self) -> (r: bool)
        ensures
            r == self@.in_defrag,
    {
        self.in_defrag_collection
    }

    /// Whether the pages at hand for evacuation are used up.
    pub fn space_exhausted(&self) -> (r: bool)
        ensures
            r == self@.space_exhausted,
    {
        self.defrag_space_exhausted
    }

    /// The number of holes above which a block is evacuated.
    pub fn spill_threshold(&self) -> (t: usize)
        ensures
            t == self@.spill_threshold,
    {
        self.defrag_spill_threshold
    }

    /// Decides whether the collection that is about to start defragments,
    /// and records the decision.
    pub fn decide_whether_to_defrag(
        &mut self,
        defrag_enabled: bool,
        emergency_collection: bool,
        collect_whole_heap: bool,
        collection_attempts: usize,
        user_triggered: bool,
        exhausted_reusable_space: bool,
        full_heap_system_gc: bool,
    )
        ensures
            final(self)@ == (DefragView {
                in_defrag: defrag_decision(
                    defrag_enabled,
                    emergency_collection,
                    collect_whole_heap,
                    collection_attempts,
                    user_triggered,
                    exhausted_reusable_space,
                    full_heap_system_gc,
                ),
                ..old(self)@
            }),
    {
        let in_defrag = defrag_enabled && (emergency_collection || collection_attempts > 1
            || !exhausted_reusable_space || (collect_whole_heap && user_triggered
            && full_heap_system_gc));
        self.in_defrag_collection = in_defrag;
    }

    /// The number of pages kept free as headroom for evacuation, given the
    /// number of pages that the space has reserved.
    pub fn defrag_headroom_pages(&self, reserved_pages: usize) -> (pages: usize)
        ensures
            pages == reserved_pages * DEFRAG_HEADROOM_PERCENT / 100,
    {
        let wide: u128 = (reserved_pages as u128) * (DEFRAG_HEADROOM_PERCENT as u128) / 100;
        wide as usize
    }

    /// Records that the collection is over as far as defragmentation goes.
    pub fn reset_in_defrag(&mut self)
        ensures
            final(self)@ == (DefragView { in_defrag: false, ..old(self)@ }),
    {
        self.in_defrag_collection = false;
    }

    /// Records that a space took a fresh block. A block that objects are
    /// copied into uses up pages at hand for evacuation; when they do not
    /// suffice for another block, the space is exhausted.
    pub fn notify_new_clean_block(&mut self, copy: bool)
        ensures
            final(self)@ == old(self)@.after_clean_block(copy),
    {
        if copy {
            let before: usize = self.available_clean_pages_for_defrag;
            self.available_clean_pages_for_defrag = if before <= PAGES_IN_BLOCK {
                0
            } else {
                before - PAGES_IN_BLOCK
            };
            if before <= PAGES_IN_BLOCK {
                self.defrag_space_exhausted = true;
            }
        }
    }

    /// The sum of bin `bin` over the histograms of the last collection.
    fn mark_total(&self, bin: usize) -> (total: u128)
        requires
            self.wf(),
            bin < NUM_BINS,
        ensures
            total == bin_total(self@.mark_histograms, bin as int),
    {
        let mut total: u128 = 0;
        let mut i: usize = 0;
        proof {
            assert(self@.mark_histograms.subrange(0, 0) =~= Seq::empty());
        }
        while i < self.mark_histograms.len()
            invariant
                self.wf(),
                bin < NUM_BINS,
                i <= self.mark_histograms@.len(),
                self.mark_histograms@.len() == self@.mark_histograms.len(),
                total == bin_total(self@.mark_histograms.subrange(0, i as int), bin as int),
                total <= i * usize::MAX,
            decreases self.mark_histograms@.len() - i,
        {
            proof {
                let next = self@.mark_histograms.subrange(0, i + 1);
                assert(next.drop_last() =~= self@.mark_histograms.subrange(0, i as int));
                assert(next.last() == self@.mark_histograms[i as int]);
                assert(self@.mark_histograms[i as int].len() == NUM_BINS);
            }
            let count: usize = self.mark_histograms[i].get(bin);
            total = total + count as u128;
            i += 1;
        }
        proof {
            assert(self@.mark_histograms.subrange(0, i as int) =~= self@.mark_histograms);
        }
        total
    }

    /// Sums up, for each bin, the free lines of the reusable blocks in it.
    /// Returns the bins and the sum over all of them.
    fn get_available_lines(meta: &SideMetadataContext, pool: &ReusableBlockPool) -> (r: (
        Vec<u128>,
        u128,
    ))
        requires
            meta@.wf(),
            has_block_tables(meta@),
            forall|i: int|
                0 <= i < pool@.blocks().len() ==> (#[trigger] pool@.blocks()[i]).in_space(meta@),
        ensures
            r.0@.len() == NUM_BINS,
            forall|bin: int|
                0 <= bin < NUM_BINS ==> r.0@[bin] == spill_available(meta@, pool@.blocks(), bin),
            r.1 == total_available_lines(meta@, pool@.blocks()),
            r.1 <= pool@.blocks().len() * 128,
    {
        let mut bins: Vec<u128> = Vec::new();
        let mut b: usize = 0;
        while b < NUM_BINS
            invariant
                b <= NUM_BINS,
                bins@.len() == b,
                forall|j: int| 0 <= j < b ==> bins@[j] == 0,
            decreases NUM_BINS - b,
        {
            bins.push(0);
            b += 1;
        }
        let mut total: u128 = 0;
        let mut i: usize = 0;
        let ghost blocks = pool@.blocks();
        proof {
            assert(blocks.subrange(0, 0) =~= Seq::empty());
        }
        while i < pool.len()
            invariant
                meta@.wf(),
                has_block_tables(meta@),
                blocks == pool@.blocks(),
                forall|k: int| 0 <= k < blocks.len() ==> (#[trigger] blocks[k]).in_space(meta@),
                i <= blocks.len(),
                bins@.len() == NUM_BINS,
                forall|bin: int|
                    0 <= bin < NUM_BINS ==> bins@[bin] == spill_available(
                        meta@,
                        blocks.subrange(0, i as int),
                        bin,
                    ),
                total == total_available_lines(meta@, blocks.subrange(0, i as int)),
                total <= i * 128,
            decreases blocks.len() - i,
        {
            let block = pool.get(i);
            proof {
                let next = blocks.subrange(0, i + 1);
                assert(next.drop_last() =~= blocks.subrange(0, i as int));
                assert(next.last() == blocks[i as int]);
                assert(block.in_space(meta@));
                assert forall|bin: int| 0 <= bin < NUM_BINS implies spill_available(
                    meta@,
                    blocks.subrange(0, i as int),
                    bin,
                ) <= i * 128 by {
                    lemma_available_bounds(meta@, blocks.subrange(0, i as int), bin);
                }
            }
            let holes: usize = block.get_holes(meta);
            let bin: usize = if holes < NUM_BINS {
                holes
            } else {
                NUM_BINS - 1
            };
            let lines: usize = match block.get_state(meta) {
                BlockState::Reusable { unavailable_lines } => {
                    if unavailable_lines as usize <= LINES_IN_BLOCK {
                        LINES_IN_BLOCK - unavailable_lines as usize
                    } else {
                        0
                    }
                },
                BlockState::Unmarked => LINES_IN_BLOCK,
                _ => 0,
            };
            let held: u128 = bins[bin];
            bins[bin] = held + lines as u128;
            total = total + lines as u128;
            i += 1;
        }
        proof {
            assert(blocks.subrange(0, i as int) =~= blocks);
        }
        (bins, total)
    }

    /// Finds the spill threshold for `available_lines` lines at hand: scans
    /// the bins from the one with the most holes down and stops where
    /// evacuation would overflow.
    fn establish_defrag_spill_threshold(
        &self,
        meta: &SideMetadataContext,
        pool: &ReusableBlockPool,
        clean_pages: usize,
    ) -> (threshold: usize)
        requires
            self.wf(),
            meta@.wf(),
            has_block_tables(meta@),
            forall|i: int|
                0 <= i < pool@.blocks().len() ==> (#[trigger] pool@.blocks()[i]).in_space(meta@),
        ensures
            is_spill_threshold(
                threshold as int,
                available_lines_for_defrag(meta@, pool@.blocks(), clean_pages as int),
                self@.mark_histograms,
                meta@,
                pool@.blocks(),
            ),
    {
        let (bins, clean_lines) = Self::get_available_lines(meta, pool);
        let count: usize = pool.len();
        assert(clean_lines <= 0x1_0000_0000_0000_0000 * 128);
        assert((clean_pages as u128) * (LINES_IN_PAGE as u128) <= 0x1_0000_0000_0000_0000 * 16);
        let available: u128 = clean_lines + (clean_pages as u128) * (LINES_IN_PAGE as u128);
        let limit: u128 = available * 100;
        let ghost histograms = self@.mark_histograms;
        let ghost view = meta@;
        let ghost blocks = pool@.blocks();
        let mut need: u128 = 0;
        let mut index: usize = NUM_BINS - 1;
        loop
            invariant
                self.wf(),
                histograms == self@.mark_histograms,
                view == meta@,
                blocks == pool@.blocks(),
                bins@.len() == NUM_BINS,
                forall|bin: int|
                    0 <= bin < NUM_BINS ==> bins@[bin] == spill_available(view, blocks, bin),
                available == available_lines_for_defrag(view, blocks, clean_pages as int),
                limit == available * 100,
                limit <= 0x1_0000_0000_0000_0000 * 14400,
                MIN_SPILL_THRESHOLD <= index < NUM_BINS,
                need == demand(histograms, view, blocks, index + 1),
                DEFRAG_LINE_REUSE_RATIO_PERCENT * need <= limit,
                forall|k: int|
                    index < k < NUM_BINS ==> !overflows(available as int, histograms, view, blocks, k),
            decreases index,
        {
            proof {
                lemma_demand_nonnegative(histograms, view, blocks, index + 1);
                lemma_bin_total_bounds(histograms, index as int);
                lemma_available_bounds(view, blocks, index as int);
            }
            let marked: u128 = self.mark_total(index);
            if marked > limit {
                return index;
            }
            let bucket: u128 = marked + bins[index];
            if bucket > limit {
                return index;
            }
            let next: u128 = need + bucket;
            if limit < (DEFRAG_LINE_REUSE_RATIO_PERCENT as u128) * next {
                return index;
            }
            if index == MIN_SPILL_THRESHOLD {
                return index;
            }
            need = next;
            index -= 1;
        }
    }

    /// Readies the state for a collection: nothing is exhausted yet, the
    /// pages at hand for evacuation are counted from what the plan
    /// reports and from `headroom_pages`, and, if the collection
    /// defragments, the spill threshold is set from the histograms of the
    /// last collection and the free lines of the reusable blocks.
    pub fn prepare(
        &mut self,
        meta: &SideMetadataContext,
        pool: &ReusableBlockPool,
        headroom_pages: usize,
        plan_stats: StatsForDefrag,
    )
        requires
            old(self).wf(),
            meta@.wf(),
            has_block_tables(meta@),
            forall|i: int|
                0 <= i < pool@.blocks().len() ==> (#[trigger] pool@.blocks()[i]).in_space(meta@),
            plan_stats.total_pages + headroom_pages + plan_stats.collection_reserved_pages
                <= usize::MAX,
        ensures
            final(self).wf(),
            defrag_prepared(
                old(self)@,
                final(self)@,
                meta@,
                pool@.blocks(),
                headroom_pages as int,
                plan_stats,
            ),
    {
        self.defrag_space_exhausted = false;
        let clean_pages: usize = if plan_stats.total_pages + headroom_pages
            >= plan_stats.reserved_pages {
            plan_stats.total_pages + headroom_pages - plan_stats.reserved_pages
        } else {
            0
        };
        self.available_clean_pages_for_defrag = clean_pages;
        if self.in_defrag_collection {
            let threshold = self.establish_defrag_spill_threshold(meta, pool, clean_pages);
            self.defrag_spill_threshold = threshold;
        }
        self.available_clean_pages_for_defrag = clean_pages + plan_stats.collection_reserved_pages;
    }
}

} // verus!
