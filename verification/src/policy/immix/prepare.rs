//! How an Immix space is readied for a collection.

use ::atomic::Atomic;
use crate::policy::immix::block::Block;
use crate::policy::immix::block::BlockState;
use crate::policy::immix::block::ReusableBlockPoolView;
use crate::policy::immix::block::block_is_defrag_source;
use crate::policy::immix::block::block_state;
use crate::policy::immix::block::has_block_tables;
use crate::policy::immix::defrag::DEFRAG_HEADROOM_PERCENT;
use crate::policy::immix::defrag::DefragView;
use crate::policy::immix::defrag::histograms_wf;
use crate::policy::immix::forwarding::lemma_same_shape_transitive;
use crate::policy::immix::immixspace::ImmixSpace;
use crate::policy::immix::immixspace::ImmixSpaceView;
use crate::policy::immix::immixspace::lemma_fill_keeps_blocks;
use crate::policy::immix::immixspace::lemma_set_state_wf;
use crate::policy::immix::immixspace::lemma_store_keeps_blocks;
use crate::policy::immix::immixspace::lemma_store_same_shape;
use crate::policy::immix::immixspace::same_shape;
use crate::policy::immix::line::Line;
use crate::policy::immix::line::MAX_MARK_STATE;
use crate::policy::immix::line::RESET_MARK_STATE;
use crate::util::atomic_cell::load_u8;
use crate::util::atomic_cell::store_u8;
use crate::util::atomic_cell::store_usize;
use crate::util::constants::BYTES_IN_CHUNK;
use crate::util::heap::chunk_map::Chunk;
use crate::util::metadata::SideMetadataSpec;
use crate::util::metadata::SideMetadataView;
use vstd::prelude::*;
use crate::policy::immix::defrag::defrag_prepared;
use crate::policy::immix::defrag::StatsForDefrag;
use crate::policy::immix::sweep::SweepChunk;
use crate::policy::immix::vo_bits::ClearVOBitsAfterPrepare;
use crate::policy::immix::vo_bits::VOBitsClearingScope;
use crate::scheduler::scheduler::GCWorkScheduler;
use crate::scheduler::work::WorkPacket;
use crate::scheduler::work_bucket::WorkBucketStage;
use crate::policy::immix::immixspace::MARKED_STATE;
use crate::scheduler::gc_work::Prepare;
use crate::scheduler::gc_work::Release;

verus! {

/// The mark state of the lines that the collection after the one with
/// `state` writes: the next state, or the first state again when the
/// states have run out.
pub open spec fn next_line_mark_state(state: u8) -> u8 {
    if state >= MAX_MARK_STATE {
        RESET_MARK_STATE
    } else {
        (state + 1) as u8
    }
}

/// Whether a block with `holes` holes is evacuated in the collection that
/// is being readied.
pub open spec fn is_defrag_source_next(view: ImmixSpaceView, holes: int, threshold: Option<usize>) -> bool {
    if !view.is_defrag_enabled() {
        false
    } else if view.modes.defrag_every_block {
        true
    } else {
        match threshold {
            Some(t) => holes > t,
            None => false,
        }
    }
}

/// The side metadata after the block at `block` was readied for a
/// collection: a block in use becomes unmarked, and is to be evacuated
/// or not as its number of holes and `threshold` say; an unallocated block
/// stays as it is.
pub open spec fn block_prepared(
    view: ImmixSpaceView,
    meta: SideMetadataView,
    block: int,
    threshold: Option<usize>,
) -> SideMetadataView {
    if block_state(meta, block) == BlockState::Unallocated {
        meta
    } else {
        meta.store(
            SideMetadataSpec::BlockDefragSource,
            block,
            if is_defrag_source_next(
                view,
                crate::policy::immix::block::block_holes(meta, block),
                threshold,
            ) {
                1u8
            } else {
                0u8
            },
        ).store(SideMetadataSpec::BlockMark, block, crate::policy::immix::block::MARK_UNMARKED)
    }
}

/// The side metadata after the first `n` blocks of the chunk at `chunk`
/// were readied for a collection.
pub open spec fn blocks_prepared(
    view: ImmixSpaceView,
    meta: SideMetadataView,
    chunk: int,
    n: int,
    threshold: Option<usize>,
) -> SideMetadataView
    decreases n,
{
    if n <= 0 {
        meta
    } else {
        block_prepared(
            view,
            blocks_prepared(view, meta, chunk, n - 1, threshold),
            chunk + (n - 1) * 32768,
            threshold,
        )
    }
}

/// The side metadata after a chunk was readied for a collection: the
/// marks of its objects are cleared, and its blocks are readied.
pub open spec fn chunk_prepared(view: ImmixSpaceView, chunk: Chunk, threshold: Option<usize>)
    -> SideMetadataView {
    blocks_prepared(
        view,
        view.meta.fill(SideMetadataSpec::ObjectMark, chunk.0 as int, BYTES_IN_CHUNK as int, 0),
        chunk.0 as int,
        128,
        threshold,
    )
}

/// The block with index `j` of a chunk of a space lies in the space.
pub proof fn lemma_chunk_block_in_space(meta: SideMetadataView, chunk: Chunk, j: int)
    requires
        meta.wf(),
        chunk.wf(),
        meta.contains(chunk.0 as int),
        0 <= j < 128,
    ensures
        meta.contains(chunk.0 + j * 32768),
        (chunk.0 + j * 32768) % 32768 == 0,
        chunk.0 + j * 32768 + 32768 <= meta.end(),
        chunk.0 + BYTES_IN_CHUNK <= meta.end(),
        (chunk.0 + j * 32768) - (chunk.0 + j * 32768) % 4194304 == chunk.0,
{
    let s = meta.start as int;
    let c = chunk.0 as int;
    assert(s % 4194304 == 0);
    assert(c % 4194304 == 0);
    assert(meta.end() % 4194304 == 0);
    assert(c + 4194304 <= meta.end());
    assert(c % 32768 == 0);
}

/// Readying a block keeps a space sound and changes the state of no other
/// block.
pub proof fn lemma_block_prepared_wf(view: ImmixSpaceView, block: Block, threshold: Option<usize>)
    requires
        view.wf(),
        block.in_space(view.meta),
    ensures
        view.with_meta(block_prepared(view, view.meta, block.0 as int, threshold)).wf(),
        same_shape(view.meta, block_prepared(view, view.meta, block.0 as int, threshold)),
{
    let b = block.0 as int;
    if block_state(view.meta, b) != BlockState::Unallocated {
        let flag = if is_defrag_source_next(
            view,
            crate::policy::immix::block::block_holes(view.meta, b),
            threshold,
        ) {
            1u8
        } else {
            0u8
        };
        lemma_store_keeps_blocks(view, SideMetadataSpec::BlockDefragSource, b, flag);
        lemma_store_same_shape(view.meta, SideMetadataSpec::BlockDefragSource, b, flag);
        let m1 = view.meta.store(SideMetadataSpec::BlockDefragSource, b, flag);
        let v1 = view.with_meta(m1);
        lemma_set_state_wf(v1, block, BlockState::Unmarked);
        lemma_store_same_shape(
            m1,
            SideMetadataSpec::BlockMark,
            b,
            crate::policy::immix::block::MARK_UNMARKED,
        );
        lemma_same_shape_transitive(
            view.meta,
            m1,
            block_prepared(view, view.meta, b, threshold),
        );
    }
}

/// A work packet that readies the blocks of one chunk for a collection of
/// the whole space.
#[derive(Clone, Copy, PartialEq, Eq, Structural, Debug)]
pub struct PrepareBlockState {
    /// The chunk.
    pub chunk: Chunk,
    /// The number of holes above which a block is evacuated, if the
    /// collection defragments.
    pub defrag_threshold: Option<usize>,
}

impl PrepareBlockState {
    /// Whether the packet can run: its chunk is a chunk of the space.
    pub open spec fn ready(&self, space: ImmixSpaceView) -> bool {
        space.wf() && self.chunk.wf() && space.meta.contains(self.chunk.0 as int)
    }

    /// Clears the marks of the objects of the chunk.
    fn reset_object_mark(&self, space: &mut ImmixSpace)
        requires
            self.ready(old(space)@),
        ensures
            final(space)@.wf(),
            final(space)@ == old(space)@.with_meta(
                old(space)@.meta.fill(
                    SideMetadataSpec::ObjectMark,
                    self.chunk.0 as int,
                    BYTES_IN_CHUNK as int,
                    0,
                ),
            ),
    {
        proof {
            lemma_chunk_block_in_space(space@.meta, self.chunk, 0);
            lemma_fill_keeps_blocks(
                space@,
                SideMetadataSpec::ObjectMark,
                self.chunk.0 as int,
                BYTES_IN_CHUNK as int,
                0,
            );
        }
        space.metadata.bzero_blocks(SideMetadataSpec::ObjectMark, self.chunk.start(), BYTES_IN_CHUNK);
    }

    /// What running the packet leaves behind: `after_self`, `after_worker` and
    /// `after` are the packet, the worker and the collector afterwards.
    pub open spec fn done(
        &self,
        after_self: Self,
        worker: crate::scheduler::worker::GCWorker,
        after_worker: crate::scheduler::worker::GCWorker,
        before: crate::mmtk::MMTK,
        after: crate::mmtk::MMTK,
    ) -> bool {
        &&& after.wf()
        &&& after_self == (*self)
        &&& after_worker == worker
        &&& after.plan.immix_space@ == before.plan.immix_space@.with_meta(
            chunk_prepared(
                before.plan.immix_space@,
                self.chunk,
                self.defrag_threshold,
            ),
        )
        &&& after.scheduler == before.scheduler
        &&& after.state == before.state
        &&& after.vm == before.vm
        &&& after.options == before.options
        &&& after.gc_count == before.gc_count
        &&& after.plan.constraints == before.plan.constraints
        &&& after.plan.last_gc_was_defrag == before.plan.last_gc_was_defrag
        &&& after.plan.total_pages == before.plan.total_pages
        &&& after.plan.emergency_notified == before.plan.emergency_notified
    }

    /// Readies the blocks of the chunk: clears the marks of the objects
    /// of the chunk, and makes every block in use unmarked and decides
    /// whether it is evacuated.
    pub fn do_work(
        &mut self,
        worker: &mut crate::scheduler::worker::GCWorker,
        mmtk: &mut crate::mmtk::MMTK,
    )
        requires
            old(mmtk).wf(),
            old(self).ready(old(mmtk).plan.immix_space@),
        ensures
            old(self).done(*final(self), *old(worker), *final(worker), *old(mmtk), *final(mmtk)),
    {
        self.prepare_blocks(&mut mmtk.plan.immix_space);
    }

    /// Readies the blocks of the chunk in `space`.
    pub fn prepare_blocks(&self, space: &mut ImmixSpace)
        requires
            self.ready(old(space)@),
        ensures
            final(space)@.wf(),
            final(space)@ == old(space)@.with_meta(
                chunk_prepared(old(space)@, self.chunk, self.defrag_threshold),
            ),
    {
        self.reset_object_mark(space);
        let ghost start = space@;
        let ghost first = old(space)@;
        let mut j: usize = 0;
        while j < 128
            invariant
                j <= 128,
                self.ready(first),
                space@.wf(),
                same_shape(first.meta, space@.meta),
                start == first.with_meta(
                    first.meta.fill(
                        SideMetadataSpec::ObjectMark,
                        self.chunk.0 as int,
                        BYTES_IN_CHUNK as int,
                        0,
                    ),
                ),
                space@ == first.with_meta(
                    blocks_prepared(first, start.meta, self.chunk.0 as int, j as int, self.defrag_threshold),
                ),
            decreases 128 - j,
        {
            proof {
                lemma_chunk_block_in_space(space@.meta, self.chunk, j as int);
            }
            let block = Block(self.chunk.0 + j * 32768);
            let ghost before = space@;
            proof {
                lemma_block_prepared_wf(before, block, self.defrag_threshold);
                assert(is_defrag_source_next(before, 0, self.defrag_threshold) == is_defrag_source_next(
                    first,
                    0,
                    self.defrag_threshold,
                ));
                lemma_same_shape_transitive(
                    first.meta,
                    before.meta,
                    block_prepared(before, before.meta, block.0 as int, self.defrag_threshold),
                );
            }
            let state = block.get_state(&space.metadata);
            if state != BlockState::Unallocated {
                let is_defrag_source = if !space.is_defrag_enabled() {
                    false
                } else if space.modes.defrag_every_block {
                    true
                } else {
                    match self.defrag_threshold {
                        Some(defrag_threshold) => block.get_holes(&space.metadata) > defrag_threshold,
                        None => false,
                    }
                };
                block.set_as_defrag_source(&mut space.metadata, is_defrag_source);
                block.set_state(&mut space.metadata, BlockState::Unmarked);
            }
            proof {
                assert(space@.meta == block_prepared(
                    first,
                    before.meta,
                    block.0 as int,
                    self.defrag_threshold,
                ));
            }
            j += 1;
        }
    }
}

/// One packet for each of `chunks` that readies the blocks of the chunk.
pub open spec fn prepare_packets(chunks: Seq<Chunk>, threshold: Option<usize>) -> Seq<WorkPacket> {
    Seq::new(
        chunks.len(),
        |i: int|
            WorkPacket::PrepareBlockState(
                PrepareBlockState { chunk: chunks[i], defrag_threshold: threshold },
            ),
    )
}

/// One packet for each of `chunks` that clears records of valid objects.
pub open spec fn clear_vo_packets(chunks: Seq<Chunk>, scope: VOBitsClearingScope) -> Seq<WorkPacket> {
    Seq::new(
        chunks.len(),
        |i: int| WorkPacket::ClearVOBitsAfterPrepare(ClearVOBitsAfterPrepare { chunk: chunks[i], scope }),
    )
}

/// One packet for each of `chunks` that sweeps the chunk.
pub open spec fn sweep_packets(chunks: Seq<Chunk>) -> Seq<WorkPacket> {
    Seq::new(chunks.len(), |i: int| WorkPacket::SweepChunk(SweepChunk { chunk: chunks[i] }))
}

/// Which records of valid objects are cleared before the trace of a
/// collection: all in a collection of the whole space; in a nursery
/// collection of a space that holds young and old objects side by side,
/// those in unmarked blocks or lines; none otherwise, or where the space
/// keeps no such records.
pub open spec fn vo_scope(view: ImmixSpaceView, major_gc: bool) -> Option<VOBitsClearingScope> {
    if !view.modes.vo_bit {
        None
    } else if major_gc {
        Some(VOBitsClearingScope::FullGC)
    } else if view.args.mixed_age {
        if view.modes.block_only {
            Some(VOBitsClearingScope::BlockOnly)
        } else {
            Some(VOBitsClearingScope::Line { state: view.line_mark_state })
        }
    } else {
        None
    }
}

/// The packets that clear records of valid objects before the trace.
pub open spec fn vo_packets(view: ImmixSpaceView, major_gc: bool) -> Seq<WorkPacket> {
    match vo_scope(view, major_gc) {
        Some(scope) => clear_vo_packets(
            view.chunk_map.allocated_chunks(view.chunk_map.allocated.len() as int),
            scope,
        ),
        None => Seq::empty(),
    }
}

/// The number of holes above which the packets that ready the blocks
/// evacuate a block, if the collection defragments.
pub open spec fn packet_threshold(view: ImmixSpaceView) -> Option<usize> {
    if view.defrag.in_defrag {
        Some(view.defrag.spill_threshold)
    } else {
        None
    }
}

/// Whether `after` is the content of a space readied for a collection
/// of the whole space from `before`: the log bits are cleared if the plan
/// keeps them, the defragmentation state is readied if the space may
/// evacuate, and the mark state of the lines moves on unless blocks are
/// the unit of liveness.
pub open spec fn space_prepared(before: ImmixSpaceView, after: ImmixSpaceView, stats: StatsForDefrag) -> bool {
    &&& after == (ImmixSpaceView {
        meta: if before.needs_log_bit {
            before.meta.fill(
                SideMetadataSpec::LogBit,
                before.meta.start as int,
                before.meta.chunks * BYTES_IN_CHUNK,
                0,
            )
        } else {
            before.meta
        },
        defrag: after.defrag,
        line_mark_state: if before.modes.block_only {
            before.line_mark_state
        } else {
            next_line_mark_state(before.line_mark_state)
        },
        ..before
    })
    &&& if before.is_defrag_enabled() {
        defrag_prepared(
            before.defrag,
            after.defrag,
            after.meta,
            before.reusable_blocks.blocks(),
            before.pr.reserved_pages * crate::policy::immix::defrag::DEFRAG_HEADROOM_PERCENT / 100,
            stats,
        )
    } else {
        after.defrag == before.defrag
    }
}

/// The content of a space after the reclaiming of memory was started:
/// after a collection of the whole space the mark state of the lines is
/// the state that makes a line unavailable; the pool of reusable blocks
/// is empty; the histograms of the last collection are gone; one sweep is
/// pending for each allocated chunk; and no line counts as consumed.
pub open spec fn space_released(before: ImmixSpaceView, major_gc: bool) -> ImmixSpaceView {
    ImmixSpaceView {
        line_unavail_state: if major_gc && !before.modes.block_only {
            before.line_mark_state
        } else {
            before.line_unavail_state
        },
        reusable_blocks: if before.modes.block_only {
            before.reusable_blocks
        } else {
            ReusableBlockPoolView { local: Seq::empty(), global: Seq::empty() }
        },
        defrag: DefragView { mark_histograms: Seq::empty(), ..before.defrag },
        sweeps_pending: before.chunk_map.allocated_chunks(
            before.chunk_map.allocated.len() as int,
        ).len() as usize,
        lines_consumed: 0,
        ..before
    }
}

impl ImmixSpace {
    /// Makes one packet for each allocated chunk that readies the blocks
    /// of the chunk.
    fn generate_prepare_tasks(&self, threshold: Option<usize>) -> (tasks: Vec<WorkPacket>)
        requires
            self@.wf(),
        ensures
            tasks@ == prepare_packets(
                self@.chunk_map.allocated_chunks(self@.chunk_map.allocated.len() as int),
                threshold,
            ),
    {
        let make = |chunk: Chunk| -> (p: WorkPacket)
            ensures
                p == WorkPacket::PrepareBlockState(
                    PrepareBlockState { chunk, defrag_threshold: threshold },
                ),
            { WorkPacket::PrepareBlockState(PrepareBlockState { chunk, defrag_threshold: threshold }) };
        let tasks = self.chunk_map.generate_tasks(make);
        assert(tasks@ =~= prepare_packets(
            self@.chunk_map.allocated_chunks(self@.chunk_map.allocated.len() as int),
            threshold,
        ));
        tasks
    }

    /// Makes one packet for each allocated chunk that clears records of
    /// valid objects.
    fn generate_vo_tasks(&self, scope: VOBitsClearingScope) -> (tasks: Vec<WorkPacket>)
        requires
            self@.wf(),
        ensures
            tasks@ == clear_vo_packets(
                self@.chunk_map.allocated_chunks(self@.chunk_map.allocated.len() as int),
                scope,
            ),
    {
        let make = |chunk: Chunk| -> (p: WorkPacket)
            ensures
                p == WorkPacket::ClearVOBitsAfterPrepare(ClearVOBitsAfterPrepare { chunk, scope }),
            { WorkPacket::ClearVOBitsAfterPrepare(ClearVOBitsAfterPrepare { chunk, scope }) };
        let tasks = self.chunk_map.generate_tasks(make);
        assert(tasks@ =~= clear_vo_packets(
            self@.chunk_map.allocated_chunks(self@.chunk_map.allocated.len() as int),
            scope,
        ));
        tasks
    }

    /// Makes one packet for each allocated chunk that sweeps the chunk,
    /// discards the histograms of the last collection, and counts the
    /// packets as pending.
    pub fn generate_sweep_tasks(&mut self) -> (tasks: Vec<WorkPacket>)
        requires
            old(self)@.wf(),
        ensures
            final(self)@.wf(),
            tasks@ == sweep_packets(
                old(self)@.chunk_map.allocated_chunks(old(self)@.chunk_map.allocated.len() as int),
            ),
            final(self)@ == (ImmixSpaceView {
                defrag: DefragView { mark_histograms: Seq::empty(), ..old(self)@.defrag },
                sweeps_pending: tasks@.len() as usize,
                ..old(self)@
            }),
    {
        self.defrag.clear_mark_histograms();
        let make = |chunk: Chunk| -> (p: WorkPacket)
            ensures
                p == WorkPacket::SweepChunk(SweepChunk { chunk }),
            { WorkPacket::SweepChunk(SweepChunk { chunk }) };
        let tasks = self.chunk_map.generate_tasks(make);
        store_usize(&mut self.sweeps_pending, tasks.len());
        proof {
            assert(tasks@ =~= sweep_packets(
                old(self)@.chunk_map.allocated_chunks(old(self)@.chunk_map.allocated.len() as int),
            ));
            lemma_fields_update_wf(old(self)@, self@);
        }
        tasks
    }

    /// Moves the mark state of the lines on to the next state.
    fn bump_line_mark_state(&mut self)
        requires
            old(self)@.wf(),
        ensures
            final(self)@.wf(),
            final(self)@ == (ImmixSpaceView {
                line_mark_state: next_line_mark_state(old(self)@.line_mark_state),
                ..old(self)@
            }),
    {
        let state: u8 = load_u8(&self.line_mark_state);
        let bumped: u8 = state + 1;
        if bumped > MAX_MARK_STATE {
            store_u8(&mut self.line_mark_state, RESET_MARK_STATE);
        } else {
            store_u8(&mut self.line_mark_state, bumped);
        }
        proof {
            lemma_fields_update_wf(old(self)@, self@);
        }
    }

    /// Readies the space for a collection. For a collection of the whole
    /// space the space is readied as `space_prepared` says, and one
    /// packet for each allocated chunk that readies its blocks joins the
    /// bucket of the stage `Prepare`. The packets that clear records of
    /// valid objects join the bucket of the stage `ClearVOBits`.
    pub fn prepare(&mut self, major_gc: bool, plan_stats: StatsForDefrag, scheduler: &mut GCWorkScheduler)
        requires
            old(self)@.wf(),
            old(scheduler).wf(),
            plan_stats.total_pages + old(self)@.pr.reserved_pages
                + plan_stats.collection_reserved_pages <= usize::MAX,
        ensures
            final(self)@.wf(),
            final(scheduler).wf(),
            !major_gc ==> final(self)@ == old(self)@ && final(scheduler).packets(
                WorkBucketStage::Prepare,
            ) == old(scheduler).packets(WorkBucketStage::Prepare),
            major_gc ==> space_prepared(old(self)@, final(self)@, plan_stats) && final(scheduler).packets(WorkBucketStage::Prepare) == old(scheduler).packets(WorkBucketStage::Prepare)
                + prepare_packets(
                old(self)@.chunk_map.allocated_chunks(old(self)@.chunk_map.allocated.len() as int),
                packet_threshold(final(self)@),
            ),
            final(scheduler).packets(WorkBucketStage::ClearVOBits) == old(scheduler).packets(
                WorkBucketStage::ClearVOBits,
            ) + vo_packets(final(self)@, major_gc),
            forall|stage: WorkBucketStage|
                stage != WorkBucketStage::Prepare && stage != WorkBucketStage::ClearVOBits
                    ==> #[trigger] final(scheduler).work_buckets@[stage.spec_index()] == old(scheduler).work_buckets@[stage.spec_index()],
            final(scheduler).sentinel(WorkBucketStage::Prepare) == old(scheduler).sentinel(
                WorkBucketStage::Prepare,
            ),
            final(scheduler).sentinel(WorkBucketStage::ClearVOBits) == old(scheduler).sentinel(
                WorkBucketStage::ClearVOBits,
            ),
            final(scheduler).designated_work == old(scheduler).designated_work,
            final(scheduler).mutators_paused == old(scheduler).mutators_paused,
            final(scheduler).worker_live_bytes == old(scheduler).worker_live_bytes,
    {
        if major_gc {
            self.mark_state = MARKED_STATE;
            if self.common.needs_log_bit {
                let start = self.metadata.start();
                let bytes: usize = self.metadata.chunks() * BYTES_IN_CHUNK;
                proof {
                    lemma_fill_keeps_blocks(
                        self@,
                        SideMetadataSpec::LogBit,
                        start.0 as int,
                        bytes as int,
                        0,
                    );
                }
                self.metadata.bzero_blocks(SideMetadataSpec::LogBit, start, bytes);
            }
            proof {
                assert(self@.wf());
                assert forall|i: int| 0 <= i < self@.reusable_blocks.blocks().len() implies (
                #[trigger] self@.reusable_blocks.blocks()[i]).in_space(self@.meta) by {}
            }
            if self.is_defrag_enabled() {
                let headroom = self.defrag_headroom_pages();
                assert(headroom <= self@.pr.reserved_pages);
                self.defrag.prepare(&self.metadata, &self.reusable_blocks, headroom, plan_stats);
            }
            proof {
                lemma_fields_update_wf(old(self)@.with_meta(self@.meta), self@);
            }
            let threshold = self.defrag.spill_threshold();
            let packet_threshold = if self.in_defrag() {
                Some(threshold)
            } else {
                None
            };
            let work_packets = self.generate_prepare_tasks(packet_threshold);
            scheduler.bulk_add(WorkBucketStage::Prepare, work_packets);
            if !self.modes.block_only {
                self.bump_line_mark_state();
            }
        }
        let ghost mid = *scheduler;
        if self.modes.vo_bit {
            let maybe_scope = if major_gc {
                Some(VOBitsClearingScope::FullGC)
            } else if self.space_args.mixed_age {
                if self.modes.block_only {
                    Some(VOBitsClearingScope::BlockOnly)
                } else {
                    let line_mark_state = load_u8(&self.line_mark_state);
                    Some(VOBitsClearingScope::Line { state: line_mark_state })
                }
            } else {
                None
            };
            match maybe_scope {
                Some(scope) => {
                    let work_packets = self.generate_vo_tasks(scope);
                    scheduler.bulk_add(WorkBucketStage::ClearVOBits, work_packets);
                },
                None => {
                    assert(scheduler.packets(WorkBucketStage::ClearVOBits) =~= mid.packets(
                        WorkBucketStage::ClearVOBits,
                    ) + Seq::<WorkPacket>::empty());
                },
            }
        } else {
            assert(scheduler.packets(WorkBucketStage::ClearVOBits) =~= mid.packets(
                WorkBucketStage::ClearVOBits,
            ) + Seq::<WorkPacket>::empty());
        }
    }

    /// Starts the reclaiming of memory after a trace: after a collection
    /// of the whole space the mark state of the lines becomes the state
    /// that makes a line unavailable; the pool of reusable blocks is
    /// emptied; one packet for each allocated chunk that sweeps the chunk
    /// joins the bucket of the stage `Release`; and the count of the lines
    /// consumed starts again at zero.
    pub fn release(&mut self, major_gc: bool, scheduler: &mut GCWorkScheduler)
        requires
            old(self)@.wf(),
            old(scheduler).wf(),
        ensures
            final(self)@.wf(),
            final(self)@ == space_released(old(self)@, major_gc),
            old(scheduler).same_but(final(scheduler), WorkBucketStage::Release),
            final(scheduler).packets(WorkBucketStage::Release) == old(scheduler).packets(
                WorkBucketStage::Release,
            ) + sweep_packets(
                old(self)@.chunk_map.allocated_chunks(old(self)@.chunk_map.allocated.len() as int),
            ),
            final(scheduler).sentinel(WorkBucketStage::Release) == old(scheduler).sentinel(
                WorkBucketStage::Release,
            ),
    {
        if major_gc {
            if !self.modes.block_only {
                let state = load_u8(&self.line_mark_state);
                store_u8(&mut self.line_unavail_state, state);
            }
        }
        if !self.modes.block_only {
            self.reusable_blocks.reset();
        }
        proof {
            assert(self@.reusable_blocks =~= (if old(self)@.modes.block_only {
                old(self)@.reusable_blocks
            } else {
                ReusableBlockPoolView { local: Seq::empty(), global: Seq::empty() }
            }));
            lemma_fields_update_wf(old(self)@, self@);
        }
        let work_packets = self.generate_sweep_tasks();
        scheduler.bulk_add(WorkBucketStage::Release, work_packets);
        store_usize(&mut self.lines_consumed, 0);
        proof {
            lemma_fields_update_wf(old(self)@, self@);
        }
    }
}

/// The mark state of the lines after `k` collections of the whole space
/// that start with `state`.
pub open spec fn rotated(state: u8, k: nat) -> u8
    decreases k,
{
    if k == 0 {
        state
    } else {
        next_line_mark_state(rotated(state, (k - 1) as nat))
    }
}

/// The position of a mark state in the rotation after `k` more
/// collections: the states from the first to the last follow one another,
/// and the first follows the last.
proof fn lemma_rotated_position(state: u8, k: nat)
    requires
        RESET_MARK_STATE <= state <= MAX_MARK_STATE,
    ensures
        RESET_MARK_STATE <= rotated(state, k) <= MAX_MARK_STATE,
        rotated(state, k) as int == (state as int - 1 + k as int) % 127 + 1,
    decreases k,
{
    if k > 0 {
        lemma_rotated_position(state, (k - 1) as nat);
        let p = (state as int - 1 + (k - 1) as int) % 127;
        let q = (state as int - 1 + (k - 1) as int) / 127;
        assert(state as int - 1 + (k - 1) as int == 127 * q + p);
        if p == 126 {
            assert(state as int - 1 + k as int == 127 * (q + 1));
        } else {
            assert(state as int - 1 + k as int == 127 * q + (p + 1));
        }
    }
}

/// The mark state of the lines rotates through the states from the first
/// to the last: it is never zero, the value of a line that was never
/// marked; it differs from the state of any collection fewer than a full
/// rotation ago, so that a line that was marked then and not since is not
/// taken to be live; and after a full rotation it is the same state
/// again.
pub proof fn lemma_rotation(state: u8, k: nat)
    requires
        RESET_MARK_STATE <= state <= MAX_MARK_STATE,
    ensures
        RESET_MARK_STATE <= rotated(state, k) <= MAX_MARK_STATE,
        rotated(state, k) != 0,
        0 < k < 127 ==> rotated(state, k) != state,
        rotated(state, 127) == state,
{
    lemma_rotated_position(state, k);
    lemma_rotated_position(state, 127);
    let base = state as int - 1;
    if 0 < k < 127 {
        let q = (base + k as int) / 127;
        let p = (base + k as int) % 127;
        assert(base + k as int == 127 * q + p);
        if p == base {
            assert(k as int == 127 * q);
        }
    }
    assert((base + 127) % 127 == base) by {
        assert(base + 127 == 127 * 1 + base);
    }
}

/// A line that holds a mark of an earlier collection is found dead, and
/// can be allocated into after the collection, unless a full rotation of
/// the mark states lies between the two collections: its mark is neither
/// the mark of this collection nor, after the release, the mark that
/// makes a line unavailable.
pub proof fn lemma_stale_mark_is_dead(marked_with: u8, k: nat)
    requires
        RESET_MARK_STATE <= marked_with <= MAX_MARK_STATE,
        0 < k < 127,
    ensures
        !crate::policy::immix::holes::line_unavailable(
            marked_with,
            rotated(marked_with, k),
            rotated(marked_with, k),
        ),
        !crate::policy::immix::holes::line_unavailable(
            0,
            rotated(marked_with, k),
            rotated(marked_with, k),
        ),
{
    lemma_rotation(marked_with, k);
}

/// What readying a chunk says of each of its blocks: a block in use is
/// unmarked afterwards, and is to be evacuated exactly if the space may
/// evacuate and either every block is evacuated or the collection
/// defragments and the block has more holes than the threshold; an
/// unallocated block stays as it is.
pub proof fn lemma_block_prepared_state(
    view: ImmixSpaceView,
    meta: SideMetadataView,
    block: Block,
    threshold: Option<usize>,
)
    requires
        meta.wf(),
        crate::policy::immix::block::has_block_tables(meta),
        block.in_space(meta),
    ensures
        block_state(block_prepared(view, meta, block.0 as int, threshold), block.0 as int) == (
        if block_state(meta, block.0 as int) == BlockState::Unallocated {
            BlockState::Unallocated
        } else {
            BlockState::Unmarked
        }),
        block_state(meta, block.0 as int) != BlockState::Unallocated ==> block_is_defrag_source(
            block_prepared(view, meta, block.0 as int, threshold),
            block.0 as int,
        ) == is_defrag_source_next(
            view,
            crate::policy::immix::block::block_holes(meta, block.0 as int),
            threshold,
        ),
        forall|other: int|
            meta.contains(other) && other % 32768 == 0 && other != block.0 ==> #[trigger] block_state(
                block_prepared(view, meta, block.0 as int, threshold),
                other,
            ) == block_state(meta, other) && block_is_defrag_source(
                block_prepared(view, meta, block.0 as int, threshold),
                other,
            ) == block_is_defrag_source(meta, other),
{
    let b = block.0 as int;
    if block_state(meta, b) != BlockState::Unallocated {
        let flag = if is_defrag_source_next(
            view,
            crate::policy::immix::block::block_holes(meta, b),
            threshold,
        ) {
            1u8
        } else {
            0u8
        };
        lemma_store_same_shape(meta, SideMetadataSpec::BlockDefragSource, b, flag);
        let m1 = meta.store(SideMetadataSpec::BlockDefragSource, b, flag);
        assert(m1.has(SideMetadataSpec::BlockMark)) by {
            assert(m1.tables[SideMetadataSpec::BlockMark.spec_ordinal()].len()
                == meta.tables[SideMetadataSpec::BlockMark.spec_ordinal()].len());
        }
        lemma_store_same_shape(
            m1,
            SideMetadataSpec::BlockMark,
            b,
            crate::policy::immix::block::MARK_UNMARKED,
        );
        let m2 = m1.store(SideMetadataSpec::BlockMark, b, crate::policy::immix::block::MARK_UNMARKED);
        assert forall|other: int|
            meta.contains(other) && other % 32768 == 0 && other != block.0 implies #[trigger] block_state(
            m2,
            other,
        ) == block_state(meta, other) && block_is_defrag_source(m2, other) == block_is_defrag_source(
            meta,
            other,
        ) by {
            crate::policy::immix::immixspace::lemma_distinct_blocks(meta, other, b);
            assert(m1.load(SideMetadataSpec::BlockMark, other) == meta.load(
                SideMetadataSpec::BlockMark,
                other,
            ));
            assert(m2.load(SideMetadataSpec::BlockDefragSource, other) == m1.load(
                SideMetadataSpec::BlockDefragSource,
                other,
            ));
        }
    }
}

/// A space stays sound when only its counters, its mark states of lines,
/// its pool of reusable blocks or its defragmentation state change, as
/// long as the states stay in range, the blocks of the pool stay blocks of
/// the space, and all histograms are whole.
pub proof fn lemma_fields_update_wf(before: ImmixSpaceView, after: ImmixSpaceView)
    requires
        before.wf(),
        after.meta == before.meta,
        after.chunk_map == before.chunk_map,
        after.pr == before.pr,
        after.args == before.args,
        after.modes == before.modes,
        after.needs_log_bit == before.needs_log_bit,
        after.mark_state == before.mark_state,
        RESET_MARK_STATE <= after.line_mark_state <= MAX_MARK_STATE,
        RESET_MARK_STATE <= after.line_unavail_state <= MAX_MARK_STATE,
        histograms_wf(after.defrag.mark_histograms),
        forall|i: int|
            0 <= i < after.reusable_blocks.blocks().len() ==> (
            #[trigger] after.reusable_blocks.blocks()[i]).in_space(after.meta),
    ensures
        after.wf(),
{
    assert(after.fresh_blocks_unallocated()) by {
        assert(before.fresh_blocks_unallocated());
    }
    assert(after.released_blocks_unallocated()) by {
        assert(before.released_blocks_unallocated());
        assert(after.released_blocks() == before.released_blocks());
    }
}

} // verus!
