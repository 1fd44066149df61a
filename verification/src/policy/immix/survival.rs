//! What the sweep and the release leave of the marks that a trace set.

use crate::policy::immix::block::block_state;
use crate::policy::immix::block::Block;
use crate::policy::immix::block::BlockState;
use crate::policy::immix::guarantees::survives;
use crate::policy::immix::immixspace::lemma_fill_same_shape;
use crate::policy::immix::immixspace::lemma_store_same_shape;
use crate::policy::immix::immixspace::ImmixSpaceView;
use crate::policy::immix::prepare::space_released;
use crate::policy::immix::sweep::block_swept_in_chunk;
use crate::policy::immix::sweep::blocks_swept;
use crate::policy::immix::sweep::chunk_swept;
use crate::policy::immix::sweep::forwarding_cleared;
use crate::policy::immix::prepare::lemma_chunk_block_in_space;
use crate::policy::immix::sweep::lemma_forwarding_cleared_wf;
use crate::policy::immix::sweep::lemma_swept_block_wf;
use crate::policy::immix::sweep::sweep_finished;
use crate::policy::immix::sweep::SweepChunk;
use crate::policy::immix::sweep::SweepProgress;
use crate::util::address::ObjectReference;
use crate::util::heap::chunk_map::Chunk;
use crate::util::metadata::SideMetadataSpec;
use vstd::prelude::*;

verus! {

/// Whether `object` is kept alive as far as `view` tells: it is marked,
/// or its forwarding pointer names an object that is marked.
pub open spec fn kept_alive(view: ImmixSpaceView, object: ObjectReference) -> bool {
    view.is_marked(object) || view.is_marked(
        ObjectReference(view.meta.load_pointer(object.0 as int)),
    )
}

/// Whether `after` holds the marks and the forwarding pointers of the
/// objects as `before` holds them.
pub open spec fn marks_kept(before: ImmixSpaceView, after: ImmixSpaceView) -> bool {
    &&& after.mark_state == before.mark_state
    &&& forall|a: int| #[trigger]
        after.meta.load(SideMetadataSpec::ObjectMark, a) == before.meta.load(
            SideMetadataSpec::ObjectMark,
            a,
        )
    &&& forall|a: int| #[trigger] after.meta.load_pointer(a) == before.meta.load_pointer(a)
}

/// An object that survives a trace is kept alive.
pub proof fn lemma_survivor_is_kept_alive(view: ImmixSpaceView, object: ObjectReference)
    requires
        survives(view, object),
    ensures
        kept_alive(view, object),
{
}

/// Where the marks are kept, the objects that are kept alive are the
/// same.
pub proof fn lemma_marks_kept_keeps_alive(
    before: ImmixSpaceView,
    after: ImmixSpaceView,
    object: ObjectReference,
)
    requires
        marks_kept(before, after),
    ensures
        after.is_marked(object) == before.is_marked(object),
        kept_alive(after, object) == kept_alive(before, object),
{
    assert(after.meta.load_pointer(object.0 as int) == before.meta.load_pointer(object.0 as int));
}

/// Releasing the space keeps the marks.
pub proof fn lemma_release_keeps_marks(view: ImmixSpaceView, major_gc: bool)
    ensures
        marks_kept(view, space_released(view, major_gc)),
{
}

/// Sweeping one more block keeps the marks, and keeps the space sound.
pub proof fn lemma_block_sweep_keeps_marks(
    progress: SweepProgress,
    block: Block,
    state: u8,
    moving: bool,
)
    requires
        progress.view.wf(),
        block.in_space(progress.view.meta),
    ensures
        block_swept_in_chunk(progress, block, state, moving).view.wf(),
        block_swept_in_chunk(progress, block, state, moving).view.meta.start
            == progress.view.meta.start,
        block_swept_in_chunk(progress, block, state, moving).view.meta.chunks
            == progress.view.meta.chunks,
        marks_kept(progress.view, block_swept_in_chunk(progress, block, state, moving).view),
{
    let view = progress.view;
    let b = block.0 as int;
    if block_state(view.meta, b) != BlockState::Unallocated {
        let cleared = forwarding_cleared(view, block, moving);
        lemma_forwarding_cleared_wf(view, block, moving);
        lemma_fill_same_shape(view.meta, SideMetadataSpec::ForwardingBits, b, 32768, 0);
        assert(marks_kept(view, cleared));
        lemma_swept_block_wf(cleared, block, state);
        lemma_store_same_shape(cleared.meta, SideMetadataSpec::BlockMark, b, 0);
        let swept = cleared.swept_block(block, state);
        assert(marks_kept(cleared, swept)) by {
            let m0 = cleared.meta;
            assert forall|v: u8, h: u8| #![trigger m0.store(SideMetadataSpec::BlockMark, b, v).store(SideMetadataSpec::BlockHoles, b, h)]
                !cleared.modes.block_only implies marks_kept(
                cleared,
                cleared.with_meta(
                    m0.store(SideMetadataSpec::BlockMark, b, v).store(
                        SideMetadataSpec::BlockHoles,
                        b,
                        h,
                    ),
                ),
            ) by {
                lemma_store_same_shape(m0, SideMetadataSpec::BlockMark, b, v);
                let m1 = m0.store(SideMetadataSpec::BlockMark, b, v);
                lemma_store_same_shape(m1, SideMetadataSpec::BlockHoles, b, h);
            }
            assert forall|v: u8| #![trigger m0.store(SideMetadataSpec::BlockMark, b, v)]
                marks_kept(cleared, cleared.with_meta(m0.store(SideMetadataSpec::BlockMark, b, v))) by {
                lemma_store_same_shape(m0, SideMetadataSpec::BlockMark, b, v);
            }
        }
    }
}

/// Sweeping the first `n` blocks of a chunk keeps the marks, and keeps
/// the space sound.
pub proof fn lemma_blocks_sweep_keeps_marks(
    start: SweepProgress,
    chunk: Chunk,
    n: int,
    state: u8,
    moving: bool,
)
    requires
        start.view.wf(),
        chunk.wf(),
        start.view.meta.contains(chunk.0 as int),
        0 <= n <= 128,
    ensures
        blocks_swept(start, chunk.0 as int, n, state, moving).view.wf(),
        blocks_swept(start, chunk.0 as int, n, state, moving).view.meta.start
            == start.view.meta.start,
        blocks_swept(start, chunk.0 as int, n, state, moving).view.meta.chunks
            == start.view.meta.chunks,
        marks_kept(start.view, blocks_swept(start, chunk.0 as int, n, state, moving).view),
    decreases n,
{
    if n > 0 {
        lemma_blocks_sweep_keeps_marks(start, chunk, n - 1, state, moving);
        let mid = blocks_swept(start, chunk.0 as int, n - 1, state, moving);
        lemma_chunk_block_in_space(start.view.meta, chunk, n - 1);
        let block = Block((chunk.0 + (n - 1) * 32768) as usize);
        lemma_block_sweep_keeps_marks(mid, block, state, moving);
    }
}

/// Sweeping a chunk keeps the marks: an object that was kept alive when
/// the trace ended is kept alive when the chunk is swept.
pub proof fn lemma_chunk_sweep_keeps_marks(view: ImmixSpaceView, packet: SweepChunk, moving: bool)
    requires
        packet.ready(view),
    ensures
        marks_kept(view, sweep_finished(chunk_swept(view, packet.chunk, moving))),
{
    let start = SweepProgress {
        view,
        histogram: Seq::new(crate::policy::immix::defrag::NUM_BINS as nat, |i: int| 0usize),
        live_blocks: 0,
    };
    lemma_blocks_sweep_keeps_marks(start, packet.chunk, 128, view.line_mark_state, moving);
}

} // verus!
