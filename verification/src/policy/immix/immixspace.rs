//! The Immix space: the owner of the blocks, and the place where objects
//! are marked.

use ::atomic::Atomic;
use crate::plan::tracing::ObjectQueue;
use crate::policy::gc_work::TRACE_KIND_TRANSITIVE_PIN;
use crate::policy::gc_work::TraceKind;
use crate::policy::immix::ImmixModes;
use crate::policy::immix::block::Block;
use crate::policy::immix::block::BlockState;
use crate::policy::immix::block::MARK_MARKED;
use crate::policy::immix::block::ReusableBlockPool;
use crate::policy::immix::block::ReusableBlockPoolView;
use crate::policy::immix::block::block_state;
use crate::policy::immix::block::has_block_tables;
use crate::policy::immix::defrag::DEFRAG_HEADROOM_PERCENT;
use crate::policy::immix::defrag::Defrag;
use crate::policy::immix::defrag::DefragView;
use crate::policy::immix::defrag::defrag_decision;
use crate::policy::immix::defrag::histograms_wf;
use crate::policy::immix::line::Line;
use crate::policy::immix::line::MAX_MARK_STATE;
use crate::policy::immix::line::RESET_MARK_STATE;
use crate::policy::immix::line::span_bytes;
use crate::policy::immix::line::span_start;
use crate::policy::space::CommonSpace;
use crate::policy::space::PlanCreateSpaceArgs;
use crate::util::address::Address;
use crate::util::address::ObjectReference;
use crate::util::atomic_cell::atomic_u8_value;
use crate::util::atomic_cell::atomic_usize_value;
use crate::util::atomic_cell::load_u8;
use crate::util::atomic_cell::load_usize;
use crate::util::atomic_cell::new_u8;
use crate::util::atomic_cell::new_usize;
use crate::util::constants::BYTES_IN_CHUNK;
use crate::util::heap::blockpageresource::BlockPageResource;
use crate::util::heap::blockpageresource::BlockPageResourceView;
use crate::util::heap::chunk_map::ChunkMap;
use crate::util::heap::chunk_map::ChunkMapView;
use crate::util::metadata::SideMetadataContext;
use crate::util::metadata::SideMetadataSpec;
use crate::util::metadata::SideMetadataView;
use crate::vm::object_model::ObjectModel;
use crate::vm::object_model::ObjectView;
use vstd::prelude::*;
use crate::scheduler::scan::post_scan_object;

verus! {

/// The trace that marks and never moves.
pub const TRACE_KIND_FAST: TraceKind = 0;

/// The trace that evacuates the blocks chosen for defragmentation.
pub const TRACE_KIND_DEFRAG: TraceKind = 1;

/// The mark byte of an object that was not reached.
pub const UNMARKED_STATE: u8 = 0;

/// The mark byte of an object that was reached.
pub const MARKED_STATE: u8 = 1;

/// Some arguments for an Immix space.
#[derive(Clone, Copy, PartialEq, Eq, Structural, Debug)]
pub struct ImmixSpaceArgs {
    /// An object is recorded as unlogged when it is traced.
    pub unlog_object_when_traced: bool,
    /// The space holds young and old objects side by side.
    pub mixed_age: bool,
    /// The space never moves an object.
    pub never_move_objects: bool,
}

/// The mathematical content of an Immix space.
#[verifier::ext_equal]
pub struct ImmixSpaceView {
    /// The side metadata of the blocks, lines and objects.
    pub meta: SideMetadataView,
    /// Which chunks are allocated.
    pub chunk_map: ChunkMapView,
    /// The page resource.
    pub pr: BlockPageResourceView,
    /// The pool of reusable blocks.
    pub reusable_blocks: ReusableBlockPoolView,
    /// The defragmentation state.
    pub defrag: DefragView,
    /// The mark that this collection writes to the lines it finds live.
    pub line_mark_state: u8,
    /// The mark that the last collection wrote.
    pub line_unavail_state: u8,
    /// The number of lines taken for allocation since the last collection.
    pub lines_consumed: usize,
    /// The mark byte of a reached object.
    pub mark_state: u8,
    /// The arguments of the space.
    pub args: ImmixSpaceArgs,
    /// The modes that the space is built in.
    pub modes: ImmixModes,
    /// Whether the plan keeps a log bit for each object.
    pub needs_log_bit: bool,
    /// The number of sweeping work packets that have not finished.
    pub sweeps_pending: usize,
}

/// Of the first `n` blocks of a space, those that are in use, in address
/// order.
pub open spec fn blocks_in_use(meta: SideMetadataView, n: int) -> Seq<Block>
    decreases n,
{
    if n <= 0 {
        Seq::empty()
    } else if block_state(meta, meta.start + (n - 1) * 32768) != BlockState::Unallocated {
        blocks_in_use(meta, n - 1).push(Block((meta.start + (n - 1) * 32768) as usize))
    } else {
        blocks_in_use(meta, n - 1)
    }
}

/// The start of the block that holds `addr`.
pub open spec fn block_of(addr: int) -> int {
    addr - addr % 32768
}

impl ImmixSpaceView {
    /// Every block that the page resource never handed out is
    /// unallocated.
    pub open spec fn fresh_blocks_unallocated(self) -> bool {
        forall|b: int|
            self.meta.contains(b) && b % 32768 == 0 && b >= self.pr.cursor ==> #[trigger] block_state(
                self.meta,
                b,
            ) == BlockState::Unallocated
    }

    /// The blocks that were given back to the page resource, in the order
    /// in which it holds them.
    pub open spec fn released_blocks(self) -> Seq<Block> {
        self.pr.free + self.pr.local
    }

    /// Every block that was given back to the page resource is
    /// unallocated, and none was given back twice.
    pub open spec fn released_blocks_unallocated(self) -> bool {
        &&& forall|i: int, j: int|
            0 <= i < j < self.released_blocks().len() ==> self.released_blocks()[i]
                != self.released_blocks()[j]
        &&& forall|i: int|
            0 <= i < self.released_blocks().len() ==> block_state(
                self.meta,
                (#[trigger] self.released_blocks()[i]).0 as int,
            ) == BlockState::Unallocated
    }

    /// The space is sound: its parts describe the same range of memory,
    /// it owns the tables that its modes call for, its mark states are in
    /// range, and the blocks that the page resource has at hand are
    /// unallocated.
    pub open spec fn wf(self) -> bool {
        &&& self.meta.wf()
        &&& has_block_tables(self.meta)
        &&& self.meta.has(SideMetadataSpec::ObjectMark)
        &&& self.meta.has(SideMetadataSpec::ForwardingBits)
        &&& self.meta.has(SideMetadataSpec::ForwardingPointer)
        &&& self.meta.has(SideMetadataSpec::LineMark) == !self.modes.block_only
        &&& self.meta.has(SideMetadataSpec::PinningBit) == self.modes.object_pinning
        &&& self.meta.has(SideMetadataSpec::LogBit) == self.needs_log_bit
        &&& self.meta.has(SideMetadataSpec::VoBit) == self.modes.vo_bit
        &&& self.chunk_map.wf()
        &&& self.chunk_map.start == self.meta.start
        &&& self.chunk_map.allocated.len() == self.meta.chunks
        &&& self.pr.wf()
        &&& self.pr.start == self.meta.start
        &&& self.pr.end == self.meta.end()
        &&& RESET_MARK_STATE <= self.line_mark_state <= MAX_MARK_STATE
        &&& RESET_MARK_STATE <= self.line_unavail_state <= MAX_MARK_STATE
        &&& self.mark_state == MARKED_STATE
        &&& (self.modes.block_only ==> self.args.never_move_objects)
        &&& (self.modes.non_moving ==> self.args.never_move_objects)
        &&& (self.args.unlog_object_when_traced ==> self.needs_log_bit)
        &&& (forall|i: int|
            0 <= i < self.reusable_blocks.blocks().len() ==> (
            #[trigger] self.reusable_blocks.blocks()[i]).in_space(self.meta))
        &&& histograms_wf(self.defrag.mark_histograms)
        &&& self.fresh_blocks_unallocated()
        &&& self.released_blocks_unallocated()
    }

    /// Whether `object` is a reference into the space.
    pub open spec fn in_space(self, object: ObjectReference) -> bool {
        object.wf() && self.meta.contains(object.0 as int)
    }

    /// Whether `object` is an object of the runtime that lies in an
    /// allocated block of the space.
    pub open spec fn holds_object(self, vm: Map<usize, ObjectView>, object: ObjectReference) -> bool {
        &&& self.in_space(object)
        &&& vm.contains_key(object.0)
        &&& vm[object.0].size > 0
        &&& vm[object.0].size % 8 == 0
        &&& vm[object.0].size <= crate::policy::immix::MAX_IMMIX_OBJECT_SIZE
        &&& object.0 + vm[object.0].size <= self.meta.end()
        &&& block_state(self.meta, block_of(object.0 as int)) != BlockState::Unallocated
    }

    /// Whether the mark byte of `object` is `mark_state`.
    pub open spec fn is_marked_with(self, object: ObjectReference, mark_state: u8) -> bool {
        self.meta.load(SideMetadataSpec::ObjectMark, object.0 as int) == mark_state
    }

    /// Whether `object` was reached in this collection.
    pub open spec fn is_marked(self, object: ObjectReference) -> bool {
        self.is_marked_with(object, self.mark_state)
    }

    /// Whether `object` is pinned.
    pub open spec fn is_pinned(self, object: ObjectReference) -> bool {
        self.modes.object_pinning && self.meta.load(SideMetadataSpec::PinningBit, object.0 as int)
            != 0
    }

    /// Whether the space may evacuate blocks.
    pub open spec fn is_defrag_enabled(self) -> bool {
        !self.args.never_move_objects
    }

    /// The content with `meta` as the side metadata.
    pub open spec fn with_meta(self, meta: SideMetadataView) -> Self {
        ImmixSpaceView { meta, ..self }
    }

    /// The side metadata after the lines of `object`, which is `size`
    /// bytes long, were marked as live in this collection.
    pub open spec fn lines_marked(self, meta: SideMetadataView, object: ObjectReference, size: int)
        -> SideMetadataView {
        meta.fill(
            SideMetadataSpec::LineMark,
            span_start(object.0 as int),
            span_bytes(object.0 as int, size),
            self.line_mark_state,
        )
    }

    /// The side metadata after `object`, which is `size` bytes long, was
    /// reached for the first time and left where it is: the object is
    /// marked; its lines are marked, unless that waits until the object is
    /// scanned, or else its block is marked where blocks are the unit of
    /// liveness; and the object is recorded as valid and as unlogged where
    /// the space keeps such records.
    pub open spec fn marked_in_place(self, object: ObjectReference, size: int) -> SideMetadataView {
        let m1 = self.meta.store(SideMetadataSpec::ObjectMark, object.0 as int, self.mark_state);
        let m2 = if self.modes.block_only {
            m1.store(SideMetadataSpec::BlockMark, block_of(object.0 as int), MARK_MARKED)
        } else if self.modes.mark_line_at_scan_time {
            m1
        } else {
            self.lines_marked(m1, object, size)
        };
        let m3 = if self.modes.vo_bit {
            m2.store(SideMetadataSpec::VoBit, object.0 as int, 1)
        } else {
            m2
        };
        if self.args.unlog_object_when_traced {
            m3.store(SideMetadataSpec::LogBit, object.0 as int, 1)
        } else {
            m3
        }
    }
}

/// Two contents of side metadata describe the same memory with tables of
/// the same sizes.
pub open spec fn same_shape(a: SideMetadataView, b: SideMetadataView) -> bool {
    &&& a.start == b.start
    &&& a.chunks == b.chunks
    &&& a.tables.len() == b.tables.len()
    &&& forall|t: int| 0 <= t < a.tables.len() ==> (#[trigger] a.tables[t]).len() == b.tables[t].len()
    &&& a.pointers.len() == b.pointers.len()
}

/// A write to a table keeps the shape of the side metadata.
pub proof fn lemma_store_same_shape(meta: SideMetadataView, spec: SideMetadataSpec, addr: int, value: u8)
    requires
        meta.wf(),
        meta.has(spec),
        meta.contains(addr),
    ensures
        same_shape(meta, meta.store(spec, addr, value)),
        meta.store(spec, addr, value).wf(),
        forall|other: SideMetadataSpec, a: int|
            other != spec ==> #[trigger] meta.store(spec, addr, value).load(other, a) == meta.load(
                other,
                a,
            ),
        forall|a: int|
            meta.contains(a) && meta.index(spec, a) != meta.index(spec, addr) ==> #[trigger] meta.store(
                spec,
                addr,
                value,
            ).load(spec, a) == meta.load(spec, a),
        meta.store(spec, addr, value).load(spec, addr) == value,
        meta.store(spec, addr, value).pointers == meta.pointers,
{
    crate::util::metadata::lemma_index_in_table(meta, spec, addr);
    let after = meta.store(spec, addr, value);
    assert forall|s: SideMetadataSpec|
        after.tables[#[trigger] s.spec_ordinal()].len() == meta.tables[s.spec_ordinal()].len() by {}
    assert forall|a: int|
        meta.contains(a) && meta.index(spec, a) != meta.index(spec, addr) implies #[trigger] after.load(
        spec,
        a,
    ) == meta.load(spec, a) by {
        crate::util::metadata::lemma_index_in_table(meta, spec, a);
    }
}

/// Filling a table keeps the shape of the side metadata and every other
/// table.
pub proof fn lemma_fill_same_shape(
    meta: SideMetadataView,
    spec: SideMetadataSpec,
    addr: int,
    bytes: int,
    value: u8,
)
    requires
        meta.wf(),
        meta.has(spec),
    ensures
        same_shape(meta, meta.fill(spec, addr, bytes, value)),
        meta.fill(spec, addr, bytes, value).wf(),
        forall|other: SideMetadataSpec, a: int|
            other != spec ==> #[trigger] meta.fill(spec, addr, bytes, value).load(other, a)
                == meta.load(other, a),
        meta.fill(spec, addr, bytes, value).pointers == meta.pointers,
{
    let after = meta.fill(spec, addr, bytes, value);
    assert forall|s: SideMetadataSpec|
        after.tables[#[trigger] s.spec_ordinal()].len() == meta.tables[s.spec_ordinal()].len() by {}
}

/// A space stays sound when its side metadata changes without changing
/// shape, as long as every unallocated block stays unallocated.
pub proof fn lemma_meta_update_wf(view: ImmixSpaceView, meta: SideMetadataView)
    requires
        view.wf(),
        meta.wf(),
        same_shape(view.meta, meta),
        forall|b: int|
            meta.contains(b) && b % 32768 == 0 && block_state(view.meta, b) == BlockState::Unallocated
                ==> #[trigger] block_state(meta, b) == BlockState::Unallocated,
    ensures
        view.with_meta(meta).wf(),
{
    let next = view.with_meta(meta);
    assert forall|s: SideMetadataSpec| meta.has(s) == view.meta.has(s) by {
        assert(view.meta.tables[s.spec_ordinal()].len() == meta.tables[s.spec_ordinal()].len());
    }
    assert forall|i: int| 0 <= i < next.reusable_blocks.blocks().len() implies (
    #[trigger] next.reusable_blocks.blocks()[i]).in_space(next.meta) by {
        assert(view.reusable_blocks.blocks()[i].in_space(view.meta));
    }
    assert forall|b: int|
        next.meta.contains(b) && b % 32768 == 0 && b >= next.pr.cursor implies #[trigger] block_state(
        next.meta,
        b,
    ) == BlockState::Unallocated by {
        assert(block_state(view.meta, b) == BlockState::Unallocated);
    }
    assert forall|i: int| 0 <= i < next.released_blocks().len() implies block_state(
        next.meta,
        (#[trigger] next.released_blocks()[i]).0 as int,
    ) == BlockState::Unallocated by {
        let block = view.released_blocks()[i];
        lemma_released_block_in_space(view, i);
        assert(block_state(view.meta, block.0 as int) == BlockState::Unallocated);
    }
}

/// A block that was given back to the page resource lies in the space.
pub proof fn lemma_released_block_in_space(view: ImmixSpaceView, i: int)
    requires
        view.wf(),
        0 <= i < view.released_blocks().len(),
    ensures
        view.released_blocks()[i].in_space(view.meta),
        view.pr.holds(view.released_blocks()[i]),
{
    if i < view.pr.free.len() {
        assert(view.pr.holds(view.pr.free[i]));
    } else {
        assert(view.pr.holds(view.pr.local[i - view.pr.free.len()]));
    }
}

/// A write to a table other than the table of block states leaves the
/// space sound.
pub proof fn lemma_store_keeps_blocks(view: ImmixSpaceView, spec: SideMetadataSpec, addr: int, value: u8)
    requires
        view.wf(),
        view.meta.has(spec),
        view.meta.contains(addr),
        spec != SideMetadataSpec::BlockMark,
    ensures
        view.with_meta(view.meta.store(spec, addr, value)).wf(),
        forall|b: int|
            block_state(view.meta.store(spec, addr, value), b) == block_state(view.meta, b),
{
    lemma_store_same_shape(view.meta, spec, addr, value);
    let after = view.meta.store(spec, addr, value);
    assert forall|b: int| block_state(after, b) == block_state(view.meta, b) by {
        assert(after.load(SideMetadataSpec::BlockMark, b) == view.meta.load(
            SideMetadataSpec::BlockMark,
            b,
        ));
    }
    lemma_meta_update_wf(view, after);
}

/// Filling a table other than the table of block states leaves the space
/// sound and the states of the blocks as they are.
pub proof fn lemma_fill_keeps_blocks(
    view: ImmixSpaceView,
    spec: SideMetadataSpec,
    addr: int,
    bytes: int,
    value: u8,
)
    requires
        view.wf(),
        view.meta.has(spec),
        spec != SideMetadataSpec::BlockMark,
    ensures
        view.with_meta(view.meta.fill(spec, addr, bytes, value)).wf(),
        forall|b: int|
            block_state(view.meta.fill(spec, addr, bytes, value), b) == block_state(view.meta, b),
{
    lemma_fill_same_shape(view.meta, spec, addr, bytes, value);
    let after = view.meta.fill(spec, addr, bytes, value);
    assert forall|b: int| block_state(after, b) == block_state(view.meta, b) by {
        assert(after.load(SideMetadataSpec::BlockMark, b) == view.meta.load(
            SideMetadataSpec::BlockMark,
            b,
        ));
    }
    lemma_meta_update_wf(view, after);
}

/// Filling the table of line marks leaves the space sound.
pub proof fn lemma_fill_lines_keeps_blocks(view: ImmixSpaceView, addr: int, bytes: int, value: u8)
    requires
        view.wf(),
        view.meta.has(SideMetadataSpec::LineMark),
    ensures
        view.with_meta(view.meta.fill(SideMetadataSpec::LineMark, addr, bytes, value)).wf(),
        forall|b: int|
            block_state(view.meta.fill(SideMetadataSpec::LineMark, addr, bytes, value), b)
                == block_state(view.meta, b),
{
    lemma_fill_same_shape(view.meta, SideMetadataSpec::LineMark, addr, bytes, value);
    let after = view.meta.fill(SideMetadataSpec::LineMark, addr, bytes, value);
    assert forall|b: int| block_state(after, b) == block_state(view.meta, b) by {
        assert(after.load(SideMetadataSpec::BlockMark, b) == view.meta.load(
            SideMetadataSpec::BlockMark,
            b,
        ));
    }
    lemma_meta_update_wf(view, after);
}

/// Writing the state of a block leaves the space sound if the block is in
/// use before, or unallocated after. The states of all other blocks stay
/// as they are.
pub proof fn lemma_set_state_wf(view: ImmixSpaceView, block: Block, state: BlockState)
    requires
        view.wf(),
        block.in_space(view.meta),
        state.wf(),
        block_state(view.meta, block.0 as int) != BlockState::Unallocated || state
            == BlockState::Unallocated,
    ensures
        view.with_meta(
            view.meta.store(SideMetadataSpec::BlockMark, block.0 as int, state.spec_to_byte()),
        ).wf(),
        forall|b: int|
            view.meta.contains(b) && b % 32768 == 0 ==> #[trigger] block_state(
                view.meta.store(SideMetadataSpec::BlockMark, block.0 as int, state.spec_to_byte()),
                b,
            ) == (if b == block.0 {
                state
            } else {
                block_state(view.meta, b)
            }),
        forall|other: SideMetadataSpec, a: int|
            other != SideMetadataSpec::BlockMark ==> #[trigger] view.meta.store(
                SideMetadataSpec::BlockMark,
                block.0 as int,
                state.spec_to_byte(),
            ).load(other, a) == view.meta.load(other, a),
{
    let byte = state.spec_to_byte();
    lemma_store_same_shape(view.meta, SideMetadataSpec::BlockMark, block.0 as int, byte);
    let after = view.meta.store(SideMetadataSpec::BlockMark, block.0 as int, byte);
    assert forall|b: int| view.meta.contains(b) && b % 32768 == 0 implies #[trigger] block_state(
        after,
        b,
    ) == (if b == block.0 {
        state
    } else {
        block_state(view.meta, b)
    }) by {
        if b != block.0 {
            lemma_distinct_blocks(view.meta, b, block.0 as int);
        }
    }
    lemma_meta_update_wf(view, after);
}

/// Two blocks of a space have different cells in the tables that describe
/// blocks.
pub proof fn lemma_distinct_blocks(meta: SideMetadataView, a: int, b: int)
    requires
        meta.wf(),
        meta.contains(a),
        meta.contains(b),
        a % 32768 == 0,
        b % 32768 == 0,
        a != b,
    ensures
        meta.index(SideMetadataSpec::BlockMark, a) != meta.index(SideMetadataSpec::BlockMark, b),
        meta.index(SideMetadataSpec::BlockHoles, a) != meta.index(SideMetadataSpec::BlockHoles, b),
        meta.index(SideMetadataSpec::BlockDefragSource, a) != meta.index(
            SideMetadataSpec::BlockDefragSource,
            b,
        ),
{
    let s = meta.start as int;
    assert(s % 32768 == 0);
    assert((a - s) % 32768 == 0);
    assert((b - s) % 32768 == 0);
    assert(a - s == 32768 * ((a - s) / 32768));
    assert(b - s == 32768 * ((b - s) / 32768));
}

/// The block that holds an address of a space lies in the space.
pub proof fn lemma_block_of_in_space(meta: SideMetadataView, addr: int)
    requires
        meta.wf(),
        meta.contains(addr),
    ensures
        meta.contains(block_of(addr)),
        block_of(addr) % 32768 == 0,
        block_of(addr) <= addr < block_of(addr) + 32768,
        block_of(addr) + 32768 <= meta.end(),
{
    let s = meta.start as int;
    assert(s % 32768 == 0);
    assert(meta.end() % 32768 == 0);
}

/// An address between the start and the end of the block that holds
/// another lies in the same block.
pub proof fn lemma_same_block(a: int, b: int)
    requires
        a >= 0,
        block_of(a) <= b < block_of(a) + 32768,
    ensures
        block_of(b) == block_of(a),
{
    let q = a / 32768;
    assert(block_of(a) == 32768 * q);
    assert(b / 32768 == q);
}

/// A block that is in use was handed out by the page resource.
pub proof fn lemma_allocated_block_below_cursor(view: ImmixSpaceView, block: int)
    requires
        view.wf(),
        view.meta.contains(block),
        block % 32768 == 0,
        block_state(view.meta, block) != BlockState::Unallocated,
    ensures
        view.pr.start <= block < view.pr.cursor,
{
}

/// An Immix space.
pub struct ImmixSpace {
    /// The part that all spaces have.
    pub common: CommonSpace,
    /// The page resource that hands out blocks.
    pub pr: BlockPageResource,
    /// Which chunks are allocated.
    pub chunk_map: ChunkMap,
    /// The mark that this collection writes to the lines it finds live.
    pub line_mark_state: Atomic<u8>,
    /// The mark that the last collection wrote.
    pub line_unavail_state: Atomic<u8>,
    /// The blocks that can be allocated into again.
    pub reusable_blocks: ReusableBlockPool,
    /// The defragmentation state.
    pub defrag: Defrag,
    /// The number of lines taken for allocation since the last collection.
    pub lines_consumed: Atomic<usize>,
    /// The mark byte of a reached object.
    pub mark_state: u8,
    /// The arguments of the space.
    pub space_args: ImmixSpaceArgs,
    /// The modes that the space is built in.
    pub modes: ImmixModes,
    /// The side metadata of the blocks, lines and objects.
    pub metadata: SideMetadataContext,
    /// The number of sweeping work packets that have not finished.
    pub sweeps_pending: Atomic<usize>,
}

impl View for ImmixSpace {
    type V = ImmixSpaceView;

    open spec fn view(&self) -> ImmixSpaceView {
        ImmixSpaceView {
            meta: self.metadata@,
            chunk_map: self.chunk_map@,
            pr: self.pr@,
            reusable_blocks: self.reusable_blocks@,
            defrag: self.defrag@,
            line_mark_state: atomic_u8_value(self.line_mark_state),
            line_unavail_state: atomic_u8_value(self.line_unavail_state),
            lines_consumed: atomic_usize_value(self.lines_consumed),
            mark_state: self.mark_state,
            args: self.space_args,
            modes: self.modes,
            needs_log_bit: self.common.needs_log_bit,
            sweeps_pending: atomic_usize_value(self.sweeps_pending),
        }
    }
}

/// The tables that a space with the given modes owns on its own account.
pub open spec fn local_specs(block_only: bool, object_pinning: bool) -> Seq<SideMetadataSpec> {
    let lines = if block_only {
        Seq::<SideMetadataSpec>::empty()
    } else {
        seq![SideMetadataSpec::LineMark]
    };
    let blocks = seq![
        SideMetadataSpec::BlockDefragSource,
        SideMetadataSpec::BlockHoles,
        SideMetadataSpec::BlockMark,
        SideMetadataSpec::ObjectMark,
        SideMetadataSpec::ForwardingBits,
        SideMetadataSpec::ForwardingPointer,
    ];
    let pins = if object_pinning {
        seq![SideMetadataSpec::PinningBit]
    } else {
        Seq::<SideMetadataSpec>::empty()
    };
    lines + blocks + pins
}

/// Whether a space with the given modes owns the table `spec`.
pub open spec fn owns_table(spec: SideMetadataSpec, modes: ImmixModes, needs_log_bit: bool) -> bool {
    match spec {
        SideMetadataSpec::LineMark => !modes.block_only,
        SideMetadataSpec::PinningBit => modes.object_pinning,
        SideMetadataSpec::LogBit => needs_log_bit,
        SideMetadataSpec::VoBit => modes.vo_bit,
        _ => true,
    }
}

impl ImmixSpace {
    /// The tables that a space with the given modes owns on its own
    /// account.
    pub fn side_metadata_specs(block_only: bool, object_pinning: bool) -> (specs: Vec<
        SideMetadataSpec,
    >)
        ensures
            specs@ == local_specs(block_only, object_pinning),
            forall|spec: SideMetadataSpec|
                crate::util::metadata::listed(specs@, spec) == (match spec {
                    SideMetadataSpec::LineMark => !block_only,
                    SideMetadataSpec::PinningBit => object_pinning,
                    SideMetadataSpec::LogBit => false,
                    SideMetadataSpec::VoBit => false,
                    _ => true,
                }),
    {
        let mut specs: Vec<SideMetadataSpec> = Vec::new();
        proof {
            crate::util::metadata::lemma_listed_empty();
        }
        if !block_only {
            proof {
                crate::util::metadata::lemma_listed_push(specs@, SideMetadataSpec::LineMark);
            }
            specs.push(SideMetadataSpec::LineMark);
        }
        proof {
            crate::util::metadata::lemma_listed_push(specs@, SideMetadataSpec::BlockDefragSource);
        }
        specs.push(SideMetadataSpec::BlockDefragSource);
        proof {
            crate::util::metadata::lemma_listed_push(specs@, SideMetadataSpec::BlockHoles);
        }
        specs.push(SideMetadataSpec::BlockHoles);
        proof {
            crate::util::metadata::lemma_listed_push(specs@, SideMetadataSpec::BlockMark);
        }
        specs.push(SideMetadataSpec::BlockMark);
        proof {
            crate::util::metadata::lemma_listed_push(specs@, SideMetadataSpec::ObjectMark);
        }
        specs.push(SideMetadataSpec::ObjectMark);
        proof {
            crate::util::metadata::lemma_listed_push(specs@, SideMetadataSpec::ForwardingBits);
        }
        specs.push(SideMetadataSpec::ForwardingBits);
        proof {
            crate::util::metadata::lemma_listed_push(specs@, SideMetadataSpec::ForwardingPointer);
        }
        specs.push(SideMetadataSpec::ForwardingPointer);
        if object_pinning {
            proof {
                crate::util::metadata::lemma_listed_push(specs@, SideMetadataSpec::PinningBit);
            }
            specs.push(SideMetadataSpec::PinningBit);
        }
        assert(specs@ =~= local_specs(block_only, object_pinning));
        specs
    }

    /// The side metadata of a new space: the tables that the space owns on
    /// its own account, and those that the plan keeps for all spaces.
    fn new_metadata(start: Address, chunks: usize, modes: ImmixModes, needs_log_bit: bool) -> (meta:
        SideMetadataContext)
        requires
            start.0 > 0,
            start.0 % BYTES_IN_CHUNK == 0,
            chunks > 0,
            start.0 + chunks * BYTES_IN_CHUNK <= usize::MAX,
        ensures
            meta@.wf(),
            meta@.start == start.0,
            meta@.chunks == chunks,
            forall|spec: SideMetadataSpec| meta@.has(spec) == owns_table(spec, modes, needs_log_bit),
            forall|t: int, i: int|
                0 <= t < meta@.tables.len() && 0 <= i < meta@.tables[t].len() ==> meta@.tables[t][i]
                    == 0,
            forall|i: int| 0 <= i < meta@.pointers.len() ==> meta@.pointers[i] == 0,
    {
        let mut specs = Self::side_metadata_specs(modes.block_only, modes.object_pinning);
        if needs_log_bit {
            proof {
                crate::util::metadata::lemma_listed_push(specs@, SideMetadataSpec::LogBit);
            }
            specs.push(SideMetadataSpec::LogBit);
        }
        if modes.vo_bit {
            proof {
                crate::util::metadata::lemma_listed_push(specs@, SideMetadataSpec::VoBit);
            }
            specs.push(SideMetadataSpec::VoBit);
        }
        SideMetadataContext::new(start, chunks, &specs)
    }

    /// A space without any block in use. Where the modes forbid moving,
    /// the space never moves objects, whatever `space_args` says.
    pub fn new(args: PlanCreateSpaceArgs, space_args: ImmixSpaceArgs) -> (space: Self)
        requires
            args.start.0 > 0,
            args.start.0 % BYTES_IN_CHUNK == 0,
            args.extent > 0,
            args.extent % BYTES_IN_CHUNK == 0,
            args.start.0 + args.extent <= usize::MAX,
            space_args.unlog_object_when_traced ==> args.needs_log_bit,
            args.modes.block_only ==> space_args.never_move_objects || args.modes.non_moving,
        ensures
            space@.wf(),
            space@.meta.start == args.start.0,
            space@.meta.chunks == args.extent / BYTES_IN_CHUNK,
            forall|t: int, i: int|
                0 <= t < space@.meta.tables.len() && 0 <= i < space@.meta.tables[t].len()
                    ==> space@.meta.tables[t][i] == 0,
            forall|i: int| 0 <= i < space@.meta.pointers.len() ==> space@.meta.pointers[i] == 0,
            forall|i: int| 0 <= i < space@.chunk_map.allocated.len() ==> !space@.chunk_map.allocated[i],
            space@.pr.cursor == args.start.0,
            space@.pr.free.len() == 0,
            space@.pr.local.len() == 0,
            space@.pr.reserved_pages == 0,
            space@.reusable_blocks.blocks().len() == 0,
            space@.defrag == (DefragView {
                in_defrag: false,
                space_exhausted: false,
                mark_histograms: Seq::empty(),
                spill_threshold: 0,
                available_clean_pages: 0,
            }),
            space@.line_mark_state == RESET_MARK_STATE,
            space@.line_unavail_state == RESET_MARK_STATE,
            space@.lines_consumed == 0,
            space@.sweeps_pending == 0,
            space@.modes == args.modes,
            space@.needs_log_bit == args.needs_log_bit,
            space@.args == (ImmixSpaceArgs {
                never_move_objects: space_args.never_move_objects || args.modes.non_moving,
                ..space_args
            }),
    {
        let mut space_args = space_args;
        if args.modes.non_moving && !space_args.never_move_objects {
            space_args.never_move_objects = true;
        }
        let chunks: usize = args.extent / BYTES_IN_CHUNK;
        let common = CommonSpace::new(args);
        let metadata = Self::new_metadata(args.start, chunks, args.modes, args.needs_log_bit);
        let space = ImmixSpace {
            pr: BlockPageResource::new_contiguous(args.start, args.extent),
            common,
            chunk_map: ChunkMap::new(args.start, chunks),
            line_mark_state: new_u8(RESET_MARK_STATE),
            line_unavail_state: new_u8(RESET_MARK_STATE),
            lines_consumed: new_usize(0),
            reusable_blocks: ReusableBlockPool::new(),
            defrag: Defrag::new(),
            mark_state: MARKED_STATE,
            space_args,
            modes: args.modes,
            metadata,
            sweeps_pending: new_usize(0),
        };
        proof {
            let view = space@;
            assert(view.meta.has(SideMetadataSpec::BlockMark) == owns_table(
                SideMetadataSpec::BlockMark,
                args.modes,
                args.needs_log_bit,
            ));
            assert(view.meta.has(SideMetadataSpec::BlockDefragSource) == owns_table(
                SideMetadataSpec::BlockDefragSource,
                args.modes,
                args.needs_log_bit,
            ));
            assert(view.meta.has(SideMetadataSpec::BlockHoles) == owns_table(
                SideMetadataSpec::BlockHoles,
                args.modes,
                args.needs_log_bit,
            ));
            assert(view.meta.has(SideMetadataSpec::ObjectMark) == owns_table(
                SideMetadataSpec::ObjectMark,
                args.modes,
                args.needs_log_bit,
            ));
            assert(view.meta.has(SideMetadataSpec::ForwardingBits) == owns_table(
                SideMetadataSpec::ForwardingBits,
                args.modes,
                args.needs_log_bit,
            ));
            assert(view.meta.has(SideMetadataSpec::ForwardingPointer) == owns_table(
                SideMetadataSpec::ForwardingPointer,
                args.modes,
                args.needs_log_bit,
            ));
            assert(view.meta.has(SideMetadataSpec::LineMark) == owns_table(
                SideMetadataSpec::LineMark,
                args.modes,
                args.needs_log_bit,
            ));
            assert(view.meta.has(SideMetadataSpec::PinningBit) == owns_table(
                SideMetadataSpec::PinningBit,
                args.modes,
                args.needs_log_bit,
            ));
            assert(view.meta.has(SideMetadataSpec::LogBit) == owns_table(
                SideMetadataSpec::LogBit,
                args.modes,
                args.needs_log_bit,
            ));
            assert(view.meta.has(SideMetadataSpec::VoBit) == owns_table(
                SideMetadataSpec::VoBit,
                args.modes,
                args.needs_log_bit,
            ));
            assert(view.meta.end() == args.start.0 + args.extent);
            crate::policy::immix::block::lemma_zero_block_is_unallocated();
            assert forall|b: int|
                view.meta.contains(b) && b % 32768 == 0 && b >= view.pr.cursor implies #[trigger] block_state(
                view.meta,
                b,
            ) == BlockState::Unallocated by {
                crate::util::metadata::lemma_index_in_table(view.meta, SideMetadataSpec::BlockMark, b);
            }
        }
        space
    }

    /// The name of the space.
    pub fn name(&self) -> (name: &'static str)
        ensures
            name == self.common.name,
    {
        self.common.get_name()
    }

    /// Whether the space is in order as far as it can tell itself.
    pub fn is_sane(&self) -> (r: bool)
        ensures
            r,
    {
        true
    }

    /// Adds the blocks of the space that may hold objects to
    /// `enumerator`: those in use, in address order.
    pub fn enumerate_objects(&self, enumerator: &mut Vec<Block>)
        requires
            self@.wf(),
        ensures
            final(enumerator)@ == old(enumerator)@ + blocks_in_use(
                self@.meta,
                self@.meta.chunks * 128,
            ),
    {
        let chunks = self.metadata.chunks();
        let start = self.metadata.start().0;
        let mut b: usize = 0;
        proof {
            assert(enumerator@ =~= old(enumerator)@ + blocks_in_use(self@.meta, 0));
        }
        while b < chunks * 128
            invariant
                self@.wf(),
                chunks == self@.meta.chunks,
                start == self@.meta.start,
                b <= chunks * 128,
                enumerator@ == old(enumerator)@ + blocks_in_use(self@.meta, b as int),
            decreases chunks * 128 - b,
        {
            let block = Block(start + b * 32768);
            let ghost before = enumerator@;
            if block.get_state(&self.metadata) != BlockState::Unallocated {
                enumerator.push(block);
                proof {
                    assert(enumerator@ =~= old(enumerator)@ + blocks_in_use(
                        self@.meta,
                        b as int,
                    ).push(block));
                }
            }
            b += 1;
        }
    }

    /// Whether objects of the space can move.
    pub fn is_movable(&self) -> (r: bool)
        ensures
            r == !self@.args.never_move_objects,
    {
        !self.space_args.never_move_objects
    }

    /// Whether `object` is a reference into the space.
    pub fn in_space(&self, object: ObjectReference) -> (r: bool)
        requires
            self@.wf(),
        ensures
            r == self@.in_space(object),
    {
        object.0 != 0 && object.0 % 8 == 0 && self.metadata.contains(Address(object.0))
    }

    /// The number of pages kept free as headroom for evacuation.
    pub fn defrag_headroom_pages(&self) -> (pages: usize)
        ensures
            pages == self@.pr.reserved_pages * DEFRAG_HEADROOM_PERCENT / 100,
    {
        self.defrag.defrag_headroom_pages(self.pr.reserved_pages())
    }

    /// Whether the current collection defragments.
    pub fn in_defrag(&self) -> (r: bool)
        ensures
            r == self@.defrag.in_defrag,
    {
        self.defrag.in_defrag()
    }

    /// Decides whether the collection that is about to start defragments,
    /// records the decision and returns it.
    pub fn decide_whether_to_defrag(
        &mut self,
        emergency_collection: bool,
        collect_whole_heap: bool,
        collection_attempts: usize,
        user_triggered_collection: bool,
        full_heap_system_gc: bool,
    ) -> (r: bool)
        requires
            old(self)@.wf(),
        ensures
            final(self)@.wf(),
            r == defrag_decision(
                old(self)@.is_defrag_enabled(),
                emergency_collection,
                collect_whole_heap,
                collection_attempts,
                user_triggered_collection,
                old(self)@.reusable_blocks.blocks().len() == 0,
                full_heap_system_gc,
            ),
            final(self)@ == (ImmixSpaceView {
                defrag: DefragView { in_defrag: r, ..old(self)@.defrag },
                ..old(self)@
            }),
    {
        let enabled = self.is_defrag_enabled();
        let exhausted = self.reusable_blocks.len() == 0;
        self.defrag.decide_whether_to_defrag(
            enabled,
            emergency_collection,
            collect_whole_heap,
            collection_attempts,
            user_triggered_collection,
            exhausted,
            full_heap_system_gc,
        );
        self.defrag.in_defrag()
    }

    /// Ends a collection as far as defragmentation goes. Returns whether
    /// the collection defragmented.
    pub fn end_of_gc(&mut self) -> (did_defrag: bool)
        requires
            old(self)@.wf(),
        ensures
            final(self)@.wf(),
            did_defrag == old(self)@.defrag.in_defrag,
            final(self)@ == (ImmixSpaceView {
                defrag: DefragView {
                    in_defrag: old(self)@.defrag.in_defrag && !old(self)@.is_defrag_enabled(),
                    ..old(self)@.defrag
                },
                ..old(self)@
            }),
    {
        let did_defrag = self.defrag.in_defrag();
        if self.is_defrag_enabled() {
            self.defrag.reset_in_defrag();
        }
        did_defrag
    }

    /// Whether the last collection looked at the whole space: with
    /// defragmentation enabled only a defragmenting collection does.
    pub fn is_last_gc_exhaustive(&self, did_defrag_for_last_gc: bool) -> (r: bool)
        ensures
            r == (if self@.is_defrag_enabled() {
                did_defrag_for_last_gc
            } else {
                true
            }),
    {
        if self.is_defrag_enabled() {
            did_defrag_for_last_gc
        } else {
            true
        }
    }

    /// The number of pages taken for allocation since the last
    /// collection.
    pub fn get_pages_allocated(&self) -> (pages: usize)
        ensures
            pages == self@.lines_consumed >> 4,
            pages == self@.lines_consumed / 16,
    {
        let lines: usize = load_usize(&self.lines_consumed);
        assert(lines >> 4 == lines / 16) by (bit_vector);
        lines >> 4
    }

    /// Whether a nursery collection should copy.
    pub fn prefer_copy_on_nursery_gc(&self) -> (r: bool)
        ensures
            r == (!self@.args.never_move_objects && !self@.modes.sticky_non_moving_nursery),
    {
        self.is_nursery_copy_enabled()
    }

    /// Whether a nursery collection may copy.
    pub fn is_nursery_copy_enabled(&self) -> (r: bool)
        ensures
            r == (!self@.args.never_move_objects && !self@.modes.sticky_non_moving_nursery),
    {
        !self.space_args.never_move_objects && !self.modes.sticky_non_moving_nursery
    }

    /// Whether the space may evacuate blocks.
    pub fn is_defrag_enabled(&self) -> (r: bool)
        ensures
            r == self@.is_defrag_enabled(),
    {
        !self.space_args.never_move_objects
    }

    /// Whether the mark byte of `object` is `mark_state`.
    pub fn is_marked_with(&self, object: ObjectReference, mark_state: u8) -> (r: bool)
        requires
            self@.wf(),
            self@.in_space(object),
        ensures
            r == self@.is_marked_with(object, mark_state),
    {
        let old_value = self.metadata.load(SideMetadataSpec::ObjectMark, Address(object.0));
        old_value == mark_state
    }

    /// Whether `object` was reached in this collection.
    pub fn is_marked(&self, object: ObjectReference) -> (r: bool)
        requires
            self@.wf(),
            self@.in_space(object),
        ensures
            r == self@.is_marked(object),
    {
        self.is_marked_with(object, self.mark_state)
    }

    /// Whether `object` is pinned.
    pub fn is_pinned(&self, object: ObjectReference) -> (r: bool)
        requires
            self@.wf(),
            self@.in_space(object),
        ensures
            r == self@.is_pinned(object),
    {
        if self.modes.object_pinning {
            self.is_object_pinned(object)
        } else {
            false
        }
    }

    /// Pins `object`. Returns whether it was not pinned before.
    pub fn pin_object(&mut self, object: ObjectReference) -> (r: bool)
        requires
            old(self)@.wf(),
            old(self)@.in_space(object),
            old(self)@.modes.object_pinning,
        ensures
            final(self)@.wf(),
            r == !old(self)@.is_pinned(object),
            final(self)@ == old(self)@.with_meta(
                old(self)@.meta.store(SideMetadataSpec::PinningBit, object.0 as int, 1),
            ),
            final(self)@.is_pinned(object),
    {
        let was = self.metadata.load(SideMetadataSpec::PinningBit, Address(object.0));
        self.metadata.store(SideMetadataSpec::PinningBit, Address(object.0), 1);
        proof {
            crate::util::metadata::lemma_index_in_table(
                old(self)@.meta,
                SideMetadataSpec::PinningBit,
                object.0 as int,
            );
            lemma_store_keeps_blocks(
                old(self)@,
                SideMetadataSpec::PinningBit,
                object.0 as int,
                1,
            );
        }
        was == 0
    }

    /// Unpins `object`. Returns whether it was pinned before.
    pub fn unpin_object(&mut self, object: ObjectReference) -> (r: bool)
        requires
            old(self)@.wf(),
            old(self)@.in_space(object),
            old(self)@.modes.object_pinning,
        ensures
            final(self)@.wf(),
            r == old(self)@.is_pinned(object),
            final(self)@ == old(self)@.with_meta(
                old(self)@.meta.store(SideMetadataSpec::PinningBit, object.0 as int, 0),
            ),
            !final(self)@.is_pinned(object),
    {
        let was = self.metadata.load(SideMetadataSpec::PinningBit, Address(object.0));
        self.metadata.store(SideMetadataSpec::PinningBit, Address(object.0), 0);
        proof {
            crate::util::metadata::lemma_index_in_table(
                old(self)@.meta,
                SideMetadataSpec::PinningBit,
                object.0 as int,
            );
            lemma_store_keeps_blocks(
                old(self)@,
                SideMetadataSpec::PinningBit,
                object.0 as int,
                0,
            );
        }
        was != 0
    }

    /// Whether the pinning byte of `object` is set.
    pub fn is_object_pinned(&self, object: ObjectReference) -> (r: bool)
        requires
            self@.wf(),
            self@.in_space(object),
            self@.modes.object_pinning,
        ensures
            r == self@.is_pinned(object),
    {
        self.metadata.load(SideMetadataSpec::PinningBit, Address(object.0)) != 0
    }
}

impl ImmixSpace {
    /// Marks `object` with `mark_state` unless it is marked so already.
    /// Returns whether the mark was written.
    pub fn attempt_mark(&mut self, object: ObjectReference, mark_state: u8) -> (marked: bool)
        requires
            old(self)@.wf(),
            old(self)@.in_space(object),
        ensures
            final(self)@.wf(),
            marked == !old(self)@.is_marked_with(object, mark_state),
            final(self)@ == old(self)@.with_meta(
                old(self)@.meta.store(SideMetadataSpec::ObjectMark, object.0 as int, mark_state),
            ),
            !marked ==> final(self)@ == old(self)@,
            final(self)@.is_marked_with(object, mark_state),
    {
        proof {
            lemma_store_keeps_blocks(
                old(self)@,
                SideMetadataSpec::ObjectMark,
                object.0 as int,
                mark_state,
            );
            lemma_store_same_shape(
                old(self)@.meta,
                SideMetadataSpec::ObjectMark,
                object.0 as int,
                mark_state,
            );
            crate::util::metadata::lemma_index_in_table(
                old(self)@.meta,
                SideMetadataSpec::ObjectMark,
                object.0 as int,
            );
        }
        let old_value = self.metadata.load(SideMetadataSpec::ObjectMark, Address(object.0));
        if old_value == mark_state {
            proof {
                let stored = old(self)@.meta.store(
                    SideMetadataSpec::ObjectMark,
                    object.0 as int,
                    mark_state,
                );
                assert(stored.tables[SideMetadataSpec::ObjectMark.spec_ordinal()]
                    =~= old(self)@.meta.tables[SideMetadataSpec::ObjectMark.spec_ordinal()]);
                assert(stored.tables =~= old(self)@.meta.tables);
            }
            return false;
        }
        let swapped = self.metadata.compare_exchange(
            SideMetadataSpec::ObjectMark,
            Address(object.0),
            old_value,
            mark_state,
        );
        swapped.is_ok()
    }

    /// Marks all the lines that `object` spans as live in this
    /// collection.
    pub fn mark_lines(&mut self, object: ObjectReference, vm: &ObjectModel)
        requires
            old(self)@.wf(),
            !old(self)@.modes.block_only,
            old(self)@.holds_object(vm@, object),
        ensures
            final(self)@.wf(),
            final(self)@ == old(self)@.with_meta(
                old(self)@.lines_marked(old(self)@.meta, object, vm@[object.0].size as int),
            ),
    {
        let size = vm.get_current_size(object);
        let state = load_u8(&self.line_mark_state);
        Line::mark_lines_for_object(&mut self.metadata, object, size, state);
        proof {
            lemma_fill_lines_keeps_blocks(
                old(self)@,
                span_start(object.0 as int),
                span_bytes(object.0 as int, size as int),
                state,
            );
        }
    }

    /// Records `object` as unlogged if the space does so for traced
    /// objects.
    pub fn unlog_object_if_needed(&mut self, object: ObjectReference)
        requires
            old(self)@.wf(),
            old(self)@.in_space(object),
        ensures
            final(self)@.wf(),
            final(self)@ == old(self)@.with_meta(
                if old(self)@.args.unlog_object_when_traced {
                    old(self)@.meta.store(SideMetadataSpec::LogBit, object.0 as int, 1)
                } else {
                    old(self)@.meta
                },
            ),
    {
        if self.space_args.unlog_object_when_traced {
            proof {
                lemma_store_keeps_blocks(old(self)@, SideMetadataSpec::LogBit, object.0 as int, 1);
            }
            self.metadata.store(SideMetadataSpec::LogBit, Address(object.0), 1);
        }
    }

    /// Records that a valid object starts at the address of `object`, if
    /// the space keeps such records.
    pub fn initialize_object_metadata(&mut self, object: ObjectReference, alloc: bool)
        requires
            old(self)@.wf(),
            old(self)@.in_space(object),
        ensures
            final(self)@.wf(),
            final(self)@ == old(self)@.with_meta(
                if old(self)@.modes.vo_bit {
                    old(self)@.meta.store(SideMetadataSpec::VoBit, object.0 as int, 1)
                } else {
                    old(self)@.meta
                },
            ),
    {
        if self.modes.vo_bit {
            proof {
                lemma_store_keeps_blocks(old(self)@, SideMetadataSpec::VoBit, object.0 as int, 1);
            }
            self.metadata.store(SideMetadataSpec::VoBit, Address(object.0), 1);
        }
    }

    /// Writes the state of a block that is in use.
    pub(crate) fn set_block_state(&mut self, block: Block, state: BlockState)
        requires
            old(self)@.wf(),
            block.in_space(old(self)@.meta),
            block_state(old(self)@.meta, block.0 as int) != BlockState::Unallocated,
            state.wf(),
            state != BlockState::Unallocated,
        ensures
            final(self)@.wf(),
            final(self)@ == old(self)@.with_meta(
                old(self)@.meta.store(
                    SideMetadataSpec::BlockMark,
                    block.0 as int,
                    state.spec_to_byte(),
                ),
            ),
            block_state(final(self)@.meta, block.0 as int) == state,
    {
        block.set_state(&mut self.metadata, state);
        proof {
            lemma_set_state_wf(old(self)@, block, state);
        }
    }

    /// Traces `object` without moving it: on the first visit in this
    /// collection the object is marked and enqueued; later visits change
    /// nothing. Returns `object`.
    pub fn trace_object_without_moving<Q: ObjectQueue>(
        &mut self,
        queue: &mut Q,
        object: ObjectReference,
        vm: &ObjectModel,
    ) -> (r: ObjectReference)
        requires
            old(self)@.wf(),
            old(self)@.holds_object(vm@, object),
        ensures
            r == object,
            final(self)@.wf(),
            old(self)@.is_marked(object) ==> final(self)@ == old(self)@ && final(queue).nodes() == old(queue).nodes(),
            !old(self)@.is_marked(object) ==> final(self)@ == old(self)@.with_meta(
                old(self)@.marked_in_place(object, vm@[object.0].size as int),
            ) && final(queue).nodes() == old(queue).nodes().push(object),
            final(self)@.is_marked(object),
    {
        let mark_state = self.mark_state;
        if self.attempt_mark(object, mark_state) {
            if !self.modes.block_only {
                if !self.modes.mark_line_at_scan_time {
                    self.mark_lines(object, vm);
                }
            } else {
                self.set_block_state(Block::containing(object), BlockState::Marked);
            }
            if self.modes.vo_bit {
                proof {
                    lemma_store_keeps_blocks(self@, SideMetadataSpec::VoBit, object.0 as int, 1);
                }
                self.metadata.store(SideMetadataSpec::VoBit, Address(object.0), 1);
            }
            queue.enqueue(object);
            self.unlog_object_if_needed(object);
            proof {
                lemma_marked_in_place_keeps_mark(old(self)@, object, vm@[object.0].size as int);
            }
            return object;
        }
        object
    }

    /// Marks the lines of `object` if that was put off until the object is
    /// scanned.
    pub fn post_scan_object(&mut self, object: ObjectReference, vm: &ObjectModel)
        requires
            old(self)@.wf(),
            old(self)@.holds_object(vm@, object),
        ensures
            final(self)@.wf(),
            final(self)@ == old(self)@.with_meta(
                if old(self)@.modes.mark_line_at_scan_time && !old(self)@.modes.block_only {
                    old(self)@.lines_marked(old(self)@.meta, object, vm@[object.0].size as int)
                } else {
                    old(self)@.meta
                },
            ),
    {
        if self.modes.mark_line_at_scan_time && !self.modes.block_only {
            self.mark_lines(object, vm);
        }
    }

    /// Whether a trace of kind `kind` may move objects: only the
    /// defragmenting trace does.
    pub fn may_move_objects(kind: TraceKind) -> (r: bool)
        requires
            kind == TRACE_KIND_FAST || kind == TRACE_KIND_DEFRAG || kind == TRACE_KIND_TRANSITIVE_PIN,
        ensures
            r == (kind == TRACE_KIND_DEFRAG),
    {
        kind == TRACE_KIND_DEFRAG
    }

    /// The copy of `object`, if the space moves objects and `object` was
    /// forwarded.
    pub fn get_forwarded_object(&self, object: ObjectReference) -> (r: Option<ObjectReference>)
        requires
            self@.wf(),
            self@.in_space(object),
        ensures
            r == (if !self@.args.never_move_objects && crate::util::object_forwarding::forwarding_status(
                self@.meta,
                object.0 as int,
            ) == crate::util::object_forwarding::FORWARDED {
                Some(ObjectReference(self@.meta.load_pointer(object.0 as int)))
            } else {
                None
            }),
    {
        if !self.is_movable() {
            return None;
        }
        if crate::util::object_forwarding::is_forwarded(&self.metadata, object) {
            Some(crate::util::object_forwarding::read_forwarding_pointer(&self.metadata, object))
        } else {
            None
        }
    }

    /// Whether `object` survives this collection as far as is known: it
    /// is marked, or the space moves objects and it was forwarded.
    pub fn is_live(&self, object: ObjectReference) -> (r: bool)
        requires
            self@.wf(),
            self@.in_space(object),
        ensures
            r == (self@.is_marked(object) || (!self@.args.never_move_objects
                && crate::util::object_forwarding::forwarding_status(self@.meta, object.0 as int)
                == crate::util::object_forwarding::FORWARDED)),
    {
        if self.is_marked(object) {
            return true;
        }
        if !self.is_movable() {
            return false;
        }
        crate::util::object_forwarding::is_forwarded(&self.metadata, object)
    }
}

/// An object that was marked in place is marked.
pub proof fn lemma_marked_in_place_keeps_mark(view: ImmixSpaceView, object: ObjectReference, size: int)
    requires
        view.wf(),
        view.in_space(object),
    ensures
        view.with_meta(view.marked_in_place(object, size)).is_marked(object),
{
    crate::util::metadata::lemma_index_in_table(
        view.meta,
        SideMetadataSpec::ObjectMark,
        object.0 as int,
    );
}

} // verus!
