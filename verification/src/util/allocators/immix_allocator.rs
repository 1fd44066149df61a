//! The allocator that fills the holes and the fresh blocks of an Immix
//! space by bumping a cursor.

use crate::policy::immix::block::block_state;
use crate::policy::immix::block::Block;
use crate::policy::immix::block::BlockState;
use crate::policy::immix::block::BYTES_IN_BLOCK;
use crate::policy::immix::immixspace::block_of;
use crate::policy::immix::copy_context::copy_target_ready;
use crate::policy::immix::immixspace::same_shape;
use crate::policy::immix::immixspace::ImmixSpace;
use crate::policy::immix::immixspace::ImmixSpaceView;
use crate::policy::immix::line::Line;
use crate::policy::immix::line::BYTES_IN_LINE;
use crate::policy::immix::MAX_IMMIX_OBJECT_SIZE;
use crate::util::address::Address;
use crate::util::metadata::SideMetadataSpec;
use crate::util::opaque_pointer::VMThread;
use vstd::prelude::*;

verus! {

/// What an allocation may change in a space: blocks are taken into use,
/// and nothing is changed that describes lines or objects. A block that
/// was in use stays in use, and a marked block stays marked.
#[verifier::opaque]
pub open spec fn allocation_frame(before: ImmixSpaceView, after: ImmixSpaceView) -> bool {
    &&& same_shape(before.meta, after.meta)
    &&& after.meta.pointers == before.meta.pointers
    &&& forall|spec: SideMetadataSpec|
        spec != SideMetadataSpec::BlockMark && spec != SideMetadataSpec::BlockHoles && spec
            != SideMetadataSpec::BlockDefragSource ==> after.meta.tables[#[trigger] spec.spec_ordinal()]
            == before.meta.tables[spec.spec_ordinal()]
    &&& forall|b: int|
        before.meta.contains(b) && b % 32768 == 0 && block_state(before.meta, b)
            != BlockState::Unallocated ==> #[trigger] block_state(after.meta, b)
            != BlockState::Unallocated
    &&& forall|b: int|
        before.meta.contains(b) && b % 32768 == 0 && block_state(before.meta, b)
            == BlockState::Marked ==> #[trigger] block_state(after.meta, b) == BlockState::Marked
    &&& after.args == before.args
    &&& after.modes == before.modes
    &&& after.needs_log_bit == before.needs_log_bit
    &&& after.mark_state == before.mark_state
    &&& after.line_mark_state == before.line_mark_state
    &&& after.line_unavail_state == before.line_unavail_state
    &&& after.sweeps_pending == before.sweeps_pending
    &&& after.defrag.in_defrag == before.defrag.in_defrag
    &&& after.defrag.mark_histograms == before.defrag.mark_histograms
    &&& after.defrag.spill_threshold == before.defrag.spill_threshold
    &&& after.reusable_blocks.local == before.reusable_blocks.local
}

/// An allocation frame that follows another is one.
pub proof fn lemma_allocation_frame_transitive(a: ImmixSpaceView, b: ImmixSpaceView, c: ImmixSpaceView)
    requires
        allocation_frame(a, b),
        allocation_frame(b, c),
    ensures
        allocation_frame(a, c),
{
    reveal(allocation_frame);
    assert forall|x: int|
        a.meta.contains(x) && x % 32768 == 0 && block_state(a.meta, x)
            != BlockState::Unallocated implies #[trigger] block_state(c.meta, x)
        != BlockState::Unallocated by {
        assert(block_state(b.meta, x) != BlockState::Unallocated);
    }
    assert forall|x: int|
        a.meta.contains(x) && x % 32768 == 0 && block_state(a.meta, x)
            == BlockState::Marked implies #[trigger] block_state(c.meta, x) == BlockState::Marked by {
        assert(block_state(b.meta, x) == BlockState::Marked);
    }
    assert forall|t: int| 0 <= t < a.meta.tables.len() implies (#[trigger] a.meta.tables[t]).len()
        == c.meta.tables[t].len() by {
        assert(b.meta.tables[t].len() == a.meta.tables[t].len());
    }
}

/// An allocator that fits a space still fits it after an allocation.
pub proof fn lemma_allocator_keeps_fitting(
    allocator: ImmixAllocator,
    before: ImmixSpaceView,
    after: ImmixSpaceView,
)
    requires
        before.meta.wf(),
        allocator.wf(before),
        allocation_frame(before, after),
    ensures
        allocator.wf(after),
{
    reveal(allocation_frame);
    if allocator.cursor < allocator.limit {
        let b = block_of(allocator.cursor as int);
        crate::policy::immix::immixspace::lemma_block_of_in_space(
            before.meta,
            allocator.cursor as int,
        );
        if allocator.copy {
            assert(block_state(after.meta, b) == BlockState::Marked);
        } else {
            assert(block_state(after.meta, b) != BlockState::Unallocated);
        }
    }
    match allocator.line {
        Some(line) => {
            let b = block_of(line.0 as int);
            crate::policy::immix::immixspace::lemma_block_of_in_space(before.meta, line.0 as int);
            if allocator.copy {
                assert(block_state(after.meta, b) == BlockState::Marked);
            } else {
                assert(block_state(after.meta, b) != BlockState::Unallocated);
            }
        },
        None => {},
    }
}

/// What an allocation leaves as it is.
pub proof fn lemma_allocation_frame_keeps(before: ImmixSpaceView, after: ImmixSpaceView)
    requires
        allocation_frame(before, after),
    ensures
        after.modes == before.modes,
        after.args == before.args,
        after.mark_state == before.mark_state,
        after.line_mark_state == before.line_mark_state,
        after.line_unavail_state == before.line_unavail_state,
        after.meta.start == before.meta.start,
        after.meta.chunks == before.meta.chunks,
        after.meta.pointers == before.meta.pointers,
        after.defrag.in_defrag == before.defrag.in_defrag,
        after.needs_log_bit == before.needs_log_bit,
        after.sweeps_pending == before.sweeps_pending,
        after.defrag.mark_histograms == before.defrag.mark_histograms,
        after.defrag.spill_threshold == before.defrag.spill_threshold,
        after.reusable_blocks.local == before.reusable_blocks.local,
        forall|spec: SideMetadataSpec, addr: int|
            spec != SideMetadataSpec::BlockMark && spec != SideMetadataSpec::BlockHoles && spec
                != SideMetadataSpec::BlockDefragSource ==> #[trigger] after.meta.load(spec, addr)
                == before.meta.load(spec, addr),
        forall|b: int|
            before.meta.contains(b) && b % 32768 == 0 && block_state(before.meta, b)
                != BlockState::Unallocated ==> #[trigger] block_state(after.meta, b)
                != BlockState::Unallocated,
        forall|b: int|
            before.meta.contains(b) && b % 32768 == 0 && block_state(before.meta, b)
                == BlockState::Marked ==> #[trigger] block_state(after.meta, b) == BlockState::Marked,
{
    reveal(allocation_frame);
}

/// Finds the place for `bytes` bytes, aligned to `align`, in the memory
/// from `cursor` up to `limit`. Returns the address at which they start,
/// or `None` when they do not fit.
#[verifier::rlimit(30)]
fn fit(cursor: usize, limit: usize, bytes: usize, align: usize) -> (r: Option<usize>)
    requires
        cursor < limit,
        cursor % 8 == 0,
        bytes % 8 == 0,
        bytes > 0,
        align == 8 || align == 16,
    ensures
        match r {
            Some(start) => {
                &&& cursor <= start
                &&& start + bytes <= limit
                &&& start % 8 == 0
                &&& (align == 16 ==> start % 16 == 0)
            },
            None => true,
        },
        cursor % 16 == 0 && cursor + bytes <= limit ==> r.is_some(),
{
    let pad: usize = if align == 16 && cursor % 16 != 0 {
        8
    } else {
        0
    };
    if pad <= limit - cursor && bytes <= limit - cursor - pad {
        let start: usize = cursor + pad;
        assert(cursor % 8 == 0 && cursor % 16 != 0 && start == cursor + 8 ==> start % 16 == 0) by {
            if cursor % 8 == 0 && cursor % 16 != 0 {
                let q = cursor as int / 16;
                assert(cursor as int == 16 * q + 8);
            }
        }
        assert(start % 8 == 0);
        Some(start)
    } else {
        None
    }
}

/// An allocator for an Immix space.
pub struct ImmixAllocator {
    /// The thread that the allocator works for.
    pub tls: VMThread,
    /// The address of the next allocation.
    pub cursor: usize,
    /// The end of the memory that the allocator holds.
    pub limit: usize,
    /// Whether the allocator takes copies made by the collector.
    pub copy: bool,
    /// The line from which the search for the next hole goes on, if the
    /// allocator is working through a reusable block.
    pub line: Option<Line>,
}

impl ImmixAllocator {
    /// The allocator fits the space: the memory that it holds, if any,
    /// lies in one block of the space that is in use, and marked if the
    /// allocator takes copies.
    pub open spec fn wf(&self, space: ImmixSpaceView) -> bool {
        &&& self.cursor <= self.limit
        &&& (self.cursor < self.limit ==> {
            &&& space.meta.contains(self.cursor as int)
            &&& self.limit <= block_of(self.cursor as int) + BYTES_IN_BLOCK
            &&& self.cursor % 8 == 0
            &&& if self.copy {
                block_state(space.meta, block_of(self.cursor as int)) == BlockState::Marked
            } else {
                block_state(space.meta, block_of(self.cursor as int)) != BlockState::Unallocated
            }
        })
        &&& match self.line {
            Some(line) => {
                &&& line.wf()
                &&& space.meta.contains(line.0 as int)
                &&& if self.copy {
                    block_state(space.meta, block_of(line.0 as int)) == BlockState::Marked
                } else {
                    block_state(space.meta, block_of(line.0 as int)) != BlockState::Unallocated
                }
            },
            None => true,
        }
    }

    /// An allocator that holds no memory yet.
    pub fn new(tls: VMThread, copy: bool) -> (a: Self)
        ensures
            a.tls == tls,
            a.cursor == 0,
            a.limit == 0,
            a.copy == copy,
            a.line.is_none(),
    {
        ImmixAllocator { tls, cursor: 0, limit: 0, copy, line: None }
    }

    /// Whether the allocator fits the space.
    pub fn fits(&self, space: &ImmixSpace) -> (r: bool)
        requires
            space@.wf(),
        ensures
            r == self.wf(space@),
    {
        if self.cursor > self.limit {
            return false;
        }
        if self.cursor < self.limit {
            if !space.metadata.contains(Address(self.cursor)) {
                return false;
            }
            proof {
                crate::policy::immix::immixspace::lemma_block_of_in_space(
                    space@.meta,
                    self.cursor as int,
                );
            }
            let block = Block::from_unaligned_address(Address(self.cursor));
            if self.limit - block.0 > BYTES_IN_BLOCK || self.cursor % 8 != 0 {
                return false;
            }
            let state = block.get_state(&space.metadata);
            if self.copy {
                if state != BlockState::Marked {
                    return false;
                }
            } else if state == BlockState::Unallocated {
                return false;
            }
        }
        match self.line {
            Some(line) => {
                if line.0 % 256 != 0 || !space.metadata.contains(Address(line.0)) {
                    return false;
                }
                proof {
                    crate::policy::immix::immixspace::lemma_block_of_in_space(
                        space@.meta,
                        line.0 as int,
                    );
                }
                let state = line.block().get_state(&space.metadata);
                if self.copy {
                    state == BlockState::Marked
                } else {
                    state != BlockState::Unallocated
                }
            },
            None => true,
        }
    }

    /// Gives up the memory that the allocator holds.
    pub fn reset(&mut self)
        ensures
            final(self).tls == old(self).tls,
            final(self).copy == old(self).copy,
            final(self).cursor == 0,
            final(self).limit == 0,
            final(self).line.is_none(),
    {
        self.cursor = 0;
        self.limit = 0;
        self.line = None;
    }

    /// Takes the next hole of a reusable block as the memory of the
    /// allocator. Returns whether there was one.
    #[verifier::rlimit(60)]
    fn acquire_recyclable_lines(&mut self, space: &mut ImmixSpace) -> (found: bool)
        requires
            old(space)@.wf(),
            !old(space)@.modes.block_only,
            old(self).wf(old(space)@),
        ensures
            final(space)@.wf(),
            final(self).wf(final(space)@),
            final(self).copy == old(self).copy,
            final(self).tls == old(self).tls,
            allocation_frame(old(space)@, final(space)@),
            final(space)@.pr == old(space)@.pr,
            found ==> final(self).cursor % 256 == 0 && final(self).cursor + 256 <= final(self).limit,
            !found ==> final(self).cursor == old(self).cursor && final(self).limit == old(self).limit,
    {
        proof {
            crate::policy::immix::blocks::lemma_frame_reflexive(space@);
        }
        loop
            invariant
                space@.wf(),
                !space@.modes.block_only,
                self.wf(space@),
                self.copy == old(self).copy,
                self.tls == old(self).tls,
                self.cursor == old(self).cursor,
                self.limit == old(self).limit,
                allocation_frame(old(space)@, space@),
                space@.pr == old(space)@.pr,
            decreases
                    space@.reusable_blocks.global.len(),
                    (if self.line.is_some() {
                        1int
                    } else {
                        0int
                    }),
        {
            match self.line {
                Some(line) => {
                    proof {
                        crate::policy::immix::immixspace::lemma_block_of_in_space(
                            space@.meta,
                            line.0 as int,
                        );
                    }
                    match space.get_next_available_lines(line) {
                        Some((start, end)) => {
                            let block_end: usize = line.block().0 + BYTES_IN_BLOCK;
                            self.cursor = start.0;
                            self.limit = end.0;
                            proof {
                                assert(block_of(start.0 as int) == block_of(line.0 as int));
                                if end.0 != block_end {
                                    assert(block_of(end.0 as int) == block_of(line.0 as int));
                                }
                            }
                            self.line = if end.0 == block_end {
                                None
                            } else {
                                Some(end)
                            };
                            return true;
                        },
                        None => {
                            self.line = None;
                        },
                    }
                },
                None => {
                    if !space.reusable_block_ready(self.copy) {
                        return false;
                    }
                    let ghost before = space@;
                    let taken = space.get_reusable_block(self.copy);
                    proof {
                        lemma_allocator_keeps_fitting(*self, before, space@);
                        lemma_allocation_frame_transitive(old(space)@, before, space@);
                        lemma_allocation_frame_keeps(before, space@);
                    }
                    match taken {
                        Some(block) => {
                            self.line = Some(block.start_line());
                        },
                        None => {
                            return false;
                        },
                    }
                },
            }
        }
    }

    /// Takes a fresh block as the memory of the allocator. Returns
    /// whether there was one.
    fn acquire_clean_block(&mut self, space: &mut ImmixSpace) -> (found: bool)
        requires
            old(space)@.wf(),
            old(self).wf(old(space)@),
        ensures
            final(space)@.wf(),
            final(self).wf(final(space)@),
            final(self).copy == old(self).copy,
            final(self).tls == old(self).tls,
            allocation_frame(old(space)@, final(space)@),
            found == old(space)@.pr.can_acquire(),
            final(space)@.pr == old(space)@.pr.after_acquire(),
            found ==> final(self).cursor % 32768 == 0 && final(self).cursor + 32768
                == final(self).limit,
            !found ==> final(self).cursor == old(self).cursor && final(self).limit == old(self).limit,
    {
        let ghost before = space@;
        let taken = space.get_clean_block(self.tls, self.copy);
        proof {
            lemma_allocator_keeps_fitting(*self, before, space@);
            lemma_allocation_frame_keeps(before, space@);
        }
        match taken {
            Some(block) => {
                self.cursor = block.0;
                self.limit = block.0 + BYTES_IN_BLOCK;
                self.line = None;
                true
            },
            None => false,
        }
    }

    /// Allocates `bytes` bytes from the memory that the allocator holds,
    /// if they fit.
    fn bump(&mut self, bytes: usize, align: usize, space: Ghost<ImmixSpaceView>) -> (r: Option<usize>)
        requires
            space@.meta.wf(),
            old(self).wf(space@),
            0 < bytes <= MAX_IMMIX_OBJECT_SIZE,
            bytes % 8 == 0,
            align == 8 || align == 16,
        ensures
            final(self).wf(space@),
            final(self).copy == old(self).copy,
            final(self).tls == old(self).tls,
            r.is_none() ==> *final(self) == *old(self),
            old(self).cursor < old(self).limit && old(self).cursor % 256 == 0 && old(self).cursor
                + 256 <= old(self).limit && bytes <= 256 ==> r.is_some(),
            old(self).cursor < old(self).limit && old(self).cursor % 32768 == 0 && old(self).cursor
                + 32768 <= old(self).limit ==> r.is_some(),
            match r {
                Some(start) => copy_target_ready(space@, start as int, bytes as int, old(self).copy),
                None => true,
            },
            r.is_some() && align == 16 ==> r.unwrap() % 16 == 0,
    {
        if self.cursor >= self.limit {
            return None;
        }
        match fit(self.cursor, self.limit, bytes, align) {
            Some(start) => {
                proof {
                    crate::policy::immix::immixspace::lemma_block_of_in_space(
                        space@.meta,
                        self.cursor as int,
                    );
                    crate::policy::immix::immixspace::lemma_same_block(
                        self.cursor as int,
                        start as int,
                    );
                    if start + bytes < self.limit {
                        crate::policy::immix::immixspace::lemma_same_block(
                            self.cursor as int,
                            start + bytes,
                        );
                    }
                }
                self.cursor = start + bytes;
                Some(start)
            },
            None => None,
        }
    }

    /// Allocates `bytes` bytes, aligned to `align`. Returns the address of
    /// the memory, or the zero address when the space has no memory left.
    pub fn allocate(&mut self, space: &mut ImmixSpace, bytes: usize, align: usize, offset: usize) -> (r:
        Address)
        requires
            old(space)@.wf(),
            !old(space)@.modes.block_only,
            old(self).wf(old(space)@),
            0 < bytes <= MAX_IMMIX_OBJECT_SIZE,
            bytes % 8 == 0,
            align == 8 || align == 16,
            offset == 0,
        ensures
            final(space)@.wf(),
            final(self).wf(final(space)@),
            final(self).copy == old(self).copy,
            final(self).tls == old(self).tls,
            allocation_frame(old(space)@, final(space)@),
            r.0 == 0 ==> !final(space)@.pr.can_acquire(),
            old(space)@.pr.can_acquire() ==> r.0 != 0,
            r.0 != 0 ==> copy_target_ready(
                final(space)@,
                r.0 as int,
                bytes as int,
                old(self).copy,
            ),
            r.0 != 0 && align == 16 ==> r.0 % 16 == 0,
    {
        proof {
            crate::policy::immix::blocks::lemma_frame_reflexive(space@);
        }
        match self.bump(bytes, align, Ghost(space@)) {
            Some(start) => {
                return Address(start);
            },
            None => {},
        }
        let ghost before = space@;
        let found = if bytes > BYTES_IN_LINE {
            self.acquire_clean_block(space)
        } else {
            if self.acquire_recyclable_lines(space) {
                true
            } else {
                let ghost mid = space@;
                let found = self.acquire_clean_block(space);
                proof {
                    lemma_allocation_frame_transitive(before, mid, space@);
                }
                found
            }
        };
        if !found {
            return Address(0);
        }
        match self.bump(bytes, align, Ghost(space@)) {
            Some(start) => Address(start),
            None => Address(0),
        }
    }
}

} // verus!
