//! The allocators that take the copies that a worker makes into an Immix
//! space.

use ::atomic::Atomic;
use crate::policy::immix::block::BYTES_IN_BLOCK;
use crate::policy::immix::block::BlockState;
use crate::policy::immix::block::block_state;
use crate::policy::immix::immixspace::ImmixSpace;
use crate::policy::immix::immixspace::ImmixSpaceView;
use crate::policy::immix::immixspace::block_of;
use crate::policy::immix::immixspace::lemma_block_of_in_space;
use crate::policy::immix::immixspace::lemma_fill_lines_keeps_blocks;
use crate::policy::immix::immixspace::lemma_store_keeps_blocks;
use crate::policy::immix::line::span_bytes;
use crate::policy::immix::line::span_start;
use crate::util::address::Address;
use crate::util::address::ObjectReference;
use crate::util::metadata::SideMetadataSpec;
use crate::util::metadata::SideMetadataView;
use crate::vm::object_model::ObjectModel;
use vstd::prelude::*;

verus! {

/// Whether the `bytes` bytes at `addr` can take a copy: they lie in one
/// block of the space, which is in use, and marked where `marked` says so.
pub open spec fn copy_target_ready(view: ImmixSpaceView, addr: int, bytes: int, marked: bool) -> bool {
    &&& addr != 0
    &&& addr % 8 == 0
    &&& view.meta.contains(addr)
    &&& addr + bytes <= block_of(addr) + BYTES_IN_BLOCK
    &&& if marked {
        block_state(view.meta, block_of(addr)) == BlockState::Marked
    } else {
        block_state(view.meta, block_of(addr)) != BlockState::Unallocated
    }
}

impl ImmixSpaceView {
    /// The side metadata after a copy was finished: the copy is marked,
    /// and so are its lines unless that waits until the copy is scanned.
    pub open spec fn copy_marked(self, object: ObjectReference, size: int) -> SideMetadataView {
        let m1 = self.meta.store(SideMetadataSpec::ObjectMark, object.0 as int, self.mark_state);
        if self.modes.mark_line_at_scan_time {
            m1
        } else {
            self.lines_marked(m1, object, size)
        }
    }
}

/// Writes to tables that describe objects and lines leave the states of
/// the blocks as they are, so that allocators keep fitting the space.
pub proof fn lemma_same_blocks_keep_fitting(
    before: ImmixSpaceView,
    after: ImmixSpaceView,
    context: crate::util::copy::GCWorkerCopyContext,
)
    requires
        context.wf(before),
        after.meta.start == before.meta.start,
        after.meta.chunks == before.meta.chunks,
        after.defrag.in_defrag == before.defrag.in_defrag,
        forall|b: int|
            before.meta.contains(b) && b % 32768 == 0 && block_state(before.meta, b)
                != BlockState::Unallocated ==> #[trigger] block_state(after.meta, b)
                != BlockState::Unallocated,
        forall|b: int|
            before.meta.contains(b) && b % 32768 == 0 && block_state(before.meta, b)
                == BlockState::Marked ==> #[trigger] block_state(after.meta, b) == BlockState::Marked,
        before.meta.wf(),
    ensures
        context.wf(after),
{
    match context {
        crate::util::copy::GCWorkerCopyContext::Immix(c) => {
            lemma_allocator_same_blocks(before, after, c.allocator);
        },
        crate::util::copy::GCWorkerCopyContext::ImmixHybrid(c) => {
            lemma_allocator_same_blocks(before, after, c.copy_allocator);
            lemma_allocator_same_blocks(before, after, c.defrag_allocator);
        },
    }
}

/// An allocator keeps fitting a space in which blocks in use stay in use
/// and marked blocks stay marked.
pub proof fn lemma_allocator_same_blocks(
    before: ImmixSpaceView,
    after: ImmixSpaceView,
    allocator: crate::util::allocators::immix_allocator::ImmixAllocator,
)
    requires
        allocator.wf(before),
        after.meta.start == before.meta.start,
        after.meta.chunks == before.meta.chunks,
        forall|b: int|
            before.meta.contains(b) && b % 32768 == 0 && block_state(before.meta, b)
                != BlockState::Unallocated ==> #[trigger] block_state(after.meta, b)
                != BlockState::Unallocated,
        forall|b: int|
            before.meta.contains(b) && b % 32768 == 0 && block_state(before.meta, b)
                == BlockState::Marked ==> #[trigger] block_state(after.meta, b) == BlockState::Marked,
        before.meta.wf(),
    ensures
        allocator.wf(after),
{
    if allocator.cursor < allocator.limit {
        lemma_block_of_in_space(before.meta, allocator.cursor as int);
        let b = block_of(allocator.cursor as int);
        if allocator.copy {
            assert(block_state(after.meta, b) == BlockState::Marked);
        } else {
            assert(block_state(after.meta, b) != BlockState::Unallocated);
        }
    }
    match allocator.line {
        Some(line) => {
            lemma_block_of_in_space(before.meta, line.0 as int);
            let b = block_of(line.0 as int);
            if allocator.copy {
                assert(block_state(after.meta, b) == BlockState::Marked);
            } else {
                assert(block_state(after.meta, b) != BlockState::Unallocated);
            }
        },
        None => {},
    }
}

/// Finishing a copy keeps the space sound and the allocators fitting.
pub proof fn lemma_copy_marked_keeps_fitting(
    view: ImmixSpaceView,
    object: ObjectReference,
    size: int,
    context: crate::util::copy::GCWorkerCopyContext,
)
    requires
        view.wf(),
        !view.modes.block_only,
        view.in_space(object),
        context.wf(view),
    ensures
        view.with_meta(view.copy_marked(object, size)).wf(),
        context.wf(view.with_meta(view.copy_marked(object, size))),
        forall|b: int| block_state(view.copy_marked(object, size), b) == block_state(view.meta, b),
{
    lemma_store_keeps_blocks(view, SideMetadataSpec::ObjectMark, object.0 as int, view.mark_state);
    let m1 = view.meta.store(SideMetadataSpec::ObjectMark, object.0 as int, view.mark_state);
    let v1 = view.with_meta(m1);
    if !view.modes.mark_line_at_scan_time {
        lemma_fill_lines_keeps_blocks(
            v1,
            span_start(object.0 as int),
            span_bytes(object.0 as int, size),
            view.line_mark_state,
        );
    }
    let after = view.with_meta(view.copy_marked(object, size));
    assert forall|b: int| block_state(after.meta, b) == block_state(view.meta, b) by {
        assert(block_state(m1, b) == block_state(view.meta, b));
    }
    lemma_same_blocks_keep_fitting(view, after, context);
}

/// The copy context of a worker that copies into one Immix space with one
/// allocator.
pub struct ImmixCopyContext {
    /// The allocator that takes the copies.
    pub allocator: crate::util::allocators::immix_allocator::ImmixAllocator,
}

impl ImmixCopyContext {
    /// The allocator fits the space.
    pub open spec fn wf(&self, space: ImmixSpaceView) -> bool {
        self.allocator.wf(space) && self.allocator.copy
    }

    /// A context for the worker that runs on `tls`.
    pub fn new(tls: crate::util::opaque_pointer::VMWorkerThread) -> (c: Self)
        ensures
            c.allocator.tls == tls.0,
            c.allocator.copy,
            c.allocator.cursor == 0,
            c.allocator.limit == 0,
            c.allocator.line.is_none(),
            forall|space: ImmixSpaceView| c.wf(space),
    {
        ImmixCopyContext {
            allocator: crate::util::allocators::immix_allocator::ImmixAllocator::new(tls.0, true),
        }
    }

    /// Readies the context for a collection.
    pub fn prepare(&mut self)
        ensures
            final(self).allocator.copy == old(self).allocator.copy,
            final(self).allocator.tls == old(self).allocator.tls,
            final(self).allocator.cursor == 0,
            final(self).allocator.limit == 0,
            final(self).allocator.line.is_none(),
    {
        self.allocator.reset();
    }

    /// Ends a collection for the context.
    pub fn release(&mut self)
        ensures
            final(self).allocator.copy == old(self).allocator.copy,
            final(self).allocator.tls == old(self).allocator.tls,
            final(self).allocator.cursor == 0,
            final(self).allocator.limit == 0,
            final(self).allocator.line.is_none(),
    {
        self.allocator.reset();
    }

    /// Allocates the memory for a copy of `source`.
    pub fn alloc_copy(
        &mut self,
        space: &mut ImmixSpace,
        source: ObjectReference,
        bytes: usize,
        align: usize,
        offset: usize,
    ) -> (r: Address)
        requires
            old(space)@.wf(),
            !old(space)@.modes.block_only,
            old(self).wf(old(space)@),
            0 < bytes <= crate::policy::immix::MAX_IMMIX_OBJECT_SIZE,
            bytes % 8 == 0,
            align == 8 || align == 16,
            offset == 0,
        ensures
            final(space)@.wf(),
            final(self).wf(final(space)@),
            crate::util::allocators::immix_allocator::allocation_frame(old(space)@, final(space)@),
            r.0 == 0 ==> !final(space)@.pr.can_acquire(),
            old(space)@.pr.can_acquire() ==> r.0 != 0,
            r.0 != 0 ==> copy_target_ready(final(space)@, r.0 as int, bytes as int, true),
    {
        self.allocator.allocate(space, bytes, align, offset)
    }

    /// Finishes a copy: marks `obj`, the copy.
    pub fn post_copy(
        &mut self,
        space: &mut ImmixSpace,
        vm: &ObjectModel,
        obj: ObjectReference,
        bytes: usize,
    )
        requires
            old(space)@.wf(),
            !old(space)@.modes.block_only,
            old(space)@.holds_object(vm@, obj),
        ensures
            final(space)@.wf(),
            final(space)@ == old(space)@.with_meta(old(space)@.copy_marked(obj, vm@[obj.0].size as int)),
            *final(self) == *old(self),
    {
        space.post_copy(obj, bytes, vm)
    }
}

/// The copy context of a worker that copies into one Immix space with two
/// allocators: one takes the copies of a defragmenting collection, the
/// other all other copies.
pub struct ImmixHybridCopyContext {
    /// The allocator for copies outside of defragmentation.
    pub copy_allocator: crate::util::allocators::immix_allocator::ImmixAllocator,
    /// The allocator for evacuation.
    pub defrag_allocator: crate::util::allocators::immix_allocator::ImmixAllocator,
}

impl ImmixHybridCopyContext {
    /// The allocators fit the space.
    pub open spec fn wf(&self, space: ImmixSpaceView) -> bool {
        &&& self.copy_allocator.wf(space)
        &&& !self.copy_allocator.copy
        &&& self.defrag_allocator.wf(space)
        &&& self.defrag_allocator.copy
    }

    /// A context for the worker that runs on `tls`.
    pub fn new(tls: crate::util::opaque_pointer::VMWorkerThread) -> (c: Self)
        ensures
            c.copy_allocator.tls == tls.0,
            c.defrag_allocator.tls == tls.0,
            c.copy_allocator.cursor == 0,
            c.copy_allocator.limit == 0,
            c.copy_allocator.line.is_none(),
            c.defrag_allocator.cursor == 0,
            c.defrag_allocator.limit == 0,
            c.defrag_allocator.line.is_none(),
            forall|space: ImmixSpaceView| c.wf(space),
    {
        ImmixHybridCopyContext {
            copy_allocator: crate::util::allocators::immix_allocator::ImmixAllocator::new(
                tls.0,
                false,
            ),
            defrag_allocator: crate::util::allocators::immix_allocator::ImmixAllocator::new(
                tls.0,
                true,
            ),
        }
    }

    /// Readies the context for a collection.
    pub fn prepare(&mut self)
        ensures
            final(self).copy_allocator.copy == old(self).copy_allocator.copy,
            final(self).defrag_allocator.copy == old(self).defrag_allocator.copy,
            final(self).copy_allocator.cursor == 0,
            final(self).copy_allocator.limit == 0,
            final(self).copy_allocator.line.is_none(),
            final(self).defrag_allocator.cursor == 0,
            final(self).defrag_allocator.limit == 0,
            final(self).defrag_allocator.line.is_none(),
    {
        self.copy_allocator.reset();
        self.defrag_allocator.reset();
    }

    /// Ends a collection for the context.
    pub fn release(&mut self)
        ensures
            final(self).copy_allocator.copy == old(self).copy_allocator.copy,
            final(self).defrag_allocator.copy == old(self).defrag_allocator.copy,
            final(self).copy_allocator.cursor == 0,
            final(self).copy_allocator.limit == 0,
            final(self).copy_allocator.line.is_none(),
            final(self).defrag_allocator.cursor == 0,
            final(self).defrag_allocator.limit == 0,
            final(self).defrag_allocator.line.is_none(),
    {
        self.copy_allocator.reset();
        self.defrag_allocator.reset();
    }

    /// Allocates the memory for a copy of `source`: with the allocator
    /// for evacuation if the collection defragments, else with the other.
    pub fn alloc_copy(
        &mut self,
        space: &mut ImmixSpace,
        source: ObjectReference,
        bytes: usize,
        align: usize,
        offset: usize,
    ) -> (r: Address)
        requires
            old(space)@.wf(),
            !old(space)@.modes.block_only,
            old(self).wf(old(space)@),
            0 < bytes <= crate::policy::immix::MAX_IMMIX_OBJECT_SIZE,
            bytes % 8 == 0,
            align == 8 || align == 16,
            offset == 0,
        ensures
            final(space)@.wf(),
            final(self).wf(final(space)@),
            crate::util::allocators::immix_allocator::allocation_frame(old(space)@, final(space)@),
            r.0 == 0 ==> !final(space)@.pr.can_acquire(),
            old(space)@.pr.can_acquire() ==> r.0 != 0,
            r.0 != 0 ==> copy_target_ready(
                final(space)@,
                r.0 as int,
                bytes as int,
                old(space)@.defrag.in_defrag,
            ),
    {
        let ghost before = space@;
        if space.in_defrag() {
            let r = self.defrag_allocator.allocate(space, bytes, align, offset);
            proof {
                crate::util::allocators::immix_allocator::lemma_allocator_keeps_fitting(
                    self.copy_allocator,
                    before,
                    space@,
                );
            }
            r
        } else {
            let r = self.copy_allocator.allocate(space, bytes, align, offset);
            proof {
                crate::util::allocators::immix_allocator::lemma_allocator_keeps_fitting(
                    self.defrag_allocator,
                    before,
                    space@,
                );
            }
            r
        }
    }

    /// Finishes a copy: marks `obj`, the copy.
    pub fn post_copy(
        &mut self,
        space: &mut ImmixSpace,
        vm: &ObjectModel,
        obj: ObjectReference,
        bytes: usize,
    )
        requires
            old(space)@.wf(),
            !old(space)@.modes.block_only,
            old(space)@.holds_object(vm@, obj),
        ensures
            final(space)@.wf(),
            final(space)@ == old(space)@.with_meta(old(space)@.copy_marked(obj, vm@[obj.0].size as int)),
            *final(self) == *old(self),
    {
        space.post_copy(obj, bytes, vm)
    }
}

impl ImmixSpace {
    /// Finishes a copy: marks `object`, the copy, and its lines unless
    /// that waits until the copy is scanned.
    pub fn post_copy(&mut self, object: ObjectReference, bytes: usize, vm: &ObjectModel)
        requires
            old(self)@.wf(),
            !old(self)@.modes.block_only,
            old(self)@.holds_object(vm@, object),
        ensures
            final(self)@.wf(),
            final(self)@ == old(self)@.with_meta(
                old(self)@.copy_marked(object, vm@[object.0].size as int),
            ),
    {
        proof {
            lemma_store_keeps_blocks(
                old(self)@,
                SideMetadataSpec::ObjectMark,
                object.0 as int,
                old(self)@.mark_state,
            );
        }
        self.metadata.store(SideMetadataSpec::ObjectMark, Address(object.0), self.mark_state);
        if !self.modes.mark_line_at_scan_time {
            self.mark_lines(object, vm);
        }
    }
}

} // verus!
