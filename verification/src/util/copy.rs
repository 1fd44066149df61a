//! Why an object is copied, and the allocators that take the copies of a
//! worker.

use crate::policy::immix::copy_context::ImmixCopyContext;
use crate::policy::immix::copy_context::ImmixHybridCopyContext;
use crate::policy::immix::immixspace::ImmixSpace;
use crate::policy::immix::immixspace::ImmixSpaceView;
use crate::policy::immix::copy_context::copy_target_ready;
use crate::policy::immix::MAX_IMMIX_OBJECT_SIZE;
use crate::util::address::Address;
use crate::util::address::ObjectReference;
use crate::util::allocators::immix_allocator::allocation_frame;
use crate::util::opaque_pointer::VMWorkerThread;
use crate::vm::object_model::ObjectModel;
use vstd::prelude::*;

verus! {

/// The reason for which a collection copies an object.
#[derive(Clone, Copy, PartialEq, Eq, Structural, Debug)]
pub enum CopySemantics {
    /// The copy stays in the space that the object was in.
    DefaultCopy,
    /// The object is old and stays so.
    Mature,
    /// The object was young and is old from now on.
    PromoteToMature,
}

impl CopySemantics {
    /// Whether the copy is an old object.
    pub fn is_mature(self) -> (r: bool)
        ensures
            r == (self == CopySemantics::Mature || self == CopySemantics::PromoteToMature),
    {
        match self {
            CopySemantics::Mature | CopySemantics::PromoteToMature => true,
            CopySemantics::DefaultCopy => false,
        }
    }
}

/// The allocators that take the copies that one worker makes.
pub enum GCWorkerCopyContext {
    /// One allocator for the Immix space.
    Immix(ImmixCopyContext),
    /// Two allocators for the Immix space: one for evacuation and one for
    /// other copies.
    ImmixHybrid(ImmixHybridCopyContext),
}

impl GCWorkerCopyContext {
    /// The allocators fit the space.
    pub open spec fn wf(&self, space: ImmixSpaceView) -> bool {
        match self {
            GCWorkerCopyContext::Immix(c) => c.wf(space),
            GCWorkerCopyContext::ImmixHybrid(c) => c.wf(space),
        }
    }

    /// Each allocator is set up for the copies that it takes.
    pub open spec fn flags_ok(&self) -> bool {
        match self {
            GCWorkerCopyContext::Immix(c) => c.allocator.copy,
            GCWorkerCopyContext::ImmixHybrid(c) => !c.copy_allocator.copy && c.defrag_allocator.copy,
        }
    }

    /// Whether a copy made now goes into a block that is marked.
    pub open spec fn allocates_marked(&self, space: ImmixSpaceView) -> bool {
        match self {
            GCWorkerCopyContext::Immix(c) => true,
            GCWorkerCopyContext::ImmixHybrid(c) => space.defrag.in_defrag,
        }
    }

    /// A context with one allocator for the Immix space.
    pub fn new_immix(tls: VMWorkerThread) -> (c: Self)
        ensures
            c is Immix,
            forall|space: ImmixSpaceView| c.wf(space),
    {
        GCWorkerCopyContext::Immix(ImmixCopyContext::new(tls))
    }

    /// A context with two allocators for the Immix space.
    pub fn new_immix_hybrid(tls: VMWorkerThread) -> (c: Self)
        ensures
            c is ImmixHybrid,
            forall|space: ImmixSpaceView| c.wf(space),
    {
        GCWorkerCopyContext::ImmixHybrid(ImmixHybridCopyContext::new(tls))
    }

    /// Whether the allocators fit the space.
    pub fn fits(&self, space: &ImmixSpace) -> (r: bool)
        requires
            space@.wf(),
        ensures
            r == self.wf(space@),
    {
        match self {
            GCWorkerCopyContext::Immix(c) => c.allocator.copy && c.allocator.fits(space),
            GCWorkerCopyContext::ImmixHybrid(c) => !c.copy_allocator.copy && c.defrag_allocator.copy
                && c.copy_allocator.fits(space) && c.defrag_allocator.fits(space),
        }
    }

    /// Readies the allocators for a collection: they give up the memory
    /// that they hold.
    pub fn prepare(&mut self)
        ensures
            forall|space: ImmixSpaceView| old(self).flags_ok() ==> #[trigger] final(self).wf(space),
            (*old(self) is Immix) <==> (*final(self) is Immix),
    {
        match self {
            GCWorkerCopyContext::Immix(c) => c.prepare(),
            GCWorkerCopyContext::ImmixHybrid(c) => c.prepare(),
        }
    }

    /// Ends a collection for the allocators: they give up the memory that
    /// they hold.
    pub fn release(&mut self)
        ensures
            forall|space: ImmixSpaceView| old(self).flags_ok() ==> #[trigger] final(self).wf(space),
            (*old(self) is Immix) <==> (*final(self) is Immix),
    {
        match self {
            GCWorkerCopyContext::Immix(c) => c.release(),
            GCWorkerCopyContext::ImmixHybrid(c) => c.release(),
        }
    }

    /// Allocates the memory for a copy of `source`. Returns the zero
    /// address when the space has no memory left.
    pub fn alloc_copy(
        &mut self,
        space: &mut ImmixSpace,
        source: ObjectReference,
        bytes: usize,
        align: usize,
        offset: usize,
        semantics: CopySemantics,
    ) -> (r: Address)
        requires
            old(space)@.wf(),
            !old(space)@.modes.block_only,
            old(self).wf(old(space)@),
            0 < bytes <= MAX_IMMIX_OBJECT_SIZE,
            bytes % 8 == 0,
            align == 8 || align == 16,
            offset == 0,
        ensures
            final(space)@.wf(),
            final(self).wf(final(space)@),
            final(self).allocates_marked(final(space)@) == old(self).allocates_marked(old(space)@),
            allocation_frame(old(space)@, final(space)@),
            r.0 == 0 ==> !final(space)@.pr.can_acquire(),
            old(space)@.pr.can_acquire() ==> r.0 != 0,
            r.0 != 0 ==> copy_target_ready(
                final(space)@,
                r.0 as int,
                bytes as int,
                old(self).allocates_marked(old(space)@),
            ),
    {
        let ghost before = space@;
        let r = match self {
            GCWorkerCopyContext::Immix(c) => c.alloc_copy(space, source, bytes, align, offset),
            GCWorkerCopyContext::ImmixHybrid(c) => c.alloc_copy(space, source, bytes, align, offset),
        };
        proof {
            crate::util::allocators::immix_allocator::lemma_allocation_frame_keeps(before, space@);
        }
        r
    }

    /// Finishes a copy: marks `object`, the copy, as reached in this
    /// collection.
    pub fn post_copy(
        &mut self,
        space: &mut ImmixSpace,
        vm: &ObjectModel,
        object: ObjectReference,
        bytes: usize,
        semantics: CopySemantics,
    )
        requires
            old(space)@.wf(),
            !old(space)@.modes.block_only,
            old(space)@.holds_object(vm@, object),
            old(self).wf(old(space)@),
        ensures
            final(space)@.wf(),
            final(space)@ == old(space)@.with_meta(
                old(space)@.copy_marked(object, vm@[object.0].size as int),
            ),
            *final(self) == *old(self),
            final(self).wf(final(space)@),
    {
        proof {
            crate::policy::immix::copy_context::lemma_copy_marked_keeps_fitting(
                old(space)@,
                object,
                vm@[object.0].size as int,
                *self,
            );
        }
        space.post_copy(object, bytes, vm);
    }
}

} // verus!
