//! Clearing the records of valid objects before a trace.

use ::atomic::Atomic;
use crate::policy::immix::block::BYTES_IN_BLOCK;
use crate::policy::immix::block::Block;
use crate::policy::immix::block::BlockState;
use crate::policy::immix::block::block_state;
use crate::policy::immix::immixspace::ImmixSpace;
use crate::policy::immix::immixspace::ImmixSpaceView;
use crate::policy::immix::immixspace::lemma_block_of_in_space;
use crate::policy::immix::immixspace::lemma_fill_keeps_blocks;
use crate::policy::immix::line::Line;
use crate::policy::immix::prepare::lemma_chunk_block_in_space;
use crate::util::address::Address;
use crate::util::address::ObjectReference;
use crate::util::constants::BYTES_IN_CHUNK;
use crate::util::heap::chunk_map::Chunk;
use crate::util::metadata::SideMetadataSpec;
use crate::util::metadata::SideMetadataView;
use crate::vm::object_model::ObjectModel;
use vstd::prelude::*;

verus! {

/// Which records of valid objects are cleared before a trace.
#[derive(Clone, Copy, PartialEq, Eq, Structural, Debug)]
pub enum VOBitsClearingScope {
    /// The records of all objects.
    FullGC,
    /// The records of the objects in unmarked blocks.
    BlockOnly,
    /// The records of the objects in lines that are not marked with
    /// `state`.
    Line {
        /// The mark of the lines whose records are kept.
        state: u8,
    },
}

/// The side metadata after the records of valid objects were cleared in
/// those of the first `n` lines of the block at `block` that are not
/// marked with `state`.
pub open spec fn lines_vo_cleared(meta: SideMetadataView, block: int, n: int, state: u8) -> SideMetadataView
    decreases n,
{
    if n <= 0 {
        meta
    } else {
        let before = lines_vo_cleared(meta, block, n - 1, state);
        let line = block + (n - 1) * 256;
        if before.load(SideMetadataSpec::LineMark, line) == state {
            before
        } else {
            before.fill(SideMetadataSpec::VoBit, line, 256, 0)
        }
    }
}

/// The side metadata after the records of valid objects were cleared in
/// the unmarked parts of the block at `block`: in the lines that are not
/// marked with the given state, or, where no state is given, in the whole
/// block if it is unmarked. An unallocated block is passed over.
pub open spec fn block_vo_cleared(meta: SideMetadataView, block: int, line_mark_state: Option<u8>)
    -> SideMetadataView {
    if block_state(meta, block) == BlockState::Unallocated {
        meta
    } else {
        match line_mark_state {
            None => if block_state(meta, block) == BlockState::Unmarked {
                meta.fill(SideMetadataSpec::VoBit, block, BYTES_IN_BLOCK as int, 0)
            } else {
                meta
            },
            Some(state) => lines_vo_cleared(meta, block, 128, state),
        }
    }
}

/// The side metadata after the records of valid objects were cleared in
/// the unmarked parts of the first `n` blocks of the chunk at `chunk`.
pub open spec fn blocks_vo_cleared(
    meta: SideMetadataView,
    chunk: int,
    n: int,
    line_mark_state: Option<u8>,
) -> SideMetadataView
    decreases n,
{
    if n <= 0 {
        meta
    } else {
        block_vo_cleared(
            blocks_vo_cleared(meta, chunk, n - 1, line_mark_state),
            chunk + (n - 1) * 32768,
            line_mark_state,
        )
    }
}

/// The side metadata after the records of valid objects of a chunk were
/// cleared within `scope`.
pub open spec fn chunk_vo_cleared(meta: SideMetadataView, chunk: Chunk, scope: VOBitsClearingScope)
    -> SideMetadataView {
    match scope {
        VOBitsClearingScope::FullGC => meta.fill(
            SideMetadataSpec::VoBit,
            chunk.0 as int,
            BYTES_IN_CHUNK as int,
            0,
        ),
        VOBitsClearingScope::BlockOnly => blocks_vo_cleared(meta, chunk.0 as int, 128, None),
        VOBitsClearingScope::Line { state } => blocks_vo_cleared(
            meta,
            chunk.0 as int,
            128,
            Some(state),
        ),
    }
}

/// A work packet that clears records of valid objects in one chunk before
/// the trace.
#[derive(Clone, Copy, PartialEq, Eq, Structural, Debug)]
pub struct ClearVOBitsAfterPrepare {
    /// The chunk.
    pub chunk: Chunk,
    /// Which records are cleared.
    pub scope: VOBitsClearingScope,
}

impl ClearVOBitsAfterPrepare {
    /// Whether the packet can run: its chunk is a chunk of the space,
    /// which keeps records of valid objects, and marks of lines if the
    /// scope goes by them.
    pub open spec fn ready(&self, space: ImmixSpaceView) -> bool {
        &&& space.wf()
        &&& self.chunk.wf()
        &&& space.meta.contains(self.chunk.0 as int)
        &&& space.modes.vo_bit
        &&& (self.scope is Line ==> !space.modes.block_only)
    }

    /// Clears the records of valid objects in the unmarked lines of
    /// `block`.
    fn clear_lines(&self, space: &mut ImmixSpace, block: Block, state: u8)
        requires
            old(space)@.wf(),
            old(space)@.modes.vo_bit,
            !old(space)@.modes.block_only,
            block.in_space(old(space)@.meta),
        ensures
            final(space)@.wf(),
            final(space)@ == old(space)@.with_meta(
                lines_vo_cleared(old(space)@.meta, block.0 as int, 128, state),
            ),
    {
        let ghost first = old(space)@;
        let mut i: usize = 0;
        while i < 128
            invariant
                i <= 128,
                first.wf(),
                first.modes.vo_bit,
                !first.modes.block_only,
                block.in_space(first.meta),
                space@.wf(),
                space@ == first.with_meta(lines_vo_cleared(first.meta, block.0 as int, i as int, state)),
            decreases 128 - i,
        {
            proof {
                lemma_block_of_in_space(first.meta, block.0 as int);
            }
            let line = block.line(i);
            if !line.is_marked(&space.metadata, state) {
                proof {
                    lemma_fill_keeps_blocks(space@, SideMetadataSpec::VoBit, line.0 as int, 256, 0);
                }
                space.metadata.bzero_metadata(SideMetadataSpec::VoBit, line.start(), 256);
            }
            i += 1;
        }
    }

    /// Clears the records of valid objects in the unmarked parts of the
    /// blocks of the chunk.
    pub fn clear_blocks(&mut self, space: &mut ImmixSpace, line_mark_state: Option<u8>)
        requires
            old(self).ready(old(space)@),
            line_mark_state.is_some() ==> !old(space)@.modes.block_only,
        ensures
            *final(self) == *old(self),
            final(space)@.wf(),
            final(space)@ == old(space)@.with_meta(
                blocks_vo_cleared(old(space)@.meta, old(self).chunk.0 as int, 128, line_mark_state),
            ),
    {
        let ghost first = old(space)@;
        let mut j: usize = 0;
        while j < 128
            invariant
                j <= 128,
                *self == *old(self),
                self.ready(first),
                line_mark_state.is_some() ==> !first.modes.block_only,
                space@.wf(),
                space@ == first.with_meta(
                    blocks_vo_cleared(first.meta, self.chunk.0 as int, j as int, line_mark_state),
                ),
            decreases 128 - j,
        {
            proof {
                lemma_chunk_block_in_space(first.meta, self.chunk, j as int);
            }
            let block = Block(self.chunk.0 + j * 32768);
            if block.get_state(&space.metadata) != BlockState::Unallocated {
                match line_mark_state {
                    None => {
                        if block.get_state(&space.metadata) == BlockState::Unmarked {
                            proof {
                                lemma_fill_keeps_blocks(
                                    space@,
                                    SideMetadataSpec::VoBit,
                                    block.0 as int,
                                    BYTES_IN_BLOCK as int,
                                    0,
                                );
                            }
                            space.metadata.bzero_blocks(
                                SideMetadataSpec::VoBit,
                                block.start(),
                                BYTES_IN_BLOCK,
                            );
                        }
                    },
                    Some(state) => {
                        self.clear_lines(space, block, state);
                    },
                }
            }
            j += 1;
        }
    }

    /// What running the packet leaves behind: `after_self`, `after_worker` and
    /// `after` are the packet, the worker and the collector afterwards.
    pub open spec fn done(
        &self,
        after_self: Self,
        worker: crate::scheduler::worker::GCWorker,
        after_worker: crate::scheduler::worker::GCWorker,
        before: crate::mmtk::MMTK,
        after: crate::mmtk::MMTK,
    ) -> bool {
        &&& after.wf()
        &&& after_self == (*self)
        &&& after_worker == worker
        &&& after.plan.immix_space@ == before.plan.immix_space@.with_meta(
            chunk_vo_cleared(
                before.plan.immix_space@.meta,
                self.chunk,
                self.scope,
            ),
        )
        &&& after.scheduler == before.scheduler
        &&& after.state == before.state
        &&& after.vm == before.vm
        &&& after.options == before.options
        &&& after.gc_count == before.gc_count
        &&& after.plan.constraints == before.plan.constraints
        &&& after.plan.last_gc_was_defrag == before.plan.last_gc_was_defrag
        &&& after.plan.total_pages == before.plan.total_pages
        &&& after.plan.emergency_notified == before.plan.emergency_notified
    }

    /// Clears the records of valid objects of the chunk within the scope
    /// of the packet.
    pub fn do_work(
        &mut self,
        worker: &mut crate::scheduler::worker::GCWorker,
        mmtk: &mut crate::mmtk::MMTK,
    )
        requires
            old(mmtk).wf(),
            old(self).ready(old(mmtk).plan.immix_space@),
        ensures
            old(self).done(*final(self), *old(worker), *final(worker), *old(mmtk), *final(mmtk)),
    {
        match self.scope {
            VOBitsClearingScope::FullGC => {
                proof {
                    lemma_chunk_block_in_space(mmtk.plan.immix_space@.meta, self.chunk, 0);
                    lemma_fill_keeps_blocks(
                        mmtk.plan.immix_space@,
                        SideMetadataSpec::VoBit,
                        self.chunk.0 as int,
                        BYTES_IN_CHUNK as int,
                        0,
                    );
                }
                mmtk.plan.immix_space.metadata.bzero_blocks(
                    SideMetadataSpec::VoBit,
                    self.chunk.start(),
                    BYTES_IN_CHUNK,
                );
            },
            VOBitsClearingScope::BlockOnly => {
                self.clear_blocks(&mut mmtk.plan.immix_space, None);
            },
            VOBitsClearingScope::Line { state } => {
                self.clear_blocks(&mut mmtk.plan.immix_space, Some(state));
            },
        }
    }
}

/// The highest object boundary at or below `from` and not below `low` at
/// which the space records a valid object, or -1 if there is none. Both
/// `from` and `low` are object boundaries.
pub open spec fn nearest_valid_object(meta: SideMetadataView, from: int, low: int) -> int
    decreases from - low + 8,
{
    if from < low {
        -1
    } else if meta.load(SideMetadataSpec::VoBit, from) != 0 {
        from
    } else {
        nearest_valid_object(meta, from - 8, low)
    }
}

/// The lowest address at which the search for the object that holds
/// `ptr` looks: as far below `ptr` as the largest object reaches, or as
/// `max_search_bytes` allows if that is less, but not below the start of
/// the space; rounded up to an object boundary.
pub open spec fn search_floor(meta: SideMetadataView, ptr: int, max_search_bytes: int) -> int {
    let reach = if max_search_bytes < crate::policy::immix::MAX_IMMIX_OBJECT_SIZE {
        max_search_bytes
    } else {
        crate::policy::immix::MAX_IMMIX_OBJECT_SIZE as int
    };
    let lowest = if ptr - reach < meta.start {
        meta.start as int
    } else {
        ptr - reach
    };
    if lowest % 8 == 0 {
        lowest
    } else {
        lowest - lowest % 8 + 8
    }
}

/// The nearest valid object at or below `ptr` within the reach of the
/// search, or -1 if there is none.
pub open spec fn found_below(meta: SideMetadataView, ptr: int, max_search_bytes: int) -> int {
    nearest_valid_object(meta, ptr - ptr % 8, search_floor(meta, ptr, max_search_bytes))
}

impl ImmixSpace {
    /// The object that starts at `addr`, if `addr` is an object boundary at
    /// which the space records a valid object.
    pub fn is_mmtk_object(&self, addr: Address) -> (r: Option<ObjectReference>)
        requires
            self@.wf(),
            self@.modes.vo_bit,
            self@.meta.contains(addr.0 as int),
        ensures
            r == (if addr.0 % 8 == 0 && self@.meta.load(SideMetadataSpec::VoBit, addr.0 as int) != 0 {
                Some(ObjectReference(addr.0))
            } else {
                None
            }),
    {
        if addr.0 % 8 == 0 && self.metadata.load(SideMetadataSpec::VoBit, addr) != 0 {
            Some(ObjectReference(addr.0))
        } else {
            None
        }
    }

    /// The object that holds the address `ptr`: the nearest valid object
    /// at or below `ptr`, within the reach of the search, if the runtime
    /// knows it and `ptr` lies within its size.
    pub fn find_object_from_internal_pointer(
        &self,
        ptr: Address,
        max_search_bytes: usize,
        vm: &ObjectModel,
    ) -> (r: Option<ObjectReference>)
        requires
            self@.wf(),
            self@.modes.vo_bit,
            self@.meta.contains(ptr.0 as int),
        ensures
            match r {
                Some(object) => object.0 == found_below(
                    self@.meta,
                    ptr.0 as int,
                    max_search_bytes as int,
                ) && vm@.contains_key(object.0) && ptr.0 - object.0 < vm@[object.0].size,
                None => found_below(self@.meta, ptr.0 as int, max_search_bytes as int) < 0
                    || !vm@.contains_key(
                    found_below(self@.meta, ptr.0 as int, max_search_bytes as int) as usize,
                ) || ptr.0 - found_below(self@.meta, ptr.0 as int, max_search_bytes as int)
                    >= vm@[found_below(
                    self@.meta,
                    ptr.0 as int,
                    max_search_bytes as int,
                ) as usize].size,
            },
    {
        let search_bytes: usize = if max_search_bytes < crate::policy::immix::MAX_IMMIX_OBJECT_SIZE {
            max_search_bytes
        } else {
            crate::policy::immix::MAX_IMMIX_OBJECT_SIZE
        };
        let start: usize = self.metadata.start().0;
        let lowest: usize = if ptr.0 - start < search_bytes {
            start
        } else {
            ptr.0 - search_bytes
        };
        let low: usize = if lowest % 8 == 0 {
            lowest
        } else {
            lowest - lowest % 8 + 8
        };
        let top: usize = ptr.0 - ptr.0 % 8;
        let mut cur: usize = top;
        let ghost meta = self@.meta;
        assert(start % 8 == 0);
        assert(low == search_floor(meta, ptr.0 as int, max_search_bytes as int));
        if top < low {
            return None;
        }
        while cur >= low
            invariant
                low == search_floor(meta, ptr.0 as int, max_search_bytes as int),
                top == ptr.0 - ptr.0 % 8,
                self@.wf(),
                self@.modes.vo_bit,
                meta == self@.meta,
                start == meta.start,
                start <= low,
                low % 8 == 0,
                cur % 8 == 0,
                top % 8 == 0,
                cur <= top <= ptr.0,
                low <= cur + 8,
                meta.contains(ptr.0 as int),
                nearest_valid_object(meta, top as int, low as int) == nearest_valid_object(
                    meta,
                    cur as int,
                    low as int,
                ),
            decreases cur - low + 8,
        {
            if self.metadata.load(SideMetadataSpec::VoBit, Address(cur)) != 0 {
                let object = ObjectReference(cur);
                assert(nearest_valid_object(meta, cur as int, low as int) == cur);
                assert(low == search_floor(meta, ptr.0 as int, max_search_bytes as int));
                if vm.contains(object) && ptr.0 - cur < vm.get_current_size(object) {
                    return Some(object);
                }
                return None;
            }
            if cur < 8 || cur - 8 < low {
                assert(nearest_valid_object(meta, cur - 8, low as int) == -1);
                assert(nearest_valid_object(meta, cur as int, low as int) == -1);
                return None;
            }
            cur -= 8;
        }
        assert(low == search_floor(meta, ptr.0 as int, max_search_bytes as int));
        None
    }
}

} // verus!
