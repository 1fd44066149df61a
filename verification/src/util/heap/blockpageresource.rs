//! The page resource of a space that takes and returns memory a block at a
//! time.

use crate::policy::immix::block::Block;
use crate::policy::immix::block::BYTES_IN_BLOCK;
use crate::policy::immix::block::PAGES_IN_BLOCK;
use crate::util::address::Address;
use vstd::prelude::*;

verus! {

/// The mathematical content of a block page resource.
#[verifier::ext_equal]
pub struct BlockPageResourceView {
    /// The address at which the memory of the resource starts.
    pub start: usize,
    /// The address of the first block that was never handed out.
    pub cursor: usize,
    /// The address just past the memory of the resource.
    pub end: usize,
    /// The blocks given back since the last flush, oldest first.
    pub local: Seq<Block>,
    /// The blocks given back that can be handed out again; the last one
    /// goes first.
    pub free: Seq<Block>,
    /// The number of pages handed out and not given back.
    pub reserved_pages: usize,
}

impl BlockPageResourceView {
    /// The memory is a whole number of blocks, and every block that was
    /// given back lies below the cursor.
    pub open spec fn wf(self) -> bool {
        &&& self.start % BYTES_IN_BLOCK == 0
        &&& self.cursor % BYTES_IN_BLOCK == 0
        &&& self.end % BYTES_IN_BLOCK == 0
        &&& self.start <= self.cursor <= self.end
        &&& forall|i: int| 0 <= i < self.free.len() ==> self.holds(#[trigger] self.free[i])
        &&& forall|i: int| 0 <= i < self.local.len() ==> self.holds(#[trigger] self.local[i])
    }

    /// Whether `block` is a block of the resource that was handed out at
    /// least once.
    pub open spec fn holds(self, block: Block) -> bool {
        block.wf() && self.start <= block.0 < self.cursor
    }

    /// The address of the block that is handed out next: the block that
    /// was flushed last among those given back, or else the next block
    /// that was never handed out. Zero when there is neither.
    pub open spec fn next_block(self) -> usize {
        if self.free.len() > 0 {
            self.free.last().0
        } else if self.cursor < self.end {
            self.cursor
        } else {
            0
        }
    }

    /// Whether a block can be handed out.
    pub open spec fn can_acquire(self) -> bool {
        self.free.len() > 0 || self.cursor < self.end
    }

    /// The number of reserved pages after one more block was handed out.
    pub open spec fn reserved_after_acquire(self) -> usize {
        if self.reserved_pages <= usize::MAX - PAGES_IN_BLOCK {
            (self.reserved_pages + PAGES_IN_BLOCK) as usize
        } else {
            usize::MAX
        }
    }

    /// The content after a block was handed out, or the same content when
    /// there was none to hand out.
    pub open spec fn after_acquire(self) -> Self {
        if self.free.len() > 0 {
            BlockPageResourceView {
                free: self.free.drop_last(),
                reserved_pages: self.reserved_after_acquire(),
                ..self
            }
        } else if self.cursor < self.end {
            BlockPageResourceView {
                cursor: (self.cursor + BYTES_IN_BLOCK) as usize,
                reserved_pages: self.reserved_after_acquire(),
                ..self
            }
        } else {
            self
        }
    }

    /// The content after `block` was given back.
    pub open spec fn after_release(self, block: Block) -> Self {
        BlockPageResourceView {
            local: self.local.push(block),
            reserved_pages: if self.reserved_pages >= PAGES_IN_BLOCK {
                (self.reserved_pages - PAGES_IN_BLOCK) as usize
            } else {
                0
            },
            ..self
        }
    }

    /// The content after a flush.
    pub open spec fn after_flush(self) -> Self {
        BlockPageResourceView { local: Seq::empty(), free: self.free + self.local, ..self }
    }
}

/// Hands out the memory of a space in blocks and takes blocks back.
pub struct BlockPageResource {
    start: usize,
    cursor: usize,
    end: usize,
    local: Vec<Block>,
    free: Vec<Block>,
    reserved_pages: usize,
}

impl View for BlockPageResource {
    type V = BlockPageResourceView;

    closed spec fn view(&self) -> BlockPageResourceView {
        BlockPageResourceView {
            start: self.start,
            cursor: self.cursor,
            end: self.end,
            local: self.local@,
            free: self.free@,
            reserved_pages: self.reserved_pages,
        }
    }
}

impl BlockPageResource {
    /// A resource for the `extent` bytes of memory from `start` on, of
    /// which nothing was handed out yet.
    pub fn new_contiguous(start: Address, extent: usize) -> (pr: Self)
        requires
            start.0 % BYTES_IN_BLOCK == 0,
            extent % BYTES_IN_BLOCK == 0,
            start.0 + extent <= usize::MAX,
        ensures
            pr@.wf(),
            pr@.start == start.0,
            pr@.cursor == start.0,
            pr@.end == start.0 + extent,
            pr@.local.len() == 0,
            pr@.free.len() == 0,
            pr@.reserved_pages == 0,
    {
        BlockPageResource {
            start: start.0,
            cursor: start.0,
            end: start.0 + extent,
            local: Vec::new(),
            free: Vec::new(),
            reserved_pages: 0,
        }
    }

    /// The number of pages handed out and not given back.
    pub fn reserved_pages(&self) -> (pages: usize)
        ensures
            pages == self@.reserved_pages,
    {
        self.reserved_pages
    }

    /// Hands out one block, or returns the zero address when there is
    /// none to hand out.
    pub fn acquire_block(&mut self) -> (addr: Address)
        requires
            old(self)@.wf(),
        ensures
            final(self)@.wf(),
            addr.0 == old(self)@.next_block(),
            final(self)@ == old(self)@.after_acquire(),
            old(self)@.can_acquire() ==> final(self)@.holds(Block(addr.0)),
            old(self)@.can_acquire() && old(self)@.free.len() == 0 ==> addr.0 == old(self)@.cursor,
            old(self)@.start > 0 ==> (addr.0 != 0 <==> old(self)@.can_acquire()),
    {
        let addr = match self.free.pop() {
            Some(block) => {
                assert(block == old(self)@.free[old(self)@.free.len() - 1]);
                assert(old(self)@.holds(old(self)@.free[old(self)@.free.len() - 1]));
                assert(old(self)@.holds(block));
                block.0
            },
            None => {
                if self.cursor < self.end {
                    let fresh: usize = self.cursor;
                    self.cursor = fresh + BYTES_IN_BLOCK;
                    fresh
                } else {
                    return Address(0);
                }
            },
        };
        self.reserved_pages = if self.reserved_pages <= usize::MAX - PAGES_IN_BLOCK {
            self.reserved_pages + PAGES_IN_BLOCK
        } else {
            usize::MAX
        };
        proof {
            assert forall|i: int| 0 <= i < self@.free.len() implies self@.holds(
                #[trigger] self@.free[i],
            ) by {
                assert(old(self)@.holds(old(self)@.free[i]));
            }
            assert forall|i: int| 0 <= i < self@.local.len() implies self@.holds(
                #[trigger] self@.local[i],
            ) by {
                assert(old(self)@.holds(old(self)@.local[i]));
            }
        }
        Address(addr)
    }

    /// Takes a block back. It can be handed out again after the next
    /// flush.
    pub fn release_block(&mut self, block: Block)
        requires
            old(self)@.wf(),
            old(self)@.holds(block),
        ensures
            final(self)@.wf(),
            final(self)@ == old(self)@.after_release(block),
    {
        self.local.push(block);
        self.reserved_pages = if self.reserved_pages >= PAGES_IN_BLOCK {
            self.reserved_pages - PAGES_IN_BLOCK
        } else {
            0
        };
        proof {
            assert forall|i: int| 0 <= i < self@.local.len() implies self@.holds(
                #[trigger] self@.local[i],
            ) by {
                if i < old(self)@.local.len() {
                    assert(old(self)@.holds(old(self)@.local[i]));
                }
            }
            assert forall|i: int| 0 <= i < self@.free.len() implies self@.holds(
                #[trigger] self@.free[i],
            ) by {
                assert(old(self)@.holds(old(self)@.free[i]));
            }
        }
    }

    /// Makes every block that was given back ready to be handed out
    /// again.
    pub fn flush_all(&mut self)
        requires
            old(self)@.wf(),
        ensures
            final(self)@.wf(),
            final(self)@ == old(self)@.after_flush(),
    {
        self.free.append(&mut self.local);
        proof {
            assert forall|i: int| 0 <= i < self@.free.len() implies self@.holds(
                #[trigger] self@.free[i],
            ) by {
                if i < old(self)@.free.len() {
                    assert(old(self)@.holds(old(self)@.free[i]));
                } else {
                    assert(old(self)@.holds(old(self)@.local[i - old(self)@.free.len()]));
                }
            }
        }
    }
}

} // verus!
