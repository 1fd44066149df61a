//! The Immix policy: a heap of blocks made of lines, collected by marking
//! and by opportunistic evacuation.

pub mod block;
pub mod blocks;
pub mod copy_context;
pub mod defrag;
pub mod forwarding;
pub mod guarantees;
pub mod holes;
pub mod immixspace;
pub mod line;
pub mod marks;
pub mod prepare;
pub mod survival;
pub mod sweep;
pub mod vo_bits;

use vstd::prelude::*;

verus! {

/// The largest object that an Immix space holds: half a block.
pub const MAX_IMMIX_OBJECT_SIZE: usize = 16384;

/// The modes that a space is built in.
#[derive(Clone, Copy, PartialEq, Eq, Structural, Debug)]
pub struct ImmixModes {
    /// Blocks are the unit of liveness: no line is marked and no block is
    /// reused.
    pub block_only: bool,
    /// The lines of an object are marked when the object is scanned, not
    /// when it is traced.
    pub mark_line_at_scan_time: bool,
    /// In a defragmenting collection every allocated block is evacuated.
    pub defrag_every_block: bool,
    /// No space moves objects, whatever its arguments say.
    pub non_moving: bool,
    /// A nursery collection does not copy.
    pub sticky_non_moving_nursery: bool,
    /// The space keeps a bitmap of the addresses at which valid objects
    /// start.
    pub vo_bit: bool,
    /// Objects can be pinned.
    pub object_pinning: bool,
}

} // verus!
