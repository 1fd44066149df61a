//! Address arithmetic, side metadata and shared cells.

pub mod address;
pub mod allocators;
pub mod atomic_cell;
pub mod constants;
pub mod copy;
pub mod heap;
pub mod metadata;
pub mod object_forwarding;
pub mod opaque_pointer;
