//! Allocators.

pub mod immix_allocator;
