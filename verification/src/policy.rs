//! Policies: how the memory of a space is laid out, traced and reclaimed.

pub mod gc_work;
pub mod immix;
pub mod space;
