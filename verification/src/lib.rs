//! A verified model of an Immix mark-region space and of the work packets
//! that drive a collection over it.

pub mod global_state;
pub mod mmtk;
pub mod plan;
pub mod policy;
pub mod scheduler;
pub mod util;
pub mod vm;
