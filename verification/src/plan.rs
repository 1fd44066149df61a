//! The plan: the collector as a whole, and what it shares with the
//! policies of its spaces.

pub mod global;
pub mod tracing;
