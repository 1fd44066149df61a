//! The workers of the collector and the work packets that they run.

pub mod closure;
pub mod edges;
pub mod enqueue;
pub mod gc_work;
pub mod process;
pub mod scan;
pub mod scheduler;
pub mod work;
pub mod work_bucket;
pub mod worker;
