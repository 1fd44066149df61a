//! The coarse structure of the heap: chunks, and the blocks handed out of
//! them.

pub mod blockpageresource;
pub mod chunk_map;
