//! Sizes that the whole heap layout is built on.

use vstd::prelude::*;

verus! {

/// Base-two logarithm of the size of a page.
pub const LOG_BYTES_IN_PAGE: u8 = 12;

/// Size of a page in bytes.
pub const BYTES_IN_PAGE: usize = 4096;

/// Base-two logarithm of the size of a machine word.
pub const LOG_BYTES_IN_WORD: usize = 3;

/// Size of a machine word in bytes.
pub const BYTES_IN_WORD: usize = 8;

/// Base-two logarithm of the smallest object size; object metadata is kept
/// at this granularity.
pub const LOG_MIN_OBJECT_SIZE: usize = 3;

/// Smallest object size, and the alignment of every object.
pub const MIN_OBJECT_SIZE: usize = 8;

/// Base-two logarithm of the number of bits in a byte.
pub const LOG_BITS_IN_BYTE: usize = 3;

/// Base-two logarithm of the size of a chunk.
pub const LOG_BYTES_IN_CHUNK: usize = 22;

/// Size of a chunk in bytes.
pub const BYTES_IN_CHUNK: usize = 4194304;

/// Number of slots or nodes that one tracing work packet holds at most.
pub const EDGES_WORK_BUFFER_SIZE: usize = 4096;

} // verus!
