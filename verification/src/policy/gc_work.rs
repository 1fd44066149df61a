//! The kinds of trace that a policy is asked for.

use vstd::prelude::*;

verus! {

/// A tag that tells a policy how to trace an object.
pub type TraceKind = u8;

/// A trace that never moves an object and pins all that it reaches.
pub const TRACE_KIND_TRANSITIVE_PIN: TraceKind = 255;

} // verus!
