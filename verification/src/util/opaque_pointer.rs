//! Handles by which the runtime names its threads.

use vstd::prelude::*;

verus! {

/// A thread of the runtime.
#[derive(Clone, Copy, PartialEq, Eq, Structural, Debug, Hash)]
pub struct VMThread(pub usize);

/// A thread of the runtime that works for the collector.
#[derive(Clone, Copy, PartialEq, Eq, Structural, Debug, Hash)]
pub struct VMWorkerThread(pub VMThread);

/// A thread of the runtime that runs the program.
#[derive(Clone, Copy, PartialEq, Eq, Structural, Debug, Hash)]
pub struct VMMutatorThread(pub VMThread);

} // verus!
