//! The state of the collector that outlives a single collection.

use vstd::prelude::*;

verus! {

/// How far a collection has come.
#[derive(Clone, Copy, PartialEq, Eq, Structural, Debug)]
pub enum GcStatus {
    /// No collection is under way.
    NotInGC,
    /// A collection is being readied: the mutators are being stopped and
    /// scanned.
    GcPrepare,
    /// The collection proper is under way.
    GcProper,
}

/// The state of the collector that outlives a single collection.
#[derive(Clone, Copy, PartialEq, Eq, Structural, Debug)]
pub struct GlobalState {
    /// How far the current collection has come.
    pub gc_status: GcStatus,
    /// Whether the current collection is an emergency collection.
    pub emergency_collection: bool,
    /// Whether the program asked for the current collection.
    pub user_triggered_collection: bool,
    /// Whether the collector itself asked for the current collection.
    pub internal_triggered_collection: bool,
    /// The number of collections tried in a row to satisfy one
    /// allocation.
    pub cur_collection_attempts: usize,
    /// Whether the scanning of the stacks was readied.
    pub stacks_prepared: bool,
    /// The number of mutators whose stack was scanned.
    pub scanned_stacks: usize,
    /// The number of live bytes found in the last collection.
    pub live_bytes_in_last_gc: usize,
}

impl GlobalState {
    /// The state before the first collection.
    pub fn new() -> (s: Self)
        ensures
            s == (GlobalState {
                gc_status: GcStatus::NotInGC,
                emergency_collection: false,
                user_triggered_collection: false,
                internal_triggered_collection: false,
                cur_collection_attempts: 0,
                stacks_prepared: false,
                scanned_stacks: 0,
                live_bytes_in_last_gc: 0,
            }),
    {
        GlobalState {
            gc_status: GcStatus::NotInGC,
            emergency_collection: false,
            user_triggered_collection: false,
            internal_triggered_collection: false,
            cur_collection_attempts: 0,
            stacks_prepared: false,
            scanned_stacks: 0,
            live_bytes_in_last_gc: 0,
        }
    }

    /// Whether a collection is an emergency collection: the collector
    /// asked for it itself, or the last collection looked at the whole
    /// heap, more than one collection was tried in a row, and the heap
    /// cannot grow.
    pub open spec fn is_emergency(self, last_collection_was_exhaustive: bool, heap_can_grow: bool) -> bool {
        self.internal_triggered_collection || (last_collection_was_exhaustive
            && self.cur_collection_attempts > 1 && !heap_can_grow)
    }

    /// Decides whether the collection that starts is an emergency
    /// collection, and records the decision. Returns the decision.
    pub fn set_collection_kind(&mut self, last_collection_was_exhaustive: bool, heap_can_grow: bool) -> (r:
        bool)
        ensures
            r == old(self).is_emergency(last_collection_was_exhaustive, heap_can_grow),
            *final(self) == (GlobalState { emergency_collection: r, ..*old(self) }),
    {
        let emergency = self.internal_triggered_collection || (last_collection_was_exhaustive
            && self.cur_collection_attempts > 1 && !heap_can_grow);
        self.emergency_collection = emergency;
        emergency
    }

    /// Readies the scanning of the stacks: no stack counts as scanned.
    pub fn prepare_for_stack_scanning(&mut self)
        ensures
            *final(self) == (GlobalState { scanned_stacks: 0, stacks_prepared: false, ..*old(self) }),
    {
        self.scanned_stacks = 0;
        self.stacks_prepared = false;
    }

    /// Records that the stack of one more mutator was scanned. Returns
    /// whether the stacks of all `mutators` mutators are scanned now.
    pub fn inform_stack_scanned(&mut self, mutators: usize) -> (all: bool)
        requires
            old(self).scanned_stacks < usize::MAX,
        ensures
            all == (old(self).scanned_stacks + 1 == mutators),
            *final(self) == (GlobalState {
                scanned_stacks: (old(self).scanned_stacks + 1) as usize,
                stacks_prepared: old(self).stacks_prepared || all,
                ..*old(self)
            }),
    {
        self.scanned_stacks = self.scanned_stacks + 1;
        let all = self.scanned_stacks == mutators;
        if all {
            self.stacks_prepared = true;
        }
        all
    }
}

} // verus!
