//! The collector as a whole.

use crate::global_state::GlobalState;
use crate::plan::global::Plan;
use crate::scheduler::scheduler::GCWorkScheduler;
use crate::vm::vm_binding::VMBinding;
use vstd::prelude::*;

verus! {

/// The options of the collector.
#[derive(Clone, Copy, PartialEq, Eq, Structural, Debug)]
pub struct Options {
    /// Whether the bytes of the live objects are counted during a
    /// collection.
    pub count_live_bytes_in_gc: bool,
    /// Whether the heap can grow.
    pub heap_can_grow: bool,
    /// Whether a collection that the program asks for collects the whole
    /// heap.
    pub full_heap_system_gc: bool,
}

/// The collector as a whole: the plan, the scheduler, the runtime, and the
/// state that they share.
pub struct MMTK {
    /// The plan.
    pub plan: Plan,
    /// The scheduler.
    pub scheduler: GCWorkScheduler,
    /// The state that outlives a single collection.
    pub state: GlobalState,
    /// The options.
    pub options: Options,
    /// The runtime.
    pub vm: VMBinding,
    /// The number of collections started.
    pub gc_count: usize,
}

impl MMTK {
    /// The collector is sound when its plan and its scheduler are.
    pub open spec fn wf(&self) -> bool {
        self.plan.wf() && self.scheduler.wf()
    }

    /// A collector made of the given parts.
    pub fn new(plan: Plan, scheduler: GCWorkScheduler, options: Options, vm: VMBinding) -> (mmtk: Self)
        requires
            plan.wf(),
            scheduler.wf(),
        ensures
            mmtk.wf(),
            mmtk.plan == plan,
            mmtk.scheduler == scheduler,
            mmtk.options == options,
            mmtk.vm == vm,
            mmtk.gc_count == 0,
            mmtk.state.gc_status == crate::global_state::GcStatus::NotInGC,
    {
        MMTK { plan, scheduler, state: GlobalState::new(), options, vm, gc_count: 0 }
    }

    /// Records how far the collection has come.
    pub fn set_gc_status(&mut self, status: crate::global_state::GcStatus)
        ensures
            final(self).state == (GlobalState { gc_status: status, ..old(self).state }),
            final(self).plan == old(self).plan,
            final(self).scheduler == old(self).scheduler,
            final(self).options == old(self).options,
            final(self).vm == old(self).vm,
            final(self).gc_count == old(self).gc_count,
    {
        self.state.gc_status = status;
    }
}

} // verus!
