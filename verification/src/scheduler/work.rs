//! Work packets: the units of work of a collection.

use crate::policy::immix::prepare::PrepareBlockState;
use crate::policy::immix::sweep::SweepChunk;
use crate::policy::immix::vo_bits::ClearVOBitsAfterPrepare;
use crate::scheduler::gc_work::PlanProcessEdges;
use crate::scheduler::gc_work::PlanScanObjects;
use crate::scheduler::gc_work::Prepare;
use crate::scheduler::gc_work::PrepareCollector;
use crate::scheduler::gc_work::PrepareMutator;
use crate::scheduler::gc_work::ProcessRootNode;
use crate::scheduler::gc_work::Release;
use crate::scheduler::gc_work::ReleaseCollector;
use crate::scheduler::gc_work::ReleaseMutator;
use crate::scheduler::gc_work::SFTProcessEdges;
use crate::scheduler::gc_work::ScanMutatorRoots;
use crate::scheduler::gc_work::ScanObjects;
use crate::scheduler::gc_work::ScanVMSpecificRoots;
use crate::scheduler::gc_work::ScheduleCollection;
use crate::scheduler::gc_work::StopMutators;
use crate::scheduler::gc_work::VMForwardWeakRefs;
use crate::scheduler::gc_work::VMPostForwarding;
use crate::scheduler::gc_work::VMProcessWeakRefs;
use crate::mmtk::MMTK;
use crate::scheduler::worker::GCWorker;
use crate::vm::slot::Slot;
use vstd::prelude::*;

verus! {

/// A work packet.
pub enum WorkPacket {
    /// Starts a collection.
    ScheduleCollection(ScheduleCollection),
    /// Readies the plan for a collection.
    Prepare(Prepare),
    /// Readies one mutator.
    PrepareMutator(PrepareMutator),
    /// Readies one worker.
    PrepareCollector(PrepareCollector),
    /// Lets the plan reclaim memory.
    Release(Release),
    /// Ends the collection for one mutator.
    ReleaseMutator(ReleaseMutator),
    /// Ends the collection for one worker.
    ReleaseCollector(ReleaseCollector),
    /// Stops the mutators.
    StopMutators(StopMutators),
    /// Processes the weak references of the runtime.
    VMProcessWeakRefs(VMProcessWeakRefs),
    /// Forwards the weak references of the runtime.
    VMForwardWeakRefs(VMForwardWeakRefs),
    /// Tells the runtime that forwarding is over.
    VMPostForwarding(VMPostForwarding),
    /// Scans the roots of one mutator.
    ScanMutatorRoots(ScanMutatorRoots),
    /// Scans the roots that belong to no mutator.
    ScanVMSpecificRoots(ScanVMSpecificRoots),
    /// Traces slots by way of the table of spaces.
    SFTProcessEdges(SFTProcessEdges),
    /// Traces slots by way of the plan.
    PlanProcessEdges(PlanProcessEdges),
    /// Scans objects.
    ScanObjects(ScanObjects),
    /// Scans objects and lets the plan look at each afterwards.
    PlanScanObjects(PlanScanObjects),
    /// Traces root objects that must not move.
    ProcessRootNode(ProcessRootNode),
    /// Readies the blocks of one chunk for a collection.
    PrepareBlockState(PrepareBlockState),
    /// Sweeps the blocks of one chunk.
    SweepChunk(SweepChunk),
    /// Clears records of valid objects in one chunk.
    ClearVOBitsAfterPrepare(ClearVOBitsAfterPrepare),
}

/// The slots that a packet is to trace.
pub open spec fn packet_slots(packet: WorkPacket) -> Seq<Slot> {
    match packet {
        WorkPacket::PlanProcessEdges(p) => p.base.slots@,
        WorkPacket::SFTProcessEdges(p) => p.base.slots@,
        _ => Seq::empty(),
    }
}

impl WorkPacket {
    /// Whether the packet can run: the collector is sound, the packet has
    /// what it needs, and, for a packet that traces, the allocators of the
    /// worker fit the space. A packet that traces by way of the table of
    /// spaces can never run.
    pub open spec fn ready(&self, worker: &GCWorker, mmtk: &MMTK) -> bool {
        &&& mmtk.wf()
        &&& match self {
            WorkPacket::Prepare(p) => p.ready(mmtk),
            WorkPacket::PrepareMutator(p) => p.ready(mmtk),
            WorkPacket::ReleaseMutator(p) => p.ready(mmtk),
            WorkPacket::ScanMutatorRoots(p) => p.ready(mmtk),
            WorkPacket::SFTProcessEdges(p) => false,
            WorkPacket::PlanProcessEdges(p) => p.wf() && worker.wf(mmtk.plan.immix_space@),
            WorkPacket::ScanObjects(p) => crate::scheduler::gc_work::is_trace_kind(p.kind)
                && worker.wf(mmtk.plan.immix_space@),
            WorkPacket::PlanScanObjects(p) => crate::scheduler::gc_work::is_trace_kind(p.kind)
                && worker.wf(mmtk.plan.immix_space@),
            WorkPacket::ProcessRootNode(p) => p.ready() && worker.wf(mmtk.plan.immix_space@),
            WorkPacket::PrepareBlockState(p) => p.ready(mmtk.plan.immix_space@),
            WorkPacket::SweepChunk(p) => p.ready(mmtk.plan.immix_space@),
            WorkPacket::ClearVOBitsAfterPrepare(p) => p.ready(mmtk.plan.immix_space@),
            _ => true,
        }
    }

    /// Whether the packet can run.
    pub fn is_ready(&self, worker: &GCWorker, mmtk: &MMTK) -> (r: bool)
        requires
            mmtk.wf(),
        ensures
            r == self.ready(worker, mmtk),
    {
        let space = &mmtk.plan.immix_space;
        match self {
            WorkPacket::Prepare(p) => {
                let total: usize = mmtk.plan.total_pages;
                let reserved: usize = space.pr.reserved_pages();
                reserved <= usize::MAX / 2 && total <= usize::MAX - 2 * reserved
            },
            WorkPacket::PrepareMutator(p) => p.mutator < mmtk.vm.mutators.len(),
            WorkPacket::ReleaseMutator(p) => p.mutator < mmtk.vm.mutators.len(),
            WorkPacket::ScanMutatorRoots(p) => p.mutator < mmtk.vm.mutators.len()
                && mmtk.state.scanned_stacks < usize::MAX,
            WorkPacket::SFTProcessEdges(p) => false,
            WorkPacket::PlanProcessEdges(p) => known_kind(p.kind) && worker.copy.fits(space),
            WorkPacket::ScanObjects(p) => known_kind(p.kind) && worker.copy.fits(space),
            WorkPacket::PlanScanObjects(p) => known_kind(p.kind) && worker.copy.fits(space),
            WorkPacket::ProcessRootNode(p) => (p.root_kind
                == crate::policy::immix::immixspace::TRACE_KIND_FAST || p.root_kind
                == crate::policy::gc_work::TRACE_KIND_TRANSITIVE_PIN) && known_kind(p.object_kind)
                && worker.copy.fits(space),
            WorkPacket::PrepareBlockState(p) => p.chunk.0 % crate::util::constants::BYTES_IN_CHUNK
                == 0 && space.metadata.contains(p.chunk.start()),
            WorkPacket::SweepChunk(p) => p.is_ready(space),
            WorkPacket::ClearVOBitsAfterPrepare(p) => p.chunk.0
                % crate::util::constants::BYTES_IN_CHUNK == 0 && space.metadata.contains(
                p.chunk.start(),
            ) && space.modes.vo_bit && (match p.scope {
                crate::policy::immix::vo_bits::VOBitsClearingScope::Line { .. } => !space.modes.block_only,
                _ => true,
            }),
            _ => true,
        }
    }

    /// What running the packet leaves behind: what running a packet of its
    /// kind leaves behind. `after_self`, `after_worker` and `after` are the
    /// packet, the worker and the collector afterwards.
    pub open spec fn done(
        &self,
        after_self: WorkPacket,
        worker: GCWorker,
        after_worker: GCWorker,
        before: MMTK,
        after: MMTK,
    ) -> bool {
        match (*self, after_self) {
            (WorkPacket::ScheduleCollection(p), WorkPacket::ScheduleCollection(q)) => p.done(
                q,
                worker,
                after_worker,
                before,
                after,
            ),
            (WorkPacket::Prepare(p), WorkPacket::Prepare(q)) => p.done(
                q,
                worker,
                after_worker,
                before,
                after,
            ),
            (WorkPacket::PrepareMutator(p), WorkPacket::PrepareMutator(q)) => p.done(
                q,
                worker,
                after_worker,
                before,
                after,
            ),
            (WorkPacket::PrepareCollector(p), WorkPacket::PrepareCollector(q)) => p.done(
                q,
                worker,
                after_worker,
                before,
                after,
            ),
            (WorkPacket::Release(p), WorkPacket::Release(q)) => p.done(
                q,
                worker,
                after_worker,
                before,
                after,
            ),
            (WorkPacket::ReleaseMutator(p), WorkPacket::ReleaseMutator(q)) => p.done(
                q,
                worker,
                after_worker,
                before,
                after,
            ),
            (WorkPacket::ReleaseCollector(p), WorkPacket::ReleaseCollector(q)) => p.done(
                q,
                worker,
                after_worker,
                before,
                after,
            ),
            (WorkPacket::StopMutators(p), WorkPacket::StopMutators(q)) => p.done(
                q,
                worker,
                after_worker,
                before,
                after,
            ),
            (WorkPacket::VMProcessWeakRefs(p), WorkPacket::VMProcessWeakRefs(q)) => p.done(
                q,
                worker,
                after_worker,
                before,
                after,
            ),
            (WorkPacket::VMForwardWeakRefs(p), WorkPacket::VMForwardWeakRefs(q)) => p.done(
                q,
                worker,
                after_worker,
                before,
                after,
            ),
            (WorkPacket::VMPostForwarding(p), WorkPacket::VMPostForwarding(q)) => p.done(
                q,
                worker,
                after_worker,
                before,
                after,
            ),
            (WorkPacket::ScanMutatorRoots(p), WorkPacket::ScanMutatorRoots(q)) => p.done(
                q,
                worker,
                after_worker,
                before,
                after,
            ),
            (WorkPacket::ScanVMSpecificRoots(p), WorkPacket::ScanVMSpecificRoots(q)) => p.done(
                q,
                worker,
                after_worker,
                before,
                after,
            ),
            (WorkPacket::PlanProcessEdges(p), WorkPacket::PlanProcessEdges(q)) => p.done(
                q,
                worker,
                after_worker,
                before,
                after,
            ),
            (WorkPacket::ScanObjects(p), WorkPacket::ScanObjects(q)) => p.done(
                q,
                worker,
                after_worker,
                before,
                after,
            ),
            (WorkPacket::PlanScanObjects(p), WorkPacket::PlanScanObjects(q)) => p.done(
                q,
                worker,
                after_worker,
                before,
                after,
            ),
            (WorkPacket::ProcessRootNode(p), WorkPacket::ProcessRootNode(q)) => p.done(
                q,
                worker,
                after_worker,
                before,
                after,
            ),
            (WorkPacket::PrepareBlockState(p), WorkPacket::PrepareBlockState(q)) => p.done(
                q,
                worker,
                after_worker,
                before,
                after,
            ),
            (WorkPacket::SweepChunk(p), WorkPacket::SweepChunk(q)) => p.done(
                q,
                worker,
                after_worker,
                before,
                after,
            ),
            (WorkPacket::ClearVOBitsAfterPrepare(p), WorkPacket::ClearVOBitsAfterPrepare(q)) => p.done(
                q,
                worker,
                after_worker,
                before,
                after,
            ),
            _ => false,
        }
    }

    /// Runs the packet.
    pub fn do_work(&mut self, worker: &mut GCWorker, mmtk: &mut MMTK)
        requires
            old(self).ready(old(worker), old(mmtk)),
        ensures
            old(self).done(*final(self), *old(worker), *final(worker), *old(mmtk), *final(mmtk)),
            final(mmtk).wf(),
            final(worker).tls == old(worker).tls,
            final(worker).ordinal == old(worker).ordinal,
            final(worker).live_bytes == old(worker).live_bytes,
    {
        match self {
            WorkPacket::ScheduleCollection(p) => p.do_work(worker, mmtk),
            WorkPacket::Prepare(p) => p.do_work(worker, mmtk),
            WorkPacket::PrepareMutator(p) => p.do_work(worker, mmtk),
            WorkPacket::PrepareCollector(p) => p.do_work(worker, mmtk),
            WorkPacket::Release(p) => p.do_work(worker, mmtk),
            WorkPacket::ReleaseMutator(p) => p.do_work(worker, mmtk),
            WorkPacket::ReleaseCollector(p) => p.do_work(worker, mmtk),
            WorkPacket::StopMutators(p) => p.do_work(worker, mmtk),
            WorkPacket::VMProcessWeakRefs(p) => p.do_work(worker, mmtk),
            WorkPacket::VMForwardWeakRefs(p) => p.do_work(worker, mmtk),
            WorkPacket::VMPostForwarding(p) => p.do_work(worker, mmtk),
            WorkPacket::ScanMutatorRoots(p) => p.do_work(worker, mmtk),
            WorkPacket::ScanVMSpecificRoots(p) => p.do_work(worker, mmtk),
            WorkPacket::SFTProcessEdges(p) => {},
            WorkPacket::PlanProcessEdges(p) => p.do_work(worker, mmtk),
            WorkPacket::ScanObjects(p) => p.do_work(worker, mmtk),
            WorkPacket::PlanScanObjects(p) => p.do_work(worker, mmtk),
            WorkPacket::ProcessRootNode(p) => p.do_work(worker, mmtk),
            WorkPacket::PrepareBlockState(p) => p.do_work(worker, mmtk),
            WorkPacket::SweepChunk(p) => p.do_work(worker, mmtk),
            WorkPacket::ClearVOBitsAfterPrepare(p) => p.do_work(worker, mmtk),
        }
    }
}

/// Whether `kind` is one of the kinds of trace.
fn known_kind(kind: crate::policy::gc_work::TraceKind) -> (r: bool)
    ensures
        r == crate::scheduler::gc_work::is_trace_kind(kind),
{
    kind == crate::policy::immix::immixspace::TRACE_KIND_FAST || kind
        == crate::policy::immix::immixspace::TRACE_KIND_DEFRAG || kind
        == crate::policy::gc_work::TRACE_KIND_TRANSITIVE_PIN
}

} // verus!
