//! The stages of a collection and the buckets that hold the work of each.

use crate::scheduler::work::WorkPacket;
use vstd::prelude::*;
use crate::scheduler::gc_work::Prepare;
use crate::scheduler::gc_work::Release;

verus! {

/// The stages of a collection, in the order in which they open. A stage
/// opens when all stages before it have run out of work.
#[derive(Clone, Copy, PartialEq, Eq, Structural, Debug, Hash)]
pub enum WorkBucketStage {
    /// Work that can run at any time.
    Unconstrained,
    /// Work that readies the plan, the spaces, the mutators and the
    /// workers.
    Prepare,
    /// Work that clears the records of valid objects.
    ClearVOBits,
    /// The trace of the roots that pin what they refer to.
    PinningRootsTrace,
    /// The trace from the roots that pin all that they reach.
    TPinningClosure,
    /// The trace of the object graph.
    Closure,
    /// The processing of the weak references of the runtime.
    VMRefClosure,
    /// The forwarding of the weak references of the runtime.
    VMRefForwarding,
    /// Work that reclaims memory.
    Release,
}

/// The number of stages.
pub const NUM_STAGES: usize = 9;

impl WorkBucketStage {
    /// The position of the stage in the order of the stages.
    pub open spec fn spec_index(self) -> int {
        match self {
            WorkBucketStage::Unconstrained => 0,
            WorkBucketStage::Prepare => 1,
            WorkBucketStage::ClearVOBits => 2,
            WorkBucketStage::PinningRootsTrace => 3,
            WorkBucketStage::TPinningClosure => 4,
            WorkBucketStage::Closure => 5,
            WorkBucketStage::VMRefClosure => 6,
            WorkBucketStage::VMRefForwarding => 7,
            WorkBucketStage::Release => 8,
        }
    }

    /// The position of the stage in the order of the stages.
    pub fn index(self) -> (i: usize)
        ensures
            i == self.spec_index(),
            i < NUM_STAGES,
    {
        match self {
            WorkBucketStage::Unconstrained => 0,
            WorkBucketStage::Prepare => 1,
            WorkBucketStage::ClearVOBits => 2,
            WorkBucketStage::PinningRootsTrace => 3,
            WorkBucketStage::TPinningClosure => 4,
            WorkBucketStage::Closure => 5,
            WorkBucketStage::VMRefClosure => 6,
            WorkBucketStage::VMRefForwarding => 7,
            WorkBucketStage::Release => 8,
        }
    }

    /// The stage at position `i`.
    pub fn from_index(i: usize) -> (stage: WorkBucketStage)
        requires
            i < NUM_STAGES,
        ensures
            stage.spec_index() == i,
    {
        if i == 0 {
            WorkBucketStage::Unconstrained
        } else if i == 1 {
            WorkBucketStage::Prepare
        } else if i == 2 {
            WorkBucketStage::ClearVOBits
        } else if i == 3 {
            WorkBucketStage::PinningRootsTrace
        } else if i == 4 {
            WorkBucketStage::TPinningClosure
        } else if i == 5 {
            WorkBucketStage::Closure
        } else if i == 6 {
            WorkBucketStage::VMRefClosure
        } else if i == 7 {
            WorkBucketStage::VMRefForwarding
        } else {
            WorkBucketStage::Release
        }
    }
}

/// The work of one stage: the packets that wait to be run, oldest first,
/// and a sentinel that is run when the packets have run out.
pub struct WorkBucket {
    /// The packets that wait to be run, oldest first.
    pub queue: Vec<WorkPacket>,
    /// The packet to run when the queue has run empty.
    pub sentinel: Option<WorkPacket>,
}

impl WorkBucket {
    /// The packets that wait to be run, oldest first.
    pub open spec fn packets(&self) -> Seq<WorkPacket> {
        self.queue@
    }

    /// A bucket without work.
    pub fn new() -> (b: Self)
        ensures
            b.packets().len() == 0,
            b.sentinel.is_none(),
    {
        WorkBucket { queue: Vec::new(), sentinel: None }
    }

    /// Whether no packet waits in the bucket.
    pub fn is_empty(&self) -> (r: bool)
        ensures
            r == (self.packets().len() == 0),
    {
        self.queue.len() == 0
    }

    /// The number of packets that wait in the bucket.
    pub fn len(&self) -> (n: usize)
        ensures
            n == self.packets().len(),
    {
        self.queue.len()
    }

    /// Adds one packet.
    pub fn add(&mut self, packet: WorkPacket)
        ensures
            final(self).packets() == old(self).packets().push(packet),
            final(self).sentinel == old(self).sentinel,
    {
        self.queue.push(packet);
    }

    /// Adds packets, in their order.
    pub fn bulk_add(&mut self, packets: Vec<WorkPacket>)
        ensures
            final(self).packets() == old(self).packets() + packets@,
            final(self).sentinel == old(self).sentinel,
    {
        let mut packets = packets;
        self.queue.append(&mut packets);
    }

    /// Sets the packet to run when the queue has run empty.
    pub fn set_sentinel(&mut self, packet: WorkPacket)
        ensures
            final(self).packets() == old(self).packets(),
            final(self).sentinel == Some(packet),
    {
        self.sentinel = Some(packet);
    }

    /// Takes the next packet to run: the oldest in the queue, or the
    /// sentinel when the queue is empty. Returns `None` when there is
    /// neither.
    pub fn poll(&mut self) -> (r: Option<WorkPacket>)
        ensures
            old(self).packets().len() > 0 ==> r == Some(old(self).packets()[0]) && final(self).packets() == old(self).packets().subrange(1, old(self).packets().len() as int)
                && final(self).sentinel == old(self).sentinel,
            old(self).packets().len() == 0 ==> r == old(self).sentinel && final(self).packets()
                == old(self).packets() && final(self).sentinel.is_none(),
    {
        if self.queue.len() > 0 {
            Some(self.queue.remove(0))
        } else {
            self.sentinel.take()
        }
    }
}

} // verus!
