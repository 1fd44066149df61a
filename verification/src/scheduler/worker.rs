//! A worker of the collector.

use crate::policy::immix::immixspace::ImmixSpaceView;
use crate::util::copy::GCWorkerCopyContext;
use crate::util::opaque_pointer::VMWorkerThread;
use crate::mmtk::MMTK;
use crate::scheduler::scheduler::GCWorkScheduler;
use crate::scheduler::work::WorkPacket;
use vstd::prelude::*;

verus! {

/// A worker of the collector: a thread that runs work packets.
pub struct GCWorker {
    /// The thread of the runtime that the worker runs on.
    pub tls: VMWorkerThread,
    /// The position of the worker among the workers.
    pub ordinal: usize,
    /// The allocators that take the copies that the worker makes.
    pub copy: GCWorkerCopyContext,
    /// The number of bytes of the objects that the worker scanned.
    pub live_bytes: usize,
}

impl GCWorker {
    /// The worker can copy into the space.
    pub open spec fn wf(&self, space: ImmixSpaceView) -> bool {
        self.copy.wf(space)
    }

    /// A worker that copies into the Immix space with one allocator.
    pub fn new(tls: VMWorkerThread, ordinal: usize) -> (w: Self)
        ensures
            w.tls == tls,
            w.ordinal == ordinal,
            w.live_bytes == 0,
            w.copy is Immix,
            forall|space: ImmixSpaceView| w.wf(space),
    {
        GCWorker { tls, ordinal, copy: GCWorkerCopyContext::new_immix(tls), live_bytes: 0 }
    }
}

/// The packet that the worker at position `ordinal` takes next: the
/// oldest of those set aside for it, or else the packet that the
/// scheduler hands out next.
pub open spec fn next_packet(scheduler: GCWorkScheduler, ordinal: usize) -> Option<WorkPacket> {
    if ordinal < scheduler.designated_work@.len() && scheduler.designated_work@[ordinal as int]@.len()
        > 0 {
        Some(scheduler.designated_work@[ordinal as int]@[0])
    } else {
        scheduler.next_polled()
    }
}

/// Whether `after` is `before` without the packet that the worker at
/// position `ordinal` takes next.
pub open spec fn packet_taken(before: GCWorkScheduler, after: GCWorkScheduler, ordinal: usize) -> bool {
    if ordinal < before.designated_work@.len() && before.designated_work@[ordinal as int]@.len() > 0 {
        let own = before.designated_work@[ordinal as int]@;
        &&& after.work_buckets == before.work_buckets
        &&& after.mutators_paused == before.mutators_paused
        &&& after.worker_live_bytes == before.worker_live_bytes
        &&& after.designated_work@.len() == before.designated_work@.len()
        &&& after.designated_work@[ordinal as int]@ == own.subrange(1, own.len() as int)
        &&& forall|k: int|
            0 <= k < before.designated_work@.len() && k != ordinal
                ==> after.designated_work@[k] == before.designated_work@[k]
    } else {
        before.polled(after)
    }
}

/// What one step of a worker leaves behind: nothing changes when no
/// packet is left for the worker; otherwise the worker takes its next
/// packet and runs it if the packet can run.
pub open spec fn worker_step(worker: GCWorker, after_worker: GCWorker, before: MMTK, after: MMTK) -> bool {
    match next_packet(before.scheduler, worker.ordinal) {
        None => after == before && after_worker == worker,
        Some(packet) => exists|taken: MMTK|
            #![trigger packet_taken(before.scheduler, taken.scheduler, worker.ordinal)]
            {
                &&& packet_taken(before.scheduler, taken.scheduler, worker.ordinal)
                &&& taken.plan == before.plan
                &&& taken.vm == before.vm
                &&& taken.state == before.state
                &&& taken.options == before.options
                &&& taken.gc_count == before.gc_count
                &&& if packet.ready(&worker, &taken) {
                    exists|ran: WorkPacket|
                        #![trigger packet.done(ran, worker, after_worker, taken, after)]
                        packet.done(ran, worker, after_worker, taken, after)
                } else {
                    after == taken && after_worker == worker
                }
            },
    }
}

/// What `steps` steps of a worker, each of which found a packet, leave
/// behind.
pub open spec fn worker_ran(
    worker: GCWorker,
    after_worker: GCWorker,
    before: MMTK,
    after: MMTK,
    steps: nat,
) -> bool
    decreases steps,
{
    if steps == 0 {
        after == before && after_worker == worker
    } else {
        exists|mid_worker: GCWorker, mid: MMTK|
            #![trigger worker_step(mid_worker, after_worker, mid, after)]
            {
                &&& worker_ran(worker, mid_worker, before, mid, (steps - 1) as nat)
                &&& next_packet(mid.scheduler, mid_worker.ordinal).is_some()
                &&& worker_step(mid_worker, after_worker, mid, after)
            }
    }
}

impl GCWorker {
    /// Takes the next packet for the worker, the oldest of those set
    /// aside for it or else the next of the scheduler, and runs it if it
    /// can run. Returns whether there was a packet.
    pub fn poll_and_run(&mut self, mmtk: &mut MMTK) -> (found: bool)
        requires
            old(mmtk).wf(),
        ensures
            final(mmtk).wf(),
            final(self).tls == old(self).tls,
            final(self).ordinal == old(self).ordinal,
            final(self).live_bytes == old(self).live_bytes,
            found == next_packet(old(mmtk).scheduler, old(self).ordinal).is_some(),
            worker_step(*old(self), *final(self), *old(mmtk), *final(mmtk)),
    {
        let designated = if self.ordinal < mmtk.scheduler.designated_work.len()
            && mmtk.scheduler.designated_work[self.ordinal].len() > 0 {
            Some(mmtk.scheduler.designated_work[self.ordinal].remove(0))
        } else {
            None
        };
        let packet = match designated {
            Some(packet) => Some(packet),
            None => mmtk.scheduler.poll(),
        };
        let ghost taken = *mmtk;
        proof {
            old(mmtk).scheduler.lemma_next_stage_has_work(0);
            assert(packet == next_packet(old(mmtk).scheduler, old(self).ordinal));
            if packet.is_some() {
                assert(packet_taken(old(mmtk).scheduler, taken.scheduler, old(self).ordinal));
            }
        }
        match packet {
            Some(packet) => {
                let mut packet = packet;
                let ghost first = packet;
                if packet.is_ready(self, mmtk) {
                    packet.do_work(self, mmtk);
                    proof {
                        assert(first.done(packet, *old(self), *self, taken, *mmtk));
                    }
                }
                true
            },
            None => false,
        }
    }

    /// Runs packets until none is left or `limit` packets were run.
    /// Returns the number of packets taken.
    pub fn run(&mut self, mmtk: &mut MMTK, limit: usize) -> (taken: usize)
        requires
            old(mmtk).wf(),
        ensures
            final(mmtk).wf(),
            taken <= limit,
            final(self).tls == old(self).tls,
            final(self).ordinal == old(self).ordinal,
            final(self).live_bytes == old(self).live_bytes,
            taken < limit ==> next_packet(final(mmtk).scheduler, final(self).ordinal).is_none(),
            worker_ran(*old(self), *final(self), *old(mmtk), *final(mmtk), taken as nat),
    {
        let mut taken: usize = 0;
        while taken < limit
            invariant
                taken <= limit,
                mmtk.wf(),
                self.tls == old(self).tls,
                self.ordinal == old(self).ordinal,
                self.live_bytes == old(self).live_bytes,
                worker_ran(*old(self), *self, *old(mmtk), *mmtk, taken as nat),
            decreases limit - taken,
        {
            let ghost mid_worker = *self;
            let ghost mid = *mmtk;
            if !self.poll_and_run(mmtk) {
                return taken;
            }
            proof {
                assert(worker_step(mid_worker, *self, mid, *mmtk));
            }
            taken += 1;
        }
        taken
    }
}

} // verus!
