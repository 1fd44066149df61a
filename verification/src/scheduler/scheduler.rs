//! The scheduler: the buckets of all stages and the work set aside for
//! each worker.

use crate::scheduler::work::WorkPacket;
use crate::scheduler::work_bucket::WorkBucket;
use crate::scheduler::work_bucket::WorkBucketStage;
use crate::scheduler::work_bucket::NUM_STAGES;
use vstd::prelude::*;

verus! {

/// Whether `after` is `before` with the packets added that every
/// collection runs: the packet that stops the mutators, in the first
/// stage; the packets that ready the plan and let it reclaim memory; the
/// packet that processes the weak references of the runtime, as the
/// sentinel of its stage; the packet that forwards them; and the packet
/// that tells the runtime that forwarding is over.
pub open spec fn common_work_scheduled(
    before: GCWorkScheduler,
    after: GCWorkScheduler,
    context: crate::scheduler::gc_work::GCWorkContext,
) -> bool {
    &&& after.wf()
    &&& after.designated_work == before.designated_work
    &&& after.mutators_paused == before.mutators_paused
    &&& after.worker_live_bytes == before.worker_live_bytes
    &&& after.packets(WorkBucketStage::Unconstrained) == before.packets(
        WorkBucketStage::Unconstrained,
    ).push(WorkPacket::StopMutators(crate::scheduler::gc_work::StopMutators { context }))
    &&& after.packets(WorkBucketStage::Prepare) == before.packets(WorkBucketStage::Prepare).push(
        WorkPacket::Prepare(crate::scheduler::gc_work::Prepare { context }),
    )
    &&& after.packets(WorkBucketStage::Release) == before.packets(WorkBucketStage::Release).push(
        WorkPacket::Release(crate::scheduler::gc_work::Release { context }),
    ).push(WorkPacket::VMPostForwarding(crate::scheduler::gc_work::VMPostForwarding))
    &&& after.packets(WorkBucketStage::VMRefClosure) == before.packets(WorkBucketStage::VMRefClosure)
    &&& after.sentinel(WorkBucketStage::VMRefClosure) == Some(
        WorkPacket::VMProcessWeakRefs(
            crate::scheduler::gc_work::VMProcessWeakRefs { kind: context.default_kind },
        ),
    )
    &&& after.packets(WorkBucketStage::VMRefForwarding) == before.packets(
        WorkBucketStage::VMRefForwarding,
    ).push(
        WorkPacket::VMForwardWeakRefs(
            crate::scheduler::gc_work::VMForwardWeakRefs { kind: context.default_kind },
        ),
    )
    &&& after.work_buckets@[WorkBucketStage::ClearVOBits.spec_index()]
        == before.work_buckets@[WorkBucketStage::ClearVOBits.spec_index()]
    &&& after.work_buckets@[WorkBucketStage::PinningRootsTrace.spec_index()]
        == before.work_buckets@[WorkBucketStage::PinningRootsTrace.spec_index()]
    &&& after.work_buckets@[WorkBucketStage::TPinningClosure.spec_index()]
        == before.work_buckets@[WorkBucketStage::TPinningClosure.spec_index()]
    &&& after.work_buckets@[WorkBucketStage::Closure.spec_index()]
        == before.work_buckets@[WorkBucketStage::Closure.spec_index()]
    &&& after.sentinel(WorkBucketStage::Unconstrained) == before.sentinel(
        WorkBucketStage::Unconstrained,
    )
    &&& after.sentinel(WorkBucketStage::Prepare) == before.sentinel(WorkBucketStage::Prepare)
    &&& after.sentinel(WorkBucketStage::Release) == before.sentinel(WorkBucketStage::Release)
    &&& after.sentinel(WorkBucketStage::VMRefForwarding) == before.sentinel(
        WorkBucketStage::VMRefForwarding,
    )
}

/// The scheduler of the work of a collection.
pub struct GCWorkScheduler {
    /// The bucket of each stage, in the order of the stages.
    pub work_buckets: Vec<WorkBucket>,
    /// For each worker, the packets that this worker is to run itself.
    pub designated_work: Vec<Vec<WorkPacket>>,
    /// Whether the mutators are known to be stopped.
    pub mutators_paused: bool,
    /// For each worker, the number of bytes of the objects that it
    /// scanned.
    pub worker_live_bytes: Vec<usize>,
}

/// The sum of the numbers of `counts`, or the largest machine word if the
/// sum is larger.
pub open spec fn saturating_total(counts: Seq<usize>) -> usize
    decreases counts.len(),
{
    if counts.len() == 0 {
        0
    } else if saturating_total(counts.drop_last()) + counts.last() > usize::MAX {
        usize::MAX
    } else {
        (saturating_total(counts.drop_last()) + counts.last()) as usize
    }
}

impl GCWorkScheduler {
    /// The scheduler has one bucket for each stage.
    pub open spec fn wf(&self) -> bool {
        self.work_buckets@.len() == NUM_STAGES && self.worker_live_bytes@.len()
            == self.designated_work@.len()
    }

    /// The packets that wait in the bucket of `stage`, oldest first.
    pub open spec fn packets(&self, stage: WorkBucketStage) -> Seq<WorkPacket> {
        self.work_buckets@[stage.spec_index()].packets()
    }

    /// The sentinel of the bucket of `stage`.
    pub open spec fn sentinel(&self, stage: WorkBucketStage) -> Option<WorkPacket> {
        self.work_buckets@[stage.spec_index()].sentinel
    }

    /// The number of workers.
    pub open spec fn spec_num_workers(&self) -> nat {
        self.designated_work@.len()
    }

    /// Whether `other` differs from this scheduler at most in the bucket of
    /// `stage`.
    pub open spec fn same_but(&self, other: &GCWorkScheduler, stage: WorkBucketStage) -> bool {
        &&& other.wf()
        &&& self.wf()
        &&& forall|s: WorkBucketStage|
            s != stage ==> #[trigger] other.work_buckets@[s.spec_index()]
                == self.work_buckets@[s.spec_index()]
        &&& other.designated_work == self.designated_work
        &&& other.mutators_paused == self.mutators_paused
        &&& other.worker_live_bytes == self.worker_live_bytes
    }

    /// A scheduler for `num_workers` workers, without work.
    pub fn new(num_workers: usize) -> (s: Self)
        ensures
            s.wf(),
            s.spec_num_workers() == num_workers,
            !s.mutators_paused,
            forall|stage: WorkBucketStage|
                (#[trigger] s.packets(stage)).len() == 0 && s.sentinel(stage).is_none(),
            forall|w: int| 0 <= w < num_workers ==> (#[trigger] s.designated_work@[w])@.len() == 0,
            forall|w: int| 0 <= w < num_workers ==> s.worker_live_bytes@[w] == 0,
    {
        let mut work_buckets: Vec<WorkBucket> = Vec::new();
        let mut i: usize = 0;
        while i < NUM_STAGES
            invariant
                i <= NUM_STAGES,
                work_buckets@.len() == i,
                forall|k: int|
                    0 <= k < i ==> (#[trigger] work_buckets@[k]).packets().len() == 0
                        && work_buckets@[k].sentinel.is_none(),
            decreases NUM_STAGES - i,
        {
            work_buckets.push(WorkBucket::new());
            i += 1;
        }
        let mut designated_work: Vec<Vec<WorkPacket>> = Vec::new();
        let mut w: usize = 0;
        while w < num_workers
            invariant
                w <= num_workers,
                designated_work@.len() == w,
                forall|k: int| 0 <= k < w ==> (#[trigger] designated_work@[k])@.len() == 0,
            decreases num_workers - w,
        {
            designated_work.push(Vec::new());
            w += 1;
        }
        let mut worker_live_bytes: Vec<usize> = Vec::new();
        let mut v: usize = 0;
        while v < num_workers
            invariant
                v <= num_workers,
                worker_live_bytes@.len() == v,
                forall|k: int| 0 <= k < v ==> worker_live_bytes@[k] == 0,
            decreases num_workers - v,
        {
            worker_live_bytes.push(0);
            v += 1;
        }
        GCWorkScheduler { work_buckets, designated_work, mutators_paused: false, worker_live_bytes }
    }

    /// The number of workers.
    pub fn num_workers(&self) -> (n: usize)
        ensures
            n == self.spec_num_workers(),
    {
        self.designated_work.len()
    }

    /// Adds one packet to the bucket of `stage`.
    pub fn add(&mut self, stage: WorkBucketStage, packet: WorkPacket)
        requires
            old(self).wf(),
        ensures
            old(self).same_but(final(self), stage),
            final(self).packets(stage) == old(self).packets(stage).push(packet),
            final(self).sentinel(stage) == old(self).sentinel(stage),
    {
        let i = stage.index();
        self.work_buckets[i].add(packet);
        proof {
            assert forall|s: WorkBucketStage| s != stage implies #[trigger] self.work_buckets@[s.spec_index()]
                == old(self).work_buckets@[s.spec_index()] by {}
        }
    }

    /// Adds packets, in their order, to the bucket of `stage`.
    pub fn bulk_add(&mut self, stage: WorkBucketStage, packets: Vec<WorkPacket>)
        requires
            old(self).wf(),
        ensures
            old(self).same_but(final(self), stage),
            final(self).packets(stage) == old(self).packets(stage) + packets@,
            final(self).sentinel(stage) == old(self).sentinel(stage),
    {
        let i = stage.index();
        self.work_buckets[i].bulk_add(packets);
        proof {
            assert forall|s: WorkBucketStage| s != stage implies #[trigger] self.work_buckets@[s.spec_index()]
                == old(self).work_buckets@[s.spec_index()] by {}
        }
    }

    /// Sets the sentinel of the bucket of `stage`.
    pub fn set_sentinel(&mut self, stage: WorkBucketStage, packet: WorkPacket)
        requires
            old(self).wf(),
        ensures
            old(self).same_but(final(self), stage),
            final(self).packets(stage) == old(self).packets(stage),
            final(self).sentinel(stage) == Some(packet),
    {
        let i = stage.index();
        self.work_buckets[i].set_sentinel(packet);
        proof {
            assert forall|s: WorkBucketStage| s != stage implies #[trigger] self.work_buckets@[s.spec_index()]
                == old(self).work_buckets@[s.spec_index()] by {}
        }
    }

    /// Adds the packets that every collection runs.
    pub fn schedule_common_work(&mut self, context: crate::scheduler::gc_work::GCWorkContext)
        requires
            old(self).wf(),
        ensures
            common_work_scheduled(*old(self), *final(self), context),
    {
        self.add(
            WorkBucketStage::Unconstrained,
            WorkPacket::StopMutators(crate::scheduler::gc_work::StopMutators::new(context)),
        );
        self.add(
            WorkBucketStage::Prepare,
            WorkPacket::Prepare(crate::scheduler::gc_work::Prepare::new(context)),
        );
        self.add(
            WorkBucketStage::Release,
            WorkPacket::Release(crate::scheduler::gc_work::Release::new(context)),
        );
        self.set_sentinel(
            WorkBucketStage::VMRefClosure,
            WorkPacket::VMProcessWeakRefs(
                crate::scheduler::gc_work::VMProcessWeakRefs::new(context.default_kind),
            ),
        );
        self.add(
            WorkBucketStage::VMRefForwarding,
            WorkPacket::VMForwardWeakRefs(
                crate::scheduler::gc_work::VMForwardWeakRefs::new(context.default_kind),
            ),
        );
        self.add(
            WorkBucketStage::Release,
            WorkPacket::VMPostForwarding(crate::scheduler::gc_work::VMPostForwarding),
        );
    }

    /// Sets a packet aside for the worker at position `worker`.
    pub fn push_designated(&mut self, worker: usize, packet: WorkPacket)
        requires
            old(self).wf(),
            worker < old(self).spec_num_workers(),
        ensures
            final(self).wf(),
            final(self).work_buckets == old(self).work_buckets,
            final(self).mutators_paused == old(self).mutators_paused,
            final(self).worker_live_bytes == old(self).worker_live_bytes,
            final(self).designated_work@.len() == old(self).designated_work@.len(),
            final(self).designated_work@[worker as int]@ == old(self).designated_work@[worker as int]@.push(
                packet,
            ),
            forall|w: int|
                0 <= w < old(self).spec_num_workers() && w != worker ==> final(self).designated_work@[w] == old(self).designated_work@[w],
    {
        self.designated_work[worker].push(packet);
    }

    /// Records that the mutators are stopped.
    pub fn notify_mutators_paused(&mut self)
        ensures
            final(self).work_buckets == old(self).work_buckets,
            final(self).designated_work == old(self).designated_work,
            final(self).worker_live_bytes == old(self).worker_live_bytes,
            final(self).mutators_paused,
    {
        self.mutators_paused = true;
    }

    /// Adds `bytes` to the count of the bytes that the worker at position
    /// `worker` scanned. The count stops at the largest machine word. A
    /// position that is no worker's is passed over.
    pub fn increase_live_bytes(&mut self, worker: usize, bytes: usize)
        requires
            old(self).wf(),
        ensures
            final(self).wf(),
            final(self).work_buckets == old(self).work_buckets,
            final(self).designated_work == old(self).designated_work,
            final(self).mutators_paused == old(self).mutators_paused,
            worker < old(self).spec_num_workers() ==> final(self).worker_live_bytes@ == old(self).worker_live_bytes@.update(
                worker as int,
                if old(self).worker_live_bytes@[worker as int] + bytes > usize::MAX {
                    usize::MAX
                } else {
                    (old(self).worker_live_bytes@[worker as int] + bytes) as usize
                },
            ),
            worker >= old(self).spec_num_workers() ==> final(self).worker_live_bytes == old(self).worker_live_bytes,
    {
        if worker < self.worker_live_bytes.len() {
            let held: usize = self.worker_live_bytes[worker];
            let sum: usize = if held > usize::MAX - bytes {
                usize::MAX
            } else {
                held + bytes
            };
            self.worker_live_bytes[worker] = sum;
        }
    }

    /// Sums up the bytes that the workers scanned and starts their counts
    /// again at zero. The sum stops at the largest machine word.
    pub fn get_and_clear_worker_live_bytes(&mut self) -> (total: usize)
        requires
            old(self).wf(),
        ensures
            final(self).wf(),
            final(self).work_buckets == old(self).work_buckets,
            final(self).designated_work == old(self).designated_work,
            final(self).mutators_paused == old(self).mutators_paused,
            total == saturating_total(old(self).worker_live_bytes@),
            final(self).worker_live_bytes@.len() == old(self).worker_live_bytes@.len(),
            forall|w: int|
                0 <= w < final(self).worker_live_bytes@.len() ==> final(self).worker_live_bytes@[w]
                    == 0,
    {
        let mut total: usize = 0;
        let mut w: usize = 0;
        let ghost counts = self.worker_live_bytes@;
        proof {
            assert(counts.subrange(0, 0) =~= Seq::<usize>::empty());
        }
        while w < self.worker_live_bytes.len()
            invariant
                self.wf(),
                self.work_buckets == old(self).work_buckets,
                self.designated_work == old(self).designated_work,
                self.mutators_paused == old(self).mutators_paused,
                counts == old(self).worker_live_bytes@,
                self.worker_live_bytes@.len() == counts.len(),
                w <= counts.len(),
                total == saturating_total(counts.subrange(0, w as int)),
                forall|k: int| 0 <= k < w ==> self.worker_live_bytes@[k] == 0,
                forall|k: int| w <= k < counts.len() ==> self.worker_live_bytes@[k] == counts[k],
            decreases counts.len() - w,
        {
            proof {
                let next = counts.subrange(0, w + 1);
                assert(next.drop_last() =~= counts.subrange(0, w as int));
                assert(next.last() == counts[w as int]);
            }
            let held: usize = self.worker_live_bytes[w];
            total = if total > usize::MAX - held {
                usize::MAX
            } else {
                total + held
            };
            self.worker_live_bytes[w] = 0;
            w += 1;
        }
        proof {
            assert(counts.subrange(0, w as int) =~= counts);
        }
        total
    }

    /// The number of stages that are open: all once the mutators are
    /// stopped, and only the first before.
    pub open spec fn open_stages(&self) -> int {
        if self.mutators_paused {
            NUM_STAGES as int
        } else {
            1
        }
    }

    /// Whether the bucket at position `i` has work: a packet that waits,
    /// or a sentinel.
    pub open spec fn has_work(&self, i: int) -> bool {
        self.work_buckets@[i].packets().len() > 0 || self.work_buckets@[i].sentinel.is_some()
    }

    /// The position of the first open stage at or after position `from`
    /// that has work, or the number of open stages if there is none.
    pub open spec fn next_stage(&self, from: int) -> int
        decreases self.open_stages() - from,
    {
        if from >= self.open_stages() {
            self.open_stages()
        } else if self.has_work(from) {
            from
        } else {
            self.next_stage(from + 1)
        }
    }

    /// The stage that is found from position `from` on has work.
    pub proof fn lemma_next_stage_has_work(&self, from: int)
        requires
            0 <= from,
        ensures
            self.next_stage(from) < self.open_stages() ==> from <= self.next_stage(from)
                && self.has_work(self.next_stage(from)),
        decreases self.open_stages() - from,
    {
        if from < self.open_stages() && !self.has_work(from) {
            self.lemma_next_stage_has_work(from + 1);
        }
    }

    /// The packet that is run next: the oldest packet of the first open
    /// stage that has work, or the sentinel of that stage if no packet
    /// waits in it; `None` when no open stage has work.
    pub open spec fn next_polled(&self) -> Option<WorkPacket> {
        let i = self.next_stage(0);
        if i >= self.open_stages() {
            None
        } else if self.work_buckets@[i].packets().len() > 0 {
            Some(self.work_buckets@[i].packets()[0])
        } else {
            self.work_buckets@[i].sentinel
        }
    }

    /// Whether `after` is the scheduler without the packet that is run
    /// next: the packet left its bucket, and a sentinel that was taken is
    /// no longer set.
    pub open spec fn polled(&self, after: GCWorkScheduler) -> bool {
        let i = self.next_stage(0);
        &&& after.designated_work == self.designated_work
        &&& after.mutators_paused == self.mutators_paused
        &&& after.worker_live_bytes == self.worker_live_bytes
        &&& if i >= self.open_stages() {
            after.work_buckets == self.work_buckets
        } else {
            let bucket = self.work_buckets@[i];
            &&& 0 <= i < NUM_STAGES
            &&& after.work_buckets@.len() == self.work_buckets@.len()
            &&& forall|k: int|
                0 <= k < NUM_STAGES && k != i ==> after.work_buckets@[k] == self.work_buckets@[k]
            &&& if bucket.packets().len() > 0 {
                &&& after.work_buckets@[i].packets() == bucket.packets().subrange(
                    1,
                    bucket.packets().len() as int,
                )
                &&& after.work_buckets@[i].sentinel == bucket.sentinel
            } else {
                &&& after.work_buckets@[i].packets() == bucket.packets()
                &&& after.work_buckets@[i].sentinel.is_none()
            }
        }
    }

    /// Takes the next packet to run: the oldest packet of the first open
    /// stage that has work, or the sentinel of that stage if no packet
    /// waits in it. Before the mutators are stopped only the first stage
    /// is open. Returns `None` when no open stage has work.
    pub fn poll(&mut self) -> (r: Option<WorkPacket>)
        requires
            old(self).wf(),
        ensures
            final(self).wf(),
            r == old(self).next_polled(),
            old(self).polled(*final(self)),
    {
        let open: usize = if self.mutators_paused {
            NUM_STAGES
        } else {
            1
        };
        let mut i: usize = 0;
        while i < open
            invariant
                self.wf(),
                open == old(self).open_stages(),
                open <= NUM_STAGES,
                i <= open,
                *self == *old(self),
                old(self).next_stage(0) == old(self).next_stage(i as int),
            decreases open - i,
        {
            if self.work_buckets[i].len() > 0 || self.work_buckets[i].sentinel.is_some() {
                let r = self.work_buckets[i].poll();
                return r;
            }
            i += 1;
        }
        None
    }
}

} // verus!
