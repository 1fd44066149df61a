//! Enqueuing by slots: a packet that traces slots takes the slots of an
//! object that its trace reached, in place of the object, and splits when
//! it has taken many.

use crate::mmtk::MMTK;
use crate::plan::global::only_space_changed;
use crate::policy::gc_work::TraceKind;
use crate::scheduler::edges::is_prefix;
use crate::scheduler::edges::traces_slots;
use crate::scheduler::gc_work::PlanProcessEdges;
use crate::scheduler::scan::post_scan_object;
use crate::scheduler::scan::post_scanned;
use crate::scheduler::scheduler::GCWorkScheduler;
use crate::scheduler::work::WorkPacket;
use crate::scheduler::work_bucket::WorkBucketStage;
use crate::scheduler::worker::GCWorker;
use crate::util::address::ObjectReference;
use crate::util::constants::EDGES_WORK_BUFFER_SIZE;
use crate::vm::object_model::ObjectModel;
use crate::vm::object_model::ObjectView;
use crate::vm::slot::Slot;
use crate::vm::vm_binding::object_slots;
use vstd::prelude::*;

verus! {

/// The slots that a packet holds, the number of slots that it took since
/// it last split, and the slots of the packets that it split off, oldest
/// first.
pub struct EdgeBuffer {
    /// The slots that the packet holds.
    pub slots: Seq<Slot>,
    /// The number of slots taken since the last split.
    pub pushes: u32,
    /// The slots of the packets that were split off.
    pub packets: Seq<Seq<Slot>>,
}

/// Whether a packet with `slots` slots that took `pushes` slots since it
/// last split splits now.
pub open spec fn splits(slots: int, pushes: int) -> bool {
    (slots >= EDGES_WORK_BUFFER_SIZE || pushes >= EDGES_WORK_BUFFER_SIZE / 2) && slots > 1
}

/// The buffer after the packet took `slot`. A slot that does not exist or
/// holds no reference is passed over. Any other slot joins the slots of
/// the packet; if the packet then holds as many slots as a packet takes,
/// or took half as many since it last split, and holds more than one
/// slot, the second half of its slots is split off, and the count of
/// slots taken becomes the number of slots that stay.
pub open spec fn slot_pushed(buffer: EdgeBuffer, vm: Map<usize, ObjectView>, slot: Slot) -> EdgeBuffer {
    if !slot.valid(vm) || slot.value(vm) == 0 {
        buffer
    } else {
        let slots = buffer.slots.push(slot);
        let half = slots.len() / 2;
        if splits(slots.len() as int, buffer.pushes + 1) {
            EdgeBuffer {
                slots: slots.subrange(0, half as int),
                pushes: half as u32,
                packets: buffer.packets.push(slots.subrange(half as int, slots.len() as int)),
            }
        } else {
            EdgeBuffer { slots, pushes: (buffer.pushes + 1) as u32, packets: buffer.packets }
        }
    }
}

/// The buffer after the packet took each of `slots`, in their order.
pub open spec fn slots_pushed(
    buffer: EdgeBuffer,
    vm: Map<usize, ObjectView>,
    slots: Seq<Slot>,
) -> EdgeBuffer
    decreases slots.len(),
{
    if slots.len() == 0 {
        buffer
    } else {
        slot_pushed(slots_pushed(buffer, vm, slots.drop_last()), vm, slots.last())
    }
}

/// Whether `after` holds the packets of `before` and then, for each of
/// `added`, a fresh packet that traces those slots.
pub open spec fn packets_added(
    before: Seq<WorkPacket>,
    after: Seq<WorkPacket>,
    added: Seq<Seq<Slot>>,
    bucket: WorkBucketStage,
    kind: TraceKind,
) -> bool {
    &&& after.len() == before.len() + added.len()
    &&& is_prefix(before, after)
    &&& forall|i: int|
        0 <= i < added.len() ==> traces_slots(
            #[trigger] after[before.len() + i],
            added[i],
            bucket,
            kind,
        )
}

impl PlanProcessEdges {
    /// The slots, the count of slots taken and no packet split off: where
    /// the packet stands before it takes slots.
    pub open spec fn buffer(&self) -> EdgeBuffer {
        EdgeBuffer { slots: self.base.slots@, pushes: self.base.pushes, packets: Seq::empty() }
    }

    /// Takes one slot of an object that the trace reached.
    fn push_slot(
        &mut self,
        slot: Slot,
        vm: &ObjectModel,
        scheduler: &mut GCWorkScheduler,
        Ghost(added): Ghost<Seq<Seq<Slot>>>,
    )
        requires
            old(scheduler).wf(),
            old(self).base.pushes < u32::MAX,
            old(self).base.slots@.len() < u32::MAX,
        ensures
            final(self).kind == old(self).kind,
            final(self).base.nodes == old(self).base.nodes,
            final(self).base.worker == old(self).base.worker,
            final(self).base.roots == old(self).base.roots,
            final(self).base.bucket == old(self).base.bucket,
            final(self).base.slots@.len() <= old(self).base.slots@.len() + 1,
            final(self).base.pushes <= old(self).base.pushes + 1 || final(self).base.pushes
                <= final(self).base.slots@.len(),
            old(scheduler).same_but(final(scheduler), old(self).base.bucket),
            final(scheduler).sentinel(old(self).base.bucket) == old(scheduler).sentinel(
                old(self).base.bucket,
            ),
            ({
                let taken = slot_pushed(
                    EdgeBuffer {
                        slots: old(self).base.slots@,
                        pushes: old(self).base.pushes,
                        packets: added,
                    },
                    vm@,
                    slot,
                );
                &&& final(self).base.slots@ == taken.slots
                &&& final(self).base.pushes == taken.pushes
                &&& forall|first: Seq<WorkPacket>|
                    packets_added(
                        first,
                        old(scheduler).packets(old(self).base.bucket),
                        added,
                        old(self).base.bucket,
                        old(self).kind,
                    ) ==> #[trigger] packets_added(
                        first,
                        final(scheduler).packets(old(self).base.bucket),
                        taken.packets,
                        old(self).base.bucket,
                        old(self).kind,
                    )
            }),
    {
        let ghost before = scheduler.packets(self.base.bucket);
        if !slot.is_valid(vm) || slot.load(vm).is_none() {
            return ;
        }
        self.base.slots.push(slot);
        self.base.pushes += 1;
        if self.base.slots.len() >= EDGES_WORK_BUFFER_SIZE || self.base.pushes >= (
        EDGES_WORK_BUFFER_SIZE / 2) as u32 {
            self.flush_half(scheduler);
            proof {
                let after = scheduler.packets(self.base.bucket);
                let slots = old(self).base.slots@.push(slot);
                if slots.len() > 1 {
                    let tail = slots.subrange((slots.len() / 2) as int, slots.len() as int);
                    assert forall|first: Seq<WorkPacket>|
                        packets_added(
                            first,
                            before,
                            added,
                            old(self).base.bucket,
                            old(self).kind,
                        ) implies #[trigger] packets_added(
                        first,
                        after,
                        added.push(tail),
                        old(self).base.bucket,
                        old(self).kind,
                    ) by {
                        assert(after.subrange(0, first.len() as int) =~= before.subrange(
                            0,
                            first.len() as int,
                        ));
                        assert forall|i: int| 0 <= i < added.push(tail).len() implies traces_slots(
                            #[trigger] after[first.len() + i],
                            added.push(tail)[i],
                            old(self).base.bucket,
                            old(self).kind,
                        ) by {
                            if i < added.len() {
                                assert(after[first.len() + i] == before.subrange(
                                    0,
                                    before.len() as int,
                                )[first.len() + i]);
                                assert(after[first.len() + i] == before[first.len() + i]);
                            } else {
                                assert(after[first.len() + i] == after.last());
                            }
                        }
                    }
                }
            }
        }
    }

    /// Takes the slots of `object`, which the trace reached, in place of
    /// the object, and lets the plan look at the object. Slots that hold
    /// no reference are passed over.
    pub fn enqueue(&mut self, object: ObjectReference, worker: &GCWorker, mmtk: &mut MMTK)
        requires
            old(mmtk).wf(),
            worker.wf(old(mmtk).plan.immix_space@),
            old(self).base.pushes + object_slots(old(mmtk).vm.objects@, object).len() <= u32::MAX,
            old(self).base.slots@.len() + object_slots(old(mmtk).vm.objects@, object).len()
                <= u32::MAX,
        ensures
            final(mmtk).wf(),
            worker.wf(final(mmtk).plan.immix_space@),
            only_space_changed(old(mmtk).plan, final(mmtk).plan),
            final(mmtk).state == old(mmtk).state,
            final(mmtk).options == old(mmtk).options,
            final(mmtk).gc_count == old(mmtk).gc_count,
            final(mmtk).vm == old(mmtk).vm,
            final(mmtk).plan.immix_space@ == post_scanned(
                old(mmtk).plan.immix_space@,
                old(mmtk).vm.objects@,
                object,
            ),
            final(self).kind == old(self).kind,
            final(self).base.nodes == old(self).base.nodes,
            final(self).base.worker == old(self).base.worker,
            final(self).base.roots == old(self).base.roots,
            final(self).base.bucket == old(self).base.bucket,
            old(mmtk).scheduler.same_but(&final(mmtk).scheduler, old(self).base.bucket),
            final(mmtk).scheduler.sentinel(old(self).base.bucket) == old(mmtk).scheduler.sentinel(
                old(self).base.bucket,
            ),
            ({
                let taken = slots_pushed(
                    old(self).buffer(),
                    old(mmtk).vm.objects@,
                    object_slots(old(mmtk).vm.objects@, object),
                );
                &&& final(self).base.slots@ == taken.slots
                &&& final(self).base.pushes == taken.pushes
                &&& packets_added(
                    old(mmtk).scheduler.packets(old(self).base.bucket),
                    final(mmtk).scheduler.packets(old(self).base.bucket),
                    taken.packets,
                    old(self).base.bucket,
                    old(self).kind,
                )
            }),
    {
        let slots = mmtk.vm.scan_object(worker.tls, object);
        let n = slots.len();
        let ghost first = mmtk.scheduler.packets(self.base.bucket);
        let ghost vm = mmtk.vm.objects@;
        let ghost mut added: Seq<Seq<Slot>> = Seq::empty();
        let mut i: usize = 0;
        proof {
            assert(slots@.subrange(0, 0) =~= Seq::<Slot>::empty());
            assert(first.subrange(0, first.len() as int) =~= first);
        }
        while i < n
            invariant
                i <= n,
                n == slots@.len(),
                slots@ == object_slots(vm, object),
                vm == old(mmtk).vm.objects@,
                first == old(mmtk).scheduler.packets(old(self).base.bucket),
                mmtk.wf(),
                mmtk.plan == old(mmtk).plan,
                mmtk.state == old(mmtk).state,
                mmtk.options == old(mmtk).options,
                mmtk.gc_count == old(mmtk).gc_count,
                mmtk.vm == old(mmtk).vm,
                self.kind == old(self).kind,
                self.base.nodes == old(self).base.nodes,
                self.base.worker == old(self).base.worker,
                self.base.roots == old(self).base.roots,
                self.base.bucket == old(self).base.bucket,
                self.base.pushes + (n - i) <= u32::MAX,
                self.base.slots@.len() + (n - i) <= u32::MAX,
                old(mmtk).scheduler.same_but(&mmtk.scheduler, old(self).base.bucket),
                mmtk.scheduler.sentinel(old(self).base.bucket) == old(mmtk).scheduler.sentinel(
                    old(self).base.bucket,
                ),
                (EdgeBuffer { slots: self.base.slots@, pushes: self.base.pushes, packets: added })
                    == slots_pushed(old(self).buffer(), vm, slots@.subrange(0, i as int)),
                packets_added(
                    first,
                    mmtk.scheduler.packets(self.base.bucket),
                    added,
                    self.base.bucket,
                    self.kind,
                ),
            decreases n - i,
        {
            let slot = slots[i];
            let ghost before = mmtk.scheduler;
            proof {
                let next = slots@.subrange(0, i + 1);
                assert(next.drop_last() =~= slots@.subrange(0, i as int));
                assert(next.last() == slot);
            }
            self.push_slot(slot, &mmtk.vm.objects, &mut mmtk.scheduler, Ghost(added));
            proof {
                added = slot_pushed(
                    EdgeBuffer {
                        slots: slots_pushed(
                            old(self).buffer(),
                            vm,
                            slots@.subrange(0, i as int),
                        ).slots,
                        pushes: slots_pushed(
                            old(self).buffer(),
                            vm,
                            slots@.subrange(0, i as int),
                        ).pushes,
                        packets: added,
                    },
                    vm,
                    slot,
                ).packets;
                assert forall|s: WorkBucketStage| s != self.base.bucket implies #[trigger] mmtk.scheduler.work_buckets@[s.spec_index()]
                    == old(mmtk).scheduler.work_buckets@[s.spec_index()] by {
                    assert(before.work_buckets@[s.spec_index()] == old(mmtk).scheduler.work_buckets@[s.spec_index()]);
                }
            }
            i += 1;
        }
        proof {
            assert(slots@.subrange(0, n as int) =~= slots@);
        }
        post_scan_object(object, worker, mmtk);
    }
}

} // verus!
