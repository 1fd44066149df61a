//! Why a trace that never moves objects reaches every object that the
//! roots reach: what each packet of the trace contributes.

use crate::mmtk::MMTK;
use crate::plan::global::effective_kind;
use crate::plan::global::plan_traced;
use crate::plan::global::Plan;
use crate::policy::gc_work::TraceKind;
use crate::policy::gc_work::TRACE_KIND_TRANSITIVE_PIN;
use crate::policy::immix::block::block_state;
use crate::policy::immix::block::BlockState;
use crate::policy::immix::forwarding::trace_moves;
use crate::policy::immix::immixspace::lemma_block_of_in_space;
use crate::policy::immix::immixspace::ImmixSpaceView;
use crate::policy::immix::immixspace::TRACE_KIND_FAST;
use crate::policy::immix::marks::lemma_marked_in_place_extends_marks;
use crate::policy::immix::marks::lemma_marks_extended_reflexive;
use crate::policy::immix::marks::marks_extended;
use crate::scheduler::scan::all_packet_slots;
use crate::scheduler::scan::buffer_slots;
use crate::util::address::ObjectReference;
use crate::vm::object_model::ObjectView;
use crate::vm::slot::Slot;
use crate::vm::vm_binding::object_slots;
use crate::scheduler::gc_work::PlanProcessEdges;
use crate::scheduler::worker::GCWorker;
use crate::policy::immix::survival::lemma_marks_kept_keeps_alive;
use crate::policy::immix::survival::marks_kept;
use vstd::prelude::*;
use crate::util::object_forwarding::forwarding_status;

verus! {

/// Whether a trace of kind `kind` never moves an object.
pub open spec fn never_moves(kind: TraceKind) -> bool {
    kind == TRACE_KIND_FAST || kind == TRACE_KIND_TRANSITIVE_PIN
}

/// The object that a trace in place of `object` marks: the object itself
/// if the plan can trace it and it is not marked yet.
pub open spec fn newly_marked(
    space: ImmixSpaceView,
    vm: Map<usize, ObjectView>,
    object: ObjectReference,
) -> Option<ObjectReference> {
    if Plan::traceable(space, vm, object) && !space.is_marked(object) {
        Some(object)
    } else {
        None
    }
}

/// The space after a trace that never moves objects looked at `object`:
/// the object is marked in place if the plan can trace it and it was not
/// marked.
pub open spec fn traced_in_place(
    space: ImmixSpaceView,
    vm: Map<usize, ObjectView>,
    object: ObjectReference,
) -> ImmixSpaceView {
    if newly_marked(space, vm, object).is_some() {
        space.with_meta(space.marked_in_place(object, vm[object.0].size as int))
    } else {
        space
    }
}

/// The space after a trace that never moves objects looked at each of
/// `roots`, in their order.
pub open spec fn roots_traced(
    space: ImmixSpaceView,
    vm: Map<usize, ObjectView>,
    roots: Seq<ObjectReference>,
) -> ImmixSpaceView
    decreases roots.len(),
{
    if roots.len() == 0 {
        space
    } else {
        traced_in_place(roots_traced(space, vm, roots.drop_last()), vm, roots.last())
    }
}

/// The objects that a trace that never moves objects reaches for the
/// first time when it looks at each of `roots`, in their order.
pub open spec fn roots_reached(
    space: ImmixSpaceView,
    vm: Map<usize, ObjectView>,
    roots: Seq<ObjectReference>,
) -> Seq<ObjectReference>
    decreases roots.len(),
{
    if roots.len() == 0 {
        Seq::empty()
    } else {
        let reached = roots_reached(space, vm, roots.drop_last());
        if newly_marked(roots_traced(space, vm, roots.drop_last()), vm, roots.last()).is_some() {
            reached.push(roots.last())
        } else {
            reached
        }
    }
}

/// What a trace that never moves objects changes: it marks the object if
/// the plan can trace it and it is not marked yet, and enqueues it then;
/// it returns the object and leaves the objects of the runtime as they
/// are.
pub proof fn lemma_trace_in_place(
    before: ImmixSpaceView,
    after: ImmixSpaceView,
    queue_before: Seq<ObjectReference>,
    queue_after: Seq<ObjectReference>,
    vm_before: Map<usize, ObjectView>,
    vm_after: Map<usize, ObjectView>,
    object: ObjectReference,
    result: ObjectReference,
    kind: TraceKind,
    marked: bool,
)
    requires
        before.wf(),
        never_moves(kind),
        plan_traced(
            before,
            after,
            queue_before,
            queue_after,
            vm_before,
            vm_after,
            object,
            result,
            kind,
            marked,
        ),
    ensures
        result == object,
        vm_after == vm_before,
        after == traced_in_place(before, vm_before, object),
        marks_extended(before, after, newly_marked(before, vm_before, object)),
        queue_after == (if newly_marked(before, vm_before, object).is_some() {
            queue_before.push(object)
        } else {
            queue_before
        }),
{
    if Plan::traceable(before, vm_before, object) {
        assert(effective_kind(before, kind) == kind);
        assert(!trace_moves(before, object, kind));
        if before.is_marked(object) {
            lemma_marks_extended_reflexive(before);
        } else {
            lemma_marked_in_place_extends_marks(before, object, vm_before[object.0].size as int);
        }
    } else {
        lemma_marks_extended_reflexive(before);
    }
}

/// Whether the plan cannot trace the object that `slot` refers to, or
/// that object is marked.
pub open spec fn settled(space: ImmixSpaceView, vm: Map<usize, ObjectView>, slot: Slot) -> bool {
    !Plan::traceable(space, vm, ObjectReference(slot.value(vm))) || space.is_marked(
        ObjectReference(slot.value(vm)),
    )
}

/// Whether `after` has all the marks of `before`, the same forwarding
/// states and the same blocks in use.
pub open spec fn marks_grown(before: ImmixSpaceView, after: ImmixSpaceView) -> bool {
    &&& after.meta.start == before.meta.start
    &&& after.meta.chunks == before.meta.chunks
    &&& after.meta.wf()
    &&& after.mark_state == before.mark_state
    &&& forall|x: ObjectReference|
        before.in_space(x) && before.is_marked(x) ==> #[trigger] after.is_marked(x)
    &&& forall|a: int|
        before.meta.contains(a) ==> #[trigger] forwarding_status(after.meta, a)
            == forwarding_status(before.meta, a)
    &&& forall|b: int|
        before.meta.contains(b) && b % 32768 == 0 ==> (#[trigger] block_state(after.meta, b)
            == BlockState::Unallocated) == (block_state(before.meta, b) == BlockState::Unallocated)
}

/// Where the marks grow, the plan can trace the same objects as before.
pub proof fn lemma_traceable_kept(
    before: ImmixSpaceView,
    after: ImmixSpaceView,
    vm: Map<usize, ObjectView>,
    object: ObjectReference,
)
    requires
        before.meta.wf(),
        marks_grown(before, after),
    ensures
        Plan::traceable(after, vm, object) == Plan::traceable(before, vm, object),
        after.in_space(object) == before.in_space(object),
{
    if before.in_space(object) {
        lemma_block_of_in_space(before.meta, object.0 as int);
    }
}

/// Whether a packet that traced `slots` with a trace that never moves
/// objects did its part: the marks grew; every object that it marked
/// waits in `nodes_after` to be scanned, as does every object that
/// waited before; and every one of the slots that exists is settled.
pub open spec fn slots_traced(
    before: ImmixSpaceView,
    after: ImmixSpaceView,
    vm: Map<usize, ObjectView>,
    slots: Seq<Slot>,
    nodes_before: Seq<ObjectReference>,
    nodes_after: Seq<ObjectReference>,
) -> bool {
    &&& marks_grown(before, after)
    &&& forall|x: ObjectReference|
        before.in_space(x) && #[trigger] after.is_marked(x) && !before.is_marked(x)
            ==> nodes_after.contains(x)
    &&& forall|x: ObjectReference| nodes_before.contains(x) ==> #[trigger] nodes_after.contains(x)
    &&& forall|i: int|
        0 <= i < slots.len() && (#[trigger] slots[i]).valid(vm) ==> settled(after, vm, slots[i])
}

/// What tracing one slot with a trace that never moves objects changes:
/// where the slot exists and holds a reference, the object that it refers
/// to is marked and enqueued if the plan can trace it and it was not
/// marked; otherwise nothing changes.
pub open spec fn slot_traced(
    before: ImmixSpaceView,
    after: ImmixSpaceView,
    vm: Map<usize, ObjectView>,
    slot: Slot,
    nodes_before: Seq<ObjectReference>,
    nodes_after: Seq<ObjectReference>,
) -> bool {
    if slot.valid(vm) && slot.value(vm) != 0 {
        let target = ObjectReference(slot.value(vm));
        &&& marks_extended(before, after, newly_marked(before, vm, target))
        &&& nodes_after == (if newly_marked(before, vm, target).is_some() {
            nodes_before.push(target)
        } else {
            nodes_before
        })
    } else {
        after == before && nodes_after == nodes_before
    }
}

/// A packet that traced no slot did its part.
pub proof fn lemma_no_slots_traced(
    space: ImmixSpaceView,
    vm: Map<usize, ObjectView>,
    nodes: Seq<ObjectReference>,
)
    requires
        space.meta.wf(),
    ensures
        slots_traced(space, space, vm, Seq::empty(), nodes, nodes),
{
}

/// A packet that did its part for some slots and then traced one more
/// did its part for all of them.
pub proof fn lemma_one_more_slot_traced(
    first: ImmixSpaceView,
    before: ImmixSpaceView,
    after: ImmixSpaceView,
    vm: Map<usize, ObjectView>,
    slots: Seq<Slot>,
    slot: Slot,
    nodes_first: Seq<ObjectReference>,
    nodes_before: Seq<ObjectReference>,
    nodes_after: Seq<ObjectReference>,
)
    requires
        first.meta.wf(),
        before.wf(),
        slots_traced(first, before, vm, slots, nodes_first, nodes_before),
        slot_traced(before, after, vm, slot, nodes_before, nodes_after),
        after.meta.wf(),
    ensures
        slots_traced(first, after, vm, slots.push(slot), nodes_first, nodes_after),
{
    let all = slots.push(slot);
    let target = ObjectReference(slot.value(vm));
    let added = if slot.valid(vm) && slot.value(vm) != 0 {
        newly_marked(before, vm, target)
    } else {
        None
    };
    if !(slot.valid(vm) && slot.value(vm) != 0) {
        lemma_marks_extended_reflexive(before);
    }
    assert(marks_extended(before, after, added));
    assert(marks_grown(before, after));
    assert(marks_grown(first, after)) by {
        assert forall|x: ObjectReference| first.in_space(x) && first.is_marked(x) implies #[trigger] after.is_marked(
            x,
        ) by {
            assert(before.is_marked(x));
            assert(before.in_space(x));
        }
        assert forall|a: int| first.meta.contains(a) implies #[trigger] forwarding_status(
            after.meta,
            a,
        ) == forwarding_status(first.meta, a) by {
            assert(forwarding_status(before.meta, a) == forwarding_status(first.meta, a));
        }
        assert forall|b: int| first.meta.contains(b) && b % 32768 == 0 implies (
        #[trigger] block_state(after.meta, b) == BlockState::Unallocated) == (block_state(
            first.meta,
            b,
        ) == BlockState::Unallocated) by {
            assert((block_state(before.meta, b) == BlockState::Unallocated) == (block_state(
                first.meta,
                b,
            ) == BlockState::Unallocated));
        }
    }
    assert forall|x: ObjectReference|
        first.in_space(x) && #[trigger] after.is_marked(x) && !first.is_marked(
            x,
        ) implies nodes_after.contains(x) by {
        assert(before.in_space(x));
        if before.is_marked(x) {
            assert(nodes_before.contains(x));
            let k = choose|k: int| 0 <= k < nodes_before.len() && nodes_before[k] == x;
            assert(nodes_after[k] == x);
        } else {
            assert(added == Some(x));
            assert(nodes_after[nodes_before.len() as int] == x);
        }
    }
    assert forall|x: ObjectReference| nodes_first.contains(x) implies #[trigger] nodes_after.contains(
        x,
    ) by {
        assert(nodes_before.contains(x));
        let k = choose|k: int| 0 <= k < nodes_before.len() && nodes_before[k] == x;
        assert(nodes_after[k] == x);
    }
    assert forall|i: int| 0 <= i < all.len() && (#[trigger] all[i]).valid(vm) implies settled(
        after,
        vm,
        all[i],
    ) by {
        let t = ObjectReference(all[i].value(vm));
        lemma_traceable_kept(before, after, vm, t);
        if i < slots.len() {
            assert(all[i] == slots[i]);
            assert(settled(before, vm, slots[i]));
            if Plan::traceable(before, vm, t) {
                assert(before.in_space(t));
                assert(before.is_marked(t));
            }
        } else {
            assert(all[i] == slot);
            if Plan::traceable(before, vm, t) {
                assert(slot.value(vm) != 0);
                assert(before.in_space(t));
                assert(after.is_marked(t) == (before.is_marked(t) || added == Some(t)));
            }
        }
    }
}

/// Every slot of an object that waits to be scanned is among the slots of
/// the objects that wait.
pub proof fn lemma_slot_of_node(
    vm: Map<usize, ObjectView>,
    nodes: Seq<ObjectReference>,
    slot: Slot,
)
    requires
        slot.valid(vm),
        nodes.contains(slot.holder),
    ensures
        buffer_slots(vm, nodes).contains(slot),
    decreases nodes.len(),
{
    let front = nodes.drop_last();
    let last = nodes.last();
    let all = buffer_slots(vm, nodes);
    let rest = buffer_slots(vm, front);
    let own = object_slots(vm, last);
    assert(all == rest + own);
    if last == slot.holder {
        assert(own[slot.index as int] == slot);
        assert(all[rest.len() + slot.index as int] == slot);
    } else {
        let k = choose|k: int| 0 <= k < nodes.len() && nodes[k] == slot.holder;
        assert(front[k] == slot.holder);
        lemma_slot_of_node(vm, front, slot);
        let j = choose|j: int| 0 <= j < rest.len() && rest[j] == slot;
        assert(all[j] == slot);
    }
}

/// Whether a packet that traced `slots` with a trace that never moves
/// objects, and that had the objects scanned that the trace marked, did
/// its part: the marks grew; every one of the slots that exists is
/// settled; the slots that waited in the bucket still wait; and every
/// slot of every object that the packet marked waits now.
pub open spec fn edges_traced(
    before: ImmixSpaceView,
    after: ImmixSpaceView,
    vm: Map<usize, ObjectView>,
    slots: Seq<Slot>,
    pending_before: Seq<Slot>,
    pending_after: Seq<Slot>,
) -> bool {
    &&& marks_grown(before, after)
    &&& forall|i: int|
        0 <= i < slots.len() && (#[trigger] slots[i]).valid(vm) ==> settled(after, vm, slots[i])
    &&& forall|slot: Slot| pending_before.contains(slot) ==> #[trigger] pending_after.contains(slot)
    &&& forall|slot: Slot|
        #![trigger slot.valid(vm)]
        slot.valid(vm) && before.in_space(slot.holder) && after.is_marked(slot.holder)
            && !before.is_marked(slot.holder) ==> pending_after.contains(slot)
}

/// A packet whose slots were traced, and whose newly marked objects were
/// scanned so that their slots joined the slots that wait, did its
/// part.
pub proof fn lemma_edges_traced(
    before: ImmixSpaceView,
    traced: ImmixSpaceView,
    after: ImmixSpaceView,
    vm: Map<usize, ObjectView>,
    slots: Seq<Slot>,
    nodes_before: Seq<ObjectReference>,
    nodes: Seq<ObjectReference>,
    pending_before: Seq<Slot>,
    pending_after: Seq<Slot>,
)
    requires
        before.meta.wf(),
        traced.meta.wf(),
        slots_traced(before, traced, vm, slots, nodes_before, nodes),
        marks_extended(traced, after, None),
        after.meta.wf(),
        pending_after == pending_before + buffer_slots(vm, nodes),
    ensures
        edges_traced(before, after, vm, slots, pending_before, pending_after),
{
    assert(marks_grown(before, after)) by {
        assert forall|x: ObjectReference| before.in_space(x) && before.is_marked(x) implies #[trigger] after.is_marked(
            x,
        ) by {
            assert(traced.is_marked(x));
            assert(traced.in_space(x));
        }
        assert forall|a: int| before.meta.contains(a) implies #[trigger] forwarding_status(
            after.meta,
            a,
        ) == forwarding_status(before.meta, a) by {
            assert(forwarding_status(traced.meta, a) == forwarding_status(before.meta, a));
        }
        assert forall|b: int| before.meta.contains(b) && b % 32768 == 0 implies (
        #[trigger] block_state(after.meta, b) == BlockState::Unallocated) == (block_state(
            before.meta,
            b,
        ) == BlockState::Unallocated) by {
            assert((block_state(traced.meta, b) == BlockState::Unallocated) == (block_state(
                before.meta,
                b,
            ) == BlockState::Unallocated));
        }
    }
    assert(marks_grown(traced, after));
    assert forall|i: int| 0 <= i < slots.len() && (#[trigger] slots[i]).valid(vm) implies settled(
        after,
        vm,
        slots[i],
    ) by {
        let t = ObjectReference(slots[i].value(vm));
        lemma_traceable_kept(traced, after, vm, t);
        if Plan::traceable(traced, vm, t) {
            assert(traced.in_space(t));
            assert(after.is_marked(t) == (traced.is_marked(t) || None::<ObjectReference> == Some(t)));
        }
    }
    assert forall|slot: Slot| pending_before.contains(slot) implies #[trigger] pending_after.contains(
        slot,
    ) by {
        let k = choose|k: int| 0 <= k < pending_before.len() && pending_before[k] == slot;
        assert(pending_after[k] == slot);
    }
    assert forall|slot: Slot|
        #![trigger slot.valid(vm)]
        slot.valid(vm) && before.in_space(slot.holder) && after.is_marked(slot.holder)
            && !before.is_marked(slot.holder) implies pending_after.contains(slot) by {
        let x = slot.holder;
        assert(traced.in_space(x));
        assert(after.is_marked(x) == (traced.is_marked(x) || None::<ObjectReference> == Some(x)));
        assert(traced.is_marked(x));
        assert(nodes.contains(x));
        lemma_slot_of_node(vm, nodes, slot);
        let found = buffer_slots(vm, nodes);
        let j = choose|j: int| 0 <= j < found.len() && found[j] == slot;
        assert(pending_after[pending_before.len() + j] == slot);
    }
}

/// Whether the slots of `holder` have been handed out to be traced: the
/// holder is a root area or a marked object of the space.
pub open spec fn holder_scanned(space: ImmixSpaceView, roots: Set<usize>, holder: ObjectReference) -> bool {
    roots.contains(holder.0) || (space.in_space(holder) && space.is_marked(holder))
}

/// Whether the trace has left nothing behind: every slot of a root area
/// or of a marked object is settled or waits among `pending` to be
/// traced.
pub open spec fn nothing_left_behind(
    space: ImmixSpaceView,
    vm: Map<usize, ObjectView>,
    roots: Set<usize>,
    pending: Seq<Slot>,
) -> bool {
    forall|slot: Slot|
        #![trigger slot.valid(vm)]
        slot.valid(vm) && holder_scanned(space, roots, slot.holder) ==> settled(space, vm, slot)
            || pending.contains(slot)
}

/// When the roots have been scanned and no object is marked yet, nothing
/// is left behind: the slots of the roots wait to be traced.
pub proof fn lemma_roots_scanned(
    space: ImmixSpaceView,
    vm: Map<usize, ObjectView>,
    roots: Set<usize>,
    pending: Seq<Slot>,
)
    requires
        forall|x: ObjectReference| space.in_space(x) ==> !#[trigger] space.is_marked(x),
        forall|slot: Slot|
            #![trigger slot.valid(vm)]
            slot.valid(vm) && roots.contains(slot.holder.0) ==> pending.contains(slot),
    ensures
        nothing_left_behind(space, vm, roots, pending),
{
}

/// A packet that did its part leaves nothing behind: where its slots
/// waited, together with the slots of `pending_before`, the slots of
/// `pending_after` wait afterwards.
pub proof fn lemma_packet_leaves_nothing_behind(
    before: ImmixSpaceView,
    after: ImmixSpaceView,
    vm: Map<usize, ObjectView>,
    roots: Set<usize>,
    slots: Seq<Slot>,
    pending_before: Seq<Slot>,
    pending_after: Seq<Slot>,
)
    requires
        before.meta.wf(),
        nothing_left_behind(before, vm, roots, pending_before + slots),
        edges_traced(before, after, vm, slots, pending_before, pending_after),
    ensures
        nothing_left_behind(after, vm, roots, pending_after),
{
    assert forall|slot: Slot|
        #![trigger slot.valid(vm)]
        slot.valid(vm) && holder_scanned(after, roots, slot.holder) implies settled(after, vm, slot)
        || pending_after.contains(slot) by {
        let t = ObjectReference(slot.value(vm));
        lemma_traceable_kept(before, after, vm, t);
        lemma_traceable_kept(before, after, vm, slot.holder);
        if holder_scanned(before, roots, slot.holder) {
            let waiting = pending_before + slots;
            if settled(before, vm, slot) {
                if Plan::traceable(before, vm, t) {
                    assert(before.in_space(t));
                    assert(after.is_marked(t));
                }
            } else {
                assert(waiting.contains(slot));
                let k = choose|k: int| 0 <= k < waiting.len() && waiting[k] == slot;
                if k < pending_before.len() {
                    assert(pending_before[k] == slot);
                    assert(pending_before.contains(slot));
                } else {
                    assert(slots[k - pending_before.len()] == slot);
                    assert(settled(after, vm, slots[k - pending_before.len()]));
                }
            }
        } else {
            assert(before.in_space(slot.holder));
            assert(after.is_marked(slot.holder) && !before.is_marked(slot.holder));
        }
    }
}

/// A packet that traces slots with a trace that never moves objects, for
/// a runtime that hands out the slots of objects, leaves nothing behind:
/// where its slots waited together with those of the bucket of its
/// stage, the slots of that bucket wait afterwards.
pub proof fn lemma_packet_run_leaves_nothing_behind(
    packet: PlanProcessEdges,
    after_packet: PlanProcessEdges,
    worker: GCWorker,
    after_worker: GCWorker,
    before: MMTK,
    after: MMTK,
    roots: Set<usize>,
)
    requires
        before.wf(),
        never_moves(packet.kind),
        before.vm.slot_enqueuing,
        packet.done(after_packet, worker, after_worker, before, after),
        nothing_left_behind(
            before.plan.immix_space@,
            before.vm.objects@,
            roots,
            all_packet_slots(before.scheduler.packets(packet.base.bucket)) + packet.base.slots@,
        ),
    ensures
        after.vm.objects@ == before.vm.objects@,
        nothing_left_behind(
            after.plan.immix_space@,
            after.vm.objects@,
            roots,
            all_packet_slots(after.scheduler.packets(packet.base.bucket)),
        ),
{
    lemma_packet_leaves_nothing_behind(
        before.plan.immix_space@,
        after.plan.immix_space@,
        before.vm.objects@,
        roots,
        packet.base.slots@,
        all_packet_slots(before.scheduler.packets(packet.base.bucket)),
        all_packet_slots(after.scheduler.packets(packet.base.bucket)),
    );
}

/// Whether the object at `from` holds a reference to the object at `to`.
pub open spec fn refers_to(vm: Map<usize, ObjectView>, from: usize, to: usize) -> bool {
    exists|slot: Slot|
        #![trigger slot.valid(vm)]
        slot.valid(vm) && slot.holder.0 == from && slot.value(vm) == to
}

/// Whether the object at `target` is reached from one of the root areas
/// `roots` by following `steps` references, where every object on the way
/// is one that the plan can trace.
pub open spec fn reached_in(
    space: ImmixSpaceView,
    vm: Map<usize, ObjectView>,
    roots: Set<usize>,
    target: usize,
    steps: nat,
) -> bool
    decreases steps,
{
    if steps == 0 {
        roots.contains(target)
    } else {
        exists|from: usize|
            #![trigger refers_to(vm, from, target)]
            {
                &&& reached_in(space, vm, roots, from, (steps - 1) as nat)
                &&& (roots.contains(from) || Plan::traceable(space, vm, ObjectReference(from)))
                &&& refers_to(vm, from, target)
            }
    }
}

/// When the trace has left nothing behind and no slot waits any more,
/// every object that the plan can trace and that is reached from the
/// roots by way of such objects is marked.
pub proof fn lemma_complete_trace_marks_reachable(
    space: ImmixSpaceView,
    vm: Map<usize, ObjectView>,
    roots: Set<usize>,
    target: usize,
    steps: nat,
)
    requires
        nothing_left_behind(space, vm, roots, Seq::empty()),
        reached_in(space, vm, roots, target, steps),
        Plan::traceable(space, vm, ObjectReference(target)),
    ensures
        roots.contains(target) || space.is_marked(ObjectReference(target)),
    decreases steps,
{
    if steps > 0 {
        let from = choose|from: usize|
            #![trigger refers_to(vm, from, target)]
            {
                &&& reached_in(space, vm, roots, from, (steps - 1) as nat)
                &&& (roots.contains(from) || Plan::traceable(space, vm, ObjectReference(from)))
                &&& refers_to(vm, from, target)
            };
        if !roots.contains(from) {
            lemma_complete_trace_marks_reachable(space, vm, roots, from, (steps - 1) as nat);
        }
        let slot = choose|slot: Slot|
            #![trigger slot.valid(vm)]
            slot.valid(vm) && slot.holder.0 == from && slot.value(vm) == target;
        assert(slot.holder == ObjectReference(from));
        assert(holder_scanned(space, roots, slot.holder));
        assert(settled(space, vm, slot) || Seq::<Slot>::empty().contains(slot));
    }
}

/// An object that the plan can trace and that the roots reach is marked
/// when the trace has left nothing behind, and stays marked while the
/// marks are kept, as they are when the space is swept and released.
pub proof fn lemma_reachable_object_stays_marked(
    traced: ImmixSpaceView,
    after: ImmixSpaceView,
    vm: Map<usize, ObjectView>,
    roots: Set<usize>,
    target: usize,
    steps: nat,
)
    requires
        nothing_left_behind(traced, vm, roots, Seq::empty()),
        reached_in(traced, vm, roots, target, steps),
        Plan::traceable(traced, vm, ObjectReference(target)),
        !roots.contains(target),
        marks_kept(traced, after),
    ensures
        after.is_marked(ObjectReference(target)),
{
    lemma_complete_trace_marks_reachable(traced, vm, roots, target, steps);
    lemma_marks_kept_keeps_alive(traced, after, ObjectReference(target));
}

} // verus!
