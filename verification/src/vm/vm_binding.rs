//! The runtime as the collector sees it: its objects, its mutators and its
//! roots.

use crate::util::address::ObjectReference;
use crate::util::allocators::immix_allocator::ImmixAllocator;
use crate::util::opaque_pointer::VMMutatorThread;
use crate::util::opaque_pointer::VMWorkerThread;
use crate::vm::object_model::ObjectModel;
use crate::vm::slot::Slot;
use vstd::prelude::*;

verus! {

/// A mutator: a thread of the runtime that runs the program.
pub struct Mutator {
    /// The thread of the mutator.
    pub tls: VMMutatorThread,
    /// The root area of the mutator: its fields are the roots of the
    /// thread.
    pub roots: ObjectReference,
    /// The allocator of the mutator.
    pub allocator: ImmixAllocator,
}

impl Mutator {
    /// A mutator with the root area `roots`.
    pub fn new(tls: VMMutatorThread, roots: ObjectReference) -> (m: Self)
        ensures
            m.tls == tls,
            m.roots == roots,
            m.allocator.cursor == 0,
            m.allocator.limit == 0,
            m.allocator.line.is_none(),
            !m.allocator.copy,
    {
        Mutator { tls, roots, allocator: ImmixAllocator::new(tls.0, false) }
    }

    /// Readies the mutator for a collection: its allocator gives up the
    /// memory that it holds.
    pub fn prepare(&mut self, tls: VMWorkerThread)
        ensures
            final(self).tls == old(self).tls,
            final(self).roots == old(self).roots,
            final(self).allocator.cursor == 0,
            final(self).allocator.limit == 0,
            final(self).allocator.line.is_none(),
            final(self).allocator.copy == old(self).allocator.copy,
    {
        self.allocator.reset();
    }

    /// Ends a collection for the mutator: its allocator gives up the
    /// memory that it holds.
    pub fn release(&mut self, tls: VMWorkerThread)
        ensures
            final(self).tls == old(self).tls,
            final(self).roots == old(self).roots,
            final(self).allocator.cursor == 0,
            final(self).allocator.limit == 0,
            final(self).allocator.line.is_none(),
            final(self).allocator.copy == old(self).allocator.copy,
    {
        self.allocator.reset();
    }

    /// Hands what the mutator buffered to the collector. The mutator of
    /// this model buffers nothing.
    pub fn flush(&mut self)
        ensures
            *final(self) == *old(self),
    {
    }
}

/// The runtime.
pub struct VMBinding {
    /// The objects.
    pub objects: ObjectModel,
    /// The mutators.
    pub mutators: Vec<Mutator>,
    /// The roots that belong to no mutator.
    pub vm_roots: Vec<Slot>,
    /// The objects that roots pin.
    pub pinning_roots: Vec<ObjectReference>,
    /// The objects from which roots pin all that is reachable.
    pub tpinning_roots: Vec<ObjectReference>,
    /// The number of rounds of weak reference processing that the runtime
    /// still asks for.
    pub weak_ref_rounds: usize,
    /// Whether objects are scanned by handing out their slots. If not,
    /// the runtime traces the fields of an object itself.
    pub slot_enqueuing: bool,
    /// Whether the mutators are stopped.
    pub mutators_stopped: bool,
    /// Whether the runtime was told that all mutators were scanned.
    pub initial_scan_complete: bool,
    /// Whether the runtime was told that forwarding is over.
    pub post_forwarding_done: bool,
}

impl VMBinding {
    /// A runtime without objects, mutators or roots.
    pub fn new(slot_enqueuing: bool) -> (vm: Self)
        ensures
            vm.objects@ == Map::<usize, crate::vm::object_model::ObjectView>::empty(),
            vm.mutators@.len() == 0,
            vm.vm_roots@.len() == 0,
            vm.pinning_roots@.len() == 0,
            vm.tpinning_roots@.len() == 0,
            vm.weak_ref_rounds == 0,
            vm.slot_enqueuing == slot_enqueuing,
            !vm.mutators_stopped,
            !vm.initial_scan_complete,
            !vm.post_forwarding_done,
    {
        VMBinding {
            objects: ObjectModel::new(),
            mutators: Vec::new(),
            vm_roots: Vec::new(),
            pinning_roots: Vec::new(),
            tpinning_roots: Vec::new(),
            weak_ref_rounds: 0,
            slot_enqueuing,
            mutators_stopped: false,
            initial_scan_complete: false,
            post_forwarding_done: false,
        }
    }

    /// The number of mutators.
    pub fn number_of_mutators(&self) -> (n: usize)
        ensures
            n == self.mutators@.len(),
    {
        self.mutators.len()
    }

    /// Processes the weak references of the runtime. Returns whether the
    /// runtime asks for another round after the trace that this round set
    /// off.
    pub fn process_weak_refs(&mut self, tls: VMWorkerThread) -> (repeat: bool)
        ensures
            repeat == (old(self).weak_ref_rounds > 0),
            *final(self) == (VMBinding {
                weak_ref_rounds: if old(self).weak_ref_rounds > 0 {
                    (old(self).weak_ref_rounds - 1) as usize
                } else {
                    0
                },
                ..*old(self)
            }),
    {
        if self.weak_ref_rounds > 0 {
            self.weak_ref_rounds = self.weak_ref_rounds - 1;
            true
        } else {
            false
        }
    }

    /// Forwards the weak references of the runtime. The runtime of this
    /// model keeps none.
    pub fn forward_weak_refs(&mut self, tls: VMWorkerThread)
        ensures
            *final(self) == *old(self),
    {
    }

    /// Whether the fields of `object` are handed out as slots when the
    /// object is scanned.
    pub fn support_slot_enqueuing(&self, tls: VMWorkerThread, object: ObjectReference) -> (r: bool)
        ensures
            r == self.slot_enqueuing,
    {
        self.slot_enqueuing
    }

    /// The slots of the fields of `object`, in their order. An object
    /// that the runtime does not know has none.
    pub fn scan_object(&self, tls: VMWorkerThread, object: ObjectReference) -> (slots: Vec<Slot>)
        ensures
            slots@ == object_slots(self.objects@, object),
    {
        let mut slots: Vec<Slot> = Vec::new();
        if !self.objects.contains(object) {
            return slots;
        }
        let count = self.objects.number_of_fields(object);
        let mut i: usize = 0;
        while i < count
            invariant
                self.objects@.contains_key(object.0),
                count == self.objects@[object.0].fields.len(),
                i <= count,
                slots@.len() == i,
                forall|k: int| 0 <= k < i ==> slots@[k] == (Slot { holder: object, index: k as usize }),
            decreases count - i,
        {
            slots.push(Slot { holder: object, index: i });
            i += 1;
        }
        assert(slots@ =~= object_slots(self.objects@, object));
        slots
    }
}

/// The slots of the fields of `object`, in their order.
pub open spec fn object_slots(
    vm: Map<usize, crate::vm::object_model::ObjectView>,
    object: ObjectReference,
) -> Seq<Slot> {
    if vm.contains_key(object.0) {
        Seq::new(vm[object.0].fields.len(), |k: int| Slot { holder: object, index: k as usize })
    } else {
        Seq::empty()
    }
}

} // verus!
