//! Slots: the places that hold references.

use crate::util::address::ObjectReference;
use crate::vm::object_model::ObjectModel;
use crate::vm::object_model::ObjectView;
use vstd::prelude::*;

verus! {

/// A slot: one reference field of an object or of a root area, which the
/// runtime keeps like an object.
#[derive(Clone, Copy, PartialEq, Eq, Structural, Debug, Hash)]
pub struct Slot {
    /// The object or root area that holds the field.
    pub holder: ObjectReference,
    /// The position of the field.
    pub index: usize,
}

impl Slot {
    /// Whether the slot names a field that exists.
    pub open spec fn valid(self, vm: Map<usize, ObjectView>) -> bool {
        vm.contains_key(self.holder.0) && self.index < vm[self.holder.0].fields.len()
    }

    /// The content of the slot.
    pub open spec fn value(self, vm: Map<usize, ObjectView>) -> usize {
        vm[self.holder.0].fields[self.index as int]
    }

    /// Whether the slot names a field that exists.
    pub fn is_valid(&self, vm: &ObjectModel) -> (r: bool)
        ensures
            r == self.valid(vm@),
    {
        vm.contains(self.holder) && self.index < vm.number_of_fields(self.holder)
    }

    /// Reads the reference that the slot holds, or `None` if it holds
    /// none.
    pub fn load(&self, vm: &ObjectModel) -> (r: Option<ObjectReference>)
        requires
            self.valid(vm@),
        ensures
            r == (if self.value(vm@) == 0 {
                None
            } else {
                Some(ObjectReference(self.value(vm@)))
            }),
    {
        let raw = vm.load_field(self.holder, self.index);
        if raw == 0 {
            None
        } else {
            Some(ObjectReference(raw))
        }
    }

    /// Writes a reference to the slot.
    pub fn store(&self, vm: &mut ObjectModel, object: ObjectReference)
        requires
            self.valid(old(vm)@),
        ensures
            final(vm)@ == old(vm)@.insert(
                self.holder.0,
                ObjectView {
                    size: old(vm)@[self.holder.0].size,
                    fields: old(vm)@[self.holder.0].fields.update(self.index as int, object.0),
                },
            ),
    {
        vm.store_field(self.holder, self.index, object.0);
    }
}

} // verus!
