//! The objects of a runtime: how large each is, and which references it
//! holds.

use crate::util::address::Address;
use crate::util::address::ObjectReference;
use std::collections::HashMap;
use vstd::prelude::*;

verus! {

broadcast use vstd::std_specs::hash::group_hash_axioms;

/// An object as the runtime stores it.
pub struct ObjectData {
    /// The size of the object in bytes.
    pub size: usize,
    /// The reference fields of the object. Zero stands for "no object".
    pub fields: Vec<usize>,
}

/// The mathematical content of an object.
#[verifier::ext_equal]
pub struct ObjectView {
    /// The size of the object in bytes.
    pub size: usize,
    /// The reference fields of the object. Zero stands for "no object".
    pub fields: Seq<usize>,
}

/// The objects of a runtime, by the address at which each starts.
pub struct ObjectModel {
    objects: HashMap<usize, ObjectData>,
}

impl View for ObjectModel {
    type V = Map<usize, ObjectView>;

    closed spec fn view(&self) -> Map<usize, ObjectView> {
        Map::new(
            |addr: usize| self.objects@.contains_key(addr),
            |addr: usize|
                ObjectView { size: self.objects@[addr].size, fields: self.objects@[addr].fields@ },
        )
    }
}

impl ObjectModel {
    /// A runtime without objects.
    pub fn new() -> (vm: Self)
        ensures
            vm@ == Map::<usize, ObjectView>::empty(),
    {
        let vm = ObjectModel { objects: HashMap::new() };
        assert(vm@ =~= Map::<usize, ObjectView>::empty());
        vm
    }

    /// Whether an object starts at the address that `object` holds.
    pub fn contains(&self, object: ObjectReference) -> (r: bool)
        ensures
            r == self@.contains_key(object.0),
    {
        self.objects.contains_key(&object.0)
    }

    /// The size of `object` in bytes.
    pub fn get_current_size(&self, object: ObjectReference) -> (size: usize)
        requires
            self@.contains_key(object.0),
        ensures
            size == self@[object.0].size,
    {
        match self.objects.get(&object.0) {
            Some(data) => data.size,
            None => 0,
        }
    }

    /// The number of reference fields of `object`.
    pub fn number_of_fields(&self, object: ObjectReference) -> (n: usize)
        requires
            self@.contains_key(object.0),
        ensures
            n == self@[object.0].fields.len(),
    {
        match self.objects.get(&object.0) {
            Some(data) => data.fields.len(),
            None => 0,
        }
    }

    /// The content of the reference field `index` of `object`.
    pub fn load_field(&self, object: ObjectReference, index: usize) -> (value: usize)
        requires
            self@.contains_key(object.0),
            index < self@[object.0].fields.len(),
        ensures
            value == self@[object.0].fields[index as int],
    {
        match self.objects.get(&object.0) {
            Some(data) => data.fields[index],
            None => 0,
        }
    }

    /// Writes `value` to the reference field `index` of `object`.
    pub fn store_field(&mut self, object: ObjectReference, index: usize, value: usize)
        requires
            old(self)@.contains_key(object.0),
            index < old(self)@[object.0].fields.len(),
        ensures
            final(self)@ == old(self)@.insert(
                object.0,
                ObjectView {
                    size: old(self)@[object.0].size,
                    fields: old(self)@[object.0].fields.update(index as int, value),
                },
            ),
    {
        match self.objects.remove(&object.0) {
            Some(data) => {
                let mut data = data;
                data.fields[index] = value;
                self.objects.insert(object.0, data);
            },
            None => {},
        }
        assert(self@ =~= old(self)@.insert(
            object.0,
            ObjectView {
                size: old(self)@[object.0].size,
                fields: old(self)@[object.0].fields.update(index as int, value),
            },
        ));
    }

    /// Places an object of `size` bytes with the given fields at `addr`.
    /// An object that started there before is gone.
    pub fn insert(&mut self, addr: Address, size: usize, fields: Vec<usize>)
        ensures
            final(self)@ == old(self)@.insert(addr.0, ObjectView { size, fields: fields@ }),
    {
        self.objects.insert(addr.0, ObjectData { size, fields });
        assert(self@ =~= old(self)@.insert(addr.0, ObjectView { size, fields: fields@ }));
    }

    /// Copies `from` to the address `to`. Returns the reference to the
    /// copy.
    pub fn copy(&mut self, from: ObjectReference, to: Address) -> (copy: ObjectReference)
        requires
            old(self)@.contains_key(from.0),
        ensures
            copy.0 == to.0,
            final(self)@ == old(self)@.insert(to.0, old(self)@[from.0]),
    {
        let mut fields: Vec<usize> = Vec::new();
        let size: usize = self.get_current_size(from);
        let count: usize = self.number_of_fields(from);
        let mut i: usize = 0;
        while i < count
            invariant
                self@.contains_key(from.0),
                count == self@[from.0].fields.len(),
                i <= count,
                fields@ == self@[from.0].fields.subrange(0, i as int),
            decreases count - i,
        {
            fields.push(self.load_field(from, i));
            i += 1;
        }
        assert(fields@ =~= self@[from.0].fields);
        self.insert(to, size, fields);
        assert(self@ =~= old(self)@.insert(to.0, old(self)@[from.0]));
        ObjectReference(to.0)
    }
}

} // verus!
