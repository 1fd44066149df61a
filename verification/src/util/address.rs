//! Raw addresses and references to objects.

use crate::util::constants::MIN_OBJECT_SIZE;
use vstd::prelude::*;

verus! {

/// A position in the address space. The zero address stands for "nowhere".
#[derive(Clone, Copy, PartialEq, Eq, Structural, Debug, Hash)]
pub struct Address(pub usize);

impl Address {
    /// The zero address.
    pub fn zero() -> (a: Address)
        ensures
            a.0 == 0,
    {
        Address(0)
    }

    /// The address with the given numeric value.
    pub fn from_usize(raw: usize) -> (a: Address)
        ensures
            a.0 == raw,
    {
        Address(raw)
    }

    /// The numeric value of the address.
    pub fn as_usize(self) -> (raw: usize)
        ensures
            raw == self.0,
    {
        self.0
    }

    /// Whether this is the zero address.
    pub fn is_zero(self) -> (z: bool)
        ensures
            z == (self.0 == 0),
    {
        self.0 == 0
    }

    /// Whether the address is a multiple of `align`.
    pub fn is_aligned_to(self, align: usize) -> (r: bool)
        requires
            align > 0,
        ensures
            r == (self.0 % align == 0),
    {
        self.0 % align == 0
    }

    /// The largest multiple of `align` that is not above the address.
    pub fn align_down(self, align: usize) -> (a: Address)
        requires
            align > 0,
        ensures
            a.0 == self.0 - self.0 % align,
    {
        let rem: usize = self.0 % align;
        assert(rem <= self.0) by (nonlinear_arith)
            requires
                rem == self.0 % align,
                align > 0,
        ;
        Address(self.0 - rem)
    }

    /// The distance in bytes from `other` up to this address.
    pub fn get_extent(self, other: Address) -> (bytes: usize)
        requires
            other.0 <= self.0,
        ensures
            bytes == self.0 - other.0,
    {
        self.0 - other.0
    }
}

/// A reference to an object: the address at which the object starts.
#[derive(Clone, Copy, PartialEq, Eq, Structural, Debug, Hash)]
pub struct ObjectReference(pub usize);

impl ObjectReference {
    /// The address the reference holds.
    pub open spec fn addr(self) -> int {
        self.0 as int
    }

    /// A reference is well formed when it is not null and sits on an object
    /// boundary.
    pub open spec fn wf(self) -> bool {
        self.0 != 0 && self.0 % MIN_OBJECT_SIZE == 0
    }

    /// The reference to the object at `addr`, or `None` for the zero address.
    pub fn from_raw_address(addr: Address) -> (r: Option<ObjectReference>)
        ensures
            addr.0 == 0 ==> r.is_none(),
            addr.0 != 0 ==> r == Some(ObjectReference(addr.0)),
    {
        if addr.0 == 0 {
            None
        } else {
            Some(ObjectReference(addr.0))
        }
    }

    /// The address at which the object starts.
    pub fn to_raw_address(self) -> (a: Address)
        ensures
            a.0 == self.0,
    {
        Address(self.0)
    }
}

} // verus!
