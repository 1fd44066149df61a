//! The forwarding word of an object: the state by which workers settle
//! who copies the object, and the address of the copy.

use crate::util::address::Address;
use crate::util::address::ObjectReference;
use crate::util::metadata::SideMetadataContext;
use crate::util::metadata::SideMetadataSpec;
use crate::util::metadata::SideMetadataView;
use vstd::prelude::*;

verus! {

/// The state of an object that no worker set out to forward.
pub const FORWARDING_NOT_TRIGGERED_YET: u8 = 0;

/// The state of an object that a worker is about to forward or to leave in
/// place.
pub const BEING_FORWARDED: u8 = 2;

/// The state of an object whose forwarding pointer is set.
pub const FORWARDED: u8 = 3;

/// The forwarding state of the object at `addr`.
pub open spec fn forwarding_status(view: SideMetadataView, addr: int) -> u8 {
    view.load(SideMetadataSpec::ForwardingBits, addr)
}

/// The side metadata can hold the forwarding word of `object`.
pub open spec fn can_forward(view: SideMetadataView, object: ObjectReference) -> bool {
    &&& view.wf()
    &&& view.has(SideMetadataSpec::ForwardingBits)
    &&& view.has(SideMetadataSpec::ForwardingPointer)
    &&& view.contains(object.0 as int)
}

/// What a worker gets that asks for the forwarded object while the object
/// is not being forwarded: the copy if there is one, or else the object
/// itself.
pub open spec fn forwarded_object(view: SideMetadataView, object: ObjectReference) -> ObjectReference {
    if forwarding_status(view, object.0 as int) == FORWARDED {
        ObjectReference(view.load_pointer(object.0 as int))
    } else {
        object
    }
}

/// Whether `bits` is the state of an object that is forwarded or being
/// forwarded.
pub fn state_is_forwarded_or_being_forwarded(bits: u8) -> (r: bool)
    ensures
        r == (bits != FORWARDING_NOT_TRIGGERED_YET),
{
    bits != FORWARDING_NOT_TRIGGERED_YET
}

/// Whether `bits` is the state of an object that is being forwarded.
pub fn state_is_being_forwarded(bits: u8) -> (r: bool)
    ensures
        r == (bits == BEING_FORWARDED),
{
    bits == BEING_FORWARDED
}

/// Reads the forwarding state of `object`.
pub fn get_forwarding_status(meta: &SideMetadataContext, object: ObjectReference) -> (bits: u8)
    requires
        can_forward(meta@, object),
    ensures
        bits == forwarding_status(meta@, object.0 as int),
{
    meta.load(SideMetadataSpec::ForwardingBits, Address(object.0))
}

/// Whether `object` is forwarded.
pub fn is_forwarded(meta: &SideMetadataContext, object: ObjectReference) -> (r: bool)
    requires
        can_forward(meta@, object),
    ensures
        r == (forwarding_status(meta@, object.0 as int) == FORWARDED),
{
    get_forwarding_status(meta, object) == FORWARDED
}

/// Whether `object` is forwarded or being forwarded.
pub fn is_forwarded_or_being_forwarded(meta: &SideMetadataContext, object: ObjectReference) -> (r:
    bool)
    requires
        can_forward(meta@, object),
    ensures
        r == (forwarding_status(meta@, object.0 as int) != FORWARDING_NOT_TRIGGERED_YET),
{
    get_forwarding_status(meta, object) != FORWARDING_NOT_TRIGGERED_YET
}

/// Tries to become the worker that forwards `object`: moves the state from
/// "not triggered" to "being forwarded" in one step. Returns the state
/// found. The caller has won exactly if that state is "not triggered".
pub fn attempt_to_forward(meta: &mut SideMetadataContext, object: ObjectReference) -> (found: u8)
    requires
        can_forward(old(meta)@, object),
    ensures
        found == forwarding_status(old(meta)@, object.0 as int),
        found == FORWARDING_NOT_TRIGGERED_YET ==> final(meta)@ == old(meta)@.store(
            SideMetadataSpec::ForwardingBits,
            object.0 as int,
            BEING_FORWARDED,
        ),
        found != FORWARDING_NOT_TRIGGERED_YET ==> final(meta)@ == old(meta)@,
        can_forward(final(meta)@, object),
        forwarding_status(final(meta)@, object.0 as int) != FORWARDING_NOT_TRIGGERED_YET,
{
    proof {
        crate::util::metadata::lemma_index_in_table(
            meta@,
            SideMetadataSpec::ForwardingBits,
            object.0 as int,
        );
    }
    match meta.compare_exchange(
        SideMetadataSpec::ForwardingBits,
        Address(object.0),
        FORWARDING_NOT_TRIGGERED_YET,
        BEING_FORWARDED,
    ) {
        Ok(found) => found,
        Err(found) => found,
    }
}

/// Asks once for the forwarded object. Returns `None` while `object` is
/// being forwarded: the caller asks again later. Otherwise returns the
/// copy if there is one, or else the object itself.
pub fn poll_forwarded_object(meta: &SideMetadataContext, object: ObjectReference) -> (r: Option<
    ObjectReference,
>)
    requires
        can_forward(meta@, object),
    ensures
        forwarding_status(meta@, object.0 as int) == BEING_FORWARDED ==> r.is_none(),
        forwarding_status(meta@, object.0 as int) != BEING_FORWARDED ==> r == Some(
            forwarded_object(meta@, object),
        ),
{
    let bits = get_forwarding_status(meta, object);
    if bits == BEING_FORWARDED {
        None
    } else if bits == FORWARDED {
        Some(read_forwarding_pointer(meta, object))
    } else {
        Some(object)
    }
}

/// Waits for the worker that forwards `object` and returns what it left:
/// the copy if there is one, or else the object itself. The state that the
/// caller found earlier is `forwarding_bits`. The worker that forwards
/// must be done, else the wait would not end.
pub fn spin_and_get_forwarded_object(
    meta: &SideMetadataContext,
    object: ObjectReference,
    forwarding_bits: u8,
) -> (r: ObjectReference)
    requires
        can_forward(meta@, object),
        forwarding_status(meta@, object.0 as int) != BEING_FORWARDED,
        forwarding_bits == BEING_FORWARDED || forwarding_bits == forwarding_status(
            meta@,
            object.0 as int,
        ),
    ensures
        r == forwarded_object(meta@, object),
{
    let mut bits = forwarding_bits;
    if bits == BEING_FORWARDED {
        bits = get_forwarding_status(meta, object);
    }
    if bits == FORWARDED {
        read_forwarding_pointer(meta, object)
    } else {
        object
    }
}

/// Sets the state of `object` back to "not triggered".
pub fn clear_forwarding_bits(meta: &mut SideMetadataContext, object: ObjectReference)
    requires
        can_forward(old(meta)@, object),
    ensures
        final(meta)@ == old(meta)@.store(
            SideMetadataSpec::ForwardingBits,
            object.0 as int,
            FORWARDING_NOT_TRIGGERED_YET,
        ),
        can_forward(final(meta)@, object),
        forwarding_status(final(meta)@, object.0 as int) == FORWARDING_NOT_TRIGGERED_YET,
{
    proof {
        crate::util::metadata::lemma_index_in_table(
            meta@,
            SideMetadataSpec::ForwardingBits,
            object.0 as int,
        );
    }
    meta.store(
        SideMetadataSpec::ForwardingBits,
        Address(object.0),
        FORWARDING_NOT_TRIGGERED_YET,
    );
}

/// Reads the forwarding pointer of `object`.
pub fn read_forwarding_pointer(meta: &SideMetadataContext, object: ObjectReference) -> (r:
    ObjectReference)
    requires
        can_forward(meta@, object),
    ensures
        r.0 == meta@.load_pointer(object.0 as int),
{
    ObjectReference(meta.load_pointer(Address(object.0)))
}

/// Writes `new_object` as the forwarding pointer of `object`.
pub fn write_forwarding_pointer(
    meta: &mut SideMetadataContext,
    object: ObjectReference,
    new_object: ObjectReference,
)
    requires
        can_forward(old(meta)@, object),
    ensures
        final(meta)@ == old(meta)@.store_pointer(object.0 as int, new_object.0),
        can_forward(final(meta)@, object),
{
    meta.store_pointer(Address(object.0), new_object.0);
}

/// Publishes the copy of `object`: writes the forwarding pointer, then
/// sets the state to "forwarded".
pub fn publish_forwarded_object(
    meta: &mut SideMetadataContext,
    object: ObjectReference,
    new_object: ObjectReference,
)
    requires
        can_forward(old(meta)@, object),
    ensures
        final(meta)@ == old(meta)@.store_pointer(object.0 as int, new_object.0).store(
            SideMetadataSpec::ForwardingBits,
            object.0 as int,
            FORWARDED,
        ),
        can_forward(final(meta)@, object),
        forwarded_object(final(meta)@, object) == new_object,
{
    proof {
        crate::util::metadata::lemma_index_in_table(
            meta@,
            SideMetadataSpec::ForwardingBits,
            object.0 as int,
        );
        crate::util::metadata::lemma_index_in_table(
            meta@,
            SideMetadataSpec::ForwardingPointer,
            object.0 as int,
        );
    }
    write_forwarding_pointer(meta, object, new_object);
    meta.store(SideMetadataSpec::ForwardingBits, Address(object.0), FORWARDED);
}

} // verus!
