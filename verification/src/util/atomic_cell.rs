//! Counters and tags that a space shares with its workers, held in cells of
//! the `atomic` crate.
//!
//! Verus is told what a cell holds through a name for its content. That
//! reading is sound as long as every write goes through an exclusive
//! borrow, which all writers in this module ask for: between two such
//! borrows a shared borrow always sees the same content.

use ::atomic::Atomic;
use ::atomic::Ordering;
use vstd::prelude::*;

verus! {

#[verifier::external_type_specification]
#[verifier::external_body]
#[verifier::reject_recursive_types(T)]
pub struct ExAtomic<T>(Atomic<T>);

/// The byte that a cell holds.
pub uninterp spec fn atomic_u8_value(cell: Atomic<u8>) -> u8;

/// The number that a cell holds.
pub uninterp spec fn atomic_usize_value(cell: Atomic<usize>) -> usize;

/// The sum of two numbers as a machine word computes it: reduced by two to
/// the power of the word size when it does not fit.
pub open spec fn wrapping_sum(a: usize, b: usize) -> usize {
    if a + b > usize::MAX {
        (a + b - usize::MAX - 1) as usize
    } else {
        (a + b) as usize
    }
}

/// The difference of two numbers as a machine word computes it: raised by
/// two to the power of the word size when it is negative.
pub open spec fn wrapping_difference(a: usize, b: usize) -> usize {
    if a < b {
        (a - b + usize::MAX + 1) as usize
    } else {
        (a - b) as usize
    }
}

/// Calls `Atomic::new`. Trusted: the new cell holds `value`.
#[verifier::external_body]
pub(crate) fn new_u8(value: u8) -> (cell: Atomic<u8>)
    ensures
        atomic_u8_value(cell) == value,
{
    Atomic::new(value)
}

/// Calls `Atomic::load` with acquire ordering. Trusted: the result is the
/// byte that the cell holds.
#[verifier::external_body]
pub(crate) fn load_u8(cell: &Atomic<u8>) -> (value: u8)
    ensures
        value == atomic_u8_value(*cell),
{
    cell.load(Ordering::Acquire)
}

/// Calls `Atomic::store` with release ordering. Trusted: afterwards the
/// cell holds `value`.
#[verifier::external_body]
pub(crate) fn store_u8(cell: &mut Atomic<u8>, value: u8)
    ensures
        atomic_u8_value(*final(cell)) == value,
{
    cell.store(value, Ordering::Release)
}

/// Calls `Atomic::new`. Trusted: the new cell holds `value`.
#[verifier::external_body]
pub(crate) fn new_usize(value: usize) -> (cell: Atomic<usize>)
    ensures
        atomic_usize_value(cell) == value,
{
    Atomic::new(value)
}

/// Calls `Atomic::load` with sequentially consistent ordering. Trusted:
/// the result is the number that the cell holds.
#[verifier::external_body]
pub(crate) fn load_usize(cell: &Atomic<usize>) -> (value: usize)
    ensures
        value == atomic_usize_value(*cell),
{
    cell.load(Ordering::SeqCst)
}

/// Calls `Atomic::store` with sequentially consistent ordering. Trusted:
/// afterwards the cell holds `value`.
#[verifier::external_body]
pub(crate) fn store_usize(cell: &mut Atomic<usize>, value: usize)
    ensures
        atomic_usize_value(*final(cell)) == value,
{
    cell.store(value, Ordering::SeqCst)
}

/// Calls `Atomic::fetch_add` with sequentially consistent ordering.
/// Trusted: the result is the number held before, and afterwards the cell
/// holds the wrapping sum of that number and `amount`.
#[verifier::external_body]
pub(crate) fn fetch_add_usize(cell: &mut Atomic<usize>, amount: usize) -> (before: usize)
    ensures
        before == atomic_usize_value(*old(cell)),
        atomic_usize_value(*final(cell)) == wrapping_sum(before, amount),
{
    cell.fetch_add(amount, Ordering::SeqCst)
}

/// Calls `Atomic::fetch_sub` with sequentially consistent ordering.
/// Trusted: the result is the number held before, and afterwards the cell
/// holds the wrapping difference of that number and `amount`.
#[verifier::external_body]
pub(crate) fn fetch_sub_usize(cell: &mut Atomic<usize>, amount: usize) -> (before: usize)
    ensures
        before == atomic_usize_value(*old(cell)),
        atomic_usize_value(*final(cell)) == wrapping_difference(before, amount),
{
    cell.fetch_sub(amount, Ordering::SeqCst)
}

} // verus!
