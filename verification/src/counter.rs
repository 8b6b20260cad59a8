//! The byte counter that interrupt handler invocations hand on to each other.

use portable_atomic::AtomicUsize;
use vstd::prelude::*;

verus! {

/// Declares [`portable_atomic::AtomicUsize`] to the verifier, which sees nothing inside it.
#[verifier::external_type_specification]
#[verifier::external_body]
pub struct ExAtomicUsize(portable_atomic::AtomicUsize);

/// The number that an atomic counter holds while nobody else can reach it.
pub uninterp spec fn counter_value(counter: portable_atomic::AtomicUsize) -> usize;

/// The sum of two counts, taken modulo the number of `usize` values.
pub open spec fn wrapped_sum(a: usize, b: usize) -> usize {
    ((a + b) % (usize::MAX + 1)) as usize
}

/// Calls `portable_atomic::AtomicUsize::new`: the counter starts out with `value`.
#[verifier::external_body]
pub(crate) fn counter_new(value: usize) -> (counter: AtomicUsize)
    ensures
        counter_value(counter) == value,
{
    AtomicUsize::new(value)
}

/// Calls `portable_atomic::AtomicUsize::swap`: hands out the number held so far and holds
/// `value` from then on. The exclusive borrow keeps every other context away from the counter
/// for the length of the call, so what it held before is what the last call left in it.
#[verifier::external_body]
pub(crate) fn counter_swap(counter: &mut AtomicUsize, value: usize) -> (previous: usize)
    ensures
        previous == counter_value(*old(counter)),
        counter_value(*final(counter)) == value,
{
    counter.swap(value, portable_atomic::Ordering::Relaxed)
}

/// Calls `portable_atomic::AtomicUsize::fetch_add`: hands out the number held so far and adds
/// `value` to it, wrapping around at the end of the `usize` range.
#[verifier::external_body]
pub(crate) fn counter_fetch_add(counter: &mut AtomicUsize, value: usize) -> (previous: usize)
    ensures
        previous == counter_value(*old(counter)),
        counter_value(*final(counter)) == wrapped_sum(counter_value(*old(counter)), value),
{
    counter.fetch_add(value, portable_atomic::Ordering::Relaxed)
}

/// Calls `portable_atomic::AtomicUsize::store`: the counter holds `value` from then on.
#[verifier::external_body]
pub(crate) fn counter_store(counter: &mut AtomicUsize, value: usize)
    ensures
        counter_value(*final(counter)) == value,
{
    counter.store(value, portable_atomic::Ordering::Relaxed)
}

/// A sum within the range of `usize` is the sum itself, and one beyond it starts again at zero.
pub proof fn lemma_wrapped_sum(a: usize, b: usize)
    ensures
        a + b <= usize::MAX ==> wrapped_sum(a, b) == a + b,
        a + b > usize::MAX ==> wrapped_sum(a, b) == a + b - usize::MAX - 1,
{
    if a + b <= usize::MAX {
        vstd::arithmetic::div_mod::lemma_small_mod((a + b) as nat, (usize::MAX + 1) as nat);
    } else {
        vstd::arithmetic::div_mod::lemma_fundamental_div_mod_converse_mod(
            a + b,
            usize::MAX + 1,
            1,
            a + b - usize::MAX - 1,
        );
    }
}

} // verus!
