use vstd::prelude::*;
use rand::Rng;
use rand::seq::SliceRandom;

verus! {

/// Relies on rand::thread_rng and rand::Rng::gen_range on an `i64` range:
/// returns a value drawn from the half-open range `low..high`.
/// gen_range panics on an empty range, so the range is required non-empty.
#[verifier::external_body]
pub(crate) fn rand_i64_range(low: i64, high: i64) -> (r: i64)
    requires
        low < high,
    ensures
        low <= r < high,
{
    rand::thread_rng().gen_range(low..high)
}

/// Relies on rand::thread_rng and rand::Rng::gen_range on a `usize` range:
/// returns a value drawn from the half-open range `low..high`.
/// gen_range panics on an empty range, so the range is required non-empty.
#[verifier::external_body]
pub(crate) fn rand_usize_range(low: usize, high: usize) -> (r: usize)
    requires
        low < high,
    ensures
        low <= r < high,
{
    rand::thread_rng().gen_range(low..high)
}

/// Relies on rand::thread_rng and rand::Rng::gen_range on a `u128` range:
/// returns a value drawn from the half-open range `low..high`.
/// gen_range panics on an empty range, so the range is required non-empty.
#[verifier::external_body]
pub(crate) fn rand_u128_range(low: u128, high: u128) -> (r: u128)
    requires
        low < high,
    ensures
        low <= r < high,
{
    rand::thread_rng().gen_range(low..high)
}

/// Relies on rand::seq::SliceRandom::shuffle: reorders the elements of the
/// slice in place, so the new contents are a permutation of the old.
#[verifier::external_body]
pub(crate) fn shuffle_usizes(v: &mut Vec<usize>)
    ensures
        final(v)@.len() == old(v)@.len(),
        final(v)@.to_multiset() == old(v)@.to_multiset(),
{
    v.shuffle(&mut rand::thread_rng())
}

} // verus!
