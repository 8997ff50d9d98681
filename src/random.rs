//! The random source: rand's standard generator and the two rand operations
//! that the library draws from it.

use rand::seq::SliceRandom;
use rand::Rng;
use vstd::prelude::*;

verus! {

/// rand's seedable standard generator, `rand::rngs::StdRng`, kept opaque:
/// the library only hands it to the two operations below.
#[verifier::external_type_specification]
#[verifier::external_body]
pub struct ExStdRng(rand::rngs::StdRng);

/// Relies on rand's `Rng::gen_range` over `low..=high`: it returns a value
/// of the range, and panics only when the range is empty.
#[verifier::external_body]
pub(crate) fn random_in_range(rng: &mut rand::rngs::StdRng, low: usize, high: usize) -> (r: usize)
    requires
        low <= high,
    ensures
        low <= r <= high,
{
    rng.gen_range(low..=high)
}

/// Relies on rand's `SliceRandom::shuffle`: it permutes the elements in
/// place (a Fisher-Yates pass of swaps), so the same elements remain.
#[verifier::external_body]
pub(crate) fn shuffle<T>(rng: &mut rand::rngs::StdRng, v: &mut Vec<T>)
    ensures
        final(v)@.to_multiset() == old(v)@.to_multiset(),
{
    v.shuffle(rng)
}

} // verus!
