//! The random order of the random policy.

use rand::seq::SliceRandom;
use vstd::prelude::*;

verus! {

/// Rearranges `ports` at random, in place.
///
/// This is `rand::seq::SliceRandom::shuffle` on the slice of `ports`, driven
/// by the generator that `rand::thread_rng()` returns. That method only ever
/// swaps two elements of the slice, so the contract claims that afterwards
/// `ports` holds what it held before, each value as often as before, and
/// nothing about the order. The generator seeds itself from the operating
/// system on its first use in a thread and panics if that fails.
#[verifier::external_body]
pub(crate) fn shuffle(ports: &mut Vec<usize>)
    ensures
        final(ports)@.to_multiset() == old(ports)@.to_multiset(),
{
    ports.shuffle(&mut rand::thread_rng());
}

} // verus!
