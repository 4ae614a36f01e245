//! Random order of the speakers, from the `rand` crate.

use vstd::prelude::*;

use rand::seq::SliceRandom;

verus! {

#[verifier::external_type_specification]
#[verifier::external_body]
pub struct ExThreadRng(rand::rngs::ThreadRng);

/// `rand::thread_rng`: the generator of the current thread. Nothing is claimed of it.
#[verifier::external_body]
pub(crate) fn thread_rng() -> rand::rngs::ThreadRng {
    rand::thread_rng()
}

/// `SliceRandom::shuffle` on `v[from..]`. Claimed, as its source shows (a Fisher-Yates
/// shuffle made of swaps within the slice): the length and `v[..from]` stay as they were, and
/// `v[from..]` holds the same items, in an order that the generator chose. Which order is
/// left unsaid: it rests on chance.
#[verifier::external_body]
pub(crate) fn shuffle_from(v: &mut Vec<String>, from: usize, rng: &mut rand::rngs::ThreadRng)
    requires
        from <= old(v)@.len(),
    ensures
        final(v)@.len() == old(v)@.len(),
        final(v)@.take(from as int) == old(v)@.take(from as int),
        final(v)@.skip(from as int).to_multiset() == old(v)@.skip(from as int).to_multiset(),
{
    v[from..].shuffle(rng)
}

} // verus!
