use vstd::prelude::*;

use rand::seq::SliceRandom;
use rand::Rng;

use crate::jump::Jump;

verus! {

/// The random-number generator that drives candidate shuffling and palette
/// picks. Declared so values of it can pass through verified signatures; it
/// is opaque here, and nothing is assumed about the numbers it yields.
#[verifier::external_type_specification]
#[verifier::external_body]
pub struct ExSmallRng(rand::rngs::SmallRng);

/// Relies on rand's `SliceRandom::shuffle`: a Fisher-Yates pass permutes the
/// slice in place, so afterwards the vector holds exactly the elements it
/// held before, in some order.
#[verifier::external_body]
pub(crate) fn shuffle_jumps(rng: &mut rand::rngs::SmallRng, v: &mut Vec<Jump>)
    ensures
        final(v)@.to_multiset() == old(v)@.to_multiset(),
{
    v.shuffle(rng);
}

/// Relies on rand's `Rng::gen_range`: sampling from `0..n` returns a value
/// of that range. The range is non-empty by the precondition, so the call
/// does not panic.
#[verifier::external_body]
pub(crate) fn rand_below(rng: &mut rand::rngs::SmallRng, n: usize) -> (r: usize)
    requires
        n >= 1,
    ensures
        r < n,
{
    rng.gen_range(0..n)
}

} // verus!
