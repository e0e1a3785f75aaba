use vstd::prelude::*;
use rand::rngs::StdRng;

verus! {

/// rand's seedable standard generator, carried through the library as an
/// opaque value.
#[verifier::external_type_specification]
#[verifier::external_body]
pub struct ExStdRng(StdRng);

/// Relies on rand's `SeedableRng::seed_from_u64`: a generator whose draws
/// depend on `seed` alone. Nothing is assumed of the draws.
#[verifier::external_body]
pub(crate) fn seeded_rng(seed: u64) -> StdRng {
    <StdRng as rand::SeedableRng>::seed_from_u64(seed)
}

/// Relies on rand's `SliceRandom::shuffle`, which only swaps elements of the
/// slice: the result holds the same employees, each as often, in some order.
#[verifier::external_body]
pub(crate) fn shuffle_ids(ids: &mut Vec<i32>, rng: &mut StdRng)
    ensures
        final(ids)@.to_multiset() == old(ids)@.to_multiset(),
{
    rand::seq::SliceRandom::shuffle(ids.as_mut_slice(), rng)
}

} // verus!
