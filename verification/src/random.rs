use rand::rngs::StdRng;
use rand::seq::SliceRandom;
use rand::{Rng, SeedableRng};
use vstd::prelude::*;
use crate::walker::Walker;

verus! {

/// Declares `rand::rngs::StdRng`, the generator of a simulation. Nothing
/// inside it is seen.
#[verifier::external_type_specification]
#[verifier::external_body]
pub struct ExStdRng(rand::rngs::StdRng);

/// Calls `rand::SeedableRng::seed_from_u64` for `rand::rngs::StdRng`.
/// Nothing is claimed of the generator that comes back.
#[verifier::external_body]
pub(crate) fn seeded_generator(seed: u64) -> StdRng {
    StdRng::seed_from_u64(seed)
}

/// Calls `rand::Rng::gen_range` on the closed range from `lo` to `hi`.
/// The range must not be empty, or the call panics. The claim is that the
/// number drawn lies in the range; which number it is, is left open.
#[verifier::external_body]
pub(crate) fn random_between(rng: &mut StdRng, lo: i64, hi: i64) -> (v: i64)
    requires
        lo <= hi,
    ensures
        lo <= v <= hi,
{
    rng.gen_range(lo..=hi)
}

/// Calls `rand::seq::SliceRandom::shuffle` on the pedestrians of `walkers`.
/// The claim is that the call only reorders: afterwards each pedestrian is
/// there as often as before. The order is left open.
#[verifier::external_body]
pub(crate) fn shuffle_walkers(walkers: &mut Vec<Walker>, rng: &mut StdRng)
    ensures
        final(walkers)@.to_multiset() == old(walkers)@.to_multiset(),
{
    walkers.shuffle(rng)
}

} // verus!
