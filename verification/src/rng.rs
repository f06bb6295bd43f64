//! The engine's only source of randomness: a seedable generator from the
//! `rand` crate, reached through trusted wrappers. Nothing about the
//! distribution of the drawn values is claimed, only their range.

use vstd::prelude::*;

verus! {

#[verifier::external_type_specification]
#[verifier::external_body]
pub struct ExStdRng(rand::rngs::StdRng);

/// Relies on rand's `SeedableRng::seed_from_u64`: a generator built
/// deterministically from the seed, so a fixed seed reproduces a board.
#[verifier::external_body]
pub(crate) fn rng_from_seed(seed: u64) -> rand::rngs::StdRng {
    <rand::rngs::StdRng as rand::SeedableRng>::seed_from_u64(seed)
}

/// Relies on rand's `Rng::gen_range` over `0..bound`: some value below
/// the bound. The range must not be empty, or the call panics.
#[verifier::external_body]
pub(crate) fn rng_below(rng: &mut rand::rngs::StdRng, bound: usize) -> (r: usize)
    requires
        bound >= 1,
    ensures
        r < bound,
{
    rand::Rng::gen_range(rng, 0..bound)
}

/// Relies on rand's `random`: a seed drawn from the thread-local
/// generator, for sessions that ask for an unpredictable board.
#[verifier::external_body]
pub(crate) fn random_seed() -> u64 {
    rand::random()
}

} // verus!
