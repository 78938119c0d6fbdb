//! The one source of randomness in routing: a draw from a generator seeded
//! anew for each decision, so the draw is a function of seed and bound alone.
use rand::RngExt;
use rand::SeedableRng;
use vstd::prelude::*;

verus! {

/// The index that the standard generator, seeded with `seed`, draws uniformly
/// below `n`.  For a fixed seed and bound the draw is the same in every run,
/// which is what makes seeded experiments reproducible.
pub uninterp spec fn seeded_choice(seed: u64, n: u64) -> u64;

/// Relies on rand's `StdRng::seed_from_u64` and `RngExt::random_range`: a
/// freshly seeded generator draws from the half-open range `0 .. n`, and the
/// draw depends on the seed and the bound alone.
#[verifier::external_body]
pub fn seeded_pick(seed: u64, n: usize) -> (r: usize)
    requires
        n > 0,
    ensures
        r < n,
        r as u64 == seeded_choice(seed, n as u64),
{
    let mut rng: rand::rngs::StdRng = rand::rngs::StdRng::seed_from_u64(seed);
    rng.random_range(0..n)
}

} // verus!
