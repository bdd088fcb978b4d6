//! The source of random draws.

use vstd::prelude::*;

verus! {

/// The first `n` values of the ChaCha generator with 12 rounds that is
/// seeded with `seed`.
pub uninterp spec fn seeded_stream(seed: u64, n: usize) -> Seq<u64>;

/// Draws `n` values from a generator seeded with `seed`.
///
/// Calls `rand::SeedableRng::seed_from_u64` for `rand_chacha::ChaCha12Rng`
/// and then `rand::Rng::fill` on a slice of `n` words. Trusted: the slice
/// keeps its length, and what fills it depends on the seed and the length
/// alone, so that the same two values give the same draws on every run.
#[verifier::external_body]
pub(crate) fn seeded_draws(seed: u64, n: usize) -> (draws: Vec<u64>)
    ensures
        draws@ == seeded_stream(seed, n),
        draws@.len() == n,
{
    let mut draws: Vec<u64> = vec![0u64; n];
    let mut source = <rand_chacha::ChaCha12Rng as rand::SeedableRng>::seed_from_u64(seed);
    rand::Rng::fill(&mut source, &mut draws[..]);
    draws
}

/// Draws `n` values from the system's source of random numbers, or
/// nothing where the system gives none.
///
/// Calls `rand::Rng::try_fill` for `rand::rngs::OsRng` on a slice of `n`
/// words and hands its error back as `None`. Trusted: on success the slice
/// keeps its length. Nothing is claimed of the values, nor of when the
/// system fails.
#[verifier::external_body]
pub(crate) fn fresh_draws(n: usize) -> (draws: Option<Vec<u64>>)
    ensures
        draws matches Some(d) ==> d@.len() == n,
{
    let mut draws: Vec<u64> = vec![0u64; n];
    match rand::Rng::try_fill(&mut rand::rngs::OsRng, &mut draws[..]) {
        Ok(()) => Some(draws),
        Err(_) => None,
    }
}

} // verus!
