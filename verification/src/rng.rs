//! The seeded random stream that a match draws from.
//!
//! Every random decision in a match — map generation, placement, combat
//! rolls, gamble rolls, hazard movement — comes from one `rand::rngs::StdRng`
//! seeded once per match, so a match is replayable offline given its seed.
//! The generator itself is outside code; the functions here are the trusted
//! boundary, and each states only what rand's documentation promises of
//! every outcome.

use vstd::prelude::*;

verus! {

#[verifier::external_type_specification]
#[verifier::external_body]
pub struct ExStdRng(rand::rngs::StdRng);

/// Relies on rand's `SeedableRng::seed_from_u64` for `StdRng`: builds a
/// generator from a 64-bit seed.
#[verifier::external_body]
pub fn rng_from_seed(seed: u64) -> rand::rngs::StdRng {
    <rand::rngs::StdRng as rand::SeedableRng>::seed_from_u64(seed)
}

/// Relies on rand's `Rng::random_range`: a value uniformly distributed in
/// `[lo, hi)`; panics on an empty range, which `requires` rules out.
#[verifier::external_body]
pub fn rng_below(rng: &mut rand::rngs::StdRng, lo: u64, hi: u64) -> (r: u64)
    requires
        lo < hi,
    ensures
        lo <= r < hi,
{
    rand::Rng::random_range(rng, lo..hi)
}

/// Relies on rand's `SliceRandom::shuffle`: permutes the elements in
/// place, leaving the same collection of values.
#[verifier::external_body]
pub fn rng_shuffle(rng: &mut rand::rngs::StdRng, v: &mut Vec<usize>)
    ensures
        final(v)@.to_multiset() == old(v)@.to_multiset(),
        final(v)@.len() == old(v)@.len(),
{
    rand::seq::SliceRandom::shuffle(v.as_mut_slice(), rng)
}

} // verus!
