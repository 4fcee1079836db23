//! Seeded random generator handle.
//!
//! One seeded generator is passed by mutable reference through the whole
//! call graph so that every run is reproducible for a fixed seed. The
//! generator itself comes from the rand crate; the library states only what
//! holds of every outcome (ranges), never which value comes back.

use vstd::prelude::*;
use vstd::seq_lib::*;
use rand::Rng;
use rand::SeedableRng;
use rand::seq::SliceRandom;

verus! {

#[verifier::external_type_specification]
#[verifier::external_body]
pub struct ExStdRng(rand::rngs::StdRng);

/// Relies on rand's StdRng::seed_from_u64: builds a generator from a seed.
#[verifier::external_body]
fn seeded_rng(seed: u64) -> rand::rngs::StdRng {
    return rand::rngs::StdRng::seed_from_u64(seed);
}

/// A seeded pseudo-random generator with a fixed seed.
pub struct RandomGenerator {
    rng: rand::rngs::StdRng,
}

impl RandomGenerator {
    /// A generator seeded with the given seed.
    pub fn new_seeded(seed: u64) -> Self {
        return Self { rng: seeded_rng(seed) };
    }

    /// Replaces the generator by one freshly seeded with the new seed.
    pub fn set_seed(&mut self, new_seed: u64) {
        self.rng = seeded_rng(new_seed);
    }

    /// Relies on rand's Rng::gen_range over `lower..upper`: returns a value
    /// of the half-open range; panics on an empty range, which the
    /// precondition rules out.
    #[verifier::external_body]
    pub fn gen_range(&mut self, lower: i32, upper: i32) -> (r: i32)
        requires
            lower < upper,
        ensures
            lower <= r < upper,
    {
        return self.rng.gen_range(lower..upper);
    }

    /// Relies on rand's Rng::gen_range over `0..bound`: returns an index
    /// below the bound; panics on an empty range, which the precondition
    /// rules out.
    #[verifier::external_body]
    pub(crate) fn gen_index(&mut self, bound: usize) -> (r: usize)
        requires
            bound > 0,
        ensures
            r < bound,
    {
        return self.rng.gen_range(0..bound);
    }

    /// Relies on rand's Rng::gen_ratio: returns true with probability
    /// `numerator / denominator`; its Bernoulli constructor errors exactly
    /// when the denominator is zero or the numerator exceeds it, which the
    /// preconditions rule out. Nothing is promised of the outcome.
    #[verifier::external_body]
    pub(crate) fn gen_ratio(&mut self, numerator: u32, denominator: u32) -> bool
        requires
            0 < denominator,
            numerator <= denominator,
    {
        return self.rng.gen_ratio(numerator, denominator);
    }

    /// Relies on rand's SliceRandom::shuffle: permutes the slice in place by
    /// swaps, so the multiset of elements is kept.
    #[verifier::external_body]
    pub fn shuffle_usizes(&mut self, v: &mut Vec<usize>)
        ensures
            final(v)@.to_multiset() == old(v)@.to_multiset(),
            final(v)@.len() == old(v)@.len(),
    {
        v.shuffle(&mut self.rng);
    }
}

} // verus!
