//! A seeded generator of pseudo-random numbers, and fresh seeds.

use vstd::prelude::*;
use std::hash::BuildHasher;
use std::hash::RandomState;

verus! {

/// The state that follows `state` in the generator's sequence.
pub open spec fn advance(state: u64) -> u64 {
    state.wrapping_add(0x9E37_79B9_7F4A_7C15u64)
}

/// The 64 bits that the generator puts out when it reaches `state`.
pub open spec fn scramble(state: u64) -> u64 {
    let a = (state ^ (state >> 30u64)).wrapping_mul(0xBF58_476D_1CE4_E5B9u64);
    let b = (a ^ (a >> 27u64)).wrapping_mul(0x94D0_49BB_1331_11EBu64);
    b ^ (b >> 31u64)
}

/// The number below `bound` that a generator in `state` draws next.
pub open spec fn draw(state: u64, bound: u32) -> u32 {
    (scramble(advance(state)) % (bound as u64)) as u32
}

/// A small deterministic generator of pseudo-random numbers: the same seed
/// always gives the same sequence.
#[derive(Debug, Copy, Clone)]
pub struct SeededRng {
    state: u64,
}

impl View for SeededRng {
    type V = u64;

    closed spec fn view(&self) -> u64 {
        self.state
    }
}

impl SeededRng {
    /// A generator that starts from `seed`.
    pub fn new(seed: u64) -> (rng: SeededRng)
        ensures
            rng@ == seed,
    {
        SeededRng { state: seed }
    }

    /// The next 64 bits of the sequence.
    pub fn next_u64(&mut self) -> (bits: u64)
        ensures
            final(self)@ == advance(old(self)@),
            bits == scramble(advance(old(self)@)),
    {
        self.state = self.state.wrapping_add(0x9E37_79B9_7F4A_7C15u64);
        let z: u64 = self.state;
        let a: u64 = (z ^ (z >> 30u64)).wrapping_mul(0xBF58_476D_1CE4_E5B9u64);
        let b: u64 = (a ^ (a >> 27u64)).wrapping_mul(0x94D0_49BB_1331_11EBu64);
        b ^ (b >> 31u64)
    }

    /// The next number of the sequence, reduced to the range below `bound`.
    pub fn next_below(&mut self, bound: u32) -> (n: u32)
        requires
            bound > 0,
        ensures
            final(self)@ == advance(old(self)@),
            n == draw(old(self)@, bound),
            n < bound,
    {
        let bits: u64 = self.next_u64();
        let r: u64 = bits % (bound as u64);
        r as u32
    }
}

/// Asks `RandomState::new` for a hasher state with keys that the process
/// picks at random. Nothing is claimed of the keys.
#[verifier::external_body]
fn random_hash_state() -> (state: RandomState) {
    RandomState::new()
}

/// Asks `BuildHasher::hash_one` for the hash of the number zero under the
/// given state. Nothing is claimed of the hash.
#[verifier::external_body]
fn hash_of_zero(state: &RandomState) -> (hash: u64) {
    state.hash_one(0u64)
}

/// A seed for a session that is given none: a hash under keys that the
/// process picks at random. Any value may come out, so nothing is promised
/// of it; what a session makes of a seed is stated where the seed is used.
pub fn fresh_seed() -> (seed: u64) {
    let state = random_hash_state();
    hash_of_zero(&state)
}

} // verus!
