use vstd::prelude::*;
use crate::fixed::SCALE;

verus! {

/// Declaration of the pseudorandom generator type of the `rand` crate,
/// so that a value of it can be held in a field.
#[verifier::external_type_specification]
#[verifier::external_body]
pub struct ExStdRng(rand::rngs::StdRng);

/// An explicitly seeded source of randomness, handed to every operation
/// that draws from it, so that runs are reproducible given the seed.
pub struct RandomSource {
    rng: rand::rngs::StdRng,
}

impl RandomSource {
    /// Relies on `rand::SeedableRng::seed_from_u64` for `StdRng`:
    /// builds a generator from a 64-bit seed.
    #[verifier::external_body]
    pub fn from_seed(seed: u64) -> RandomSource {
        RandomSource { rng: rand::SeedableRng::seed_from_u64(seed) }
    }

    /// Relies on `rand::Rng::next_u32` for `StdRng`: one draw from the
    /// generator; nothing is promised of the value.
    #[verifier::external_body]
    fn next_u32(&mut self) -> u32 {
        rand::Rng::next_u32(&mut self.rng)
    }

    /// One fixed-point draw from the unit interval: a value in [0, 1),
    /// taken from the low bits of one generator word.
    pub fn next_fraction(&mut self) -> (r: i64)
        ensures
            0 <= r < SCALE,
    {
        let w = self.next_u32();
        let low = w % 65536;
        low as i64
    }
}

} // verus!
