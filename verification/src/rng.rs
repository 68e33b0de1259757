//! The pseudorandom source handed into every generation. It is explicit
//! and seedable, so a caller can reproduce a run; nothing is assumed of
//! the drawn values beyond the range they are drawn from.

use rand::Rng;
use rand::SeedableRng;
use vstd::prelude::*;

verus! {

#[verifier::external_type_specification]
#[verifier::external_body]
pub struct ExStdRng(rand::rngs::StdRng);

/// A deterministic pseudorandom generator behind an opaque handle. Two
/// sources built from the same seed draw the same values in the same
/// order; nothing else is known of the draws except their range.
pub struct RandomSource {
    rng: rand::rngs::StdRng,
}

/// Relies on rand's `SeedableRng::seed_from_u64` for `StdRng`: builds the
/// generator state for a seed.
#[verifier::external_body]
fn seed_std_rng(seed: u64) -> rand::rngs::StdRng {
    rand::rngs::StdRng::seed_from_u64(seed)
}

impl RandomSource {
    /// Creates a source that will replay the same draws for the same
    /// seed.
    pub fn from_seed(seed: u64) -> RandomSource {
        RandomSource { rng: seed_std_rng(seed) }
    }

    /// Draws one value uniformly from `lo..=hi`.
    /// Relies on rand's `Rng::gen_range` on an inclusive range: it panics
    /// only on an empty range and returns a value inside the range.
    #[verifier::external_body]
    pub(crate) fn sample_inclusive(&mut self, lo: u64, hi: u64) -> (r: u64)
        requires
            lo <= hi,
        ensures
            lo <= r <= hi,
    {
        self.rng.gen_range(lo..=hi)
    }
}

} // verus!
