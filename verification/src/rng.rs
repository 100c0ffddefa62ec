//! A small deterministic pseudo-random generator (splitmix64).
//!
//! Rendering draws many numbers per sample; a seedable generator keeps runs
//! reproducible (the same seed gives the same image), while `from_entropy`
//! seeds it from the process's entropy source for interactive use.

use vstd::prelude::*;
use crate::fixed::FP_ONE;

verus! {

/// Relies on rand::random: an unpredictable 64-bit value from the
/// thread-local generator, used only to seed `Rng64`. Nothing can be promised
/// of its value.
#[verifier::external_body]
fn entropy_u64() -> u64 {
    rand::random::<u64>()
}

pub struct Rng64 {
    state: u64,
}

impl Rng64 {
    /// A generator whose whole stream is determined by `seed`.
    pub fn from_seed(seed: u64) -> Rng64 {
        Rng64 { state: seed }
    }

    /// A generator seeded from the process's entropy source.
    pub fn from_entropy() -> Rng64 {
        Rng64 { state: entropy_u64() }
    }

    /// The next 64 pseudo-random bits (splitmix64).
    pub fn next_u64(&mut self) -> u64 {
        self.state = self.state.wrapping_add(0x9E37_79B9_7F4A_7C15u64);
        let mut z: u64 = self.state;
        z = (z ^ (z >> 30)).wrapping_mul(0xBF58_476D_1CE4_E5B9u64);
        z = (z ^ (z >> 27)).wrapping_mul(0x94D0_49BB_1331_11EBu64);
        z ^ (z >> 31)
    }

    /// A fixed-point value uniform over `[-FP_ONE, FP_ONE]`.
    pub fn next_symmetric_fp(&mut self) -> (r: i64)
        ensures
            -FP_ONE <= r <= FP_ONE,
    {
        let raw = self.next_u64();
        let m: u64 = raw % (2 * 4096 + 1);
        (m as i64) - FP_ONE
    }

    /// A fixed-point value uniform over `[-FP_ONE/2, FP_ONE/2)`: a pixel
    /// jitter of half a pixel each way.
    pub fn next_jitter_fp(&mut self) -> (r: i64)
        ensures
            -2048 <= r < 2048,
    {
        let raw = self.next_u64();
        let m: u64 = raw % 4096;
        (m as i64) - 2048
    }
}

} // verus!
