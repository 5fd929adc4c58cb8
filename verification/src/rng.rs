//! A seedable random-number source, threaded explicitly through every
//! sampling call so that renders are reproducible.
//!
//! The raw 64-bit draws come from `rand`'s standard generator; everything
//! derived from them (grid values, ranges, axis picks) is verified here.
//! Nothing is ever promised about which values come out, only about their
//! range, so every caller is verified for all possible draws.

use vstd::prelude::*;

verus! {

#[verifier::external_type_specification]
#[verifier::external_body]
pub struct ExStdRng(rand::rngs::StdRng);

/// Relies on rand::SeedableRng::seed_from_u64 to build a generator from a
/// 64-bit seed; nothing about the generator's state is assumed.
#[verifier::external_body]
fn std_rng_from_seed(seed: u64) -> rand::rngs::StdRng {
    <rand::rngs::StdRng as rand::SeedableRng>::seed_from_u64(seed)
}

/// Relies on rand::RngCore::next_u64 for one raw draw; any `u64` may come
/// back, and nothing further is assumed.
#[verifier::external_body]
fn std_rng_next(r: &mut rand::rngs::StdRng) -> u64 {
    rand::RngCore::next_u64(r)
}

/// The random-number handle the library threads through sampling calls.
pub struct Rng {
    inner: rand::rngs::StdRng,
}

impl Rng {
    /// A generator whose whole stream is determined by `seed`.
    pub fn seeded(seed: u64) -> Rng {
        Rng { inner: std_rng_from_seed(seed) }
    }

    /// One raw 64-bit draw.
    pub fn next_u64(&mut self) -> u64 {
        std_rng_next(&mut self.inner)
    }

    /// A fixed-point sample in `[0, 1)`: any of the 2^16 grid values.
    pub fn unit_fx(&mut self) -> (r: i64)
        ensures
            0 <= r < 65536,
    {
        (self.next_u64() % 65536) as i64
    }

    /// A fixed-point sample in `[lo, hi)`.
    pub fn range_fx(&mut self, lo: i64, hi: i64) -> (r: i64)
        requires
            lo < hi,
            hi - lo <= i64::MAX,
        ensures
            lo <= r < hi,
    {
        let span: u64 = (hi - lo) as u64;
        let off = self.next_u64() % span;
        lo + (off as i64)
    }

    /// A draw below `n`.
    pub fn below(&mut self, n: u64) -> (r: u64)
        requires
            n > 0,
        ensures
            r < n,
    {
        self.next_u64() % n
    }
}

} // verus!
