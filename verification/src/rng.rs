//! Pseudo-random sampler driving perception sampling, tick shuffling and
//! think-timer phases.
//!
//! The simulation is intentionally non-deterministic across runs but a seed
//! can be fixed for tests. Contracts promise only the range of each draw:
//! no caller may rely on a particular value.

use vstd::prelude::*;

verus! {

/// A small xorshift generator with a fixable seed.
pub struct SimRng {
    state: u64,
}

impl SimRng {
    /// Creates a generator from a seed; a zero seed is replaced by a fixed
    /// odd constant so the shift register never locks at zero.
    pub fn new(seed: u64) -> (r: SimRng) {
        let state: u64 = if seed == 0 { 0x9e37_79b9_7f4a_7c15 } else { seed };
        SimRng { state }
    }

    /// Draws the next raw 64-bit value.
    pub fn next_u64(&mut self) -> (r: u64) {
        let mut x = self.state;
        x = x ^ (x << 13u64);
        x = x ^ (x >> 7u64);
        x = x ^ (x << 17u64);
        self.state = x;
        x
    }

    /// Draws a value uniformly-ish in `[lo, hi)`.
    pub fn gen_range_u64(&mut self, lo: u64, hi: u64) -> (r: u64)
        requires
            lo < hi,
        ensures
            lo <= r < hi,
    {
        let span = hi - lo;
        let raw = self.next_u64();
        lo + raw % span
    }

    /// Draws a signed value in `[lo, hi)`.
    pub fn gen_range_i64(&mut self, lo: i64, hi: i64) -> (r: i64)
        requires
            lo < hi,
            hi - lo <= i64::MAX,
        ensures
            lo <= r < hi,
    {
        let span = (hi - lo) as u64;
        let raw = self.next_u64() % span;
        lo + raw as i64
    }
}

} // verus!
