//! A deterministic pseudo-random generator.
//!
//! The engine never reads a process-wide random source: every operation that
//! needs randomness (initial headings, brush scatter, ruleset randomisation)
//! draws from an explicitly seeded generator, so runs are reproducible. The
//! generator is a 64-bit linear congruential step whose draws take the high
//! 32 bits of the state.

use vstd::prelude::*;

verus! {

/// Multiplier of the congruential step.
pub const LCG_MULTIPLIER: u64 = 6364136223846793005;

/// Increment of the congruential step.
pub const LCG_INCREMENT: u64 = 1442695040888963407;

/// 2^64, the modulus of the congruential step.
pub const LCG_MODULUS: u128 = 18446744073709551616;

/// 2^32; draws discard the low half of the state.
pub const DRAW_SHIFT: u64 = 4294967296;

/// The state reached one congruential step after `s`.
pub open spec fn spec_next(s: u64) -> u64 {
    (((s as int) * (LCG_MULTIPLIER as int) + (LCG_INCREMENT as int)) % (LCG_MODULUS as int)) as u64
}

/// The value below `n` drawn from the state one step after `s`.
pub open spec fn spec_draw(s: u64, n: u64) -> u64 {
    (((spec_next(s) as int) / (DRAW_SHIFT as int)) % (n as int)) as u64
}

/// An explicitly seeded pseudo-random generator handle.
#[derive(Clone, Copy, PartialEq, Eq, Structural, Debug)]
pub struct Rng {
    pub state: u64,
}

impl Rng {
    /// A generator starting from the given seed.
    pub fn new(seed: u64) -> (r: Rng)
        ensures
            r.state == seed,
    {
        Rng { state: seed }
    }

    /// Advances the generator one step and returns the new state.
    pub fn next(&mut self) -> (r: u64)
        ensures
            final(self).state == spec_next(old(self).state),
            r == final(self).state,
    {
        let p: u128 = (self.state as u128) * 6364136223846793005u128 + 1442695040888963407u128;
        let m: u128 = p % LCG_MODULUS;
        self.state = m as u64;
        self.state
    }

    /// Draws a value in `[0, n)` from the high bits of the next state.
    pub fn draw(&mut self, n: u64) -> (r: u64)
        requires
            0 < n,
        ensures
            final(self).state == spec_next(old(self).state),
            r == spec_draw(old(self).state, n),
            r < n,
    {
        let s = self.next();
        (s / DRAW_SHIFT) % n
    }

    /// Draws a value in `[lo, hi]`, both ends included.
    pub fn draw_range(&mut self, lo: i64, hi: i64) -> (r: i64)
        requires
            lo <= hi,
            hi as int - lo as int <= 4294967295,
        ensures
            final(self).state == spec_next(old(self).state),
            r == lo + spec_draw(old(self).state, (hi - lo + 1) as u64),
            lo <= r <= hi,
    {
        let span: u64 = (hi - lo) as u64 + 1;
        let d = self.draw(span);
        lo + d as i64
    }
}

} // verus!
