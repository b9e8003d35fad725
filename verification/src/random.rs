//! Where random coordinates come from.

use vstd::prelude::*;

verus! {

/// A source of integers, each drawn from a closed range that the caller
/// names. Seeding a world takes any such source, so that a run can be
/// repeated with one that is seeded by hand.
pub trait RandomSource {
    /// The next integer, drawn from `low..=high`.
    fn random_i32(&mut self, low: i32, high: i32) -> (drawn: i32)
        requires
            low <= high,
        ensures
            low <= drawn <= high,
    ;
}

/// The state that follows `state` in the generator.
pub open spec fn lcg_next(state: u64) -> u64 {
    state.wrapping_mul(6364136223846793005u64).wrapping_add(1442695040888963407u64)
}

/// The upper half of `state`, folded into `low..=high`.
pub open spec fn lcg_draw(state: u64, low: i32, high: i32) -> int {
    low + (state as int / 0x1_0000_0000) % (high - low + 1)
}

/// A linear congruential generator over 64 bits: the same seed gives the
/// same draws.
pub struct Lcg {
    pub state: u64,
}

impl Lcg {
    /// A generator that starts from `seed`.
    pub fn new(seed: u64) -> (source: Lcg)
        ensures
            source.state == seed,
    {
        Lcg { state: seed }
    }
}

impl RandomSource for Lcg {
    /// Moves the generator on by one state and folds the upper half of the
    /// new state into the range.
    fn random_i32(&mut self, low: i32, high: i32) -> (drawn: i32)
        ensures
            final(self).state == lcg_next(old(self).state),
            drawn == lcg_draw(final(self).state, low, high),
    {
        self.state = self.state.wrapping_mul(6364136223846793005u64).wrapping_add(
            1442695040888963407u64,
        );
        let raw: u64 = self.state / 0x1_0000_0000;
        let span: u64 = (high as i64 - low as i64 + 1) as u64;
        let offset: u64 = raw % span;
        let drawn: i64 = low as i64 + offset as i64;
        drawn as i32
    }
}

} // verus!
