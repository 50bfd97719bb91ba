//! A single die: a number of sides and the face currently showing.

use vstd::prelude::*;

verus! {

/// One die. `sides` is the face count it was rolled with; `result` is the
/// face currently showing. Freshly rolled dice satisfy
/// `1 <= result <= sides`; additive explosion and capping may later push
/// `result` above `sides`, but never below 1.
#[derive(Clone, Copy, Debug, PartialEq, Eq, Structural)]
pub struct Die {
    pub sides: u8,
    pub result: u8,
}

/// Relies on `rand::Rng::gen_range` over the inclusive range `1..=sides`
/// (with `rand::thread_rng` as the source): for a non-empty range the sample
/// lies within the range. Nothing more is assumed of the draw.
#[verifier::external_body]
fn sample_face(sides: u8) -> (r: u8)
    requires
        1 <= sides,
    ensures
        1 <= r <= sides,
{
    rand::Rng::gen_range(&mut rand::thread_rng(), 1..=sides)
}

impl Die {
    /// Roll a fresh die: the result is uniform over `1..=sides`.
    pub fn roll(sides: u8) -> (die: Die)
        requires
            1 <= sides,
        ensures
            die.sides == sides,
            1 <= die.result <= sides,
    {
        let result = sample_face(sides);
        Die { sides, result }
    }

    /// Replace the result with a fresh draw over the same sides.
    pub fn reroll(&mut self)
        requires
            1 <= old(self).sides,
        ensures
            final(self).sides == old(self).sides,
            1 <= final(self).result <= final(self).sides,
    {
        self.result = sample_face(self.sides);
    }

    /// Deterministically override the result (used for scripted dice).
    pub fn set(&mut self, value: u8)
        ensures
            final(self).sides == old(self).sides,
            final(self).result == value,
    {
        self.result = value
    }

    /// Roll a fresh die with the same number of sides.
    pub fn explode(&self) -> (die: Die)
        requires
            1 <= self.sides,
        ensures
            die.sides == self.sides,
            1 <= die.result <= die.sides,
    {
        Die::roll(self.sides)
    }

    /// Whether the die shows exactly `value`.
    pub fn equals(&self, value: u8) -> (r: bool)
        ensures
            r == (self.result == value),
    {
        self.result == value
    }

    /// Whether the die shows `target` or more.
    pub fn equal_or_greater(&self, target: u8) -> (r: bool)
        ensures
            r == (self.result >= target),
    {
        self.result >= target
    }

    /// Whether the die shows `target` or less.
    pub fn equal_or_less(&self, target: u8) -> (r: bool)
        ensures
            r == (self.result <= target),
    {
        self.result <= target
    }

    /// Look up the success value of the showing face in a per-face table:
    /// entry `result - 1` of `tns`.
    pub fn count_successes(&self, tns: &Vec<u8>) -> (r: u8)
        requires
            1 <= self.result,
            self.result <= tns@.len(),
        ensures
            r == tns@[self.result - 1],
    {
        tns[(self.result - 1) as usize]
    }
}

} // verus!
