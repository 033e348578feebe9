//! Fitness as an exact fraction.

use vstd::prelude::*;

verus! {

/// A fitness score: the fraction `matches / positions` of the positions of a
/// target at which a genome holds the target's character.
///
/// The score is kept as its two integers, so that two scores are compared
/// exactly. Over the same number of positions, the higher score is the one
/// with more matches.
#[derive(Clone, Copy, Debug, PartialEq, Eq, Structural)]
pub struct Fitness {
    /// The number of matching positions.
    pub matches: usize,
    /// The number of positions compared.
    pub positions: usize,
}

impl Fitness {
    /// The score lies between zero and one, both possible.
    pub open spec fn in_unit_interval(self) -> bool {
        self.positions > 0 && self.matches <= self.positions
    }

    /// The score is one: every position matches.
    pub open spec fn is_one(self) -> bool {
        self.positions > 0 && self.matches == self.positions
    }

    /// Whether the score is one, the mark of a genome that equals its target.
    pub fn is_perfect(&self) -> (perfect: bool)
        ensures
            perfect == self.is_one(),
    {
        self.positions > 0 && self.matches == self.positions
    }
}

} // verus!
