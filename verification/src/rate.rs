//! The probability with which a newly bred child is mutated.

use vstd::prelude::*;

verus! {

/// A probability in the interval from zero (excluded) to one, held as a ratio
/// of two integers: `numerator` chances in `denominator`.
#[derive(Clone, Copy, Debug)]
pub struct MutationRate {
    numerator: u32,
    denominator: u32,
}

impl MutationRate {
    #[verifier::type_invariant]
    spec fn in_range(self) -> bool {
        0 < self.numerator <= self.denominator
    }

    /// The number of chances of a mutation.
    pub closed spec fn chances(self) -> nat {
        self.numerator as nat
    }

    /// The number of draws among which those chances are counted.
    pub closed spec fn out_of(self) -> nat {
        self.denominator as nat
    }

    /// A rate is certain when every draw is a mutation.
    pub open spec fn certain(self) -> bool {
        self.chances() == self.out_of()
    }

    /// The rate of `numerator` chances in `denominator`, where that is a
    /// probability above zero and at most one; `None` for any other pair.
    pub fn new(numerator: u32, denominator: u32) -> (rate: Option<MutationRate>)
        ensures
            rate is Some <==> 0 < numerator <= denominator,
            rate matches Some(r) ==> r.chances() == numerator && r.out_of() == denominator,
    {
        if 0 < numerator && numerator <= denominator {
            Some(MutationRate { numerator, denominator })
        } else {
            None
        }
    }

    /// The rate at which every child is mutated.
    pub fn always() -> (rate: MutationRate)
        ensures
            rate.chances() == 1,
            rate.out_of() == 1,
    {
        MutationRate { numerator: 1, denominator: 1 }
    }

    /// The number of chances of a mutation.
    pub fn numerator(&self) -> (n: u32)
        ensures
            n == self.chances(),
            0 < n <= self.out_of(),
    {
        proof {
            use_type_invariant(self);
        }
        self.numerator
    }

    /// The number of draws among which the chances are counted.
    pub fn denominator(&self) -> (d: u32)
        ensures
            d == self.out_of(),
            self.chances() <= d,
    {
        proof {
            use_type_invariant(self);
        }
        self.denominator
    }
}

} // verus!
