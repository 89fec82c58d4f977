//! Exact fractions.

use vstd::prelude::*;

verus! {

/// The fraction `num / den`.  A ratio that stands for a number has a positive
/// denominator; the components are kept as given, not reduced.
#[derive(Clone, Copy, Debug, PartialEq, Eq, Structural)]
pub struct Ratio {
    pub num: i128,
    pub den: i128,
}

impl Ratio {
    /// The denominator is positive.
    pub open spec fn wf(self) -> bool {
        self.den > 0
    }

    /// The ratio lies in the closed unit interval.
    pub open spec fn in_unit_interval(self) -> bool {
        0 <= self.num <= self.den
    }
}

/// One half, the position given to every present sample of a constant
/// population.
pub open spec fn half() -> Ratio {
    Ratio { num: 1, den: 2 }
}

} // verus!
