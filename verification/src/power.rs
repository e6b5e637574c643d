//! Scaling powers: the exponent that controls stacking curvature.
//!
//! A power is a positive rational `num / den`. A power of one combines
//! modifiers linearly; powers below one give diminishing returns (square
//! root, cube root); powers above one give increasing returns (square,
//! cube). Both parts are kept between one and three, which covers every
//! preset and keeps the scaling arithmetic inside 128-bit integers.

use vstd::prelude::*;

verus! {

/// Largest numerator or denominator of a power. Larger exponents would
/// overflow the 128-bit scaling arithmetic.
pub const POWER_LIMIT: u32 = 3;

/// A positive rational exponent `num / den`, each part between one and
/// `POWER_LIMIT`.
#[derive(Clone, Copy, Debug, PartialEq, Eq, Structural)]
pub struct Power {
    pub num: u32,
    pub den: u32,
}

/// Well-formedness: both parts lie between one and `POWER_LIMIT`.
pub open spec fn power_wf(p: Power) -> bool {
    &&& 1 <= p.num <= POWER_LIMIT
    &&& 1 <= p.den <= POWER_LIMIT
}

/// A power of one: the linear case.
pub open spec fn power_is_linear(p: Power) -> bool {
    p.num == p.den
}

impl Power {
    /// Builds the power `num / den`.
    pub fn new(num: u32, den: u32) -> (p: Power)
        requires
            1 <= num <= POWER_LIMIT,
            1 <= den <= POWER_LIMIT,
        ensures
            p == (Power { num: num, den: den }),
            power_wf(p),
    {
        Power { num, den }
    }

    /// Linear scaling (no diminishing returns).
    pub fn linear() -> (p: Power)
        ensures
            p == (Power { num: 1u32, den: 1u32 }),
            power_wf(p),
            power_is_linear(p),
    {
        Power { num: 1, den: 1 }
    }

    /// Square root scaling (moderate diminishing returns).
    pub fn sqrt() -> (p: Power)
        ensures
            p == (Power { num: 1u32, den: 2u32 }),
            power_wf(p),
    {
        Power { num: 1, den: 2 }
    }

    /// Cube root scaling (strong diminishing returns).
    pub fn cube_root() -> (p: Power)
        ensures
            p == (Power { num: 1u32, den: 3u32 }),
            power_wf(p),
    {
        Power { num: 1, den: 3 }
    }

    /// Square scaling (increasing returns).
    pub fn square() -> (p: Power)
        ensures
            p == (Power { num: 2u32, den: 1u32 }),
            power_wf(p),
    {
        Power { num: 2, den: 1 }
    }

    /// Cube scaling (strong increasing returns).
    pub fn cube() -> (p: Power)
        ensures
            p == (Power { num: 3u32, den: 1u32 }),
            power_wf(p),
    {
        Power { num: 3, den: 1 }
    }

    /// Decides whether this power combines linearly.
    pub fn is_linear(&self) -> (r: bool)
        ensures
            r == power_is_linear(*self),
    {
        self.num == self.den
    }

    /// Decides well-formedness.
    pub fn is_wf(&self) -> (r: bool)
        ensures
            r == power_wf(*self),
    {
        1 <= self.num && self.num <= POWER_LIMIT && 1 <= self.den && self.den <= POWER_LIMIT
    }
}

} // verus!
