//! Exact rational numbers: the value domain of the scaling algebra.
//!
//! A `Rational` is a signed numerator over a positive denominator, not
//! necessarily reduced. Its mathematical model is `Rat`, a pair of
//! unbounded integers. Two rationals are equal as values when they
//! cross-multiply equally; `rat_eq` is that relation at the specification
//! level and `eq_value` decides it in executable code.

use vstd::prelude::*;

verus! {

/// Grid used when a scaling step has an irrational exact result: such a
/// result is rounded down to a multiple of `1 / SCALE`.
pub const SCALE: i128 = 10000;

/// Largest denominator accepted by the scaling operations.
pub const DEN_LIMIT: i128 = 0x100_0000_0000;

/// Largest magnitude (as a value) accepted by the scaling operations.
pub const VALUE_LIMIT: i128 = 0x10_0000;

/// The mathematical model of a rational number: `num / den` over the
/// unbounded integers, with `den > 0` for well-formed values.
pub ghost struct Rat {
    pub num: int,
    pub den: int,
}

/// Well-formedness: the denominator is positive.
pub open spec fn rat_wf(q: Rat) -> bool {
    q.den > 0
}

/// Value equality by cross-multiplication.
pub open spec fn rat_eq(a: Rat, b: Rat) -> bool {
    a.num * b.den == b.num * a.den
}

/// Value order by cross-multiplication (sound for positive denominators).
pub open spec fn rat_le(a: Rat, b: Rat) -> bool {
    a.num * b.den <= b.num * a.den
}

/// The rational with value `v`.
pub open spec fn rat_int(v: int) -> Rat {
    Rat { num: v, den: 1 }
}

/// The sum of two rationals.
pub open spec fn rat_add(a: Rat, b: Rat) -> Rat {
    Rat { num: a.num * b.den + b.num * a.den, den: a.den * b.den }
}

/// The difference of two rationals.
pub open spec fn rat_sub(a: Rat, b: Rat) -> Rat {
    Rat { num: a.num * b.den - b.num * a.den, den: a.den * b.den }
}

/// The product of two rationals.
pub open spec fn rat_mul(a: Rat, b: Rat) -> Rat {
    Rat { num: a.num * b.num, den: a.den * b.den }
}

/// The absolute value.
pub open spec fn rat_abs(a: Rat) -> Rat {
    if a.num < 0 {
        Rat { num: -a.num, den: a.den }
    } else {
        a
    }
}

/// The negation.
pub open spec fn rat_neg(a: Rat) -> Rat {
    Rat { num: -a.num, den: a.den }
}

/// The larger of the value and zero.
pub open spec fn rat_max0(a: Rat) -> Rat {
    if a.num < 0 {
        rat_int(0)
    } else {
        a
    }
}

/// Range accepted by the scaling operations: the denominator is bounded and
/// the magnitude of the value is at most `VALUE_LIMIT`. This is a machine
/// limit (the algebra computes in 128-bit integers), not part of the
/// mathematical model.
pub open spec fn rat_in_range(q: Rat) -> bool {
    &&& 1 <= q.den <= DEN_LIMIT
    &&& -(q.den * VALUE_LIMIT) <= q.num <= q.den * VALUE_LIMIT
}

/// A rational number `num / den`; well-formed values keep `den > 0`.
#[derive(Clone, Copy, Debug, PartialEq, Eq, Structural)]
pub struct Rational {
    pub num: i128,
    pub den: i128,
}

impl View for Rational {
    type V = Rat;

    open spec fn view(&self) -> Rat {
        Rat { num: self.num as int, den: self.den as int }
    }
}

impl Rational {
    /// Builds `num / den`.
    pub fn new(num: i128, den: i128) -> (r: Rational)
        requires
            den > 0,
        ensures
            r@ == (Rat { num: num as int, den: den as int }),
            rat_wf(r@),
    {
        Rational { num, den }
    }

    /// Builds the rational with value `v`.
    pub fn from_int(v: i128) -> (r: Rational)
        ensures
            r@ == rat_int(v as int),
            rat_wf(r@),
    {
        Rational { num: v, den: 1 }
    }

    /// Decides value equality.
    pub fn eq_value(&self, other: &Rational) -> (r: bool)
        requires
            rat_wf(self@),
            rat_wf(other@),
            self.num.checked_mul(other.den) is Some,
            other.num.checked_mul(self.den) is Some,
        ensures
            r == rat_eq(self@, other@),
    {
        self.num * other.den == other.num * self.den
    }

    /// Decides value order (`self <= other`).
    pub fn le_value(&self, other: &Rational) -> (r: bool)
        requires
            rat_wf(self@),
            rat_wf(other@),
            self.num.checked_mul(other.den) is Some,
            other.num.checked_mul(self.den) is Some,
        ensures
            r == rat_le(self@, other@),
    {
        self.num * other.den <= other.num * self.den
    }

    /// Decides whether the value is zero.
    pub fn is_zero(&self) -> (r: bool)
        ensures
            r == (self@.num == 0),
    {
        self.num == 0
    }

    /// Decides whether the value lies in the range the scaling operations
    /// accept.
    pub fn in_range(&self) -> (r: bool)
        ensures
            r == rat_in_range(self@),
    {
        1 <= self.den && self.den <= DEN_LIMIT && -(self.den * VALUE_LIMIT) <= self.num
            && self.num <= self.den * VALUE_LIMIT
    }
}

} // verus!
