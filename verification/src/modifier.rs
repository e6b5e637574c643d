//! Value modifiers and the power-scaled combination algebra.
//!
//! A modifier is either a flat additive delta or a percentage-point
//! multiplier. Applying one to a current value under a scaling power `p`
//! follows the formulas
//!
//! - flat, adding:      `(current^(1/p) + v^(1/p)) ^ p`
//! - flat, subtracting: `(max(0, current^(1/p) - |v|^(1/p))) ^ p`
//! - percent:           `current * max(0, 1 + points/100) ^ p`
//!
//! Values are exact rationals. The cases whose mathematical result is
//! rational — a linear power, a zero modifier, a zero current value, a
//! percentage floor — are computed exactly. The remaining cases round each
//! root step down to the `1 / SCALE` grid; `spec_apply_scaled` states that
//! semantics exactly and the executable code is proved to match it.

use vstd::prelude::*;

use crate::power::{Power, power_is_linear, power_wf};
use crate::rational::{
    rat_abs, rat_add, rat_in_range, rat_int, rat_max0, rat_mul, rat_neg, rat_sub, rat_wf,
    Rat, Rational, DEN_LIMIT, SCALE, VALUE_LIMIT,
};
use crate::root::{
    exp_pad, is_scaled_root, lemma_pw_base_le, lemma_pw_ge_base, pw,
    scaled_root, scaled_root_exec, spw,
};

verus! {

/// Largest value a fixed-point grid conversion can produce:
/// `VALUE_LIMIT * SCALE`.
const GRID_LIMIT: i128 = 10_485_760_000;

/// Modifier for numeric values, supporting both flat and percentage-based
/// changes. Percentages are given in points: `Percent(50)` means a 1.5
/// multiplier, `Percent(-10)` a 0.9 multiplier.
#[derive(Clone, Copy, Debug, PartialEq, Eq, Structural)]
pub enum ValueModifier {
    /// Flat additive value (for example +10 speed).
    Val(Rational),
    /// Percentage change in points (50 = +50%, -10 = -10%).
    Percent(Rational),
}

/// Well-formedness: the carried rational has a positive denominator.
pub open spec fn modifier_wf(m: ValueModifier) -> bool {
    match m {
        ValueModifier::Val(v) => rat_wf(v@),
        ValueModifier::Percent(p) => rat_wf(p@),
    }
}

/// Range accepted by the scaling operations (a machine limit).
pub open spec fn modifier_in_range(m: ValueModifier) -> bool {
    match m {
        ValueModifier::Val(v) => rat_in_range(v@),
        ValueModifier::Percent(p) => rat_in_range(p@),
    }
}

/// Conversion of a non-negative rational to the fixed-point grid, rounding
/// down: the largest multiple of `1 / SCALE` at most the value, as a count
/// of grid steps.
pub open spec fn to_grid(q: Rat) -> int {
    (q.num * SCALE) / q.den
}

/// The multiplier a percentage-point value stands for:
/// `max(0, 1 + points / 100)`.
pub open spec fn percent_multiplier(points: Rat) -> Rat {
    rat_max0(Rat { num: 100 * points.den + points.num, den: 100 * points.den })
}

/// The flat combination on the grid for a non-linear power: transform both
/// sides by `x ^ (1/p)`, add or subtract (clamped at zero), transform back
/// by `x ^ p`. Both transforms round down to the grid.
pub open spec fn flat_scaled(c: Rat, av: Rat, subtract: bool, p: Power) -> Rat {
    let tc = scaled_root(to_grid(c), p.num as int, p.den as int);
    let tv = scaled_root(to_grid(av), p.num as int, p.den as int);
    let s = if subtract {
        if tc >= tv {
            tc - tv
        } else {
            0
        }
    } else {
        tc + tv
    };
    Rat { num: scaled_root(s, p.den as int, p.num as int), den: SCALE as int }
}

/// The percent factor on the grid for a non-linear power:
/// `multiplier ^ p`, rounded down to the grid.
pub open spec fn percent_factor_scaled(mult: Rat, p: Power) -> Rat {
    Rat { num: scaled_root(to_grid(mult), p.den as int, p.num as int), den: SCALE as int }
}

/// What applying a modifier to a non-negative current value yields.
///
/// The exact cases come first: a zero modifier and a multiplier of one are
/// identities for every power; a zero current value yields the flat value
/// itself, or zero under a percentage; a floored multiplier yields zero; a
/// linear power combines exactly. Only the remaining cases round to the
/// grid.
pub open spec fn apply_scaled_nonneg(m: ValueModifier, c: Rat, p: Power) -> Rat {
    match m {
        ValueModifier::Val(v0) => {
            let v = v0@;
            if v.num == 0 {
                c
            } else if c.num == 0 {
                if v.num > 0 {
                    v
                } else {
                    rat_int(0)
                }
            } else if power_is_linear(p) {
                if v.num >= 0 {
                    rat_add(c, v)
                } else {
                    rat_max0(rat_sub(c, rat_abs(v)))
                }
            } else {
                flat_scaled(c, rat_abs(v), v.num < 0, p)
            }
        },
        ValueModifier::Percent(p0) => {
            let mult = percent_multiplier(p0@);
            if mult.num == mult.den {
                c
            } else if mult.num == 0 || c.num == 0 {
                rat_int(0)
            } else if power_is_linear(p) {
                rat_mul(c, mult)
            } else {
                rat_mul(c, percent_factor_scaled(mult, p))
            }
        },
    }
}

/// What applying a modifier to any current value yields: a negative current
/// value is scaled by magnitude and the sign is restored on the result.
pub open spec fn spec_apply_scaled(m: ValueModifier, c: Rat, p: Power) -> Rat {
    if c.num < 0 {
        rat_neg(apply_scaled_nonneg(m, rat_abs(c), p))
    } else {
        apply_scaled_nonneg(m, c, p)
    }
}

/// What applying a modifier linearly yields.
pub open spec fn spec_apply(m: ValueModifier, c: Rat) -> Rat {
    spec_apply_scaled(m, c, Power { num: 1, den: 1 })
}

impl ValueModifier {
    /// Creates a flat value modifier.
    pub fn flat(value: Rational) -> (m: ValueModifier)
        ensures
            m == ValueModifier::Val(value),
    {
        ValueModifier::Val(value)
    }

    /// Creates a percentage modifier from percentage points.
    pub fn percent(points: Rational) -> (m: ValueModifier)
        ensures
            m == ValueModifier::Percent(points),
    {
        ValueModifier::Percent(points)
    }

    /// Returns the flat value if this is a flat modifier, otherwise zero.
    pub fn flat_value(&self) -> (r: Rational)
        ensures
            self is Val ==> r == self->Val_0,
            self is Percent ==> r@ == rat_int(0),
    {
        match self {
            ValueModifier::Val(v) => *v,
            ValueModifier::Percent(_) => Rational::from_int(0),
        }
    }

    /// Returns the percent value if this is a percentage modifier, otherwise
    /// zero.
    pub fn percent_value(&self) -> (r: Rational)
        ensures
            self is Percent ==> r == self->Percent_0,
            self is Val ==> r@ == rat_int(0),
    {
        match self {
            ValueModifier::Val(_) => Rational::from_int(0),
            ValueModifier::Percent(p) => *p,
        }
    }

    /// Returns true if this is a flat value modifier.
    pub fn is_flat(&self) -> (r: bool)
        ensures
            r == (self is Val),
    {
        matches!(self, ValueModifier::Val(_))
    }

    /// Returns true if this is a percentage modifier.
    pub fn is_percent(&self) -> (r: bool)
        ensures
            r == (self is Percent),
    {
        matches!(self, ValueModifier::Percent(_))
    }

    /// Returns a new modifier with the carried value scaled by the given
    /// factor.
    pub fn scaled_by(&self, factor: Rational) -> (m: ValueModifier)
        requires
            modifier_wf(*self),
            rat_wf(factor@),
            modifier_in_range(*self),
            rat_in_range(factor@),
        ensures
            self is Val ==> m == ValueModifier::Val(
                Rational {
                    num: (self->Val_0.num * factor.num) as i128,
                    den: (self->Val_0.den * factor.den) as i128,
                },
            ),
            self is Percent ==> m == ValueModifier::Percent(
                Rational {
                    num: (self->Percent_0.num * factor.num) as i128,
                    den: (self->Percent_0.den * factor.den) as i128,
                },
            ),
            modifier_wf(m),
    {
        match self {
            ValueModifier::Val(v) => {
                proof {
                    lemma_in_range_num_bound(v@);
                    lemma_in_range_num_bound(factor@);
                    lemma_abs_mul_le(v@.num, factor@.num, DEN_LIMIT as int * VALUE_LIMIT, DEN_LIMIT as int * VALUE_LIMIT);
                    lemma_abs_mul_le(v@.den, factor@.den, DEN_LIMIT as int, DEN_LIMIT as int);
                    assert(v@.den * factor@.den > 0) by (nonlinear_arith)
                        requires
                            v@.den > 0,
                            factor@.den > 0,
                    ;
                }
                ValueModifier::Val(Rational { num: v.num * factor.num, den: v.den * factor.den })
            },
            ValueModifier::Percent(p) => {
                proof {
                    lemma_in_range_num_bound(p@);
                    lemma_in_range_num_bound(factor@);
                    lemma_abs_mul_le(p@.num, factor@.num, DEN_LIMIT as int * VALUE_LIMIT, DEN_LIMIT as int * VALUE_LIMIT);
                    lemma_abs_mul_le(p@.den, factor@.den, DEN_LIMIT as int, DEN_LIMIT as int);
                    assert(p@.den * factor@.den > 0) by (nonlinear_arith)
                        requires
                            p@.den > 0,
                            factor@.den > 0,
                    ;
                }
                ValueModifier::Percent(Rational { num: p.num * factor.num, den: p.den * factor.den })
            },
        }
    }
}

impl ValueModifier {
    /// Apply the modifier to a value with linear scaling (no diminishing
    /// returns); the power-one specialization of `apply_scaled`.
    pub fn apply(&self, current: Rational) -> (r: Rational)
        requires
            modifier_wf(*self),
            modifier_in_range(*self),
            rat_wf(current@),
            rat_in_range(current@),
        ensures
            rat_wf(r@),
            r@ == spec_apply(*self, current@),
    {
        self.apply_scaled(current, Power::linear())
    }

    /// Apply the modifier with power scaling for diminishing or increasing
    /// returns; the result is exactly `spec_apply_scaled`.
    ///
    /// A negative current value is scaled by magnitude with the sign
    /// restored on the result, so transiently negative stats are handled
    /// without a special case at the call site.
    pub fn apply_scaled(&self, current: Rational, power: Power) -> (r: Rational)
        requires
            modifier_wf(*self),
            modifier_in_range(*self),
            rat_wf(current@),
            rat_in_range(current@),
            power_wf(power),
        ensures
            rat_wf(r@),
            r@ == spec_apply_scaled(*self, current@, power),
    {
        proof {
            lemma_in_range_num_bound(current@);
        }
        if current.num < 0 {
            let work = Rational { num: -current.num, den: current.den };
            proof {
                assert(work@ == rat_abs(current@));
            }
            let r0 = apply_scaled_nonneg_exec(self, work, power);
            Rational { num: -r0.num, den: r0.den }
        } else {
            apply_scaled_nonneg_exec(self, current, power)
        }
    }
}

/// Applies a modifier to a non-negative current value; the executable side
/// of `apply_scaled_nonneg`.
fn apply_scaled_nonneg_exec(m: &ValueModifier, c: Rational, p: Power) -> (r: Rational)
    requires
        modifier_wf(*m),
        modifier_in_range(*m),
        rat_wf(c@),
        rat_in_range(c@),
        c@.num >= 0,
        power_wf(p),
    ensures
        rat_wf(r@),
        r@.num >= 0,
        r@ == apply_scaled_nonneg(*m, c@, p),
{
    let cap_num: Ghost<int> = Ghost(DEN_LIMIT as int * VALUE_LIMIT);
    let cap_den: Ghost<int> = Ghost(DEN_LIMIT as int);
    match m {
        ValueModifier::Val(v) => {
            if v.num == 0 {
                c
            } else if c.num == 0 {
                if v.num > 0 {
                    *v
                } else {
                    Rational::from_int(0)
                }
            } else if p.num == p.den {
                proof {
                    lemma_in_range_num_bound(c@);
                    lemma_in_range_num_bound(v@);
                    lemma_abs_mul_le(c@.num, v@.den, cap_num@, cap_den@);
                    lemma_abs_mul_le(v@.num, c@.den, cap_num@, cap_den@);
                    lemma_abs_mul_le(c@.den, v@.den, cap_den@, cap_den@);
                    assert(c@.den * v@.den > 0 && c@.num * v@.den >= 0) by (nonlinear_arith)
                        requires
                            c@.den > 0,
                            v@.den > 0,
                            c@.num >= 0,
                    ;
                }
                if v.num >= 0 {
                    proof {
                        assert(v@.num * c@.den >= 0) by (nonlinear_arith)
                            requires
                                v@.num >= 0,
                                c@.den > 0,
                        ;
                    }
                    Rational { num: c.num * v.den + v.num * c.den, den: c.den * v.den }
                } else {
                    proof {
                        lemma_abs_mul_le(-v@.num, c@.den, cap_num@, cap_den@);
                    }
                    let n: i128 = c.num * v.den - (-v.num) * c.den;
                    if n < 0 {
                        Rational::from_int(0)
                    } else {
                        Rational { num: n, den: c.den * v.den }
                    }
                }
            } else {
                proof {
                    lemma_in_range_num_bound(v@);
                }
                let av = Rational {
                    num: if v.num < 0 {
                        -v.num
                    } else {
                        v.num
                    },
                    den: v.den,
                };
                proof {
                    assert(av@ == rat_abs(v@));
                }
                flat_scaled_exec(c, av, v.num < 0, p)
            }
        },
        ValueModifier::Percent(pp) => {
            proof {
                lemma_in_range_num_bound(pp@);
            }
            let mden: i128 = 100 * pp.den;
            let mnum0: i128 = mden + pp.num;
            let mult: Rational = if mnum0 < 0 {
                Rational { num: 0, den: 1 }
            } else {
                Rational { num: mnum0, den: mden }
            };
            proof {
                assert(mult@ == percent_multiplier(pp@));
            }
            if mult.num == mult.den {
                c
            } else if mult.num == 0 || c.num == 0 {
                Rational::from_int(0)
            } else if p.num == p.den {
                proof {
                    lemma_range_caps(c@);
                    lemma_range_caps(pp@);
                    assert(0 <= c@.num * mult@.num <= i128::MAX && 0 < c@.den * mult@.den
                        <= i128::MAX) by (nonlinear_arith)
                        requires
                            0 <= c@.num <= 1_160_000_000_000_000_000,
                            0 < mult@.num <= 1_280_000_000_000_000_000,
                            0 < c@.den <= 1_100_000_000_000,
                            0 < mult@.den <= 110_000_000_000_000,
                    ;
                }
                Rational { num: c.num * mult.num, den: c.den * mult.den }
            } else {
                proof {
                    assert(mult@.num <= mult@.den * 10487) by (nonlinear_arith)
                        requires
                            mult@.num == 100 * pp@.den + pp@.num,
                            mult@.den == 100 * pp@.den,
                            pp@.num <= pp@.den * (VALUE_LIMIT as int),
                            pp@.den >= 1,
                            VALUE_LIMIT == 0x10_0000,
                    ;
                }
                let f = percent_factor_exec(mult, p);
                proof {
                    lemma_in_range_num_bound(c@);
                    lemma_abs_mul_le(c@.num, f@.num, cap_num@, PCT_FACTOR_CAP as int);
                    lemma_abs_mul_le(c@.den, f@.den, cap_den@, SCALE as int);
                    assert(c@.num * f@.num >= 0 && c@.den * f@.den > 0) by (nonlinear_arith)
                        requires
                            c@.num >= 0,
                            f@.num >= 0,
                            c@.den > 0,
                            f@.den > 0,
                    ;
                }
                Rational { num: c.num * f.num, den: c.den * f.den }
            }
        },
    }
}

impl Default for ValueModifier {
    /// The default modifier: a flat zero, which changes nothing.
    fn default() -> (m: ValueModifier)
        ensures
            m == ValueModifier::Val(Rational { num: 0 as i128, den: 1 as i128 }),
    {
        ValueModifier::Val(Rational { num: 0, den: 1 })
    }
}

/// Cap on what a transform step can feed the comparisons: with grid inputs,
/// `x^rd` (with its pad) stays below this.
const TRANSFORM_CAP: i128 = 1_200_000_000_000_000_000_000_000_000_000;

/// Cap on the combined, re-transformed flat value (with its pad).
const FIT_CAP: i128 = 5_000_000_000_000_000_000_000_000_000_000;

/// Largest grid value of a percent multiplier.
const PCT_GRID_LIMIT: i128 = 104_870_000;

/// Largest grid factor a percent multiplier can scale to.
const PCT_FACTOR_CAP: i128 = 18_000_000_000_000_000;

/// In-range rationals have numerators bounded by `DEN_LIMIT * VALUE_LIMIT`.
proof fn lemma_in_range_num_bound(q: Rat)
    by (nonlinear_arith)
    requires
        rat_in_range(q),
    ensures
        -(DEN_LIMIT * VALUE_LIMIT) <= q.num <= DEN_LIMIT * VALUE_LIMIT,
{
}

/// In-range rationals, with the caps folded to numerals.
proof fn lemma_range_caps(q: Rat)
    by (nonlinear_arith)
    requires
        rat_in_range(q),
    ensures
        -1_160_000_000_000_000_000 <= q.num <= 1_160_000_000_000_000_000,
        1 <= q.den <= 1_100_000_000_000,
{
}

/// Bound on a product from bounds on its factors.
proof fn lemma_abs_mul_le(a: int, b: int, cap_a: int, cap_b: int)
    by (nonlinear_arith)
    requires
        -cap_a <= a <= cap_a,
        -cap_b <= b <= cap_b,
        0 <= cap_a,
        0 <= cap_b,
    ensures
        -(cap_a * cap_b) <= a * b <= cap_a * cap_b,
{
}

/// A value bound carries over to the grid: a rational at most `k` converts
/// to at most `k * SCALE` grid steps.
proof fn lemma_to_grid_cap(q: Rat, k: int)
    requires
        q.den >= 1,
        0 <= q.num <= q.den * k,
        k >= 0,
    ensures
        0 <= to_grid(q) <= k * SCALE,
{
    assert(q.num * SCALE <= q.den * (k * SCALE)) by (nonlinear_arith)
        requires
            0 <= q.num <= q.den * k,
            q.den >= 1,
            k >= 0,
            SCALE == 10000,
    ;
    vstd::arithmetic::div_mod::lemma_div_is_ordered(q.num * SCALE, q.den * (k * SCALE), q.den);
    vstd::arithmetic::div_mod::lemma_div_multiples_vanish(k * SCALE, q.den);
    vstd::arithmetic::div_mod::lemma_div_pos_is_pos(q.num * SCALE, q.den);
}

/// Grid inputs keep a transform step inside the comparison cap.
proof fn lemma_root_input_ok(x: int, rn: int, rd: int)
    requires
        0 <= x <= GRID_LIMIT,
        1 <= rn <= 3,
        1 <= rd <= 3,
    ensures
        0 <= pw(x, rd) * spw(exp_pad(rn, rd)) <= TRANSFORM_CAP,
{
    assert(0 <= pw(x, rd) * spw(exp_pad(rn, rd)) <= TRANSFORM_CAP) by (nonlinear_arith)
        requires
            0 <= x <= GRID_LIMIT,
            1 <= rn <= 3,
            1 <= rd <= 3,
            GRID_LIMIT == 10_485_760_000,
            SCALE == 10000,
            TRANSFORM_CAP == 1_200_000_000_000_000_000_000_000_000_000,
    ;
}

/// From a power bound back to a base bound: if `t^e` stays at most `cap`
/// and `(bound+1)^e` exceeds it, then `t` is at most `bound`.
proof fn lemma_root_le(t: int, e: int, cap: int, bound: int)
    requires
        t >= 0,
        1 <= e <= 3,
        pw(t, e) <= cap,
        pw(bound + 1, e) > cap,
        bound >= 0,
    ensures
        t <= bound,
{
    if t > bound {
        lemma_pw_base_le(bound + 1, t, e);
    }
}

/// The combined transformed flat value stays inside the comparison cap
/// for the inverse transform, for every non-linear power.
proof fn lemma_combine_fits(tc: int, tv: int, s: int, x1: int, x2: int, pn: int, pd: int)
    requires
        1 <= pn <= 3,
        1 <= pd <= 3,
        pn != pd,
        0 <= x1 <= GRID_LIMIT,
        0 <= x2 <= GRID_LIMIT,
        is_scaled_root(x1, pn, pd, tc),
        is_scaled_root(x2, pn, pd, tv),
        0 <= s <= tc + tv,
    ensures
        0 <= pw(s, pn) * spw(exp_pad(pd, pn)) <= FIT_CAP,
{
    let a = exp_pad(pd, pn);
    let b = exp_pad(pn, pd);
    assert(pw(x1, pd) * spw(b) <= 1_200_000_000_000_000_000_000_000_000_000 && pw(x2, pd) * spw(b)
        <= 1_200_000_000_000_000_000_000_000_000_000) by (nonlinear_arith)
        requires
            0 <= x1 <= GRID_LIMIT,
            0 <= x2 <= GRID_LIMIT,
            1 <= pd <= 3,
            b == exp_pad(pn, pd),
            1 <= pn <= 3,
            GRID_LIMIT == 10_485_760_000,
            SCALE == 10000,
    ;
    if pn == 1 {
        assert(s * spw(a) <= tc * spw(a) + tv * spw(a)) by (nonlinear_arith)
            requires
                0 <= s <= tc + tv,
                spw(a) >= 1,
                tc >= 0,
                tv >= 0,
        ;
        assert(pw(s, pn) * spw(a) <= FIT_CAP);
    } else if pn == 2 && pd == 1 {
        assert(a == 0 && spw(a) == 1 && b == 1 && spw(b) == SCALE);
        assert(pw(x1, 1) * spw(1) <= 104_857_600_000_000int && pw(x2, 1) * spw(1)
            <= 104_857_600_000_000int) by (nonlinear_arith)
            requires
                0 <= x1 <= GRID_LIMIT,
                0 <= x2 <= GRID_LIMIT,
                GRID_LIMIT == 10_485_760_000,
                SCALE == 10000,
        ;
        assert(pw(tc, 2) <= 104_857_600_000_000int);
        assert(pw(tv, 2) <= 104_857_600_000_000int);
        lemma_root_le(tc, 2, 104_857_600_000_000, 11_000_000);
        lemma_root_le(tv, 2, 104_857_600_000_000, 11_000_000);
        assert(pw(s, 2) * spw(0) <= FIT_CAP) by (nonlinear_arith)
            requires
                0 <= s <= tc + tv,
                tc <= 11_000_000,
                tv <= 11_000_000,
                FIT_CAP == 5_000_000_000_000_000_000_000_000_000_000,
        ;
    } else if pn == 2 && pd == 3 {
        assert(a == 1 && spw(a) == SCALE && b == 0 && spw(b) == 1);
        assert(pw(tc, 2) * spw(1) <= 1_200_000_000_000_000_000_000_000_000_000);
        assert(pw(tc, 2) <= 120_000_000_000_000_000_000_000_000int) by (nonlinear_arith)
            requires
                pw(tc, 2) * spw(1) <= 1_200_000_000_000_000_000_000_000_000_000,
                spw(1) == 10000,
                tc >= 0,
        ;
        assert(pw(tv, 2) <= 120_000_000_000_000_000_000_000_000int) by (nonlinear_arith)
            requires
                pw(tv, 2) * spw(1) <= 1_200_000_000_000_000_000_000_000_000_000,
                spw(1) == 10000,
                tv >= 0,
        ;
        lemma_root_le(tc, 2, 120_000_000_000_000_000_000_000_000, 11_000_000_000_000);
        lemma_root_le(tv, 2, 120_000_000_000_000_000_000_000_000, 11_000_000_000_000);
        assert(pw(s, 2) * spw(1) <= FIT_CAP) by (nonlinear_arith)
            requires
                0 <= s <= tc + tv,
                tc <= 11_000_000_000_000,
                tv <= 11_000_000_000_000,
                spw(1) == 10000,
                FIT_CAP == 5_000_000_000_000_000_000_000_000_000_000,
        ;
    } else if pn == 3 && pd == 1 {
        assert(a == 0 && spw(a) == 1 && b == 2 && spw(b) == SCALE * SCALE);
        assert(pw(x1, 1) * spw(2) <= 1_048_576_000_000_000_000int && pw(x2, 1) * spw(2)
            <= 1_048_576_000_000_000_000int) by (nonlinear_arith)
            requires
                0 <= x1 <= GRID_LIMIT,
                0 <= x2 <= GRID_LIMIT,
                GRID_LIMIT == 10_485_760_000,
                SCALE == 10000,
        ;
        assert(pw(tc, 3) <= 1_048_576_000_000_000_000int);
        assert(pw(tv, 3) <= 1_048_576_000_000_000_000int);
        lemma_root_le(tc, 3, 1_048_576_000_000_000_000, 1_020_000);
        lemma_root_le(tv, 3, 1_048_576_000_000_000_000, 1_020_000);
        assert(pw(s, 3) * spw(0) <= FIT_CAP) by (nonlinear_arith)
            requires
                0 <= s <= tc + tv,
                tc <= 1_020_000,
                tv <= 1_020_000,
                FIT_CAP == 5_000_000_000_000_000_000_000_000_000_000,
        ;
    } else {
        assert(pn == 3 && pd == 2);
        assert(a == 0 && spw(a) == 1 && b == 1 && spw(b) == SCALE);
        assert(pw(x1, 2) * spw(1) <= 1_100_000_000_000_000_000_000_000int && pw(x2, 2) * spw(1)
            <= 1_100_000_000_000_000_000_000_000int) by (nonlinear_arith)
            requires
                0 <= x1 <= GRID_LIMIT,
                0 <= x2 <= GRID_LIMIT,
                GRID_LIMIT == 10_485_760_000,
                SCALE == 10000,
        ;
        assert(pw(tc, 3) <= 1_100_000_000_000_000_000_000_000int);
        assert(pw(tv, 3) <= 1_100_000_000_000_000_000_000_000int);
        lemma_root_le(tc, 3, 1_100_000_000_000_000_000_000_000, 104_000_000);
        lemma_root_le(tv, 3, 1_100_000_000_000_000_000_000_000, 104_000_000);
        assert(pw(s, 3) * spw(0) <= FIT_CAP) by (nonlinear_arith)
            requires
                0 <= s <= tc + tv,
                tc <= 104_000_000,
                tv <= 104_000_000,
                FIT_CAP == 5_000_000_000_000_000_000_000_000_000_000,
        ;
    }
    assert(pw(s, pn) * spw(a) >= 0) by (nonlinear_arith)
        requires
            s >= 0,
            1 <= pn <= 3,
            spw(a) >= 1,
    ;
}

/// The grid factor of a percent multiplier is small, for every non-linear
/// power: the multiplier is at most `VALUE_LIMIT / 100 + 1`, so its powers
/// and roots on the grid stay below `PCT_FACTOR_CAP`.
proof fn lemma_percent_factor_fits(mi: int, z: int, pn: int, pd: int)
    requires
        1 <= pn <= 3,
        1 <= pd <= 3,
        pn != pd,
        0 <= mi <= PCT_GRID_LIMIT,
        is_scaled_root(mi, pd, pn, z),
    ensures
        0 <= z <= PCT_FACTOR_CAP,
{
    let a = exp_pad(pn, pd);
    let b = exp_pad(pd, pn);
    assert(pw(mi, pn) * spw(b) <= 1_160_000_000_000_000_000_000_000int) by (nonlinear_arith)
        requires
            0 <= mi <= PCT_GRID_LIMIT,
            1 <= pn <= 3,
            b == exp_pad(pd, pn),
            1 <= pd <= 3,
            PCT_GRID_LIMIT == 104_870_000,
            SCALE == 10000,
    ;
    if pd == 1 {
        if pn == 2 {
            assert(a == 1 && spw(a) == SCALE && spw(b) == 1);
            assert(pw(mi, 2) * spw(b) <= 11_000_000_000_000_000int) by (nonlinear_arith)
                requires
                    0 <= mi <= PCT_GRID_LIMIT,
                    spw(b) == 1,
                    PCT_GRID_LIMIT == 104_870_000,
            ;
            assert(z <= PCT_FACTOR_CAP) by (nonlinear_arith)
                requires
                    pw(z, 1) * spw(a) <= 11_000_000_000_000_000,
                    z >= 0,
                    spw(a) == 10000,
                    PCT_FACTOR_CAP == 18_000_000_000_000_000,
            ;
        } else {
            assert(pn == 3 && a == 2 && spw(a) == SCALE * SCALE);
            assert(z <= PCT_FACTOR_CAP) by (nonlinear_arith)
                requires
                    pw(z, 1) * spw(a) <= 1_160_000_000_000_000_000_000_000,
                    z >= 0,
                    spw(a) == 100_000_000,
                    PCT_FACTOR_CAP == 18_000_000_000_000_000,
            ;
        }
    } else if pd == 2 {
        assert(pw(z, 2) <= 1_160_000_000_000_000_000_000_000int) by (nonlinear_arith)
            requires
                pw(z, 2) * spw(a) <= 1_160_000_000_000_000_000_000_000,
                z >= 0,
                spw(a) >= 1,
        ;
        lemma_root_le(z, 2, 1_160_000_000_000_000_000_000_000, 1_100_000_000_000);
    } else {
        assert(pw(z, 3) <= 1_160_000_000_000_000_000_000_000int) by (nonlinear_arith)
            requires
                pw(z, 3) * spw(a) <= 1_160_000_000_000_000_000_000_000,
                z >= 0,
                spw(a) >= 1,
        ;
        lemma_root_le(z, 3, 1_160_000_000_000_000_000_000_000, 110_000_000);
    }
}

/// Converts a non-negative rational to the fixed-point grid, rounding down.
fn to_grid_exec(q: Rational) -> (g: u128)
    requires
        1 <= q@.den <= 0x1000_0000_0000_0000,
        0 <= q@.num <= q@.den * (VALUE_LIMIT as int),
    ensures
        g == to_grid(q@),
{
    proof {
        assert(q@.num * SCALE <= 0x1000_0000_0000_0000int * (VALUE_LIMIT as int) * (
        SCALE as int)) by (nonlinear_arith)
            requires
                0 <= q@.num <= q@.den * (VALUE_LIMIT as int),
                1 <= q@.den <= 0x1000_0000_0000_0000,
                SCALE == 10000,
                VALUE_LIMIT == 0x10_0000,
        ;
        vstd::arithmetic::div_mod::lemma_div_pos_is_pos(q@.num * SCALE, q@.den);
    }
    let n: u128 = q.num as u128;
    let d: u128 = q.den as u128;
    let g: u128 = (n * (SCALE as u128)) / d;
    proof {
        assert(g == to_grid(q@));
    }
    g
}

/// The flat combination on the grid for a non-linear power; matches
/// `flat_scaled` exactly.
fn flat_scaled_exec(c: Rational, av: Rational, subtract: bool, p: Power) -> (r: Rational)
    requires
        rat_in_range(c@),
        rat_in_range(av@),
        c@.num >= 0,
        av@.num >= 0,
        power_wf(p),
        !power_is_linear(p),
    ensures
        r@ == flat_scaled(c@, av@, subtract, p),
        r@.den == SCALE,
        0 <= r@.num <= FIT_CAP,
{
    proof {
        lemma_to_grid_cap(c@, VALUE_LIMIT as int);
        lemma_to_grid_cap(av@, VALUE_LIMIT as int);
        assert((VALUE_LIMIT as int) * (SCALE as int) == GRID_LIMIT);
    }
    let ci: u128 = to_grid_exec(c);
    let vi: u128 = to_grid_exec(av);
    proof {
        lemma_root_input_ok(ci as int, p.num as int, p.den as int);
        lemma_root_input_ok(vi as int, p.num as int, p.den as int);
    }
    let tc: u128 = scaled_root_exec(ci, p.num, p.den);
    let tv: u128 = scaled_root_exec(vi, p.num, p.den);
    proof {
        lemma_combine_fits(
            tc as int,
            tv as int,
            tc as int + tv as int,
            ci as int,
            vi as int,
            p.num as int,
            p.den as int,
        );
        lemma_pw_ge_base(tc as int + tv as int, p.num as int);
        assert(pw(tc as int + tv as int, p.num as int) * spw(exp_pad(p.den as int, p.num as int))
            >= tc as int + tv as int) by (nonlinear_arith)
            requires
                pw(tc as int + tv as int, p.num as int) >= tc as int + tv as int >= 0,
                spw(exp_pad(p.den as int, p.num as int)) >= 1,
        ;
    }
    let s: u128 = if subtract {
        if tc >= tv {
            tc - tv
        } else {
            0
        }
    } else {
        tc + tv
    };
    proof {
        lemma_combine_fits(
            tc as int,
            tv as int,
            s as int,
            ci as int,
            vi as int,
            p.num as int,
            p.den as int,
        );
    }
    let z: u128 = scaled_root_exec(s, p.den, p.num);
    proof {
        assert(z as int <= FIT_CAP);
    }
    Rational { num: z as i128, den: SCALE }
}

/// The percent factor on the grid for a non-linear power; matches
/// `percent_factor_scaled` exactly.
fn percent_factor_exec(mult: Rational, p: Power) -> (f: Rational)
    requires
        1 <= mult@.den <= 100 * (DEN_LIMIT as int),
        0 <= mult@.num <= mult@.den * 10487,
        power_wf(p),
        !power_is_linear(p),
    ensures
        f@ == percent_factor_scaled(mult@, p),
        f@.den == SCALE,
        0 <= f@.num <= PCT_FACTOR_CAP,
{
    proof {
        lemma_to_grid_cap(mult@, 10487);
        assert(10487 * (SCALE as int) <= PCT_GRID_LIMIT);
        assert(mult@.num <= mult@.den * (VALUE_LIMIT as int)) by (nonlinear_arith)
            requires
                0 <= mult@.num <= mult@.den * 10487,
                mult@.den >= 1,
                VALUE_LIMIT == 0x10_0000,
        ;
    }
    let mi: u128 = to_grid_exec(mult);
    proof {
        lemma_root_input_ok(mi as int, p.den as int, p.num as int);
        assert(TRANSFORM_CAP < u128::MAX);
    }
    let z: u128 = scaled_root_exec(mi, p.den, p.num);
    proof {
        lemma_percent_factor_fits(mi as int, z as int, p.num as int, p.den as int);
    }
    Rational { num: z as i128, den: SCALE }
}

} // verus!
