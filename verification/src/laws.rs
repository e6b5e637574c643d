//! Laws of the scaling algebra, stated over its mathematical model and
//! proved for every input the model admits — no machine bounds appear
//! here.

use vstd::prelude::*;

use crate::modifier::{
    apply_scaled_nonneg, percent_multiplier, spec_apply_scaled, ValueModifier,
};
use crate::power::{power_is_linear, power_wf, Power};
use crate::rational::{
    rat_abs, rat_add, rat_eq, rat_int, rat_le, rat_mul, rat_neg, rat_sub, rat_wf, Rat, Rational,
};

verus! {

/// A flat modifier of zero is the identity: for every power and every
/// non-negative current value, applying `Flat(0)` returns the current
/// value unchanged.
pub proof fn law_flat_zero_identity(v: Rational, c: Rat, p: Power)
    requires
        rat_wf(v@),
        v@.num == 0,
        rat_wf(c),
        c.num >= 0,
        power_wf(p),
    ensures
        spec_apply_scaled(ValueModifier::Val(v), c, p) == c,
{
}

/// A percentage of zero points is the identity: for every power and every
/// current value of either sign, applying `Percent(0)` returns the current
/// value unchanged.
pub proof fn law_percent_zero_identity(pp: Rational, c: Rat, p: Power)
    requires
        rat_wf(pp@),
        pp@.num == 0,
        rat_wf(c),
        power_wf(p),
    ensures
        spec_apply_scaled(ValueModifier::Percent(pp), c, p) == c,
{
    let mult = percent_multiplier(pp@);
    assert(mult.num == 100 * pp@.den + 0 == mult.den);
}

/// At linear power a flat modifier is ordinary addition, clamped at zero
/// when a subtraction exceeds the current value.
pub proof fn law_flat_linear(v: Rational, c: Rat, p: Power)
    requires
        rat_wf(v@),
        rat_wf(c),
        c.num >= 0,
        power_wf(p),
        power_is_linear(p),
    ensures
        v@.num >= 0 ==> rat_eq(spec_apply_scaled(ValueModifier::Val(v), c, p), rat_add(c, v@)),
        v@.num < 0 && rat_le(rat_abs(v@), c) ==> rat_eq(
            spec_apply_scaled(ValueModifier::Val(v), c, p),
            rat_add(c, v@),
        ),
        v@.num < 0 && !rat_le(rat_abs(v@), c) ==> spec_apply_scaled(
            ValueModifier::Val(v),
            c,
            p,
        ).num == 0,
{
    let r = spec_apply_scaled(ValueModifier::Val(v), c, p);
    let s = rat_add(c, v@);
    if v@.num == 0 {
        assert(rat_eq(r, s)) by (nonlinear_arith)
            requires
                r == c,
                s == rat_add(c, v@),
                v@.num == 0,
                rat_wf(c),
                rat_wf(v@),
        ;
    } else if c.num == 0 {
        if v@.num > 0 {
            assert(rat_eq(r, s)) by (nonlinear_arith)
                requires
                    r == v@,
                    s == rat_add(c, v@),
                    c.num == 0,
                    rat_wf(c),
                    rat_wf(v@),
            ;
        } else {
            assert(rat_abs(v@).num * c.den > 0) by (nonlinear_arith)
                requires
                    rat_abs(v@).num > 0,
                    c.den > 0,
            ;
            assert(!rat_le(rat_abs(v@), c)) by (nonlinear_arith)
                requires
                    rat_abs(v@).num * c.den > 0,
                    c.num == 0,
                    rat_abs(v@).den > 0,
            ;
        }
    } else {
        if v@.num < 0 {
            let d = rat_sub(c, rat_abs(v@));
            assert(d.num == c.num * v@.den + v@.num * c.den) by (nonlinear_arith)
                requires
                    d.num == c.num * rat_abs(v@).den - rat_abs(v@).num * c.den,
                    rat_abs(v@).den == v@.den,
                    rat_abs(v@).num == -v@.num,
            ;
            assert(rat_le(rat_abs(v@), c) == (d.num >= 0)) by (nonlinear_arith)
                requires
                    d.num == c.num * v@.den - rat_abs(v@).num * c.den,
                    rat_abs(v@).den == v@.den,
                    rat_wf(c),
                    rat_wf(v@),
                    rat_le(rat_abs(v@), c) == (rat_abs(v@).num * c.den <= c.num * rat_abs(
                        v@,
                    ).den),
            ;
        }
    }
}

/// At linear power a percentage is ordinary multiplication by
/// `max(0, 1 + points/100)`, for every current value of either sign.
pub proof fn law_percent_linear(pp: Rational, c: Rat, p: Power)
    requires
        rat_wf(pp@),
        rat_wf(c),
        power_wf(p),
        power_is_linear(p),
    ensures
        rat_eq(
            spec_apply_scaled(ValueModifier::Percent(pp), c, p),
            rat_mul(c, percent_multiplier(pp@)),
        ),
{
    let mult = percent_multiplier(pp@);
    let w = if c.num < 0 {
        rat_abs(c)
    } else {
        c
    };
    let r0 = apply_scaled_nonneg(ValueModifier::Percent(pp), w, p);
    let r = spec_apply_scaled(ValueModifier::Percent(pp), c, p);
    assert(mult.den == 100 * pp@.den || mult.den == 1);
    assert(mult.den > 0) by (nonlinear_arith)
        requires
            pp@.den > 0,
            mult.den == 100 * pp@.den || mult.den == 1,
    ;
    if mult.num == mult.den {
        assert(rat_eq(r0, rat_mul(w, mult))) by (nonlinear_arith)
            requires
                r0 == w,
                mult.num == mult.den,
                rat_wf(w),
                mult.den > 0,
        ;
        assert(r0.den > 0);
    } else if mult.num == 0 || w.num == 0 {
        assert(rat_eq(rat_int(0), rat_mul(w, mult))) by (nonlinear_arith)
            requires
                mult.num == 0 || w.num == 0,
                rat_wf(w),
                mult.den > 0,
        ;
        assert(r0.den > 0);
    } else {
        assert(r0 == rat_mul(w, mult));
        assert(r0.den > 0) by (nonlinear_arith)
            requires
                r0.den == w.den * mult.den,
                w.den > 0,
                mult.den > 0,
        ;
    }
    if c.num < 0 {
        assert(rat_eq(r, rat_mul(c, mult))) by (nonlinear_arith)
            requires
                rat_eq(r0, rat_mul(rat_abs(c), mult)),
                r == rat_neg(r0),
                rat_abs(c).num == -c.num,
                rat_abs(c).den == c.den,
                c.num < 0,
                rat_wf(c),
                r0.den > 0,
                mult.den > 0,
        ;
    }
}

/// The percentage floor: any percentage of `-100` points or lower zeroes
/// the value, for every power and every current value.
pub proof fn law_percent_floor(pp: Rational, c: Rat, p: Power)
    requires
        rat_wf(pp@),
        rat_le(pp@, rat_int(-100)),
        rat_wf(c),
        power_wf(p),
    ensures
        spec_apply_scaled(ValueModifier::Percent(pp), c, p).num == 0,
{
    let mult = percent_multiplier(pp@);
    assert(100 * pp@.den + pp@.num <= 0) by (nonlinear_arith)
        requires
            rat_le(pp@, rat_int(-100)),
            pp@.den > 0,
    ;
    assert(mult.num == 0);
    assert(mult.num != mult.den) by (nonlinear_arith)
        requires
            mult.num == 0,
            mult.den == 100 * pp@.den || mult.den == 1,
            pp@.den > 0,
    ;
}

} // verus!
