//! Ready-made attribute and effect types.
//!
//! `StatValue` is a single-valued attribute (a speed, an armor value)
//! whose effects scale the value itself. `HealthPool` is a two-field
//! attribute whose effects scale the maximum and preserve the
//! current-to-maximum ratio exactly — the attribute type itself decides
//! how the scalar combination maps onto its fields.
//!
//! Both applicators saturate at the machine limits of the rational
//! algebra: when a result would leave the accepted range, the attribute
//! is left unchanged rather than truncated. The models say so exactly.

use vstd::prelude::*;

use crate::dispatch::{MutableComponent, StatusEffectApplicator};
use crate::modifier::{
    modifier_in_range, modifier_wf, spec_apply_scaled, ValueModifier,
};
use crate::power::{power_wf, Power};
use crate::rational::{rat_eq, rat_in_range, rat_mul, rat_wf, Rat, Rational};

verus! {

/// A single-valued attribute: one number subject to modification.
#[derive(Clone, Copy, Debug, PartialEq, Eq, Structural)]
pub struct StatValue {
    /// The attribute's value.
    pub value: Rational,
}

impl StatValue {
    /// Builds an attribute holding the given value.
    pub fn new(value: Rational) -> (s: StatValue)
        ensures
            s.value == value,
    {
        StatValue { value }
    }
}

impl MutableComponent for StatValue {
    /// A well-formed stat holds an in-range rational.
    open spec fn inv(&self) -> bool {
        rat_wf(self.value@) && rat_in_range(self.value@)
    }

    open spec fn default_spec() -> StatValue {
        StatValue { value: Rational { num: 0, den: 1 } }
    }

    fn default_value() -> (r: StatValue)
        ensures
            r == Self::default_spec(),
            r.inv(),
    {
        StatValue { value: Rational::from_int(0) }
    }
}

/// An effect on a `StatValue`: its modifier scales the value under the
/// configured power.
#[derive(Clone, Copy, Debug, PartialEq, Eq, Structural)]
pub struct StatEffect(pub ValueModifier);

/// What a result of the scaling algebra must satisfy to be stored back
/// into an attribute: the machine range of the rational algebra.
pub open spec fn result_storable(r: Rat) -> bool {
    rat_in_range(r)
}

impl StatusEffectApplicator<StatValue> for StatEffect {
    open spec fn modifier_spec(&self) -> ValueModifier {
        self.0
    }

    /// A well-formed effect carries an in-range modifier.
    open spec fn effect_inv(&self) -> bool {
        modifier_wf(self.0) && modifier_in_range(self.0)
    }

    /// The scaled value replaces the old one; a result outside the
    /// machine range leaves the attribute unchanged.
    open spec fn apply_model(&self, component: StatValue, power: Power) -> StatValue {
        let r = spec_apply_scaled(self.0, component.value@, power);
        if result_storable(r) {
            StatValue { value: Rational { num: r.num as i128, den: r.den as i128 } }
        } else {
            component
        }
    }

    fn modifier(&self) -> (m: ValueModifier) {
        self.0
    }

    fn apply(&self, component: &mut StatValue, power: Power) {
        let scaled = self.0.apply_scaled(component.value, power);
        if scaled.in_range() {
            component.value = scaled;
        }
    }
}

/// A pool attribute: a current amount within a maximum capacity.
#[derive(Clone, Copy, Debug, PartialEq, Eq, Structural)]
pub struct HealthPool {
    /// The current amount.
    pub current: Rational,
    /// The maximum capacity.
    pub max: Rational,
}

impl HealthPool {
    /// Builds a pool with the given current amount and capacity.
    pub fn new(current: Rational, max: Rational) -> (p: HealthPool)
        ensures
            p.current == current,
            p.max == max,
    {
        HealthPool { current, max }
    }
}

impl MutableComponent for HealthPool {
    /// A well-formed pool holds two in-range rationals.
    open spec fn inv(&self) -> bool {
        &&& rat_wf(self.current@) && rat_in_range(self.current@)
        &&& rat_wf(self.max@) && rat_in_range(self.max@)
    }

    open spec fn default_spec() -> HealthPool {
        HealthPool {
            current: Rational { num: 0, den: 1 },
            max: Rational { num: 0, den: 1 },
        }
    }

    fn default_value() -> (r: HealthPool)
        ensures
            r == Self::default_spec(),
            r.inv(),
    {
        HealthPool { current: Rational::from_int(0), max: Rational::from_int(0) }
    }
}

/// An effect on a `HealthPool`: its modifier scales the maximum, and the
/// current amount is rescaled to keep the current-to-maximum ratio exact.
#[derive(Clone, Copy, Debug, PartialEq, Eq, Structural)]
pub struct HealthEffect(pub ValueModifier);

/// The rescaled current amount: `current * new_max / max`, as one exact
/// rational.
pub open spec fn rescaled_current(current: Rat, new_max: Rat, max: Rat) -> Rat {
    Rat { num: current.num * new_max.num * max.den, den: current.den * new_max.den * max.num }
}

impl StatusEffectApplicator<HealthPool> for HealthEffect {
    open spec fn modifier_spec(&self) -> ValueModifier {
        self.0
    }

    /// A well-formed effect carries an in-range modifier.
    open spec fn effect_inv(&self) -> bool {
        modifier_wf(self.0) && modifier_in_range(self.0)
    }

    /// The scaled maximum replaces the old one and the current amount is
    /// rescaled to the same ratio. A pool without a positive maximum, or
    /// a result outside the machine range, is left unchanged.
    open spec fn apply_model(&self, component: HealthPool, power: Power) -> HealthPool {
        let nm = spec_apply_scaled(self.0, component.max@, power);
        if component.max@.num > 0 && result_storable(nm) {
            let nc = rescaled_current(component.current@, nm, component.max@);
            if result_storable(nc) {
                HealthPool {
                    current: Rational { num: nc.num as i128, den: nc.den as i128 },
                    max: Rational { num: nm.num as i128, den: nm.den as i128 },
                }
            } else {
                component
            }
        } else {
            component
        }
    }

    fn modifier(&self) -> (m: ValueModifier) {
        self.0
    }

    fn apply(&self, component: &mut HealthPool, power: Power) {
        let new_max = self.0.apply_scaled(component.max, power);
        if component.max.num > 0 && new_max.in_range() {
            let ghost nc = rescaled_current(component.current@, new_max@, component.max@);
            let num_a = component.current.num.checked_mul(new_max.num);
            match num_a {
                Some(na) => {
                    let num_b = na.checked_mul(component.max.den);
                    let den_a = component.current.den.checked_mul(new_max.den);
                    match (num_b, den_a) {
                        (Some(nb), Some(da)) => {
                            let den_b = da.checked_mul(component.max.num);
                            match den_b {
                                Some(db) => {
                                    let candidate = Rational { num: nb, den: db };
                                    proof {
                                        assert(candidate@ == nc);
                                    }
                                    if candidate.in_range() {
                                        component.current = candidate;
                                        component.max = new_max;
                                    }
                                },
                                None => {
                                    proof {
                                        lemma_overflow_means_out_of_range_den(
                                            da as int,
                                            component.max@.num,
                                            nc,
                                        );
                                    }
                                },
                            }
                        },
                        (None, _) => {
                            proof {
                                lemma_overflow_means_out_of_range_num(
                                    na as int,
                                    component.max@.den,
                                    component.current@,
                                    new_max@,
                                    component.max@,
                                    nc,
                                );
                            }
                        },
                        (_, None) => {
                            proof {
                                lemma_den_overflow_means_out_of_range(
                                    component.current@,
                                    new_max@,
                                    component.max@,
                                    nc,
                                );
                            }
                        },
                    }
                },
                None => {
                    proof {
                        lemma_num_overflow_means_out_of_range(
                            component.current@,
                            new_max@,
                            component.max@,
                            nc,
                        );
                    }
                },
            }
        }
    }
}

/// Ratio preservation: whenever a health effect takes the non-saturating
/// path — the pool has a positive maximum and both results stay in the
/// machine range — the new pool keeps the current-to-maximum ratio
/// exactly: `new_current / new_max == current / max`, stated by
/// cross-multiplication.
pub proof fn law_health_ratio_preserved(e: HealthEffect, pool: HealthPool, power: Power)
    requires
        pool.inv(),
        power_wf(power),
        pool.max@.num > 0,
        result_storable(spec_apply_scaled(e.0, pool.max@, power)),
        result_storable(
            rescaled_current(pool.current@, spec_apply_scaled(e.0, pool.max@, power), pool.max@),
        ),
    ensures
        ({
            let q = e.apply_model(pool, power);
            rat_eq(rat_mul(q.current@, pool.max@), rat_mul(pool.current@, q.max@))
        }),
{
    let nm = spec_apply_scaled(e.0, pool.max@, power);
    let nc = rescaled_current(pool.current@, nm, pool.max@);
    let q = e.apply_model(pool, power);
    lemma_storable_fits(nm);
    lemma_storable_fits(nc);
    assert(q.current@ == nc && q.max@ == nm);
    assert(rat_eq(rat_mul(nc, pool.max@), rat_mul(pool.current@, nm))) by (nonlinear_arith)
        requires
            nc.num == pool.current@.num * nm.num * pool.max@.den,
            nc.den == pool.current@.den * nm.den * pool.max@.num,
    ;
}

/// A storable rational fits in 128-bit fields, so storing it loses
/// nothing.
proof fn lemma_storable_fits(r: Rat)
    by (nonlinear_arith)
    requires
        rat_in_range(r),
    ensures
        i128::MIN <= r.num <= i128::MAX,
        i128::MIN <= r.den <= i128::MAX,
{
}

/// A first-factor overflow puts the rescaled numerator out of range.
proof fn lemma_num_overflow_means_out_of_range(current: Rat, nm: Rat, max: Rat, nc: Rat)
    by (nonlinear_arith)
    requires
        current.den > 0,
        nm.den > 0,
        max.den > 0,
        max.num > 0,
        nc == rescaled_current(current, nm, max),
        current.num * nm.num > i128::MAX || current.num * nm.num < i128::MIN,
    ensures
        !rat_in_range(nc),
{
}

/// A second-factor overflow puts the rescaled numerator out of range.
proof fn lemma_overflow_means_out_of_range_num(
    na: int,
    max_den: int,
    current: Rat,
    nm: Rat,
    max: Rat,
    nc: Rat,
)
    by (nonlinear_arith)
    requires
        na == current.num * nm.num,
        max_den == max.den,
        max.den > 0,
        max.num > 0,
        current.den > 0,
        nm.den > 0,
        nc == rescaled_current(current, nm, max),
        na * max_den > i128::MAX || na * max_den < i128::MIN,
    ensures
        !rat_in_range(nc),
{
}

/// A denominator overflow puts the rescaled value out of range.
proof fn lemma_den_overflow_means_out_of_range(current: Rat, nm: Rat, max: Rat, nc: Rat)
    by (nonlinear_arith)
    requires
        current.den > 0,
        nm.den > 0,
        max.den > 0,
        max.num > 0,
        nc == rescaled_current(current, nm, max),
        current.den * nm.den > i128::MAX,
    ensures
        !rat_in_range(nc),
{
}

/// A final denominator overflow puts the rescaled value out of range.
proof fn lemma_overflow_means_out_of_range_den(da: int, max_num: int, nc: Rat)
    by (nonlinear_arith)
    requires
        da >= 1,
        max_num >= 1,
        nc.den == da * max_num,
        da * max_num > i128::MAX,
    ensures
        !rat_in_range(nc),
{
}

} // verus!
