//! Tests of the value-modifier algebra: linear combination, power-scaled
//! combination on the fixed-point grid, constructors and accessors.

use msg_status_effect::{Power, Rational, StatusEffectApplication, ValueModifier};

/// Builds the rational `num / den`.
fn rat(num: i128, den: i128) -> Rational {
    Rational::new(num, den)
}

/// Checks that `r` equals `num / den` as a value.
fn assert_value(r: &Rational, num: i128, den: i128) {
    assert!(
        r.eq_value(&rat(num, den)),
        "expected {}/{}, got {}/{}",
        num,
        den,
        r.num,
        r.den
    );
}

/// Checks that `r` lies within `tol` of `num / den` (both over `den`).
fn assert_close(r: &Rational, num: i128, tol: i128, den: i128) {
    let lo = rat(num - tol, den);
    let hi = rat(num + tol, den);
    assert!(
        lo.le_value(r) && r.le_value(&hi),
        "expected about {}/{}, got {}/{}",
        num,
        den,
        r.num,
        r.den
    );
}

#[test]
fn value_modifier_apply_linear() {
    let result = ValueModifier::Val(rat(10, 1)).apply_scaled(rat(100, 1), Power::linear());
    assert_value(&result, 110, 1);

    let result = ValueModifier::Percent(rat(50, 1)).apply_scaled(rat(100, 1), Power::linear());
    assert_value(&result, 150, 1);

    let result = ValueModifier::Percent(rat(-10, 1)).apply_scaled(rat(100, 1), Power::linear());
    assert_value(&result, 90, 1);
}

#[test]
fn value_modifier_apply_scaled_sqrt() {
    // (40^2 + 30^2)^0.5 = sqrt(2500) = 50, exact.
    let result = ValueModifier::Val(rat(30, 1)).apply_scaled(rat(40, 1), Power::sqrt());
    assert_value(&result, 50, 1);

    // (40^2 - 30^2)^0.5 = sqrt(700) = ~26.46
    let result = ValueModifier::Val(rat(-30, 1)).apply_scaled(rat(40, 1), Power::sqrt());
    assert_close(&result, 2646, 10, 100);

    // (30^2 - 50^2)^0.5 would be imaginary; clamped to 0.
    let result = ValueModifier::Val(rat(-50, 1)).apply_scaled(rat(30, 1), Power::sqrt());
    assert!(result.is_zero());
}

#[test]
fn value_modifier_apply_scaled_percent() {
    // 100 * 1.5^0.5 = ~122.47
    let result = ValueModifier::Percent(rat(50, 1)).apply_scaled(rat(100, 1), Power::sqrt());
    assert_close(&result, 12247, 10, 100);

    // 100 * 0.9^0.5 = ~94.87
    let result = ValueModifier::Percent(rat(-10, 1)).apply_scaled(rat(100, 1), Power::sqrt());
    assert_close(&result, 9487, 10, 100);

    // -100% is a multiplier of zero.
    let result = ValueModifier::Percent(rat(-100, 1)).apply_scaled(rat(100, 1), Power::sqrt());
    assert!(result.is_zero());

    // -150% would be a negative multiplier; clamped to 0.
    let result = ValueModifier::Percent(rat(-150, 1)).apply_scaled(rat(100, 1), Power::sqrt());
    assert!(result.is_zero());
}

#[test]
fn value_modifier_constructors() {
    let flat = ValueModifier::flat(rat(10, 1));
    assert!(flat.is_flat());
    assert!(!flat.is_percent());
    assert_value(&flat.flat_value(), 10, 1);
    assert_value(&flat.percent_value(), 0, 1);

    let percent = ValueModifier::percent(rat(25, 1));
    assert!(!percent.is_flat());
    assert!(percent.is_percent());
    assert_value(&percent.flat_value(), 0, 1);
    assert_value(&percent.percent_value(), 25, 1);
}

#[test]
fn value_modifier_scaled_by() {
    let flat = ValueModifier::flat(rat(10, 1));
    assert_value(&flat.scaled_by(rat(2, 1)).flat_value(), 20, 1);

    let percent = ValueModifier::percent(rat(50, 1));
    assert_value(&percent.scaled_by(rat(1, 2)).percent_value(), 25, 1);
}

#[test]
fn status_effect_application_presets() {
    let linear = StatusEffectApplication::linear();
    assert_eq!(linear.power, Power::linear());

    let sqrt = StatusEffectApplication::sqrt();
    assert_eq!(sqrt.power, Power::sqrt());

    let cube_root = StatusEffectApplication::cube_root();
    assert_eq!(cube_root.power, Power::cube_root());

    let square = StatusEffectApplication::square();
    assert_eq!(square.power, Power::square());

    let custom = StatusEffectApplication::with_power(Power::new(2, 3));
    assert_eq!(custom.power, Power::new(2, 3));
}

#[test]
fn value_modifier_zero_current_value() {
    // Adding to zero yields the flat value itself.
    let result = ValueModifier::Val(rat(50, 1)).apply_scaled(rat(0, 1), Power::linear());
    assert_value(&result, 50, 1);

    // A percentage of zero stays zero.
    let result = ValueModifier::Percent(rat(100, 1)).apply_scaled(rat(0, 1), Power::linear());
    assert!(result.is_zero());

    // Zero with sqrt scaling: still the flat value, exactly.
    let result = ValueModifier::Val(rat(50, 1)).apply_scaled(rat(0, 1), Power::sqrt());
    assert_value(&result, 50, 1);
}

#[test]
fn value_modifier_zero_modifier_value() {
    let result = ValueModifier::Val(rat(0, 1)).apply_scaled(rat(100, 1), Power::linear());
    assert_value(&result, 100, 1);

    let result = ValueModifier::Percent(rat(0, 1)).apply_scaled(rat(100, 1), Power::linear());
    assert_value(&result, 100, 1);
}

#[test]
fn value_modifier_very_large_values() {
    let result = ValueModifier::Val(rat(1000000, 1)).apply_scaled(rat(100, 1), Power::linear());
    assert_value(&result, 1000100, 1);

    // +900% is a 10x multiplier.
    let result = ValueModifier::Percent(rat(900, 1)).apply_scaled(rat(100, 1), Power::linear());
    assert_value(&result, 1000, 1);
}

#[test]
fn value_modifier_small_values() {
    let result = ValueModifier::Val(rat(1, 1000)).apply_scaled(rat(100, 1), Power::linear());
    assert_value(&result, 100001, 1000);

    let result = ValueModifier::Percent(rat(1, 10)).apply_scaled(rat(100, 1), Power::linear());
    assert_value(&result, 1001, 10);
}

#[test]
fn value_modifier_cube_root_scaling() {
    // (40^3 + 30^3)^(1/3) = 91000^(1/3) = ~45.0
    let result = ValueModifier::Val(rat(30, 1)).apply_scaled(rat(40, 1), Power::cube_root());
    assert_close(&result, 450, 5, 10);

    // 100 * 2^(1/3) = ~126
    let result = ValueModifier::Percent(rat(100, 1)).apply_scaled(rat(100, 1), Power::cube_root());
    assert_close(&result, 1260, 5, 10);
}

#[test]
fn value_modifier_square_scaling() {
    // (sqrt(100) + sqrt(21))^2 = ~212.2
    let result = ValueModifier::Val(rat(21, 1)).apply_scaled(rat(100, 1), Power::square());
    assert_close(&result, 2122, 10, 10);

    // 100 * 1.5^2 = 225, exact.
    let result = ValueModifier::Percent(rat(50, 1)).apply_scaled(rat(100, 1), Power::square());
    assert_value(&result, 225, 1);
}

#[test]
fn value_modifier_cube_scaling() {
    // 100 * 1.5^3 = 337.5, exact.
    let result = ValueModifier::Percent(rat(50, 1)).apply_scaled(rat(100, 1), Power::cube());
    assert_value(&result, 675, 2);
}

#[test]
fn value_modifier_apply_no_scaling() {
    assert_value(&ValueModifier::Val(rat(10, 1)).apply(rat(100, 1)), 110, 1);
    assert_value(&ValueModifier::Percent(rat(50, 1)).apply(rat(100, 1)), 150, 1);
    assert_value(&ValueModifier::Percent(rat(-25, 1)).apply(rat(100, 1)), 75, 1);
}

#[test]
fn value_modifier_default() {
    let default = ValueModifier::default();
    assert!(default.is_flat());
    assert!(default.flat_value().is_zero());
    assert_value(&default.apply(rat(100, 1)), 100, 1);
}

#[test]
fn value_modifier_scaled_by_zero() {
    let flat = ValueModifier::flat(rat(100, 1));
    assert!(flat.scaled_by(rat(0, 1)).flat_value().is_zero());

    let percent = ValueModifier::percent(rat(50, 1));
    assert!(percent.scaled_by(rat(0, 1)).percent_value().is_zero());
}

#[test]
fn value_modifier_scaled_by_negative() {
    let flat = ValueModifier::flat(rat(10, 1));
    assert_value(&flat.scaled_by(rat(-1, 1)).flat_value(), -10, 1);

    let percent = ValueModifier::percent(rat(50, 1));
    assert_value(&percent.scaled_by(rat(-1, 1)).percent_value(), -50, 1);
}

#[test]
fn value_modifier_subtraction_with_various_scaling() {
    let result = ValueModifier::Val(rat(-30, 1)).apply_scaled(rat(100, 1), Power::linear());
    assert_value(&result, 70, 1);

    // (100^2 - 60^2)^0.5 = sqrt(6400) = 80, exact.
    let result = ValueModifier::Val(rat(-60, 1)).apply_scaled(rat(100, 1), Power::sqrt());
    assert_value(&result, 80, 1);

    // Subtraction exceeding the current value clamps to 0.
    let result = ValueModifier::Val(rat(-150, 1)).apply_scaled(rat(100, 1), Power::sqrt());
    assert!(result.is_zero());
}

#[test]
fn scaling_constants_values() {
    assert_eq!(Power::linear(), Power::new(1, 1));
    assert_eq!(Power::sqrt(), Power::new(1, 2));
    assert_eq!(Power::cube_root(), Power::new(1, 3));
    assert_eq!(Power::square(), Power::new(2, 1));
    assert_eq!(Power::cube(), Power::new(3, 1));
}

#[test]
fn status_effect_application_default() {
    let default = StatusEffectApplication::default();
    assert_eq!(default.power, Power::linear());
}

#[test]
fn flat_zero_is_identity_for_every_power() {
    // A flat modifier of zero returns the current value unchanged under
    // every scaling power, including a fractional current value.
    let current = rat(137, 10);
    for power in [
        Power::linear(),
        Power::sqrt(),
        Power::cube_root(),
        Power::square(),
        Power::cube(),
    ] {
        let result = ValueModifier::Val(rat(0, 7)).apply_scaled(current, power);
        assert_value(&result, 137, 10);
    }
}

#[test]
fn percent_zero_is_identity_for_every_power() {
    let current = rat(137, 10);
    for power in [
        Power::linear(),
        Power::sqrt(),
        Power::cube_root(),
        Power::square(),
        Power::cube(),
    ] {
        let result = ValueModifier::Percent(rat(0, 3)).apply_scaled(current, power);
        assert_value(&result, 137, 10);
    }
}

#[test]
fn percent_floor_zeroes_for_every_power() {
    // Any percentage of -100 points or lower zeroes the value, whatever
    // the power.
    for power in [
        Power::linear(),
        Power::sqrt(),
        Power::cube_root(),
        Power::square(),
        Power::cube(),
    ] {
        for points in [rat(-100, 1), rat(-150, 1), rat(-999, 1), rat(-201, 2)] {
            let result = ValueModifier::Percent(points).apply_scaled(rat(250, 1), power);
            assert!(result.is_zero());
        }
    }
}

#[test]
fn negative_current_value_sign_restored() {
    // A transiently negative stat is scaled by magnitude, sign restored.
    let result = ValueModifier::Val(rat(10, 1)).apply_scaled(rat(-100, 1), Power::linear());
    assert_value(&result, -110, 1);
}

#[test]
fn power_helpers_decide_shape() {
    assert!(Power::linear().is_linear());
    assert!(!Power::sqrt().is_linear());
    assert!(Power::new(2, 2).is_linear());
    assert!(Power::cube().is_wf());
}
