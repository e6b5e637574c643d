//! Tests of the dispatch engine, the attribute store, the configuration
//! registry and the ready-made attribute types.

use msg_status_effect::dispatch::{dispatch_effect, dispatch_registered};
use msg_status_effect::StatusEffectApplicator;
use msg_status_effect::{
    AttributeStore, ConfigError, ConfigRegistry, DispatchOutcome, HealthEffect, HealthPool,
    Power, Rational, StatEffect, StatValue, StatusEffectApplication, ValueModifier,
};

/// Builds the rational `num / den`.
fn rat(num: i128, den: i128) -> Rational {
    Rational::new(num, den)
}

/// Checks that `r` equals `num / den` as a value.
fn assert_value(r: &Rational, num: i128, den: i128) {
    assert!(
        r.eq_value(&rat(num, den)),
        "expected {}/{}, got {}/{}",
        num,
        den,
        r.num,
        r.den
    );
}

/// Checks that `r` lies within `tol` of `num / den` (both over `den`).
fn assert_close(r: &Rational, num: i128, tol: i128, den: i128) {
    let lo = rat(num - tol, den);
    let hi = rat(num + tol, den);
    assert!(
        lo.le_value(r) && r.le_value(&hi),
        "expected about {}/{}, got {}/{}",
        num,
        den,
        r.num,
        r.den
    );
}

/// The stored stat of an entity that must hold one.
fn stat_of(store: &AttributeStore<StatValue>, id: usize) -> Rational {
    store.attribute(id).as_ref().expect("attribute missing").value
}

#[test]
fn integration_apply_status_effect_flat_linear() {
    let mut store: AttributeStore<StatValue> = AttributeStore::new();
    let entity = store.spawn_with(StatValue::new(rat(100, 1)));
    let config = StatusEffectApplication::default();

    let outcome = dispatch_effect(
        &mut store,
        &StatEffect(ValueModifier::Val(rat(20, 1))),
        entity,
        &config,
    );

    assert_eq!(outcome, DispatchOutcome::Applied);
    assert_value(&stat_of(&store, entity), 120, 1);
}

#[test]
fn integration_apply_status_effect_percent_linear() {
    let mut store: AttributeStore<StatValue> = AttributeStore::new();
    let entity = store.spawn_with(StatValue::new(rat(100, 1)));
    let config = StatusEffectApplication::default();

    let outcome = dispatch_effect(
        &mut store,
        &StatEffect(ValueModifier::Percent(rat(50, 1))),
        entity,
        &config,
    );

    assert_eq!(outcome, DispatchOutcome::Applied);
    assert_value(&stat_of(&store, entity), 150, 1);
}

#[test]
fn integration_apply_status_effect_with_sqrt_scaling() {
    let mut store: AttributeStore<StatValue> = AttributeStore::new();
    let entity = store.spawn_with(StatValue::new(rat(40, 1)));
    let config = StatusEffectApplication::sqrt();

    // sqrt(40^2 + 30^2) = 50, exact.
    dispatch_effect(
        &mut store,
        &StatEffect(ValueModifier::Val(rat(30, 1))),
        entity,
        &config,
    );

    assert_value(&stat_of(&store, entity), 50, 1);
}

#[test]
fn integration_multiple_effects_stack() {
    let mut store: AttributeStore<StatValue> = AttributeStore::new();
    let entity = store.spawn_with(StatValue::new(rat(100, 1)));
    let config = StatusEffectApplication::default();

    // 100 + 20 = 120, then 120 * 1.1 = 132: each effect sees the result
    // of the previous one.
    dispatch_effect(
        &mut store,
        &StatEffect(ValueModifier::Val(rat(20, 1))),
        entity,
        &config,
    );
    dispatch_effect(
        &mut store,
        &StatEffect(ValueModifier::Percent(rat(10, 1))),
        entity,
        &config,
    );

    assert_value(&stat_of(&store, entity), 132, 1);
}

#[test]
fn effect_order_does_not_commute() {
    let mut store: AttributeStore<StatValue> = AttributeStore::new();
    let entity = store.spawn_with(StatValue::new(rat(100, 1)));
    let config = StatusEffectApplication::default();

    // The other order: 100 * 1.1 = 110, then 110 + 20 = 130.
    dispatch_effect(
        &mut store,
        &StatEffect(ValueModifier::Percent(rat(10, 1))),
        entity,
        &config,
    );
    dispatch_effect(
        &mut store,
        &StatEffect(ValueModifier::Val(rat(20, 1))),
        entity,
        &config,
    );

    assert_value(&stat_of(&store, entity), 130, 1);
}

#[test]
fn integration_effect_on_nonexistent_entity_no_panic() {
    let mut store: AttributeStore<StatValue> = AttributeStore::new();
    let entity = store.spawn_with(StatValue::new(rat(100, 1)));
    store.despawn(entity);
    let config = StatusEffectApplication::default();

    // Dispatching against a vanished target is dropped silently.
    let outcome = dispatch_effect(
        &mut store,
        &StatEffect(ValueModifier::Val(rat(20, 1))),
        entity,
        &config,
    );

    assert_eq!(outcome, DispatchOutcome::Discarded);
    assert!(store.attribute(entity).is_none());
}

#[test]
fn integration_effect_on_entity_without_component_auto_inserts() {
    let mut store: AttributeStore<StatValue> = AttributeStore::new();
    let entity = store.spawn();
    let config = StatusEffectApplication::default();

    // The default (0) is attached and the effect applied to it, once.
    let outcome = dispatch_effect(
        &mut store,
        &StatEffect(ValueModifier::Val(rat(20, 1))),
        entity,
        &config,
    );

    assert_eq!(outcome, DispatchOutcome::Reapplied);
    assert_value(&stat_of(&store, entity), 20, 1);

    // A second submission finds the attribute present: applied, not
    // re-initialized.
    let outcome = dispatch_effect(
        &mut store,
        &StatEffect(ValueModifier::Val(rat(20, 1))),
        entity,
        &config,
    );

    assert_eq!(outcome, DispatchOutcome::Applied);
    assert_value(&stat_of(&store, entity), 40, 1);
}

#[test]
fn integration_auto_insert_with_percent_effect() {
    let mut store: AttributeStore<StatValue> = AttributeStore::new();
    let entity = store.spawn();
    let config = StatusEffectApplication::default();

    // Default is 0, and +50% of 0 is still 0.
    let outcome = dispatch_effect(
        &mut store,
        &StatEffect(ValueModifier::Percent(rat(50, 1))),
        entity,
        &config,
    );

    assert_eq!(outcome, DispatchOutcome::Reapplied);
    assert!(stat_of(&store, entity).is_zero());
}

#[test]
fn integration_multiple_component_types_independent() {
    let mut speeds: AttributeStore<StatValue> = AttributeStore::new();
    let mut pools: AttributeStore<HealthPool> = AttributeStore::new();
    let speed_entity = speeds.spawn_with(StatValue::new(rat(100, 1)));
    let pool_entity = pools.spawn_with(HealthPool::new(rat(50, 1), rat(100, 1)));

    dispatch_effect(
        &mut speeds,
        &StatEffect(ValueModifier::Val(rat(20, 1))),
        speed_entity,
        &StatusEffectApplication::linear(),
    );
    dispatch_effect(
        &mut pools,
        &HealthEffect(ValueModifier::Percent(rat(50, 1))),
        pool_entity,
        &StatusEffectApplication::sqrt(),
    );

    // Speed: 100 + 20 = 120 (linear).
    assert_value(&stat_of(&speeds, speed_entity), 120, 1);

    // Health max: 100 * 1.5^0.5 = ~122.47 (sqrt scaling); current keeps
    // the ratio: ~61.24.
    let pool = pools.attribute(pool_entity).as_ref().expect("pool missing");
    assert_close(&pool.max, 12247, 10, 100);
    assert_close(&pool.current, 6124, 10, 100);
}

#[test]
fn integration_stacking_effects_sqrt_scaling() {
    let mut store: AttributeStore<StatValue> = AttributeStore::new();
    let entity = store.spawn_with(StatValue::new(rat(100, 1)));
    let config = StatusEffectApplication::sqrt();

    // sqrt(100^2 + 60^2) = sqrt(13600) = ~116.62
    dispatch_effect(
        &mut store,
        &StatEffect(ValueModifier::Val(rat(60, 1))),
        entity,
        &config,
    );
    assert_close(&stat_of(&store, entity), 11662, 10, 100);

    // sqrt(116.62^2 + 80^2) = sqrt(20000) = ~141.42
    dispatch_effect(
        &mut store,
        &StatEffect(ValueModifier::Val(rat(80, 1))),
        entity,
        &config,
    );
    assert_close(&stat_of(&store, entity), 14142, 10, 100);
}

#[test]
fn integration_negative_effects() {
    let mut store: AttributeStore<StatValue> = AttributeStore::new();
    let entity = store.spawn_with(StatValue::new(rat(100, 1)));
    let config = StatusEffectApplication::default();

    dispatch_effect(
        &mut store,
        &StatEffect(ValueModifier::Val(rat(-30, 1))),
        entity,
        &config,
    );

    assert_value(&stat_of(&store, entity), 70, 1);
}

#[test]
fn integration_negative_percent_effect() {
    let mut store: AttributeStore<StatValue> = AttributeStore::new();
    let entity = store.spawn_with(StatValue::new(rat(100, 1)));
    let config = StatusEffectApplication::default();

    dispatch_effect(
        &mut store,
        &StatEffect(ValueModifier::Percent(rat(-25, 1))),
        entity,
        &config,
    );

    assert_value(&stat_of(&store, entity), 75, 1);
}

#[test]
fn scenario_speed_buff() {
    let mut store: AttributeStore<StatValue> = AttributeStore::new();
    let entity = store.spawn_with(StatValue::new(rat(100, 1)));
    let config = StatusEffectApplication::sqrt();

    // Two +30% buffs under sqrt scaling: diminishing returns keep the
    // result well below the linear 169.
    for _ in 0..2 {
        dispatch_effect(
            &mut store,
            &StatEffect(ValueModifier::Percent(rat(30, 1))),
            entity,
            &config,
        );
    }

    let speed = stat_of(&store, entity);
    assert!(speed.le_value(&rat(140, 1)));
    assert!(rat(120, 1).le_value(&speed));
}

#[test]
fn scenario_max_health_increase_preserves_ratio() {
    let mut store: AttributeStore<HealthPool> = AttributeStore::new();
    // A pool at 75% health.
    let entity = store.spawn_with(HealthPool::new(rat(75, 1), rat(100, 1)));
    let config = StatusEffectApplication::default();

    // +50 maximum health, linearly.
    dispatch_effect(
        &mut store,
        &HealthEffect(ValueModifier::Val(rat(50, 1))),
        entity,
        &config,
    );

    // New maximum 150; current keeps the ratio exactly: 150 * 0.75 = 112.5.
    let pool = store.attribute(entity).as_ref().expect("pool missing");
    assert_value(&pool.max, 150, 1);
    assert_value(&pool.current, 225, 2);
}

#[test]
fn scenario_multiple_entities_same_effect() {
    let mut store: AttributeStore<StatValue> = AttributeStore::new();
    let entity1 = store.spawn_with(StatValue::new(rat(100, 1)));
    let entity2 = store.spawn_with(StatValue::new(rat(80, 1)));
    let entity3 = store.spawn_with(StatValue::new(rat(120, 1)));
    let config = StatusEffectApplication::default();

    for entity in [entity1, entity2, entity3] {
        dispatch_effect(
            &mut store,
            &StatEffect(ValueModifier::Percent(rat(25, 1))),
            entity,
            &config,
        );
    }

    assert_value(&stat_of(&store, entity1), 125, 1);
    assert_value(&stat_of(&store, entity2), 100, 1);
    assert_value(&stat_of(&store, entity3), 150, 1);
}

#[test]
fn health_effect_on_empty_pool_leaves_it_unchanged() {
    let mut store: AttributeStore<HealthPool> = AttributeStore::new();
    let entity = store.spawn();
    let config = StatusEffectApplication::default();

    // The default pool has no positive capacity, so the ratio is
    // undefined and the effect leaves the pool as it is.
    let outcome = dispatch_effect(
        &mut store,
        &HealthEffect(ValueModifier::Val(rat(50, 1))),
        entity,
        &config,
    );

    assert_eq!(outcome, DispatchOutcome::Reapplied);
    let pool = store.attribute(entity).as_ref().expect("pool missing");
    assert!(pool.current.is_zero());
    assert!(pool.max.is_zero());
}

#[test]
fn registry_register_and_lookup() {
    let mut registry = ConfigRegistry::new();
    assert_eq!(registry.register(7, StatusEffectApplication::sqrt()), Ok(()));
    assert_eq!(registry.register(9, StatusEffectApplication::square()), Ok(()));

    assert_eq!(registry.lookup(7), Ok(Power::sqrt()));
    assert_eq!(registry.lookup(9), Ok(Power::square()));
}

#[test]
fn registry_duplicate_registration_is_an_error() {
    let mut registry = ConfigRegistry::new();
    assert_eq!(registry.register(7, StatusEffectApplication::sqrt()), Ok(()));
    assert_eq!(
        registry.register(7, StatusEffectApplication::linear()),
        Err(ConfigError::DuplicateRegistration)
    );

    // The first registration stands.
    assert_eq!(registry.lookup(7), Ok(Power::sqrt()));
}

#[test]
fn registry_lookup_of_unregistered_is_an_error() {
    let registry = ConfigRegistry::new();
    assert_eq!(registry.lookup(7), Err(ConfigError::UnregisteredAttribute));
}

#[test]
fn dispatch_registered_uses_the_registered_power() {
    let mut registry = ConfigRegistry::new();
    let speed_key: u64 = 1;
    registry
        .register(speed_key, StatusEffectApplication::sqrt())
        .expect("fresh key");

    let mut store: AttributeStore<StatValue> = AttributeStore::new();
    let entity = store.spawn_with(StatValue::new(rat(40, 1)));

    // sqrt scaling was registered: sqrt(40^2 + 30^2) = 50.
    let outcome = dispatch_registered(
        &mut store,
        &StatEffect(ValueModifier::Val(rat(30, 1))),
        entity,
        &registry,
        speed_key,
    );

    assert_eq!(outcome, Ok(DispatchOutcome::Applied));
    assert_value(&stat_of(&store, entity), 50, 1);
}

#[test]
fn dispatch_registered_refuses_an_unregistered_type() {
    let registry = ConfigRegistry::new();
    let mut store: AttributeStore<StatValue> = AttributeStore::new();
    let entity = store.spawn_with(StatValue::new(rat(40, 1)));

    // Dispatch for a type with no registered power fails loudly and
    // mutates nothing.
    let outcome = dispatch_registered(
        &mut store,
        &StatEffect(ValueModifier::Val(rat(30, 1))),
        entity,
        &registry,
        9,
    );

    assert_eq!(outcome, Err(ConfigError::UnregisteredAttribute));
    assert_value(&stat_of(&store, entity), 40, 1);
}

#[test]
fn attach_default_initializes_a_live_entity() {
    let mut store: AttributeStore<StatValue> = AttributeStore::new();
    let entity = store.spawn();
    assert!(store.attribute(entity).is_none());

    store.attach_default(entity);

    let attr = store.attribute(entity).as_ref().expect("default missing");
    assert!(attr.value.is_zero());
}

#[test]
fn applicator_yields_the_submitted_modifier() {
    let effect = StatEffect(ValueModifier::percent(rat(25, 1)));
    let modifier = effect.modifier();
    assert!(modifier.is_percent());
    assert_value(&modifier.percent_value(), 25, 1);
}
