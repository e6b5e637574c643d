//! The dispatch engine: routing an effect to its target attribute.
//!
//! A submission resolves its target in the attribute store. A live target
//! holding the attribute gets the effect applied in place. A live target
//! missing the attribute gets the attribute's default attached and the
//! same effect applied to it — exactly once, as a single resolve,
//! attach-default, re-apply sequence inside one call, so no retry can
//! loop. A vanished target discards the submission silently, with no
//! mutation; that outcome is indistinguishable from success for the
//! caller.
//!
//! After reinitialization the attribute is present by construction, so the
//! fatal state of an attribute still missing after the one retry cannot
//! occur: the contracts rule it out rather than reporting it.

use vstd::prelude::*;

use crate::config::StatusEffectApplication;
use crate::modifier::ValueModifier;
use crate::power::{power_wf, Power};

verus! {

/// The capability an attribute type needs to receive effects: an
/// invariant that its values keep, and a default to attach when a live
/// target lacks the attribute.
pub trait MutableComponent: Sized {
    /// The invariant of a well-formed attribute value.
    spec fn inv(&self) -> bool;

    /// The default value, as the contracts speak of it.
    spec fn default_spec() -> Self;

    /// Builds the default value.
    fn default_value() -> (r: Self)
        ensures
            r == Self::default_spec(),
            r.inv(),
    ;
}

/// The contract an effect type implements against its one target
/// attribute type: yield the carried modifier, and apply it, at a given
/// power, to an attribute value in place. `apply_model` pins down the
/// mutation exactly; the engine guarantees it is invoked with the power
/// registered for the attribute type and with the submitted effect value
/// unchanged.
pub trait StatusEffectApplicator<C: MutableComponent>: Sized {
    /// The modifier the effect carries.
    spec fn modifier_spec(&self) -> ValueModifier;

    /// The invariant of a well-formed effect value.
    spec fn effect_inv(&self) -> bool;

    /// What applying this effect does to an attribute value.
    spec fn apply_model(&self, component: C, power: Power) -> C;

    /// Get the value modifier from the effect.
    fn modifier(&self) -> (m: ValueModifier)
        ensures
            m == self.modifier_spec(),
    ;

    /// Apply the effect to the component with the given power scaling.
    fn apply(&self, component: &mut C, power: Power)
        requires
            self.effect_inv(),
            old(component).inv(),
            power_wf(power),
        ensures
            final(component).inv(),
            *final(component) == self.apply_model(*old(component), power),
    ;
}

/// One entity slot of the store: whether the entity is alive, and its
/// attribute instance if it has one.
struct Slot<C> {
    alive: bool,
    attribute: Option<C>,
}

/// The attribute store: one slot per entity identifier, standing for the
/// host storage's view of a single attribute type.
pub struct AttributeStore<C> {
    slots: Vec<Slot<C>>,
}

/// The terminal state of one dispatch submission.
#[derive(Clone, Copy, Debug, PartialEq, Eq, Structural)]
pub enum DispatchOutcome {
    /// The target held the attribute; the effect was applied to it.
    Applied,
    /// The target lacked the attribute; the default was attached and the
    /// effect applied to it.
    Reapplied,
    /// The target no longer exists; the submission was dropped with no
    /// side effect.
    Discarded,
}

impl<C: MutableComponent> AttributeStore<C> {
    /// Frame of one dispatch: the store keeps its size and every slot but
    /// the target keeps its liveness and attribute.
    pub open spec fn unchanged_except(&self, post: AttributeStore<C>, target: int) -> bool {
        &&& post.slot_count() == self.slot_count()
        &&& forall|j: int|
            0 <= j < self.slot_count() && j != target ==> #[trigger] post.target_exists_spec(j)
                == self.target_exists_spec(j) && post.attribute_spec(j) == self.attribute_spec(j)
    }

    /// Number of slots ever created.
    pub closed spec fn slot_count(&self) -> nat {
        self.slots@.len()
    }

    /// Whether the target identifier names a live entity.
    pub closed spec fn target_exists_spec(&self, id: int) -> bool {
        0 <= id < self.slots@.len() && self.slots@[id].alive
    }

    /// The attribute instance of a slot.
    pub closed spec fn attribute_spec(&self, id: int) -> Option<C> {
        self.slots@[id].attribute
    }

    /// Every attribute instance in the store keeps its invariant.
    pub open spec fn inv(&self) -> bool {
        forall|i: int|
            0 <= i < self.slot_count() && (#[trigger] self.attribute_spec(i)) is Some
                ==> self.attribute_spec(i)->Some_0.inv()
    }

    /// An empty store.
    pub fn new() -> (s: AttributeStore<C>)
        ensures
            s.inv(),
            s.slot_count() == 0,
    {
        AttributeStore { slots: Vec::new() }
    }

    /// Creates a live entity without the attribute; returns its
    /// identifier.
    pub fn spawn(&mut self) -> (id: usize)
        requires
            old(self).inv(),
        ensures
            final(self).inv(),
            id == old(self).slot_count(),
            final(self).slot_count() == old(self).slot_count() + 1,
            final(self).target_exists_spec(id as int),
            final(self).attribute_spec(id as int) is None,
            forall|j: int|
                0 <= j < old(self).slot_count() ==> #[trigger] final(self).target_exists_spec(j) == old(self).target_exists_spec(j)
                    && final(self).attribute_spec(j) == old(self).attribute_spec(j),
    {
        let id = self.slots.len();
        self.slots.push(Slot { alive: true, attribute: None });
        proof {
            assert forall|i: int|
                0 <= i < self.slot_count() && (#[trigger] self.attribute_spec(i)) is Some implies self.attribute_spec(
                i,
            )->Some_0.inv() by {
                if i != id as int && 0 <= i < old(self).slot_count() {
                    assert(self.attribute_spec(i) == old(self).attribute_spec(i));
                }
            }
        }
        id
    }

    /// Creates a live entity holding the given attribute value; returns
    /// its identifier.
    pub fn spawn_with(&mut self, attribute: C) -> (id: usize)
        requires
            old(self).inv(),
            attribute.inv(),
        ensures
            final(self).inv(),
            id == old(self).slot_count(),
            final(self).slot_count() == old(self).slot_count() + 1,
            final(self).target_exists_spec(id as int),
            final(self).attribute_spec(id as int) == Option::Some(attribute),
            forall|j: int|
                0 <= j < old(self).slot_count() ==> #[trigger] final(self).target_exists_spec(j) == old(self).target_exists_spec(j)
                    && final(self).attribute_spec(j) == old(self).attribute_spec(j),
    {
        let id = self.slots.len();
        self.slots.push(Slot { alive: true, attribute: Some(attribute) });
        proof {
            assert forall|i: int|
                0 <= i < self.slot_count() && (#[trigger] self.attribute_spec(i)) is Some implies self.attribute_spec(
                i,
            )->Some_0.inv() by {
                if i != id as int && 0 <= i < old(self).slot_count() {
                    assert(self.attribute_spec(i) == old(self).attribute_spec(i));
                }
            }
        }
        id
    }

    /// Removes an entity: the target stops existing and its attribute is
    /// dropped.
    pub fn despawn(&mut self, id: usize)
        requires
            old(self).inv(),
            old(self).target_exists_spec(id as int),
        ensures
            final(self).inv(),
            final(self).slot_count() == old(self).slot_count(),
            !final(self).target_exists_spec(id as int),
            final(self).attribute_spec(id as int) is None,
            forall|j: int|
                0 <= j < old(self).slot_count() && j != id ==> #[trigger] final(self).target_exists_spec(j) == old(self).target_exists_spec(j)
                    && final(self).attribute_spec(j) == old(self).attribute_spec(j),
    {
        self.slots[id] = Slot { alive: false, attribute: None };
        proof {
            assert forall|i: int|
                0 <= i < self.slot_count() && (#[trigger] self.attribute_spec(i)) is Some implies self.attribute_spec(
                i,
            )->Some_0.inv() by {
                if i != id as int && 0 <= i < old(self).slot_count() {
                    assert(self.attribute_spec(i) == old(self).attribute_spec(i));
                }
            }
        }
    }

    /// Whether the target identifier names a live entity.
    pub fn target_exists(&self, id: usize) -> (r: bool)
        ensures
            r == self.target_exists_spec(id as int),
    {
        id < self.slots.len() && self.slots[id].alive
    }

    /// The attribute instance of a live entity, if it has one.
    pub fn attribute(&self, id: usize) -> (r: &Option<C>)
        requires
            id < self.slot_count(),
        ensures
            *r == self.attribute_spec(id as int),
    {
        &self.slots[id].attribute
    }

    /// Attaches the attribute type's default to a live entity that lacks
    /// the attribute; the reinitialization step of dispatch.
    pub fn attach_default(&mut self, id: usize)
        requires
            old(self).inv(),
            old(self).target_exists_spec(id as int),
            old(self).attribute_spec(id as int) is None,
        ensures
            final(self).inv(),
            final(self).slot_count() == old(self).slot_count(),
            final(self).target_exists_spec(id as int),
            final(self).attribute_spec(id as int) == Option::Some(C::default_spec()),
            forall|j: int|
                0 <= j < old(self).slot_count() && j != id ==> #[trigger] final(self).target_exists_spec(j) == old(self).target_exists_spec(j)
                    && final(self).attribute_spec(j) == old(self).attribute_spec(j),
    {
        self.slots[id] = Slot { alive: true, attribute: Some(C::default_value()) };
        proof {
            assert forall|i: int|
                0 <= i < self.slot_count() && (#[trigger] self.attribute_spec(i)) is Some implies self.attribute_spec(
                i,
            )->Some_0.inv() by {
                if i != id as int && 0 <= i < old(self).slot_count() {
                    assert(self.attribute_spec(i) == old(self).attribute_spec(i));
                }
            }
        }
    }
}

/// Routes one (effect, target) submission through the store.
///
/// Exactly one of three terminal outcomes is reached, and the contract
/// pins each down:
/// - a live target holding the attribute has it mutated to
///   `apply_model(attribute, power)` — one mutation, nothing else touched;
/// - a live target lacking the attribute has the default attached and the
///   effect applied to it exactly once, never twice: the result is
///   `apply_model(default, power)`;
/// - a vanished target leaves the store untouched and raises no error.
pub fn dispatch_effect<C: MutableComponent, E: StatusEffectApplicator<C>>(
    store: &mut AttributeStore<C>,
    effect: &E,
    target: usize,
    config: &StatusEffectApplication,
) -> (outcome: DispatchOutcome)
    requires
        old(store).inv(),
        effect.effect_inv(),
        power_wf(config.power),
    ensures
        final(store).inv(),
        old(store).unchanged_except(*final(store), target as int),
        final(store).target_exists_spec(target as int) == old(store).target_exists_spec(
            target as int,
        ),
        !old(store).target_exists_spec(target as int) ==> outcome == DispatchOutcome::Discarded
            && *final(store) == *old(store),
        old(store).target_exists_spec(target as int) && old(store).attribute_spec(
            target as int,
        ) is Some ==> outcome == DispatchOutcome::Applied && final(store).attribute_spec(
            target as int,
        ) == Option::Some(
            effect.apply_model(
                old(store).attribute_spec(target as int)->Some_0,
                config.power,
            ),
        ),
        old(store).target_exists_spec(target as int) && old(store).attribute_spec(
            target as int,
        ) is None ==> outcome == DispatchOutcome::Reapplied && final(store).attribute_spec(
            target as int,
        ) == Option::Some(effect.apply_model(C::default_spec(), config.power)),
{
    if !store.target_exists(target) {
        return DispatchOutcome::Discarded;
    }
    dispatch_to_slot(store, effect, target, config)
}

/// Routes a submission whose attribute type is named by a registry key:
/// the configured power is looked up first, and a type with no registered
/// power is a configuration error — the submission is refused loudly and
/// the store left untouched, never dispatched with a silent default.
pub fn dispatch_registered<C: MutableComponent, E: StatusEffectApplicator<C>>(
    store: &mut AttributeStore<C>,
    effect: &E,
    target: usize,
    registry: &crate::registry::ConfigRegistry,
    key: u64,
) -> (result: Result<DispatchOutcome, crate::registry::ConfigError>)
    requires
        old(store).inv(),
        effect.effect_inv(),
        registry.wf(),
    ensures
        final(store).inv(),
        old(store).unchanged_except(*final(store), target as int),
        final(store).target_exists_spec(target as int) == old(store).target_exists_spec(
            target as int,
        ),
        !registry.is_registered(key) ==> result == Result::<
            DispatchOutcome,
            crate::registry::ConfigError,
        >::Err(crate::registry::ConfigError::UnregisteredAttribute) && *final(store) == *old(
            store,
        ),
        registry.is_registered(key) ==> {
            let power = registry.registered_power(key);
            &&& result is Ok
            &&& !old(store).target_exists_spec(target as int) ==> result->Ok_0
                == DispatchOutcome::Discarded && *final(store) == *old(store)
            &&& old(store).target_exists_spec(target as int) && old(store).attribute_spec(
                target as int,
            ) is Some ==> result->Ok_0 == DispatchOutcome::Applied && final(store).attribute_spec(
                target as int,
            ) == Option::Some(
                effect.apply_model(old(store).attribute_spec(target as int)->Some_0, power),
            )
            &&& old(store).target_exists_spec(target as int) && old(store).attribute_spec(
                target as int,
            ) is None ==> result->Ok_0 == DispatchOutcome::Reapplied
                && final(store).attribute_spec(target as int) == Option::Some(
                effect.apply_model(C::default_spec(), power),
            )
        },
{
    match registry.lookup(key) {
        Ok(power) => {
            let config = StatusEffectApplication { power };
            Ok(dispatch_effect(store, effect, target, &config))
        },
        Err(fault) => {
            proof {
                assert(old(store).unchanged_except(*store, target as int));
            }
            Err(fault)
        },
    }
}

/// The resolution and application steps of dispatch, once the target is
/// known to be live.
fn dispatch_to_slot<C: MutableComponent, E: StatusEffectApplicator<C>>(
    store: &mut AttributeStore<C>,
    effect: &E,
    target: usize,
    config: &StatusEffectApplication,
) -> (outcome: DispatchOutcome)
    requires
        old(store).inv(),
        effect.effect_inv(),
        power_wf(config.power),
        old(store).target_exists_spec(target as int),
    ensures
        final(store).inv(),
        old(store).unchanged_except(*final(store), target as int),
        final(store).target_exists_spec(target as int),
        old(store).attribute_spec(target as int) is Some ==> outcome == DispatchOutcome::Applied
            && final(store).attribute_spec(target as int) == Option::Some(
            effect.apply_model(old(store).attribute_spec(target as int)->Some_0, config.power),
        ),
        old(store).attribute_spec(target as int) is None ==> outcome
            == DispatchOutcome::Reapplied && final(store).attribute_spec(target as int)
            == Option::Some(effect.apply_model(C::default_spec(), config.power)),
{
    let slot_attr: Option<C> = store.slots[target].attribute.take();
    match slot_attr {
        Some(mut component) => {
            effect.apply(&mut component, config.power);
            store.slots[target] = Slot { alive: true, attribute: Some(component) };
            proof {
                assert forall|i: int|
                    0 <= i < store.slot_count() && (#[trigger] store.attribute_spec(i)) is Some implies store.attribute_spec(
                    i,
                )->Some_0.inv() by {
                    if i != target as int && 0 <= i < old(store).slot_count() {
                        assert(store.attribute_spec(i) == old(store).attribute_spec(i));
                    }
                }
            }
            DispatchOutcome::Applied
        },
        None => {
            let mut component = C::default_value();
            effect.apply(&mut component, config.power);
            store.slots[target] = Slot { alive: true, attribute: Some(component) };
            proof {
                assert forall|i: int|
                    0 <= i < store.slot_count() && (#[trigger] store.attribute_spec(i)) is Some implies store.attribute_spec(
                    i,
                )->Some_0.inv() by {
                    if i != target as int && 0 <= i < old(store).slot_count() {
                        assert(store.attribute_spec(i) == old(store).attribute_spec(i));
                    }
                }
            }
            DispatchOutcome::Reapplied
        },
    }
}

} // verus!
