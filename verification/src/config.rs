//! Per-attribute application configuration: the scaling power an attribute
//! type was registered with.

use vstd::prelude::*;

use crate::power::{power_is_linear, power_wf, Power};

verus! {

/// Configuration for how status effects are applied to one attribute type:
/// the power that controls how stacked effects combine.
#[derive(Clone, Copy, Debug, PartialEq, Eq, Structural)]
pub struct StatusEffectApplication {
    /// Power scaling for effect application.
    pub power: Power,
}

impl Default for StatusEffectApplication {
    /// The default configuration: linear scaling.
    fn default() -> (c: StatusEffectApplication)
        ensures
            c.power == (Power { num: 1u32, den: 1u32 }),
            power_wf(c.power),
            power_is_linear(c.power),
    {
        StatusEffectApplication { power: Power::linear() }
    }
}

impl StatusEffectApplication {
    /// Creates a config with custom power scaling.
    pub fn with_power(power: Power) -> (c: StatusEffectApplication)
        requires
            power_wf(power),
        ensures
            c.power == power,
            power_wf(c.power),
    {
        StatusEffectApplication { power }
    }

    /// Creates a config with square root scaling (diminishing returns).
    pub fn sqrt() -> (c: StatusEffectApplication)
        ensures
            c.power == (Power { num: 1u32, den: 2u32 }),
            power_wf(c.power),
    {
        StatusEffectApplication { power: Power::sqrt() }
    }

    /// Creates a config with cube root scaling (strong diminishing
    /// returns).
    pub fn cube_root() -> (c: StatusEffectApplication)
        ensures
            c.power == (Power { num: 1u32, den: 3u32 }),
            power_wf(c.power),
    {
        StatusEffectApplication { power: Power::cube_root() }
    }

    /// Creates a config with linear scaling (no diminishing returns).
    pub fn linear() -> (c: StatusEffectApplication)
        ensures
            c.power == (Power { num: 1u32, den: 1u32 }),
            power_wf(c.power),
            power_is_linear(c.power),
    {
        StatusEffectApplication { power: Power::linear() }
    }

    /// Creates a config with square scaling (increasing returns).
    pub fn square() -> (c: StatusEffectApplication)
        ensures
            c.power == (Power { num: 2u32, den: 1u32 }),
            power_wf(c.power),
    {
        StatusEffectApplication { power: Power::square() }
    }
}

} // verus!
