//! A status effect system for games with configurable stacking scaling.
//!
//! Numeric attribute modifiers (flat deltas and percentage-point multipliers)
//! are combined under a per-attribute "power" exponent that controls stacking
//! curvature: linear, diminishing returns (roots) or increasing returns
//! (powers). All values are exact rationals; the irrational root steps of the
//! scaling formulas are given an exact floor semantics on a fixed-point grid,
//! so every result is fully specified and machine-checked.

pub mod attributes;
pub mod config;
pub mod dispatch;
pub mod laws;
pub mod modifier;
pub mod power;
pub mod rational;
pub mod registry;
pub mod root;

pub use attributes::{HealthEffect, HealthPool, StatEffect, StatValue};
pub use config::StatusEffectApplication;
pub use dispatch::{AttributeStore, DispatchOutcome, MutableComponent, StatusEffectApplicator};
pub use modifier::ValueModifier;
pub use power::Power;
pub use rational::Rational;
pub use registry::{ConfigError, ConfigRegistry};
