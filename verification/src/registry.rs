//! The configuration registry: one scaling power per attribute type,
//! registered once at wiring time and read-only thereafter.
//!
//! Attribute types are named by a stable identifier chosen by the host.
//! Registering the same identifier twice is a configuration error, as is
//! looking up an identifier that was never registered: dispatch must not
//! silently fall back to a default power.

use vstd::prelude::*;

use crate::config::StatusEffectApplication;
use crate::power::{power_wf, Power};

verus! {

/// A configuration-time fault: the registry was used against its rules.
#[derive(Clone, Copy, Debug, PartialEq, Eq, Structural)]
pub enum ConfigError {
    /// The attribute type was registered before.
    DuplicateRegistration,
    /// The attribute type was never registered.
    UnregisteredAttribute,
}

/// The registry: a list of (attribute-type identifier, power) pairs with
/// pairwise distinct identifiers.
pub struct ConfigRegistry {
    entries: Vec<(u64, Power)>,
}

impl ConfigRegistry {
    /// The registered pairs.
    pub closed spec fn entries_spec(&self) -> Seq<(u64, Power)> {
        self.entries@
    }

    /// Whether an identifier is registered.
    pub open spec fn is_registered(&self, key: u64) -> bool {
        exists|i: int|
            0 <= i < self.entries_spec().len() && #[trigger] self.entries_spec()[i].0 == key
    }

    /// The power registered for an identifier.
    pub open spec fn registered_power(&self, key: u64) -> Power {
        self.entries_spec()[choose|i: int|
            0 <= i < self.entries_spec().len() && #[trigger] self.entries_spec()[i].0 == key].1
    }

    /// Well-formedness: identifiers are pairwise distinct and every power
    /// is well-formed.
    pub open spec fn wf(&self) -> bool {
        &&& forall|i: int, j: int|
            0 <= i < j < self.entries_spec().len() ==> #[trigger] self.entries_spec()[i].0
                != #[trigger] self.entries_spec()[j].0
        &&& forall|i: int|
            0 <= i < self.entries_spec().len() ==> power_wf(#[trigger] self.entries_spec()[i].1)
    }

    /// An empty registry.
    pub fn new() -> (r: ConfigRegistry)
        ensures
            r.wf(),
            r.entries_spec().len() == 0,
    {
        ConfigRegistry { entries: Vec::new() }
    }

    /// Registers a power for an attribute type. Fails, leaving the
    /// registry unchanged, exactly when the identifier is registered
    /// already.
    pub fn register(&mut self, key: u64, config: StatusEffectApplication) -> (r: Result<
        (),
        ConfigError,
    >)
        requires
            old(self).wf(),
            power_wf(config.power),
        ensures
            final(self).wf(),
            old(self).is_registered(key) ==> r == Result::<(), ConfigError>::Err(
                ConfigError::DuplicateRegistration,
            ) && *final(self) == *old(self),
            !old(self).is_registered(key) ==> r == Result::<(), ConfigError>::Ok(())
                && final(self).entries_spec() == old(self).entries_spec().push(
                (key, config.power),
            ),
            final(self).is_registered(key),
            !old(self).is_registered(key) ==> final(self).registered_power(key) == config.power,
    {
        let mut i: usize = 0;
        let n: usize = self.entries.len();
        while i < n
            invariant
                0 <= i <= n,
                n == self.entries.len(),
                *self == *old(self),
                old(self).wf(),
                forall|j: int| 0 <= j < i ==> #[trigger] self.entries_spec()[j].0 != key,
            decreases n - i,
        {
            if self.entries[i].0 == key {
                proof {
                    assert(self.entries_spec()[i as int].0 == key);
                    assert(old(self).is_registered(key));
                }
                return Err(ConfigError::DuplicateRegistration);
            }
            i = i + 1;
        }
        let ghost before = self.entries_spec();
        self.entries.push((key, config.power));
        proof {
            let entries = self.entries_spec();
            assert(entries == before.push((key, config.power)));
            assert(entries[entries.len() - 1].0 == key);
            assert(self.is_registered(key));
            assert forall|k: int|
                0 <= k < entries.len() && #[trigger] entries[k].0 == key implies k == entries.len()
                - 1 by {
                if k < entries.len() - 1 {
                    assert(entries[k] == before[k]);
                }
            }
            assert(self.registered_power(key) == config.power);
            if old(self).is_registered(key) {
                let w = choose|i: int|
                    0 <= i < before.len() && #[trigger] before[i].0 == key;
                assert(entries[w].0 == key);
                assert(false);
            }
        }
        Ok(())
    }

    /// Looks up the power registered for an attribute type. Fails exactly
    /// when the identifier was never registered.
    pub fn lookup(&self, key: u64) -> (r: Result<Power, ConfigError>)
        requires
            self.wf(),
        ensures
            self.is_registered(key) ==> r == Result::<Power, ConfigError>::Ok(
                self.registered_power(key),
            ),
            !self.is_registered(key) ==> r == Result::<Power, ConfigError>::Err(
                ConfigError::UnregisteredAttribute,
            ),
            r is Ok ==> power_wf(r->Ok_0),
    {
        let mut i: usize = 0;
        let n: usize = self.entries.len();
        while i < n
            invariant
                0 <= i <= n,
                n == self.entries.len(),
                self.wf(),
                forall|j: int| 0 <= j < i ==> #[trigger] self.entries_spec()[j].0 != key,
            decreases n - i,
        {
            if self.entries[i].0 == key {
                proof {
                    let entries = self.entries_spec();
                    assert(entries[i as int].0 == key);
                    assert(self.is_registered(key));
                    assert forall|k: int|
                        0 <= k < entries.len() && #[trigger] entries[k].0 == key implies k
                        == i as int by {
                        if k < i as int {
                            assert(entries[k].0 != entries[i as int].0);
                        }
                        if k > i as int {
                            assert(entries[i as int].0 != entries[k].0);
                        }
                    }
                    assert(self.registered_power(key) == self.entries_spec()[i as int].1);
                }
                return Ok(self.entries[i].1);
            }
            i = i + 1;
        }
        proof {
            if self.is_registered(key) {
                let w = choose|k: int|
                    0 <= k < self.entries_spec().len() && #[trigger] self.entries_spec()[k].0
                        == key;
                assert(self.entries_spec()[w].0 != key);
                assert(false);
            }
        }
        Err(ConfigError::UnregisteredAttribute)
    }
}

} // verus!
