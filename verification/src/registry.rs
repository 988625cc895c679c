//! The registry: appends a new app or driver to the OS manifest while
//! enforcing that registered names stay unique.

use vstd::prelude::*;
use crate::config::{app_consistent_with_os, driver_consistent_with_os, AppConfig, AppModel,
    ConfigError, DriverConfig, DriverModel, OSConfig, OSModel};
use crate::codec::{enc_app, lemma_app_round_trip, parse_app};
use crate::text::contains_name;

verus! {

/// The manifest a freshly registered app starts with: `name` and `provides`
/// both the registered name, no requirements.
pub open spec fn fresh_app(name: Seq<char>) -> AppModel {
    AppModel {
        name: name,
        provides: name,
        requires_apps: Seq::<Seq<char>>::empty(),
        requires_drivers: Seq::<Seq<char>>::empty(),
    }
}

/// The manifest a freshly registered driver starts with.
pub open spec fn fresh_driver(name: Seq<char>) -> DriverModel {
    DriverModel { name: name, provides: name, requires: Seq::<Seq<char>>::empty() }
}

/// `os` with its app list replaced.
pub open spec fn os_with_apps(os: OSModel, apps: Seq<Seq<char>>) -> OSModel {
    OSModel { apps: apps, ..os }
}

/// `os` with its driver list replaced.
pub open spec fn os_with_drivers(os: OSModel, drivers: Seq<Seq<char>>) -> OSModel {
    OSModel { drivers: drivers, ..os }
}

/// How many entries of `s` equal `t`.
pub open spec fn count_occurrences(s: Seq<Seq<char>>, t: Seq<char>) -> nat
    decreases s.len(),
{
    if s.len() == 0 {
        0
    } else {
        count_occurrences(s.drop_last(), t) + if s.last() == t {
            1nat
        } else {
            0nat
        }
    }
}

/// A list without `t` holds zero occurrences of it.
pub proof fn lemma_count_absent(s: Seq<Seq<char>>, t: Seq<char>)
    requires
        !s.contains(t),
    ensures
        count_occurrences(s, t) == 0,
    decreases s.len(),
{
    if s.len() > 0 {
        assert(s.last() != t);
        assert forall|k: int| 0 <= k < s.drop_last().len() implies s.drop_last()[k] != t by {
            assert(s[k] != t);
        }
        lemma_count_absent(s.drop_last(), t);
    }
}

/// Appending `t` adds exactly one occurrence of it.
pub proof fn lemma_count_push(s: Seq<Seq<char>>, t: Seq<char>)
    ensures
        count_occurrences(s.push(t), t) == count_occurrences(s, t) + 1,
{
    assert(s.push(t).drop_last() =~= s);
    assert(s.push(t).last() == t);
}

impl OSConfig {
    /// Registers a new app name: fails with `AlreadyRegistered` (and changes
    /// nothing) when the name is already listed, else appends it to the app
    /// list and returns the fresh app manifest to be persisted.
    pub fn register_app(&mut self, name: &str) -> (r: Result<AppConfig, ConfigError>)
        ensures
            match r {
                Ok(a) => !old(self)@.apps.contains(name@) && a@ == fresh_app(name@)
                    && final(self)@ == os_with_apps(old(self)@, old(self)@.apps.push(name@)),
                Err(e) => e == ConfigError::AlreadyRegistered && old(self)@.apps.contains(name@)
                    && final(self)@ == old(self)@,
            },
    {
        if contains_name(&self.apps, name) {
            return Err(ConfigError::AlreadyRegistered);
        }
        self.apps.push(String::from_str(name));
        let app = AppConfig {
            name: String::from_str(name),
            provides: String::from_str(name),
            requires_apps: Vec::new(),
            requires_drivers: Vec::new(),
        };
        proof {
            assert(self.apps.deep_view() =~= old(self).apps.deep_view().push(name@));
            assert(self@ =~= os_with_apps(old(self)@, old(self)@.apps.push(name@)));
            assert(app@ =~= fresh_app(name@));
        }
        Ok(app)
    }

    /// Registers a new driver name, the driver-side twin of `register_app`.
    pub fn register_driver(&mut self, name: &str) -> (r: Result<DriverConfig, ConfigError>)
        ensures
            match r {
                Ok(d) => !old(self)@.drivers.contains(name@) && d@ == fresh_driver(name@)
                    && final(self)@ == os_with_drivers(old(self)@, old(self)@.drivers.push(name@)),
                Err(e) => e == ConfigError::AlreadyRegistered && old(self)@.drivers.contains(name@)
                    && final(self)@ == old(self)@,
            },
    {
        if contains_name(&self.drivers, name) {
            return Err(ConfigError::AlreadyRegistered);
        }
        self.drivers.push(String::from_str(name));
        let drv = DriverConfig {
            name: String::from_str(name),
            provides: String::from_str(name),
            requires: Vec::new(),
        };
        proof {
            assert(self.drivers.deep_view() =~= old(self).drivers.deep_view().push(name@));
            assert(self@ =~= os_with_drivers(old(self)@, old(self)@.drivers.push(name@)));
            assert(drv@ =~= fresh_driver(name@));
        }
        Ok(drv)
    }
}

/// After a successful registration of `name`, the OS manifest lists `name`
/// exactly once, and a second registration of the same name is rejected
/// (`register_app` then answers `AlreadyRegistered` and leaves the manifest
/// unchanged, by its contract).
pub proof fn lemma_register_app_twice(os: OSModel, name: Seq<char>)
    requires
        !os.apps.contains(name),
    ensures
        os_with_apps(os, os.apps.push(name)).apps.contains(name),
        count_occurrences(os_with_apps(os, os.apps.push(name)).apps, name) == 1,
{
    assert(os.apps.push(name)[os.apps.len() as int] == name);
    lemma_count_absent(os.apps, name);
    lemma_count_push(os.apps, name);
}

/// The manifests a registration creates satisfy the cross-reference
/// invariant on their own: a fresh component requires nothing.
pub proof fn lemma_fresh_components_consistent(os: OSModel, name: Seq<char>)
    ensures
        app_consistent_with_os(fresh_app(name), os_with_apps(os, os.apps.push(name))),
        driver_consistent_with_os(fresh_driver(name), os_with_drivers(os, os.drivers.push(name))),
{
}

/// Growing the OS manifest keeps every already-consistent app consistent:
/// registering one component never breaks another's cross-references.
pub proof fn lemma_consistency_is_monotone(a: AppModel, os: OSModel, name: Seq<char>)
    requires
        app_consistent_with_os(a, os),
    ensures
        app_consistent_with_os(a, os_with_apps(os, os.apps.push(name))),
        app_consistent_with_os(a, os_with_drivers(os, os.drivers.push(name))),
{
    assert forall|i: int| 0 <= i < a.requires_apps.len() implies os.apps.push(name).contains(
        #[trigger] a.requires_apps[i],
    ) by {
        assert(os.apps.contains(a.requires_apps[i]));
        let j = choose|j: int| 0 <= j < os.apps.len() && os.apps[j] == a.requires_apps[i];
        assert(os.apps.push(name)[j] == a.requires_apps[i]);
    }
    assert forall|i: int| 0 <= i < a.requires_drivers.len() implies os.drivers.push(name).contains(
        #[trigger] a.requires_drivers[i],
    ) by {
        assert(os.drivers.contains(a.requires_drivers[i]));
        let j = choose|j: int| 0 <= j < os.drivers.len() && os.drivers[j] == a.requires_drivers[i];
        assert(os.drivers.push(name)[j] == a.requires_drivers[i]);
    }
}

/// After a successful registration of an app named `name`, the fresh manifest
/// the registry persists loads back from its saved text as exactly that
/// manifest — `name` and `provides` both the registered name, both
/// requirement lists empty — and the OS manifest's app list holds `name`
/// exactly once.
pub proof fn lemma_register_app_then_load(os: OSModel, name: Seq<char>)
    requires
        !os.apps.contains(name),
    ensures
        parse_app(enc_app(fresh_app(name))) == Some(fresh_app(name)),
        fresh_app(name).name == name,
        fresh_app(name).provides == name,
        fresh_app(name).requires_apps.len() == 0,
        fresh_app(name).requires_drivers.len() == 0,
        count_occurrences(os_with_apps(os, os.apps.push(name)).apps, name) == 1,
{
    lemma_app_round_trip(fresh_app(name));
    lemma_count_absent(os.apps, name);
    lemma_count_push(os.apps, name);
}

} // verus!
