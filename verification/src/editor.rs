//! The dependency editor: adds a requirement to an app manifest after
//! validating it against the template catalog, or removes one, keeping the
//! app manifest and the OS manifest in step.

use vstd::prelude::*;
use crate::config::{app_consistent_with_os, AppConfig, AppModel, ConfigError, OSConfig, OSModel};
use crate::text::{contains_name, lemma_first_index_of, lemma_remove_first_push, position_of_name,
    remove_first};

verus! {

/// Which requirement axis of the app is edited.
#[derive(Clone, Copy, Debug, PartialEq, Eq, Structural)]
pub enum RequirementKind {
    Apps,
    Drivers,
}

/// Whether the requirement is added or removed.
#[derive(Clone, Copy, Debug, PartialEq, Eq, Structural)]
pub enum EditAction {
    Add,
    Remove,
}

/// The app's requirement list on the given axis.
pub open spec fn req_list(app: AppModel, kind: RequirementKind) -> Seq<Seq<char>> {
    match kind {
        RequirementKind::Apps => app.requires_apps,
        RequirementKind::Drivers => app.requires_drivers,
    }
}

/// The OS manifest's component list on the given axis.
pub open spec fn os_list(os: OSModel, kind: RequirementKind) -> Seq<Seq<char>> {
    match kind {
        RequirementKind::Apps => os.apps,
        RequirementKind::Drivers => os.drivers,
    }
}

/// The app with its requirement list on the given axis replaced.
pub open spec fn app_with_req_list(app: AppModel, kind: RequirementKind, l: Seq<Seq<char>>) -> AppModel {
    match kind {
        RequirementKind::Apps => AppModel { requires_apps: l, ..app },
        RequirementKind::Drivers => AppModel { requires_drivers: l, ..app },
    }
}

/// The OS manifest with its component list on the given axis replaced.
pub open spec fn os_with_list(os: OSModel, kind: RequirementKind, l: Seq<Seq<char>>) -> OSModel {
    match kind {
        RequirementKind::Apps => OSModel { apps: l, ..os },
        RequirementKind::Drivers => OSModel { drivers: l, ..os },
    }
}

/// What one edit does to the pair of manifests.
///
/// Add rejects a target the OS manifest already lists anywhere on that axis
/// (deliberately an OS-wide check, not a per-app one), then requires the
/// target to exist in the template catalog, and on success appends it to both
/// the app's requirement list and the OS list. Remove requires the target on
/// both lists and deletes the first occurrence from each.
pub open spec fn spec_edit_requires(
    os: OSModel,
    app: AppModel,
    catalog: OSModel,
    kind: RequirementKind,
    action: EditAction,
    target: Seq<char>,
) -> Result<(OSModel, AppModel), ConfigError> {
    match action {
        EditAction::Add => {
            if os_list(os, kind).contains(target) {
                Err(ConfigError::AlreadyPresent)
            } else if !os_list(catalog, kind).contains(target) {
                Err(ConfigError::NotFoundInCatalog)
            } else {
                Ok(
                    (
                        os_with_list(os, kind, os_list(os, kind).push(target)),
                        app_with_req_list(app, kind, req_list(app, kind).push(target)),
                    ),
                )
            }
        },
        EditAction::Remove => {
            if !req_list(app, kind).contains(target) || !os_list(os, kind).contains(target) {
                Err(ConfigError::NotFound)
            } else {
                Ok(
                    (
                        os_with_list(os, kind, remove_first(os_list(os, kind), target)),
                        app_with_req_list(app, kind, remove_first(req_list(app, kind), target)),
                    ),
                )
            }
        },
    }
}

/// Edits the requirement list of `app` on the `kind` axis, mirroring the
/// change into `os`. On failure both manifests are left untouched, so nothing
/// stale is ever persisted.
pub fn edit_requires(
    os: &mut OSConfig,
    app: &mut AppConfig,
    catalog: &OSConfig,
    kind: RequirementKind,
    action: EditAction,
    target: &str,
) -> (r: Result<(), ConfigError>)
    ensures
        match r {
            Ok(_) => spec_edit_requires(old(os)@, old(app)@, catalog@, kind, action, target@)
                matches Ok(p) && final(os)@ == p.0 && final(app)@ == p.1,
            Err(e) => spec_edit_requires(old(os)@, old(app)@, catalog@, kind, action, target@)
                == Err::<(OSModel, AppModel), ConfigError>(e) && final(os)@ == old(os)@
                && final(app)@ == old(app)@,
        },
{
    match action {
        EditAction::Add => {
            let os_has = match kind {
                RequirementKind::Apps => contains_name(&os.apps, target),
                RequirementKind::Drivers => contains_name(&os.drivers, target),
            };
            if os_has {
                return Err(ConfigError::AlreadyPresent);
            }
            let catalog_has = match kind {
                RequirementKind::Apps => contains_name(&catalog.apps, target),
                RequirementKind::Drivers => contains_name(&catalog.drivers, target),
            };
            if !catalog_has {
                return Err(ConfigError::NotFoundInCatalog);
            }
            match kind {
                RequirementKind::Apps => {
                    app.requires_apps.push(String::from_str(target));
                    os.apps.push(String::from_str(target));
                    proof {
                        assert(app.requires_apps.deep_view() =~= old(
                            app,
                        ).requires_apps.deep_view().push(target@));
                        assert(os.apps.deep_view() =~= old(os).apps.deep_view().push(target@));
                        assert(os@ =~= os_with_list(
                            old(os)@,
                            kind,
                            os_list(old(os)@, kind).push(target@),
                        ));
                        assert(app@ =~= app_with_req_list(
                            old(app)@,
                            kind,
                            req_list(old(app)@, kind).push(target@),
                        ));
                    }
                },
                RequirementKind::Drivers => {
                    app.requires_drivers.push(String::from_str(target));
                    os.drivers.push(String::from_str(target));
                    proof {
                        assert(app.requires_drivers.deep_view() =~= old(
                            app,
                        ).requires_drivers.deep_view().push(target@));
                        assert(os.drivers.deep_view() =~= old(os).drivers.deep_view().push(
                            target@,
                        ));
                        assert(os@ =~= os_with_list(
                            old(os)@,
                            kind,
                            os_list(old(os)@, kind).push(target@),
                        ));
                        assert(app@ =~= app_with_req_list(
                            old(app)@,
                            kind,
                            req_list(old(app)@, kind).push(target@),
                        ));
                    }
                },
            }
            Ok(())
        },
        EditAction::Remove => {
            let app_pos = match kind {
                RequirementKind::Apps => position_of_name(&app.requires_apps, target),
                RequirementKind::Drivers => position_of_name(&app.requires_drivers, target),
            };
            let os_pos = match kind {
                RequirementKind::Apps => position_of_name(&os.apps, target),
                RequirementKind::Drivers => position_of_name(&os.drivers, target),
            };
            let (i, j) = match (app_pos, os_pos) {
                (Some(i), Some(j)) => (i, j),
                _ => {
                    return Err(ConfigError::NotFound);
                },
            };
            proof {
                lemma_first_index_of(req_list(old(app)@, kind), target@);
                lemma_first_index_of(os_list(old(os)@, kind), target@);
            }
            match kind {
                RequirementKind::Apps => {
                    app.requires_apps.remove(i);
                    os.apps.remove(j);
                    proof {
                        assert(app.requires_apps.deep_view() =~= remove_first(
                            old(app).requires_apps.deep_view(),
                            target@,
                        ));
                        assert(os.apps.deep_view() =~= remove_first(
                            old(os).apps.deep_view(),
                            target@,
                        ));
                        assert(os@ =~= os_with_list(
                            old(os)@,
                            kind,
                            remove_first(os_list(old(os)@, kind), target@),
                        ));
                        assert(app@ =~= app_with_req_list(
                            old(app)@,
                            kind,
                            remove_first(req_list(old(app)@, kind), target@),
                        ));
                    }
                },
                RequirementKind::Drivers => {
                    app.requires_drivers.remove(i);
                    os.drivers.remove(j);
                    proof {
                        assert(app.requires_drivers.deep_view() =~= remove_first(
                            old(app).requires_drivers.deep_view(),
                            target@,
                        ));
                        assert(os.drivers.deep_view() =~= remove_first(
                            old(os).drivers.deep_view(),
                            target@,
                        ));
                        assert(os@ =~= os_with_list(
                            old(os)@,
                            kind,
                            remove_first(os_list(old(os)@, kind), target@),
                        ));
                        assert(app@ =~= app_with_req_list(
                            old(app)@,
                            kind,
                            remove_first(req_list(old(app)@, kind), target@),
                        ));
                    }
                },
            }
            Ok(())
        },
    }
}

/// A requirement addition whose target the template catalog does not list is
/// rejected with `NotFoundInCatalog`; by `edit_requires`'s contract an edit
/// that fails leaves both manifests exactly as they were.
pub proof fn lemma_add_unknown_target_rejected(
    os: OSModel,
    app: AppModel,
    catalog: OSModel,
    kind: RequirementKind,
    target: Seq<char>,
)
    requires
        !os_list(os, kind).contains(target),
        !os_list(catalog, kind).contains(target),
    ensures
        spec_edit_requires(os, app, catalog, kind, EditAction::Add, target) == Err::<
            (OSModel, AppModel),
            ConfigError,
        >(ConfigError::NotFoundInCatalog),
{
}

/// Adding a requirement and then removing the same requirement restores both
/// the app's requirement list and the OS manifest's list to their prior
/// contents, provided the app's requirements were consistent with the OS
/// manifest to begin with.
pub proof fn lemma_add_then_remove_restores(
    os: OSModel,
    app: AppModel,
    catalog: OSModel,
    kind: RequirementKind,
    target: Seq<char>,
)
    requires
        app_consistent_with_os(app, os),
        spec_edit_requires(os, app, catalog, kind, EditAction::Add, target) is Ok,
    ensures
        spec_edit_requires(os, app, catalog, kind, EditAction::Add, target) matches Ok(p)
            && spec_edit_requires(p.0, p.1, catalog, kind, EditAction::Remove, target) == Ok::<
            (OSModel, AppModel),
            ConfigError,
        >((os, app)),
{
    let p = spec_edit_requires(os, app, catalog, kind, EditAction::Add, target)->Ok_0;
    assert(!os_list(os, kind).contains(target));
    assert(!req_list(app, kind).contains(target)) by {
        if req_list(app, kind).contains(target) {
            let i = choose|i: int|
                0 <= i < req_list(app, kind).len() && req_list(app, kind)[i] == target;
            match kind {
                RequirementKind::Apps => {
                    assert(os.apps.contains(app.requires_apps[i]));
                },
                RequirementKind::Drivers => {
                    assert(os.drivers.contains(app.requires_drivers[i]));
                },
            }
        }
    }
    lemma_remove_first_push(os_list(os, kind), target);
    lemma_remove_first_push(req_list(app, kind), target);
    assert(os_list(p.0, kind) == os_list(os, kind).push(target));
    assert(req_list(p.1, kind) == req_list(app, kind).push(target));
    let q = spec_edit_requires(p.0, p.1, catalog, kind, EditAction::Remove, target);
    assert(q is Ok);
    match kind {
        RequirementKind::Apps => {
            assert(q->Ok_0.0 =~= os);
            assert(q->Ok_0.1 =~= app);
        },
        RequirementKind::Drivers => {
            assert(q->Ok_0.0 =~= os);
            assert(q->Ok_0.1 =~= app);
        },
    }
}

/// A successful addition keeps the edited app consistent with the OS
/// manifest: the added requirement is registered by the very same edit, and
/// nothing else moves.
pub proof fn lemma_add_keeps_consistency(
    os: OSModel,
    app: AppModel,
    catalog: OSModel,
    kind: RequirementKind,
    target: Seq<char>,
)
    requires
        app_consistent_with_os(app, os),
        spec_edit_requires(os, app, catalog, kind, EditAction::Add, target) is Ok,
    ensures
        spec_edit_requires(os, app, catalog, kind, EditAction::Add, target) matches Ok(p)
            && app_consistent_with_os(p.1, p.0),
{
    let p = spec_edit_requires(os, app, catalog, kind, EditAction::Add, target)->Ok_0;
    let os2 = p.0;
    let app2 = p.1;
    assert forall|i: int| 0 <= i < app2.requires_apps.len() implies os2.apps.contains(
        #[trigger] app2.requires_apps[i],
    ) by {
        match kind {
            RequirementKind::Apps => {
                if i < app.requires_apps.len() {
                    assert(os.apps.contains(app.requires_apps[i]));
                    let j = choose|j: int| 0 <= j < os.apps.len() && os.apps[j]
                        == app.requires_apps[i];
                    assert(os2.apps[j] == app2.requires_apps[i]);
                } else {
                    assert(app2.requires_apps[i] == target);
                    assert(os2.apps[os.apps.len() as int] == target);
                }
            },
            RequirementKind::Drivers => {
                assert(app2.requires_apps[i] == app.requires_apps[i]);
                assert(os.apps.contains(app.requires_apps[i]));
            },
        }
    }
    assert forall|i: int| 0 <= i < app2.requires_drivers.len() implies os2.drivers.contains(
        #[trigger] app2.requires_drivers[i],
    ) by {
        match kind {
            RequirementKind::Drivers => {
                if i < app.requires_drivers.len() {
                    assert(os.drivers.contains(app.requires_drivers[i]));
                    let j = choose|j: int| 0 <= j < os.drivers.len() && os.drivers[j]
                        == app.requires_drivers[i];
                    assert(os2.drivers[j] == app2.requires_drivers[i]);
                } else {
                    assert(app2.requires_drivers[i] == target);
                    assert(os2.drivers[os.drivers.len() as int] == target);
                }
            },
            RequirementKind::Apps => {
                assert(app2.requires_drivers[i] == app.requires_drivers[i]);
                assert(os.drivers.contains(app.requires_drivers[i]));
            },
        }
    }
}

} // verus!
