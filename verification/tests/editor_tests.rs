use rock::config::{AVRPlatformSpecificConfig, AppConfig, ConfigError, OSConfig, PlatformSpecific};
use rock::editor::{edit_requires, EditAction, RequirementKind};

fn names(v: &[&str]) -> Vec<String> {
    v.iter().map(|s| s.to_string()).collect()
}

fn os_with(drivers: &[&str], apps: &[&str]) -> OSConfig {
    OSConfig {
        drivers: names(drivers),
        apps: names(apps),
        platform_spec: PlatformSpecific::AVR(AVRPlatformSpecificConfig {
            f_cpu: 8000000,
            mcu: "attiny85".to_string(),
        }),
    }
}

fn app_named(name: &str) -> AppConfig {
    AppConfig {
        name: name.to_string(),
        provides: name.to_string(),
        requires_apps: Vec::new(),
        requires_drivers: Vec::new(),
    }
}

fn catalog() -> OSConfig {
    os_with(&["gpio_c", "uart"], &["base", "bar"])
}

#[test]
fn add_requirement_from_catalog() {
    let mut os = os_with(&[], &["app"]);
    let mut app = app_named("app");
    let cat = catalog();
    edit_requires(&mut os, &mut app, &cat, RequirementKind::Apps, EditAction::Add, "bar").unwrap();
    assert_eq!(app.requires_apps, names(&["bar"]));
    assert_eq!(os.apps, names(&["app", "bar"]));
    assert!(app.requires_drivers.is_empty());
    assert!(os.drivers.is_empty());
}

#[test]
fn add_driver_requirement_from_catalog() {
    let mut os = os_with(&[], &["app"]);
    let mut app = app_named("app");
    let cat = catalog();
    edit_requires(&mut os, &mut app, &cat, RequirementKind::Drivers, EditAction::Add, "uart")
        .unwrap();
    assert_eq!(app.requires_drivers, names(&["uart"]));
    assert_eq!(os.drivers, names(&["uart"]));
    assert!(app.requires_apps.is_empty());
}

#[test]
fn add_unknown_requirement_changes_nothing() {
    let mut os = os_with(&[], &["app"]);
    let mut app = app_named("app");
    let cat = catalog();
    let r = edit_requires(&mut os, &mut app, &cat, RequirementKind::Apps, EditAction::Add, "zzz");
    assert!(matches!(r, Err(ConfigError::NotFoundInCatalog)));
    assert!(app.requires_apps.is_empty());
    assert_eq!(os.apps, names(&["app"]));
}

#[test]
fn add_already_registered_target_is_rejected() {
    let mut os = os_with(&[], &["app", "bar"]);
    let mut app = app_named("app");
    let cat = catalog();
    let r = edit_requires(&mut os, &mut app, &cat, RequirementKind::Apps, EditAction::Add, "bar");
    assert!(matches!(r, Err(ConfigError::AlreadyPresent)));
    assert!(app.requires_apps.is_empty());
    assert_eq!(os.apps, names(&["app", "bar"]));
}

#[test]
fn add_then_remove_restores_both_manifests() {
    let mut os = os_with(&[], &["app"]);
    let mut app = app_named("app");
    let cat = catalog();
    edit_requires(&mut os, &mut app, &cat, RequirementKind::Apps, EditAction::Add, "bar").unwrap();
    edit_requires(&mut os, &mut app, &cat, RequirementKind::Apps, EditAction::Remove, "bar")
        .unwrap();
    assert!(app.requires_apps.is_empty());
    assert_eq!(os.apps, names(&["app"]));
}

#[test]
fn remove_absent_requirement_fails() {
    let mut os = os_with(&[], &["app"]);
    let mut app = app_named("app");
    let cat = catalog();
    let r = edit_requires(
        &mut os,
        &mut app,
        &cat,
        RequirementKind::Drivers,
        EditAction::Remove,
        "uart",
    );
    assert!(matches!(r, Err(ConfigError::NotFound)));
    assert!(os.drivers.is_empty());
    assert!(app.requires_drivers.is_empty());
}

#[test]
fn remove_deletes_first_occurrence_only() {
    let mut os = os_with(&["gpio_c", "uart", "gpio_c"], &["app"]);
    let mut app = app_named("app");
    app.requires_drivers = names(&["gpio_c", "gpio_c"]);
    let cat = catalog();
    edit_requires(&mut os, &mut app, &cat, RequirementKind::Drivers, EditAction::Remove, "gpio_c")
        .unwrap();
    assert_eq!(app.requires_drivers, names(&["gpio_c"]));
    assert_eq!(os.drivers, names(&["uart", "gpio_c"]));
}
