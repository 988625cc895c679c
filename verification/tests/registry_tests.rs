use rock::config::{AVRPlatformSpecificConfig, AppConfig, ConfigError, OSConfig, PlatformSpecific};

fn fresh_os() -> OSConfig {
    OSConfig {
        drivers: Vec::new(),
        apps: Vec::new(),
        platform_spec: PlatformSpecific::AVR(AVRPlatformSpecificConfig {
            f_cpu: 16000000,
            mcu: "atmega328p".to_string(),
        }),
    }
}

#[test]
fn register_app_creates_fresh_manifest() {
    let mut os = fresh_os();
    let app = os.register_app("foo").unwrap();
    assert_eq!(app.name, "foo");
    assert_eq!(app.provides, "foo");
    assert!(app.requires_apps.is_empty());
    assert!(app.requires_drivers.is_empty());
    assert_eq!(os.apps, vec!["foo".to_string()]);
    assert!(os.drivers.is_empty());
}

#[test]
fn register_app_twice_fails_and_keeps_one_entry() {
    let mut os = fresh_os();
    os.register_app("foo").unwrap();
    let second = os.register_app("foo");
    assert!(matches!(second, Err(ConfigError::AlreadyRegistered)));
    let occurrences = os.apps.iter().filter(|n| n.as_str() == "foo").count();
    assert_eq!(occurrences, 1);
    assert_eq!(os.apps.len(), 1);
}

#[test]
fn registered_app_loads_back_after_save() {
    let mut os = fresh_os();
    let app = os.register_app("foo").unwrap();
    let text = app.to_text();
    let loaded = AppConfig::from_text(text.as_str()).unwrap();
    assert_eq!(loaded.name, "foo");
    assert_eq!(loaded.provides, "foo");
    assert!(loaded.requires_apps.is_empty());
    assert!(loaded.requires_drivers.is_empty());
    assert_eq!(os.apps.iter().filter(|n| n.as_str() == "foo").count(), 1);
}

#[test]
fn register_driver_creates_fresh_manifest() {
    let mut os = fresh_os();
    let drv = os.register_driver("gpio_c").unwrap();
    assert_eq!(drv.name, "gpio_c");
    assert_eq!(drv.provides, "gpio_c");
    assert!(drv.requires.is_empty());
    assert_eq!(os.drivers, vec!["gpio_c".to_string()]);
    assert!(os.apps.is_empty());
}

#[test]
fn register_driver_twice_fails() {
    let mut os = fresh_os();
    os.register_driver("gpio_c").unwrap();
    assert!(matches!(os.register_driver("gpio_c"), Err(ConfigError::AlreadyRegistered)));
    assert_eq!(os.drivers.len(), 1);
}

#[test]
fn app_and_driver_may_share_a_name() {
    let mut os = fresh_os();
    os.register_app("core").unwrap();
    os.register_driver("core").unwrap();
    assert_eq!(os.apps, vec!["core".to_string()]);
    assert_eq!(os.drivers, vec!["core".to_string()]);
}

#[test]
fn registration_order_is_kept() {
    let mut os = fresh_os();
    os.register_app("a").unwrap();
    os.register_app("c").unwrap();
    os.register_app("b").unwrap();
    assert_eq!(os.apps, vec!["a".to_string(), "c".to_string(), "b".to_string()]);
}
