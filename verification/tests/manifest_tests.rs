use rock::config::{AVRPlatformSpecificConfig, AppConfig, ConfigError, DriverConfig, OSConfig,
    PlatformSpecific};

fn avr(mcu: &str, f_cpu: i32) -> PlatformSpecific {
    PlatformSpecific::AVR(AVRPlatformSpecificConfig { f_cpu, mcu: mcu.to_string() })
}

fn names(v: &[&str]) -> Vec<String> {
    v.iter().map(|s| s.to_string()).collect()
}

#[test]
fn empty_os_manifest() {
    let os = OSConfig::empty();
    assert!(os.drivers.is_empty());
    assert!(os.apps.is_empty());
    let PlatformSpecific::AVR(c) = os.platform_spec;
    assert_eq!(c.f_cpu, 0);
    assert_eq!(c.mcu, "");
}

#[test]
fn empty_component_manifests() {
    let a = AppConfig::empty();
    assert_eq!(a.name, "");
    assert_eq!(a.provides, "");
    assert!(a.requires_apps.is_empty());
    assert!(a.requires_drivers.is_empty());
    let d = DriverConfig::empty();
    assert_eq!(d.name, "");
    assert_eq!(d.provides, "");
    assert!(d.requires.is_empty());
    let p = AVRPlatformSpecificConfig::empty();
    assert_eq!(p.f_cpu, 0);
    assert_eq!(p.mcu, "");
}

#[test]
fn os_round_trip() {
    let os = OSConfig {
        drivers: names(&["gpio_c", "uart"]),
        apps: names(&["base", "blink"]),
        platform_spec: avr("atmega328p", 16000000),
    };
    let text = os.to_text();
    let back = OSConfig::from_text(text.as_str()).unwrap();
    assert_eq!(back.drivers, os.drivers);
    assert_eq!(back.apps, os.apps);
    let PlatformSpecific::AVR(c) = back.platform_spec;
    assert_eq!(c.f_cpu, 16000000);
    assert_eq!(c.mcu, "atmega328p");
}

#[test]
fn os_round_trip_awkward_names() {
    let os = OSConfig {
        drivers: names(&["quo\"te", "back\\slash", ""]),
        apps: names(&["spa ce", "com,ma", "bra]cket"]),
        platform_spec: avr("a\"v\\r", -42),
    };
    let text = os.to_text();
    let back = OSConfig::from_text(text.as_str()).unwrap();
    assert_eq!(back.drivers, os.drivers);
    assert_eq!(back.apps, os.apps);
    let PlatformSpecific::AVR(c) = back.platform_spec;
    assert_eq!(c.f_cpu, -42);
    assert_eq!(c.mcu, "a\"v\\r");
}

#[test]
fn app_round_trip() {
    let app = AppConfig {
        name: "blink".to_string(),
        provides: "blink_task".to_string(),
        requires_apps: names(&["base"]),
        requires_drivers: names(&["gpio_c", "timer"]),
    };
    let text = app.to_text();
    let back = AppConfig::from_text(text.as_str()).unwrap();
    assert_eq!(back.name, app.name);
    assert_eq!(back.provides, app.provides);
    assert_eq!(back.requires_apps, app.requires_apps);
    assert_eq!(back.requires_drivers, app.requires_drivers);
}

#[test]
fn driver_round_trip() {
    let drv = DriverConfig {
        name: "uart".to_string(),
        provides: "uart_init".to_string(),
        requires: names(&["gpio_c"]),
    };
    let text = drv.to_text();
    let back = DriverConfig::from_text(text.as_str()).unwrap();
    assert_eq!(back.name, drv.name);
    assert_eq!(back.provides, drv.provides);
    assert_eq!(back.requires, drv.requires);
}

#[test]
fn round_trip_extreme_frequency() {
    let os = OSConfig {
        drivers: Vec::new(),
        apps: Vec::new(),
        platform_spec: avr("m", i32::MIN),
    };
    let back = OSConfig::from_text(os.to_text().as_str()).unwrap();
    let PlatformSpecific::AVR(c) = back.platform_spec;
    assert_eq!(c.f_cpu, i32::MIN);
    let os2 = OSConfig {
        drivers: Vec::new(),
        apps: Vec::new(),
        platform_spec: avr("m", i32::MAX),
    };
    let back2 = OSConfig::from_text(os2.to_text().as_str()).unwrap();
    let PlatformSpecific::AVR(c2) = back2.platform_spec;
    assert_eq!(c2.f_cpu, i32::MAX);
}

#[test]
fn os_text_is_stable() {
    let os = OSConfig {
        drivers: names(&["gpio_c"]),
        apps: names(&["base", "blink"]),
        platform_spec: avr("atmega328p", 16000000),
    };
    assert_eq!(
        os.to_text(),
        "{\"drivers\":[\"gpio_c\"],\"apps\":[\"base\",\"blink\"],\"platform_spec\":{\"AVR\":{\"f_cpu\":16000000,\"mcu\":\"atmega328p\"}}}"
    );
}

#[test]
fn load_accepts_any_field_order() {
    let text = "{\"platform_spec\":{\"AVR\":{\"mcu\":\"atmega328p\",\"f_cpu\":8000000}},\"apps\":[\"base\"],\"drivers\":[]}";
    let os = OSConfig::from_text(text).unwrap();
    assert_eq!(os.apps, names(&["base"]));
    assert!(os.drivers.is_empty());
    let PlatformSpecific::AVR(c) = os.platform_spec;
    assert_eq!(c.f_cpu, 8000000);
    assert_eq!(c.mcu, "atmega328p");
}

#[test]
fn load_rejects_bad_shapes() {
    assert!(matches!(OSConfig::from_text(""), Err(ConfigError::Malformed)));
    assert!(matches!(OSConfig::from_text("{}"), Err(ConfigError::Malformed)));
    assert!(matches!(OSConfig::from_text("nonsense"), Err(ConfigError::Malformed)));
    // missing field
    assert!(matches!(
        OSConfig::from_text("{\"drivers\":[],\"apps\":[]}"),
        Err(ConfigError::Malformed)
    ));
    // duplicate field
    assert!(matches!(
        OSConfig::from_text("{\"drivers\":[],\"drivers\":[],\"apps\":[],\"platform_spec\":{\"AVR\":{\"f_cpu\":0,\"mcu\":\"\"}}}"),
        Err(ConfigError::Malformed)
    ));
    // trailing text after the object
    assert!(matches!(
        OSConfig::from_text("{\"drivers\":[],\"apps\":[],\"platform_spec\":{\"AVR\":{\"f_cpu\":0,\"mcu\":\"\"}}}x"),
        Err(ConfigError::Malformed)
    ));
    // frequency outside the 32-bit range
    assert!(matches!(
        OSConfig::from_text("{\"drivers\":[],\"apps\":[],\"platform_spec\":{\"AVR\":{\"f_cpu\":2147483648,\"mcu\":\"\"}}}"),
        Err(ConfigError::Malformed)
    ));
    assert!(matches!(
        AppConfig::from_text("{\"name\":\"a\"}"),
        Err(ConfigError::Malformed)
    ));
    assert!(matches!(
        DriverConfig::from_text("{\"name\":\"a\",\"provides\":\"a\",\"requires\":[\"x\"}"),
        Err(ConfigError::Malformed)
    ));
}

#[test]
fn frequency_at_range_edge_loads() {
    let os = OSConfig::from_text(
        "{\"drivers\":[],\"apps\":[],\"platform_spec\":{\"AVR\":{\"f_cpu\":-2147483648,\"mcu\":\"\"}}}",
    )
    .unwrap();
    let PlatformSpecific::AVR(c) = os.platform_spec;
    assert_eq!(c.f_cpu, i32::MIN);
}
