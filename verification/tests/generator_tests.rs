use rock::config::{AVRPlatformSpecificConfig, AppConfig, DriverConfig, OSConfig,
    PlatformSpecific};
use rock::generator::{collect_provides, generate_build_manifest};

fn names(v: &[&str]) -> Vec<String> {
    v.iter().map(|s| s.to_string()).collect()
}

#[test]
fn header_for_two_apps() {
    let apps = vec![
        AppConfig {
            name: "a".to_string(),
            provides: "fa".to_string(),
            requires_apps: Vec::new(),
            requires_drivers: Vec::new(),
        },
        AppConfig {
            name: "b".to_string(),
            provides: "fb".to_string(),
            requires_apps: Vec::new(),
            requires_drivers: Vec::new(),
        },
    ];
    let provides = collect_provides(&apps);
    assert_eq!(provides, names(&["fa", "fb"]));
    let header = generate_build_manifest(&provides);
    assert!(header.contains("void fa();\n"));
    assert!(header.contains("void fb();\n"));
    assert!(header.contains("#define __TASKS__ fa, fb\n"));
    assert_eq!(
        header,
        "#ifndef __MODS_H__\n#define __MODS_H__\nvoid fa();\nvoid fb();\n\n#define __TASKS__ fa, fb\n#endif"
    );
}

#[test]
fn header_for_fresh_project_is_empty() {
    let provides: Vec<String> = Vec::new();
    let header = generate_build_manifest(&provides);
    assert_eq!(header, "#ifndef __MODS_H__\n#define __MODS_H__\n\n#define __TASKS__ \n#endif");
}

#[test]
fn header_for_one_app_has_no_separator() {
    let header = generate_build_manifest(&names(&["solo"]));
    assert_eq!(
        header,
        "#ifndef __MODS_H__\n#define __MODS_H__\nvoid solo();\n\n#define __TASKS__ solo\n#endif"
    );
}

#[test]
fn build_vars_expose_platform_parameters() {
    let p = PlatformSpecific::AVR(AVRPlatformSpecificConfig {
        f_cpu: 16000000,
        mcu: "atmega328p".to_string(),
    });
    assert_eq!(p.build_vars(), names(&["F_CPU=16000000", "MCU=atmega328p"]));
    let q = PlatformSpecific::AVR(AVRPlatformSpecificConfig { f_cpu: -1, mcu: "m".to_string() });
    assert_eq!(q.build_vars(), names(&["F_CPU=-1", "MCU=m"]));
}

#[test]
fn display_strings_render_the_manifests() {
    let os = OSConfig {
        drivers: names(&["gpio_c"]),
        apps: names(&["base"]),
        platform_spec: PlatformSpecific::AVR(AVRPlatformSpecificConfig {
            f_cpu: 16000000,
            mcu: "atmega328p".to_string(),
        }),
    };
    assert_eq!(
        os.display_string(),
        "[OSConfig]\n    Drivers:\n      - gpio_c\n    Apps:\n      - base\n    [AVR]:\n        F_CPU: 16000000\n        MCU: atmega328p"
    );
    let app = AppConfig {
        name: "blink".to_string(),
        provides: "blink".to_string(),
        requires_apps: Vec::new(),
        requires_drivers: names(&["gpio_c"]),
    };
    assert_eq!(
        app.display_string(),
        "[AppConfig]\n    Name: blink\n    Provides: blink\n    Requires apps: None\n    Requires drivers: \n      - gpio_c\n"
    );
    let drv = DriverConfig {
        name: "gpio_c".to_string(),
        provides: "gpio_c".to_string(),
        requires: Vec::new(),
    };
    assert_eq!(
        drv.display_string(),
        "[DriverConfig]\n    Name: gpio_c\n    Provides: gpio_c\n    Requires: None\n"
    );
}
