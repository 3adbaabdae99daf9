use lumend::backlight::{choose_device, rank_of, Candidate, Device};
use std::path::PathBuf;

fn candidate(name: &str, kind: &str, max: u32) -> Candidate {
    Candidate {
        device: Device {
            name: name.to_owned(),
            path: PathBuf::from("/sys/class/backlight").join(name),
            max,
        },
        kind: format!("{kind}\n"),
    }
}

#[test]
fn prefers_firmware_then_platform_then_raw() {
    let c = vec![
        candidate("intel_backlight", "raw", 96000),
        candidate("acpi_video0", "platform", 10),
        candidate("nvidia_wmi_ec_backlight", "firmware", 100),
    ];
    let d = &c[choose_device(&c, None).unwrap()].device;
    assert_eq!(d.name, "nvidia_wmi_ec_backlight");
    assert_eq!(d.max, 100);
    assert_eq!(d.level(Some("40\n"), None), Some(40));
}

#[test]
fn honours_configured_device() {
    let c = vec![
        candidate("intel_backlight", "raw", 96000),
        candidate("nvidia_wmi_ec_backlight", "firmware", 100),
    ];
    let d = &c[choose_device(&c, Some("intel_backlight")).unwrap()].device;
    assert_eq!(d.max, 96000);
    assert!(choose_device(&c, Some("missing")).is_none());
}

#[test]
fn falls_back_to_brightness_and_clamps() {
    let c = vec![candidate("x", "raw", 100)];
    let d = &c[choose_device(&c, None).unwrap()].device;
    assert_eq!(d.level(None, Some("250\n")), Some(100));
    assert_eq!(d.level(Some("oops"), Some("7")), Some(7));
    assert_eq!(d.level(Some("oops"), None), None);
}

#[test]
fn empty_root_is_an_error() {
    assert!(choose_device(&Vec::new(), None).is_none());
}

#[test]
fn ties_and_unknown_types() {
    let c = vec![
        candidate("zero", "firmware", 0),
        candidate("a", "mystery", 500),
        candidate("b", "raw", 10),
        candidate("c", "raw", 20),
        candidate("d", "raw", 20),
    ];
    assert_eq!(choose_device(&c, None), Some(3));
    assert_eq!(choose_device(&c, Some("zero")), None);
    assert_eq!(rank_of(" platform\n"), 1);
    assert_eq!(rank_of("Firmware"), 3);
}
