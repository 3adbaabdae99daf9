use lumend::sources::power::{classify, on_ac, Supply};

#[test]
fn laptop_on_ac() {
    let ac = classify(Some("Mains\n"), Some("1\n"), None);
    let bat = classify(Some("Battery\n"), None, None);
    assert_eq!(ac, Supply::Mains { online: true });
    assert_eq!(bat, Supply::Battery);
    assert_eq!(on_ac(&[ac, bat], true), Some(true));
}

#[test]
fn on_battery_with_capacity_only_and_a_mouse_battery() {
    let ac = classify(Some("Mains\n"), Some("0\n"), None);
    let bat = classify(Some("Battery\n"), None, None);
    let mouse = classify(Some("Battery\n"), None, Some("Device\n"));
    assert_eq!(ac, Supply::Mains { online: false });
    assert_eq!(mouse, Supply::Ignored);
    assert_eq!(on_ac(&[ac, bat, mouse], true), Some(false));
}

#[test]
fn desktop_without_supplies() {
    assert_eq!(on_ac(&[], false), None);
}

#[test]
fn usb_chargers_count_and_any_online_one_wins() {
    let usb = classify(Some("  USB \n"), Some("1"), None);
    let off = classify(Some("Mains"), Some("0"), None);
    assert_eq!(usb, Supply::Mains { online: true });
    assert_eq!(on_ac(&[off, usb], false), Some(true));
    assert_eq!(on_ac(&[usb, off], false), Some(true));
    assert_eq!(on_ac(&[off], false), Some(false));
}

#[test]
fn batteries_alone_mean_battery_power() {
    let bat = classify(Some("Battery"), None, Some("System"));
    assert_eq!(bat, Supply::Battery);
    assert_eq!(on_ac(&[bat], true), Some(false));
    // a battery whose charge could not be read tells nothing
    assert_eq!(on_ac(&[bat], false), None);
}

#[test]
fn unknown_or_unreadable_types_are_ignored() {
    assert_eq!(classify(None, Some("1"), None), Supply::Ignored);
    assert_eq!(classify(Some("UPS"), Some("1"), None), Supply::Ignored);
    assert_eq!(classify(Some("mains"), Some("1"), None), Supply::Ignored);
    assert_eq!(classify(Some("Mains"), None, None), Supply::Mains { online: false });
    assert_eq!(classify(Some("Mains"), Some("10"), None), Supply::Mains { online: false });
}
