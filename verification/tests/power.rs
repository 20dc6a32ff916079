use churros::services::power::PowerService;

#[test]
fn battery_readers() {
    let e = "/org/freedesktop/UPower/devices/line_power_AC\n  /org/freedesktop/UPower/devices/hidpp_battery  \n";
    assert_eq!(PowerService::battery_device(e).as_deref(), Some("/org/freedesktop/UPower/devices/hidpp_battery"));
    assert!(!PowerService::battery_present("/org/freedesktop/UPower/devices/battery_BAT0"));
    assert!(PowerService::battery_present(e));
    assert!(!PowerService::battery_present("/org/freedesktop/UPower/devices/line_power_AC"));
    let info = "  native-path: BAT0\n    state:               discharging\n    percentage:          85%";
    assert_eq!(PowerService::battery_state(Some(info)), "discharging");
    assert_eq!(PowerService::battery_state(None), "Desconocido");
    assert_eq!(PowerService::percentage_text(info).as_deref(), Some("85"));
}

#[test]
fn profiles_and_timeouts() {
    assert_eq!(PowerService::power_profile("performance"), "performance");
    assert_eq!(PowerService::power_profile("turbo"), "balanced");
    assert!(PowerService::power_saver_enabled("power-saver"));
    assert_eq!(PowerService::power_profiles_available("  performance:\n    Driver: x\n* balanced:\n  power-saver:\n  balanced:"), vec!["performance", "balanced", "power-saver"]);
    assert_eq!(
        PowerService::power_profiles_available("performance:\n    CpuDriver: intel_pstate\n\n* balanced:\n    CpuDriver: intel_pstate\n\n  power-saver:\n    CpuDriver: intel_pstate"),
        vec!["performance", "balanced", "power-saver"]
    );
    assert_eq!(PowerService::power_profiles_available(""), vec!["balanced"]);
    assert_eq!(PowerService::screen_timeout("uint32 600"), 600);
    assert_eq!(PowerService::screen_timeout("120"), 120);
    assert_eq!(PowerService::screen_timeout(""), 300);
    assert_eq!(PowerService::sleep_timeout("uint32 x"), 900);
    assert_eq!(PowerService::lid_close_action("'hibernate'"), "hibernate");
    assert_eq!(PowerService::lid_close_action("'fly'"), "suspend");
}

#[test]
fn power_commands() {
    assert_eq!(PowerService::set_power_profile("balanced"), vec!["powerprofilesctl", "set", "balanced"]);
    assert_eq!(PowerService::set_screen_timeout(300), vec!["gsettings", "set", "org.gnome.desktop.session", "idle-delay", "300"]);
    assert_eq!(PowerService::set_sleep_timeout(-1)[4], "-1");
    assert_eq!(PowerService::set_lid_close_action("nothing")[4], "nothing");
}
