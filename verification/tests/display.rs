use churros::services::display::{hyprland_monitors, hyprland_monitors_of, niri_monitors, DisplayService};
use churros::services::settings::Json;

const NIRI: &str = "Output \"Samsung Electric Company LC27G5xT (PNP(XXX))\" (DP-1)\n  Current mode: 2560x1440 @ 143.998 Hz (preferred)\n  Variable refresh rate: supported, disabled\n  Physical size: 600x340 mm\n  Logical position: 0, 0\n  Logical size: 2560x1440\n  Scale: 1.25\n  Transform: normal\n  Available modes:\n    2560x1440@143.998 (current, preferred)\n    1920x1080@60.000\nOutput \"Unknown\" (eDP-1)\n  Current mode: 1920x1080 @ 60.000 Hz\n  Variable refresh rate: not supported\n  Scale: 1\n  Transform: 90\n";

fn s(x: &str) -> String {
    x.to_string()
}

#[test]
fn niri_outputs_are_parsed() {
    let ms = niri_monitors(NIRI);
    assert_eq!(ms.len(), 2);
    let m = &ms[0];
    assert_eq!(m.name, "DP-1");
    assert_eq!(m.description, "Samsung Electric Company LC27G5xT (PNP(XXX))");
    assert_eq!((m.width, m.height), (2560, 1440));
    assert_eq!(m.refresh, "143.998");
    assert_eq!(m.scale, "1.25");
    assert_eq!(m.transform, "normal");
    assert!(m.vrr);
    assert!(m.focused);
    assert_eq!(m.modes.len(), 2);
    assert_eq!((m.modes[0].width, m.modes[0].height), (2560, 1440));
    assert!(m.modes[0].current && m.modes[0].preferred);
    assert_eq!(m.modes[1].refresh, "60.000");
    assert!(!m.modes[1].current && !m.modes[1].preferred);
    let e = &ms[1];
    assert_eq!(e.name, "eDP-1");
    assert_eq!(e.description, "Unknown");
    assert!(!e.vrr);
    assert_eq!(e.scale, "1");
    assert_eq!(e.rotation(), "90°");
    assert!(e.modes.is_empty());
    assert!(niri_monitors("").is_empty());
    assert!(niri_monitors("  Scale: 2\n").is_empty());
}

#[test]
fn unreadable_values_keep_the_defaults() {
    let ms = niri_monitors("Output no quotes\n  Current mode: none\n  Scale: big\n  Transform: flipped-270\n");
    assert_eq!(ms[0].name, "");
    assert_eq!(ms[0].description, "");
    assert_eq!(ms[0].refresh, "60.0");
    assert_eq!(ms[0].scale, "1.0");
    assert_eq!(ms[0].rotation(), "Volteado 270°");
}

#[test]
fn backend_follows_the_desktop_name() {
    assert!(DisplayService::from_desktop("niri").supports_resolution());
    assert!(DisplayService::from_desktop("NIRI").supports_vrr());
    assert!(!DisplayService::from_desktop("Hyprland").supports_resolution());
    assert!(!DisplayService::from_desktop("").supports_vrr());
}

#[test]
fn commands_per_backend() {
    let ms = niri_monitors(NIRI);
    let niri = DisplayService::from_desktop("niri");
    let hypr = DisplayService::from_desktop("hyprland");
    assert_eq!(
        niri.set_resolution(&ms[0], "1920x1080@60.000"),
        Some(vec![s("niri"), s("msg"), s("output"), s("DP-1"), s("mode"), s("1920x1080@60.000")])
    );
    assert_eq!(hypr.set_resolution(&ms[0], "1920x1080@60.000"), None);
    assert_eq!(niri.set_scale(&ms[0], "1.5"), vec!["niri", "msg", "output", "DP-1", "scale", "1.5"]);
    assert_eq!(hypr.set_scale(&ms[0], "1.5"), vec!["hyprctl", "keyword", "monitor", "DP-1,preferred,1.5"]);
    assert_eq!(hypr.set_rotation(&ms[0], "1"), vec!["hyprctl", "keyword", "monitor", "DP-1,preferred,auto,1"]);
    assert_eq!(niri.set_rotation(&ms[0], "90"), vec!["niri", "msg", "output", "DP-1", "transform", "90"]);
    assert_eq!(
        niri.set_vrr(&ms[0], true),
        Some(vec![s("niri"), s("msg"), s("output"), s("DP-1"), s("vrr"), s("on")])
    );
    assert_eq!(hypr.set_vrr(&ms[0], true), None);
    assert_eq!(niri.set_brightness(40, None), Some(vec![s("brightnessctl"), s("set"), s("40%")]));
    assert_eq!(hypr.set_brightness(40, Some(480)), Some(vec![s("brightnessctl"), s("set"), s("480")]));
    assert_eq!(hypr.set_brightness(40, None), None);
}

#[test]
fn hyprland_json_and_current_monitor() {
    let parsed = Json::Array(vec![
        Json::Object(vec![
            (s("name"), Json::Str(s("DP-1"))),
            (s("description"), Json::Str(s("Dell"))),
            (s("width"), Json::Number(s("2560"))),
            (s("height"), Json::Number(s("1440"))),
            (s("refreshRate"), Json::Number(s("143.99"))),
            (s("scale"), Json::Number(s("1.0"))),
            (s("transform"), Json::Number(s("0"))),
            (s("focused"), Json::Bool(false)),
            (s("vrr"), Json::Bool(true)),
        ]),
        Json::Object(vec![
            (s("name"), Json::Str(s("HDMI-A-1"))),
            (s("width"), Json::Number(s("1920.0"))),
            (s("focused"), Json::Bool(true)),
            (s("transform"), Json::Str(s("x\"y"))),
        ]),
    ]);
    let ms = hyprland_monitors(Some(parsed));
    assert_eq!(ms.len(), 2);
    assert_eq!(ms[0].description, "Dell");
    assert_eq!((ms[0].width, ms[0].height), (2560, 1440));
    assert_eq!(ms[0].refresh, "143.99");
    assert_eq!(ms[0].transform, "0");
    assert!(ms[0].vrr);
    assert_eq!(ms[0].modes.len(), 1);
    assert_eq!(ms[1].description, "HDMI-A-1");
    assert_eq!(ms[1].width, 0);
    assert_eq!(ms[1].refresh, "60.0");
    assert_eq!(ms[1].scale, "1.0");
    assert_eq!(ms[1].transform, "\"x\\\"y\"");
    let hypr = DisplayService::from_desktop("hyprland");
    assert_eq!(hypr.current_monitor(ms.clone()).unwrap().name, "HDMI-A-1");
    let niri = DisplayService::from_desktop("niri");
    assert_eq!(niri.current_monitor(ms).unwrap().name, "DP-1");
    assert!(hyprland_monitors(None).is_empty());
    assert!(hyprland_monitors(Some(Json::Null)).is_empty());
}

#[test]
fn json_text_is_compact() {
    let parsed = Json::Array(vec![Json::Object(vec![
        (s("name"), Json::Str(s("DP-2"))),
        (
            s("transform"),
            Json::Object(vec![
                (s("b\n"), Json::Str(s("tab\there \u{1}"))),
                (s("a"), Json::Array(vec![Json::Number(s("1.50")), Json::Null, Json::Bool(true)])),
            ]),
        ),
    ])]);
    let ms = hyprland_monitors(Some(parsed));
    assert_eq!(ms[0].transform, "{\"a\":[1.5,null,true],\"b\\n\":\"tab\\there \\u0001\"}");
}

#[test]
fn hyprland_output_is_parsed() {
    let out = "[{\"name\": \"DP-1\", \"description\": \"Dell\", \"width\": 2560, \"height\": 1440, \"refreshRate\": 143.99, \"focused\": true}]";
    let ms = hyprland_monitors_of(out);
    assert_eq!(ms.len(), 1);
    assert_eq!(ms[0].name, "DP-1");
    assert_eq!((ms[0].width, ms[0].height), (2560, 1440));
    assert_eq!(ms[0].refresh, "143.99");
    assert!(hyprland_monitors_of("error: no socket").is_empty());
}
