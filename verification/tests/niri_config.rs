use churros::services::kdl::{create_block, extract_value, update_value_in_block};
use churros::services::niri_config::NiriConfig;
use churros::services::settings::Json;

#[test]
fn create_block_nested_preserves_parent_and_child() {
    let content = "layout {\n    gaps 8\n}\n";
    let out = create_block(content, &["layout", "border"], &["on"]);
    assert!(out.contains("layout {"), "falta layout: {out}");
    assert!(out.contains("    border {"), "border no anidado: {out}");
    assert!(out.contains("        on"), "falta cuerpo on: {out}");
    assert!(out.contains("gaps 8"), "se perdio gaps: {out}");
}

#[test]
fn create_block_creates_full_path_when_missing() {
    let content = "";
    let out = create_block(content, &["input", "keyboard", "xkb"], &["layout \"us\""]);
    assert!(out.contains("input {"));
    assert!(out.contains("    keyboard {"));
    assert!(out.contains("        xkb {"));
    assert!(out.contains("layout \"us\""));
}

#[test]
fn update_value_in_block_updates_nested_xkb() {
    let content = "input {\n    keyboard {\n        xkb {\n            layout \"us\"\n        }\n    }\n}\n";
    let updated = update_value_in_block(content, &["input", "keyboard", "xkb"], "layout", "\"es\"")
        .expect("actualizar layout");
    assert!(updated.contains("layout \"es\""), "no actualizo layout: {updated}");
    assert!(!updated.contains("layout \"us\""), "no quito el layout viejo: {updated}");
}

#[test]
fn create_block_exact_text() {
    assert_eq!(
        create_block("layout {\n    gaps 8\n}\n", &["layout", "border"], &["on"]),
        "layout {\n    gaps 8\n    border {\n        on\n    }\n}"
    );
    assert_eq!(create_block("a", &["blur"], &["passes 3"]), "a\nblur {\n    passes 3\n}\n");
    assert_eq!(create_block("blur {\n}\n", &["blur"], &["x"]), "blur {\n}\n");
    assert!(update_value_in_block("layout {\n}\n", &["input"], "k", "v").is_none());
}

const GLASS: &str = "window-rule {\n// [CHURROS-GLASS-START]\n    blur true\n    // blur false stays a comment\n    match app-id=\"x\"\n// [CHURROS-GLASS-END]\n}\n";

#[test]
fn glass_blur_toggle_roundtrip() {
    let content = GLASS;
    assert_eq!(NiriConfig::get_glass_blur(content), Some(true));
    let off = NiriConfig::set_glass_blur(content, false).expect("toggle off");
    assert_eq!(NiriConfig::get_glass_blur(&off), Some(false));
    assert!(off.contains("blur false"));

    let on = NiriConfig::set_glass_blur(&off, true).expect("toggle on");
    assert_eq!(NiriConfig::get_glass_blur(&on), Some(true));
    assert!(on.contains("blur true"));

    assert_eq!(off, NiriConfig::set_glass_blur(&off, false).unwrap());
    assert_eq!(on.lines().count(), content.lines().count());
    assert_eq!(on, content);
    assert_eq!(NiriConfig::get_glass_blur("blur true\n"), None);
    assert!(NiriConfig::set_glass_blur("blur true\n", false).is_none());
}

#[test]
fn animations_on_off() {
    assert!(NiriConfig::get_animations(""));
    let off = NiriConfig::set_animations("", false).unwrap();
    assert_eq!(off, "\nanimations {\n    off\n}\n");
    assert!(!NiriConfig::get_animations(&off));
    assert!(NiriConfig::set_animations("", true).is_none());
    let cfg = "animations {\n    off\n    slowdown 2.0\n}\nprefer-no-csd\n";
    assert!(!NiriConfig::get_animations(cfg));
    let on = NiriConfig::set_animations(cfg, true).unwrap();
    assert_eq!(on, "animations {\n    slowdown 2.0\n}\nprefer-no-csd");
    assert!(NiriConfig::get_animations(&on));
    assert!(NiriConfig::set_animations(cfg, false).is_none());
    let only_off = "animations {\n    off\n}\nlayout {\n}\n";
    assert_eq!(NiriConfig::set_animations(only_off, true).unwrap(), "animations {\n}\nlayout {\n}");
    assert_eq!(NiriConfig::set_animations("animations { off }\nx\ny", true).unwrap(), "x\ny");
    assert_eq!(NiriConfig::set_animations("layout {\n}\nanimations { off }", true).unwrap(), "layout {\n}");
    assert_eq!(NiriConfig::set_animations("animations { off }", true).unwrap(), "");
    let inserted = NiriConfig::set_animations("animations {\n    slowdown 2.0\n}\n", false).unwrap();
    assert_eq!(inserted, "animations {\n    off\n    slowdown 2.0\n}");
}

#[test]
fn prefer_no_csd_toggle() {
    assert!(!NiriConfig::get_prefer_no_csd("layout {\n}\n"));
    let on = NiriConfig::set_prefer_no_csd("layout {\n}\n", true).unwrap();
    assert_eq!(on, "layout {\n}\nprefer-no-csd");
    assert!(NiriConfig::get_prefer_no_csd(&on));
    assert!(NiriConfig::set_prefer_no_csd(&on, true).is_none());
    assert_eq!(NiriConfig::set_prefer_no_csd(&on, false).unwrap(), "layout {\n}");
    assert_eq!(NiriConfig::set_prefer_no_csd("x", true).unwrap(), "x\n\nprefer-no-csd");
}

#[test]
fn gaps_get_and_set() {
    assert_eq!(NiriConfig::get_gaps(""), 16);
    assert_eq!(NiriConfig::get_gaps("layout {\n    gaps 8\n}\n"), 8);
    assert_eq!(NiriConfig::get_gaps("layout {\n    gaps = 12;\n}\n"), 12);
    assert_eq!(NiriConfig::get_gaps("layout {\n    gaps big\n}\n"), 16);
    let set = NiriConfig::set_gaps("layout {\n    gaps 8\n}\n", -4);
    assert_eq!(set, "layout {\n    gaps -4\n}");
    assert_eq!(NiriConfig::get_gaps(&set), -4);
    let created = NiriConfig::set_gaps("", 20);
    assert_eq!(created, "layout {\n    gaps 20\n}\n");
    assert_eq!(NiriConfig::get_gaps(&created), 20);
}

#[test]
fn border_and_focus_ring() {
    let cfg = "layout {\n    gaps 8\n}\n";
    let b = NiriConfig::set_border(cfg, true, 2, "#fff", "#000").unwrap();
    assert_eq!(b, "layout {\n    gaps 8\n    border {\n        width 2\n        active-color \"#fff\"\n        inactive-color \"#000\"\n    }\n}");
    let b2 = NiriConfig::set_border(&b, true, 4, "#aaa", "#bbb").unwrap();
    assert!(b2.contains("        width 4") && b2.contains("active-color \"#aaa\""));
    let gone = NiriConfig::set_border(&b2, false, 0, "", "").unwrap();
    assert!(!gone.contains("border"));
    assert!(NiriConfig::set_border(cfg, false, 0, "", "").is_none());

    assert!(!NiriConfig::get_focus_ring(cfg));
    let r = NiriConfig::set_focus_ring(cfg, true).unwrap();
    assert!(NiriConfig::get_focus_ring(&r));
    let r_off = NiriConfig::set_focus_ring(&r, false).unwrap();
    assert!(!NiriConfig::get_focus_ring(&r_off));
    let r_ring_off = NiriConfig::set_focus_ring(&r_off, false).unwrap();
    assert!(r_ring_off.contains("focus-ring {\n        off"));
    assert!(!NiriConfig::get_focus_ring(&r_ring_off));
}

#[test]
fn blur_and_performance_mode() {
    let blur = NiriConfig::set_blur_enabled("", true).unwrap();
    assert_eq!(blur, "blur {\n    passes 3\n    offset 3.0\n    noise 0.0\n    saturation 1.3\n}\n");
    assert!(NiriConfig::get_blur_enabled(&blur));
    assert_eq!(NiriConfig::set_blur_enabled(&blur, false).unwrap(), "");
    assert!(NiriConfig::set_blur_enabled("", false).is_none());

    let cfg = format!("{GLASS}layout {{\n}}\n");
    assert!(!NiriConfig::get_performance_mode(&cfg));
    let perf = NiriConfig::set_performance_mode(&cfg, true).unwrap();
    assert!(NiriConfig::get_performance_mode(&perf));
    assert!(perf.contains("    blur false"));
    assert!(perf.contains("animations {\n    off\n}"));
}

#[test]
fn keyboard_layout_and_durations() {
    let created = NiriConfig::set_keyboard_layout("", "es");
    assert_eq!(created, "input {\n    keyboard {\n        xkb {\n            layout \"es\"\n        }\n    }\n}\n");
    let updated = NiriConfig::set_keyboard_layout(&created, "us");
    assert!(updated.contains("            layout \"us\"") && !updated.contains("\"es\""));
    let anim = "animations {\n    window-open {\n        duration 250\n    }\n}\n";
    assert_eq!(NiriConfig::get_animation_duration(anim, "window-open", 100), 250);
    assert_eq!(NiriConfig::get_animation_duration(anim, "window-close", 100), 100);
}

fn member_text(j: &Json, key: &str) -> String {
    match j {
        Json::Object(m) => match &m.iter().find(|(k, _)| k == key).expect("member").1 {
            Json::Str(s) | Json::Number(s) => s.clone(),
            Json::Bool(b) => b.to_string(),
            _ => String::new(),
        },
        _ => String::new(),
    }
}

#[test]
fn border_values_are_read() {
    let conf = "layout {\n    border {\n        width 4\n        active-color \"#ff0000\"\n    }\n}\n";
    let b = NiriConfig::get_border(conf);
    assert_eq!(member_text(&b, "on"), "true");
    assert_eq!(member_text(&b, "width"), "4");
    assert_eq!(member_text(&b, "active_color"), "#ff0000");
    assert_eq!(member_text(&b, "inactive_color"), "");
    let none = NiriConfig::get_border("layout {\n}\n");
    assert_eq!(member_text(&none, "on"), "false");
    assert_eq!(member_text(&none, "width"), "0");
}

#[test]
fn blur_values_are_read_and_set() {
    let b = NiriConfig::get_blur("blur {\n    passes 2\n    offset 3\n    bogus 1 2\n    noise x\n}\n");
    assert_eq!(member_text(&b, "passes"), "2");
    assert_eq!(member_text(&b, "offset"), "3");
    assert_eq!(member_text(&b, "noise"), "0.0");
    assert_eq!(member_text(&b, "saturation"), "1.0");
    let d = NiriConfig::get_blur("");
    assert_eq!(member_text(&d, "passes"), "0");
    assert_eq!(
        NiriConfig::set_blur("blur {\n    passes 2\n}\n", 3, "4.5", "0.0", "1.3"),
        "blur {\n    passes 3\n    saturation 1.3\n    noise 0.0\n    offset 4.5\n}"
    );
    let created = NiriConfig::set_blur("layout {\n}\n", 3, "3.0", "0.0", "1.3");
    assert!(created.contains("blur {\n    passes 3\n    offset 3.0\n    noise 0.0\n    saturation 1.3\n}"), "{created}");
    assert!(created.starts_with("layout {\n}\n"));
}

#[test]
fn glass_blur_reads_back() {
    let plain = "x\n// [CHURROS-GLASS-START]\n    opacity 0.9\n// [CHURROS-GLASS-END]\n";
    for enabled in [true, false] {
        let out = NiriConfig::set_glass_blur(plain, enabled).expect("markers");
        assert_eq!(NiriConfig::get_glass_blur(&out), Some(false));
        let out = NiriConfig::set_glass_blur(GLASS, enabled).expect("markers");
        assert_eq!(NiriConfig::get_glass_blur(&out), Some(enabled));
    }
    let crlf = "a\n// [CHURROS-GLASS-START]\n  blur false\r\n// [CHURROS-GLASS-END]";
    let out = NiriConfig::set_glass_blur(crlf, true).expect("markers");
    assert_eq!(NiriConfig::get_glass_blur(&out), Some(true));
}

#[test]
fn border_missing_keys_are_added() {
    let cfg = "layout {\n    border {\n        width 4\n    }\n}\n";
    let b = NiriConfig::set_border(cfg, true, 2, "#ffffff", "#000000").unwrap();
    assert_eq!(
        b,
        "layout {\n    border {\n        width 2\n        active-color \"#ffffff\"\n        inactive-color \"#000000\"\n    }\n}"
    );
}

#[test]
fn keyboard_layout_keeps_other_lines() {
    let cfg = "// top\ninput {\n    keyboard {\n        xkb {\n            layout \"us\"\n        }\n    }\n}\nlayout {\n    gaps 8\n}\n";
    let out = NiriConfig::set_keyboard_layout(cfg, "es");
    let lines: Vec<&str> = out.lines().collect();
    assert_eq!(&lines[..4], &["// top", "input {", "    keyboard {", "        xkb {"]);
    assert_eq!(lines[4].trim(), "layout \"es\"");
    assert_eq!(&lines[5..], &["        }", "    }", "}", "layout {", "    gaps 8", "}"]);
    assert_eq!(update_value_in_block(&out, &["input", "keyboard", "xkb"], "layout", "\"fr\"").map(|c| c.contains("layout \"fr\"")), Some(true));
}

#[test]
fn glass_blur_twice_is_once() {
    for enabled in [true, false] {
        let once = NiriConfig::set_glass_blur(GLASS, enabled).unwrap();
        assert_eq!(once.lines().count(), GLASS.lines().count());
        assert_eq!(NiriConfig::set_glass_blur(&once, enabled), Some(once.clone()));
    }
}

fn chars(s: &str) -> Vec<char> {
    s.chars().collect()
}

fn line_vecs(s: &str) -> Vec<Vec<char>> {
    s.lines().map(chars).collect()
}

#[test]
fn value_reads_back_in_plain_blocks() {
    let cfg = "input {\n    keyboard {\n        xkb {\n            layout \"us\"\n        }\n    }\n}\n";
    let out = update_value_in_block(cfg, &["input", "keyboard", "xkb"], "layout", "\"es\"").unwrap();
    let path = vec![chars("input"), chars("keyboard"), chars("xkb")];
    assert_eq!(extract_value(&line_vecs(&out), &path, &chars("layout")), Some(chars("\"es\"")));
}

#[test]
fn block_names_read_apart() {
    // The block finder names `a " {` as `a`, the value reader as `a `: the
    // value is written into the block but not read back at `a`.
    let cfg = "a \" {\n    k 1\n}\n";
    let out = update_value_in_block(cfg, &["a"], "k", "2").unwrap();
    assert!(out.contains("    k 2"));
    assert_eq!(extract_value(&line_vecs(&out), &vec![chars("a")], &chars("k")), None);
}

#[test]
fn focus_ring_on_reads_back_over_off() {
    let cfg = "layout {\n    focus-ring {\n\n        off\n        width 4\n    }\n}\n";
    assert!(!NiriConfig::get_focus_ring(cfg));
    let r = NiriConfig::set_focus_ring(cfg, true).unwrap();
    assert_eq!(r, "layout {\n    focus-ring {\n\n        on\n        off\n        width 4\n    }\n}");
    assert!(NiriConfig::get_focus_ring(&r));
    let on = "layout {\n    focus-ring {\n        on\n    }\n}\n";
    assert!(NiriConfig::set_focus_ring(on, true).is_none());
    assert!(NiriConfig::get_focus_ring(on));
}

#[test]
fn focus_ring_on_created_with_layout() {
    let r = NiriConfig::set_focus_ring("", true).unwrap();
    assert_eq!(r, "layout {\n    focus-ring {\n        on\n    }\n}\n");
    assert!(NiriConfig::get_focus_ring(&r));
    let r2 = NiriConfig::set_focus_ring("input {\n}", true).unwrap();
    assert_eq!(r2, "input {\n}\nlayout {\n    focus-ring {\n        on\n    }\n}\n");
    assert!(NiriConfig::get_focus_ring(&r2));
}

#[test]
fn focus_ring_on_not_read_back_when_off_comes_first_or_a_block_is_left_open() {
    let both = "layout {\n    focus-ring {\n        off\n        on\n    }\n}\n";
    assert!(NiriConfig::set_focus_ring(both, true).is_none());
    assert!(!NiriConfig::get_focus_ring(both));
    let open = NiriConfig::set_focus_ring("foo {\n", true).unwrap();
    assert!(!NiriConfig::get_focus_ring(&open));
}

#[test]
fn keyboard_layout_not_read_back_under_quoted_block_name() {
    let cfg = "input \" {\n    keyboard {\n        xkb {\n        }\n    }\n}\n";
    let out = NiriConfig::set_keyboard_layout(cfg, "us");
    assert!(out.contains("layout \"us\""));
    let path = vec![chars("input"), chars("keyboard"), chars("xkb")];
    assert_eq!(extract_value(&line_vecs(&out), &path, &chars("layout")), None);
}
