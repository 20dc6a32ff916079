use churros::services::settings::Json;
use churros::services::window_rules::WindowRulesService;

const CONFIG: &str = "layout {\n    gaps 8\n}\n\n// rules\nwindow-rule {\n    match app-id=\"foot\"\n    opacity 0.90\n    open-floating true\n    background-effect {\n        blur true\n    }\n}\n\nwindow-rule {\n    match title=\"Firefox\"\n    geometry-corner-radius 12\n    clip-to-geometry false\n}\n";

fn member<'a>(rule: &'a Json, key: &str) -> &'a Json {
    match rule {
        Json::Object(m) => &m.iter().find(|(k, _)| k == key).expect("member").1,
        _ => panic!("not an object"),
    }
}

fn is_str(j: &Json, s: &str) -> bool {
    matches!(j, Json::Str(x) if x == s)
}

fn is_num(j: &Json, s: &str) -> bool {
    matches!(j, Json::Number(x) if x == s)
}

#[test]
fn rules_are_read_from_the_blocks() {
    let rules = WindowRulesService::list_rules(CONFIG);
    assert_eq!(rules.len(), 2);
    assert!(is_str(member(&rules[0], "app_id"), "foot"));
    assert!(is_str(member(&rules[0], "title"), ""));
    assert!(is_num(member(&rules[0], "opacity"), "0.90"));
    assert!(matches!(member(&rules[0], "open_floating"), Json::Bool(true)));
    assert!(matches!(member(&rules[0], "blur"), Json::Bool(true)));
    assert!(matches!(member(&rules[0], "corner_radius"), Json::Null));
    assert!(is_num(member(&rules[0], "index"), "0"));
    assert!(is_str(member(&rules[1], "title"), "Firefox"));
    assert!(is_num(member(&rules[1], "corner_radius"), "12"));
    assert!(matches!(member(&rules[1], "clip_to_geometry"), Json::Bool(false)));
    assert!(is_num(member(&rules[1], "index"), "1"));
    assert_eq!(WindowRulesService::rule_count(CONFIG), 2);
}

#[test]
fn nested_and_unreadable_values_are_skipped() {
    let text = "binds {\n    window-rule {\n    }\n}\nwindow-rule {\n    opacity high\n    match app-id=foot\n}\n";
    let rules = WindowRulesService::list_rules(text);
    assert_eq!(rules.len(), 1);
    assert!(matches!(member(&rules[0], "opacity"), Json::Null));
    assert!(is_str(member(&rules[0], "app_id"), ""));
    assert!(WindowRulesService::list_rules("").is_empty());
}

#[test]
fn rewriting_the_same_rules_keeps_the_file() {
    let rules = WindowRulesService::list_rules(CONFIG);
    assert_eq!(WindowRulesService::rewrite_all(CONFIG, &rules), Some(CONFIG.to_string()));
    assert_eq!(WindowRulesService::rewrite_all("layout {\n}\n", &rules), None);
}

#[test]
fn delete_shifts_the_rules_up() {
    let rules = WindowRulesService::list_rules(CONFIG);
    let out = WindowRulesService::delete_rule(CONFIG, rules, 0).unwrap().unwrap();
    assert_eq!(
        out,
        "layout {\n    gaps 8\n}\n\n// rules\nwindow-rule {\n    match title=\"Firefox\"\n    geometry-corner-radius 12\n    clip-to-geometry false\n}\n\n"
    );
    let rules = WindowRulesService::list_rules(CONFIG);
    assert_eq!(
        WindowRulesService::delete_rule(CONFIG, rules, 5),
        Err("window-rule index out of range: 5".to_string())
    );
}

#[test]
fn update_sets_members() {
    let rules = WindowRulesService::list_rules(CONFIG);
    let updates = Json::Object(vec![("opacity".to_string(), Json::Number("0.5".to_string()))]);
    let out = WindowRulesService::update_rule(CONFIG, rules, 1, &updates).unwrap().unwrap();
    assert!(out.contains("window-rule {\n    match title=\"Firefox\"\n    opacity 0.5\n    geometry-corner-radius 12\n    clip-to-geometry false\n}\n"));
    assert!(out.starts_with("layout {\n    gaps 8\n}\n\n// rules\nwindow-rule {\n    match app-id=\"foot\"\n    opacity 0.90\n"));
    let rules = WindowRulesService::list_rules(CONFIG);
    assert_eq!(
        WindowRulesService::update_rule(CONFIG, rules, 2, &updates),
        Err("window-rule index out of range: 2".to_string())
    );
}

#[test]
fn add_appends_a_commented_block() {
    let (text, index) =
        WindowRulesService::add_rule(CONFIG, "mpv", "", Some("0.8"), Some(true), None, None, None);
    assert_eq!(index, 2);
    assert_eq!(
        text,
        format!(
            "{CONFIG}\n// Window rule (custom)\nwindow-rule {{\n    match app-id=\"mpv\"\n    opacity 0.8\n    open-floating true\n}}\n"
        )
    );
    let (text, index) = WindowRulesService::add_rule("gaps 8", "", "x", None, None, Some("4"), Some(true), Some(false));
    assert_eq!(index, 0);
    assert_eq!(
        text,
        "gaps 8\n\n// Window rule (custom)\nwindow-rule {\n    match title=\"x\"\n    geometry-corner-radius 4\n    clip-to-geometry true\n    background-effect {\n        blur false\n    }\n}\n"
    );
}

#[test]
fn non_finite_numbers_read_as_null() {
    let text = "window-rule {\n    match app-id=\"a\"\n    opacity NaN\n    geometry-corner-radius -inf\n}\n";
    let rules = WindowRulesService::list_rules(text);
    assert!(matches!(member(&rules[0], "opacity"), Json::Null));
    assert!(matches!(member(&rules[0], "corner_radius"), Json::Null));
    let out = WindowRulesService::rewrite_all(text, &rules).unwrap();
    assert!(!out.contains("opacity") && !out.contains("geometry-corner-radius"));
}
