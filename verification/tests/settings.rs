use churros::num::{i64_to_chars, parse_i64};
use churros::services::applications::ApplicationsService;
use churros::services::privacy::PrivacyService;
use churros::services::settings::{defaults, get, get_bool, get_string, load, Json};
use churros::services::update::UpdateService;
use churros::services::wallpaper::WallpaperService;

fn is_str(j: &Json, s: &str) -> bool {
    matches!(j, Json::Str(x) if x == s)
}

#[test]
fn defaults_are_read() {
    let d = defaults();
    assert_eq!(get_string(&d, "accent.color", "x"), "Orange");
    assert!(get_bool(&d, "theme.dynamic_colors", false));
    assert!(!get_bool(&d, "theme.dark", true));
    assert_eq!(get_string(&d, "fonts.scale", "x"), "1.0");
    assert_eq!(get_string(&d, "missing.key", "fallback"), "fallback");
    assert_eq!(get_string(&d, "theme", "fallback"), "fallback");
    assert!(is_str(&get(defaults(), "icons.theme", Json::Null), "Papirus"));
    assert!(matches!(get(defaults(), "icons.nothing", Json::Null), Json::Null));
}

#[test]
fn set_then_get() {
    let d = churros::services::settings::set(defaults(), "privacy.camera", Json::Bool(false));
    assert!(!PrivacyService::camera(&d));
    let d = PrivacyService::set_location(d, true);
    assert!(PrivacyService::location(&d));
    assert!(!PrivacyService::camera(&d));
    assert_eq!(get_string(&d, "accent.color", "x"), "Orange");
    let d = churros::services::settings::set(d, "accent.color.deep", Json::Str("v".to_string()));
    assert_eq!(get_string(&d, "accent.color.deep", "x"), "v");
    let d = UpdateService::set_interval(d, "weekly");
    assert_eq!(UpdateService::interval(&d), "weekly");
    assert_eq!(UpdateService::on_calendar(&UpdateService::interval(&d)), "Mon *-*-* 04:00:00");
    let d = WallpaperService::record(d, "/tmp/w.png");
    assert_eq!(WallpaperService::current(&d), "/tmp/w.png");
}

#[test]
fn bool_from_strings_and_defaults() {
    let d = churros::services::settings::set(defaults(), "updates.enabled", Json::Str("TRUE".to_string()));
    assert!(UpdateService::enabled(&d));
    let d = churros::services::settings::set(d, "updates.enabled", Json::Str("no".to_string()));
    assert!(!UpdateService::enabled(&d));
    assert!(ApplicationsService::auto_updates(&defaults()));
    assert!(!ApplicationsService::auto_install(&defaults()));
    assert!(PrivacyService::screen_lock(&defaults()));
    assert!(!PrivacyService::crash_reports(&defaults()));
}

#[test]
fn load_keeps_objects_only() {
    let doc = load(Some(Json::Object(vec![("a".to_string(), Json::Bool(true))])));
    assert!(get_bool(&doc, "a", false));
    let fallback = load(Some(Json::Array(vec![])));
    assert_eq!(get_string(&fallback, "accent.color", ""), "Orange");
    let none = load(None);
    assert_eq!(get_string(&none, "cursor.theme", ""), "Bibata");
    assert_eq!(UpdateService::check_pacman(Some("a 1 -> 2\nb 3 -> 4")), Some(vec!["a 1 -> 2".to_string(), "b 3 -> 4".to_string()]));
    assert_eq!(UpdateService::check_flatpak(None), None);
}

#[test]
fn settings_switch_reads_back() {
    let data = PrivacyService::set_location(defaults(), true);
    assert!(PrivacyService::location(&data));
    let data = PrivacyService::set_location(data, false);
    assert!(!PrivacyService::location(&data));
    let data = UpdateService::set_interval(data, "weekly");
    assert_eq!(UpdateService::interval(&data), "weekly");
    assert!(!PrivacyService::location(&data));
}

#[test]
fn number_reads_back() {
    for n in [0i64, 7, -7, 24, i64::MAX, i64::MIN] {
        assert_eq!(parse_i64(&i64_to_chars(n)), Some(n));
    }
}

#[test]
fn document_text_is_indented_json() {
    let doc = Json::Object(vec![("b".to_string(), Json::Bool(true)), ("a".to_string(), Json::Number("2".to_string()))]);
    assert_eq!(churros::services::settings::document_text(&doc), "{\n  \"a\": 2,\n  \"b\": true\n}");
}

#[test]
fn settings_text_is_parsed() {
    let doc = churros::services::settings::load_text(Some("{\"theme\": {\"dark\": true}}"));
    assert!(get_bool(&doc, "theme.dark", false));
    let fallback = churros::services::settings::load_text(Some("[1, 2]"));
    assert_eq!(get_string(&fallback, "theme.gtk_theme", "x"), get_string(&defaults(), "theme.gtk_theme", "x"));
    let bad = churros::services::settings::load_text(Some("{ no"));
    assert_eq!(get_string(&bad, "theme.gtk_theme", "x"), get_string(&defaults(), "theme.gtk_theme", "x"));
    let none = churros::services::settings::load_text(None);
    assert!(matches!(none, Json::Object(_)));
}
