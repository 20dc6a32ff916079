use churros::services::lock_screen::LockScreenService;
use churros::services::settings::Json;

fn s(x: &str) -> String {
    x.to_string()
}

#[test]
fn defaults_make_the_stock_command() {
    let d = LockScreenService::defaults();
    assert!(!LockScreenService::is_enabled(&d));
    assert_eq!(
        LockScreenService::build_swaylock_cmd(&d, false),
        vec![
            "swaylock", "-F", "200", "--font", "JetBrainsMono Nerd Font", "--font-size", "24", "-r", "7aa2f7ff", "-s",
            "00000088", "-k", "bb9af7ff", "-b", "f7768eff", "-n", "00000000"
        ]
    );
    assert_eq!(LockScreenService::wallpaper_path(&d), None);
}

#[test]
fn file_members_override_the_defaults() {
    let file = Json::Object(vec![
        (s("indicator"), Json::Str(s("none"))),
        (s("wallpaper_path"), Json::Str(s("/w.png"))),
        (s("screenshot"), Json::Bool(true)),
        (s("grace"), Json::Str(s("5"))),
        (s("ring_color"), Json::Str(s("#ff0000ff"))),
        (s("font"), Json::Str(String::new())),
        (s("font_size"), Json::Number(s("0"))),
    ]);
    let d = LockScreenService::read_data(Some(file));
    assert_eq!(LockScreenService::wallpaper_path(&d), Some(s("/w.png")));
    assert_eq!(
        LockScreenService::build_swaylock_cmd(&d, true),
        vec![
            "swaylock", "-u", "-i", "/w.png", "-f", "-F", "200", "-r", "ff0000ff", "-s", "00000088", "-k", "bb9af7ff",
            "-b", "f7768eff", "-n", "00000000"
        ]
    );
    assert_eq!(LockScreenService::build_swaylock_cmd(&d, false)[2], "-f");
    let broken = LockScreenService::read_data(Some(Json::Null));
    assert!(matches!(LockScreenService::get(&broken, "indicator", Json::Null), Json::Str(x) if x == "auto"));
    assert!(matches!(LockScreenService::get(&broken, "missing", Json::Bool(true)), Json::Bool(true)));
}

#[test]
fn idle_command_quotes_for_the_shell() {
    let d = LockScreenService::defaults();
    assert_eq!(LockScreenService::apply(&d, false, true, true), None);
    let on = LockScreenService::set_all(d, &Json::Object(vec![(s("enabled"), Json::Bool(true))]));
    assert!(LockScreenService::is_enabled(&on));
    assert_eq!(
        LockScreenService::apply(&on, false, true, true),
        Some(vec![
            s("swayidle"),
            s("-w"),
            s("timeout"),
            s("600"),
            s("swaylock -F 200 --font 'JetBrainsMono Nerd Font' --font-size 24 -r 7aa2f7ff -s 00000088 -k bb9af7ff -b f7768eff -n 00000000"),
        ])
    );
    assert_eq!(LockScreenService::apply(&on, false, false, true), None);
    assert_eq!(LockScreenService::apply(&on, false, true, false), None);
    assert_eq!(LockScreenService::preview(&on, false, false), None);
    assert_eq!(LockScreenService::preview(&on, true, false).unwrap()[0], "swaylock");
}

#[test]
fn sh_quote_cases() {
    assert_eq!(LockScreenService::sh_quote("a/b.c-d_e+f@g%h:i"), "a/b.c-d_e+f@g%h:i");
    assert_eq!(LockScreenService::sh_quote("it's"), "'it'\\''s'");
    assert_eq!(LockScreenService::sh_quote("two words"), "'two words'");
    assert_eq!(LockScreenService::sh_quote(""), "''");
}

#[test]
fn lock_set_all_reads_back() {
    let data = LockScreenService::read_data(None);
    let updates = Json::Object(vec![
        (s("enabled"), Json::Bool(true)),
        (s("font"), Json::Str(s("Inter"))),
        (s("font"), Json::Str(s("Cantarell"))),
    ]);
    let data = LockScreenService::set_all(data, &updates);
    assert!(matches!(LockScreenService::get(&data, "enabled", Json::Null), Json::Bool(true)));
    assert!(matches!(LockScreenService::get(&data, "font", Json::Null), Json::Str(f) if f == "Cantarell"));
    assert!(matches!(LockScreenService::get(&data, "indicator", Json::Null), Json::Str(i) if i == "auto"));
    let file = Json::Object(vec![(s("grace"), Json::Number(s("5")))]);
    let data = LockScreenService::read_data(Some(file));
    assert!(matches!(LockScreenService::get(&data, "grace", Json::Null), Json::Number(n) if n == "5"));
    assert!(matches!(LockScreenService::get(&data, "fade_in", Json::Null), Json::Number(n) if n == "200"));
}

#[test]
fn lock_settings_from_text() {
    let d = LockScreenService::read_data_of(Some("{\"wallpaper\": \"/w.png\", \"indicator\": \"always\"}"));
    assert!(matches!(LockScreenService::get(&d, "indicator", Json::Null), Json::Str(x) if x == "always"));
    let bad = LockScreenService::read_data_of(Some("not json"));
    assert!(matches!(LockScreenService::get(&bad, "indicator", Json::Null), Json::Str(x) if x == "auto"));
    let none = LockScreenService::read_data_of(None);
    assert!(matches!(LockScreenService::get(&none, "indicator", Json::Null), Json::Str(x) if x == "auto"));
}

#[test]
fn sh_quote_font_name_is_one_word() {
    assert_eq!(LockScreenService::sh_quote("JetBrainsMono Nerd Font"), "'JetBrainsMono Nerd Font'");
    assert_eq!(LockScreenService::sh_quote("a'b'"), "'a'\\''b'\\'''");
}
