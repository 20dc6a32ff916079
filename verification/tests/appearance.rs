use churros::services::cursor::CursorService;
use churros::services::gtk_settings::{
    detect_wayland_display, first_wayland, ini_value, ini_with_key, join_path, least_wayland, uid_from_status,
};
use churros::services::icons::IconsService;
use churros::services::settings::{defaults, get_string, Json};
use churros::services::theme::ThemeService;

fn s(x: &str) -> String {
    x.to_string()
}

#[test]
fn ini_key_is_replaced_or_added() {
    assert_eq!(
        ini_with_key("[Settings]\ngtk-cursor-theme-name=Old\n  gtk-cursor-theme-name=Older\n", "gtk-cursor-theme-name", "Bibata"),
        "[Settings]\ngtk-cursor-theme-name=Bibata\ngtk-cursor-theme-name=Bibata\n"
    );
    assert_eq!(
        ini_with_key("[Settings]\ngtk-font-name=Inter 11", "gtk-cursor-theme-size", "24"),
        "[Settings]\ngtk-font-name=Inter 11\ngtk-cursor-theme-size=24\n"
    );
    assert_eq!(ini_with_key("", "k", "v"), "[Settings]\nk=v\n");
    assert_eq!(ini_value("a=1\n  gtk-icon-theme-name= Papirus \n", "gtk-icon-theme-name="), Some(s("Papirus")));
    assert_eq!(ini_value("a=1\n", "gtk-icon-theme-name="), None);
}

#[test]
fn session_helpers() {
    assert_eq!(uid_from_status("Name:\tx\nUid:\t1001\t1001\t1001\t1001\n"), 1001);
    assert_eq!(uid_from_status("Uid:\tbad\nUid: 7\n"), 7);
    assert_eq!(uid_from_status(""), 1000);
    let names = vec![s("bus"), s("wayland-1"), s("wayland-0.lock"), s("wayland-0")];
    assert_eq!(least_wayland(&names), Some(s("wayland-0")));
    assert_eq!(first_wayland(&names), Some(s("wayland-1")));
    assert_eq!(least_wayland(&vec![s("bus")]), None);
    assert_eq!(detect_wayland_display(Some("wayland-9"), Some(&names)), Some(s("wayland-9")));
    assert_eq!(detect_wayland_display(Some(""), Some(&names)), Some(s("wayland-0")));
    assert_eq!(detect_wayland_display(None, None), None);
    assert_eq!(join_path("/home/ana", ".icons"), "/home/ana/.icons");
    assert_eq!(join_path("/home/ana/", ".icons"), "/home/ana/.icons");
    assert_eq!(join_path("", ".icons"), ".icons");
    assert_eq!(CursorService::cursor_dirs("/home/ana"), vec!["/usr/share/icons", "/home/ana/.icons", "/home/ana/.local/share/icons"]);
    assert_eq!(IconsService::icon_dirs("/h"), vec!["/usr/share/icons", "/h/.icons", "/h/.local/share/icons"]);
}

#[test]
fn cursor_block_is_rewritten() {
    assert_eq!(CursorService::rewrite_cursor_block("\n    xcursor-theme \"x\"\n    xcursor-size 24\n", 32), "\n    xcursor-theme \"x\"\n    xcursor-size 32\n");
    assert_eq!(CursorService::rewrite_cursor_block("\n    xcursor-size\n    xcursor-size\t 8\n", 16), "\n    xcursor-size 16\n    xcursor-size 16\n");
    assert_eq!(CursorService::rewrite_cursor_block("\n", 24), "\n    xcursor-size 24\n");
}

#[test]
fn niri_cursor_block_is_found_or_added() {
    let conf = "input {\n}\ncursor {\n    xcursor-size 24\n}\nlayout {\n}\n";
    assert_eq!(CursorService::set_niri_cursor_size(conf, 48), "cursor {\n    xcursor-size 48\n}\nlayout {\n}\n");
    assert_eq!(
        CursorService::set_niri_cursor_size("layout {\n}", 24),
        "layout {\n}\ncursor {\n    xcursor-size 24\n}\n"
    );
    assert_eq!(
        CursorService::set_niri_cursor_size("  cursor {\n}\n", 24),
        "  cursor {\n}\ncursor {\n    xcursor-size 24\n}\n"
    );
}

#[test]
fn themes_and_sizes() {
    let d = defaults();
    assert_eq!(CursorService::current(&d, None), "Bibata");
    let no_theme = churros::services::settings::set(defaults(), "cursor.theme", Json::Str(String::new()));
    assert_eq!(CursorService::current(&no_theme, Some("gtk-cursor-theme-name=Adwaita\n")), "Adwaita");
    assert_eq!(CursorService::current(&no_theme, None), "default");
    assert_eq!(IconsService::current(&d, None), "Papirus");
    assert_eq!(CursorService::size(&d), "24");
    let (d2, ini, cmds) = CursorService::set_size(defaults(), "Bibata", 32);
    assert_eq!(CursorService::size(&d2), "32");
    assert_eq!(ini, vec![(s("gtk-cursor-theme-size"), s("32"))]);
    assert_eq!(cmds[2], vec!["gsettings", "set", "org.gnome.desktop.interface", "cursor-size", "32"]);
    let (d3, ini, cmds) = CursorService::set(defaults(), "Adwaita", 24);
    assert_eq!(get_string(&d3, "cursor.theme", ""), "Adwaita");
    assert_eq!(ini[0], (s("gtk-cursor-theme-name"), s("Adwaita")));
    assert_eq!(cmds[1], vec!["gsettings", "set", "org.gnome.desktop.interface", "cursor-theme", "Adwaita"]);
    let (d4, ini, cmds) = IconsService::set(defaults(), "Breeze");
    assert_eq!(get_string(&d4, "icons.theme", ""), "Breeze");
    assert_eq!(ini, vec![(s("gtk-icon-theme-name"), s("Breeze"))]);
    assert_eq!(cmds, vec![vec![s("gsettings"), s("set"), s("org.gnome.desktop.interface"), s("icon-theme"), s("Breeze")]]);
    let names = vec![s("b"), s("a"), s("b"), s("Z")];
    assert_eq!(CursorService::available(&names), vec!["Z", "a", "b"]);
    assert_eq!(IconsService::available(&names), vec!["Z", "a", "b"]);
}

#[test]
fn migrate_rewrites_adwaita_dark() {
    let content = ThemeService::migrate_adwaita_dark_ini("[Settings]\ngtk-theme-name=Adwaita-dark\ngtk-font-name=Inter 11\n").unwrap();
    assert!(content.contains("gtk-theme-name=Adwaita\n"));
    assert!(!content.contains("Adwaita-dark"));
    assert!(content.contains("gtk-font-name=Inter 11"));
    assert_eq!(ThemeService::migrate_adwaita_dark_ini("[Settings]\n"), None);
}

#[test]
fn dark_flag_and_settings() {
    assert!(ThemeService::is_dark(Some("1\n"), &defaults()));
    assert!(!ThemeService::is_dark(Some("0"), &defaults()));
    assert!(!ThemeService::is_dark(None, &defaults()));
    assert!(ThemeService::is_dark(None, &Json::Null));
    assert!(ThemeService::set(defaults(), true, true).is_none());
    let (d, flag) = ThemeService::set(defaults(), false, true).unwrap();
    assert_eq!(flag, "1");
    assert!(ThemeService::is_dark(None, &d));
    let (_, flag) = ThemeService::toggle(d, true);
    assert_eq!(flag, "0");
    assert_eq!(
        ThemeService::migrate_before_gtk("'Adwaita-dark'\n"),
        Some(vec![s("gsettings"), s("set"), s("org.gnome.desktop.interface"), s("gtk-theme"), s("Adwaita")])
    );
    assert_eq!(ThemeService::migrate_before_gtk("'Adwaita'"), None);
    assert_eq!(ThemeService::persist_commands(false)[2], vec!["pkill", "-SIGUSR2", "foot"]);
    assert_eq!(ThemeService::persist_ini(true)[0], (s("gtk-3.0"), s("gtk-application-prefer-dark-theme"), s("1")));
}

#[test]
fn theme_switch_reads_back() {
    for dark in [true, false] {
        let (data, flag) = ThemeService::set(defaults(), !dark, dark).expect("switch");
        assert_eq!(ThemeService::is_dark(Some(&flag), &data), dark);
        assert_eq!(ThemeService::is_dark(None, &data), dark);
        let (data, flag) = ThemeService::toggle(defaults(), dark);
        assert_eq!(ThemeService::is_dark(Some(&flag), &data), !dark);
        assert_eq!(ThemeService::is_dark(None, &data), !dark);
    }
    assert!(ThemeService::set(defaults(), true, true).is_none());
}
