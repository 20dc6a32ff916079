use churros::services::applications::ApplicationsService;
use churros::services::backup::{BackupService, ImportAction};
use churros::services::logs::{LogsService, LogsStep};
use churros::services::privacy::PrivacyService;
use churros::services::pywal::PywalService;
use churros::services::settings::Json;
use churros::services::system::SystemService;
use churros::services::update::UpdateService;
use churros::services::wallpaper::{ApplyStep, NameStep, WallpaperService};

fn s(x: &str) -> String {
    x.to_string()
}

#[test]
fn system_facts() {
    assert_eq!(SystemService::cpu(Some("processor\t: 0\nmodel name\t: AMD Ryzen 7 5800X\n")), "AMD Ryzen 7 5800X");
    assert_eq!(SystemService::cpu(Some("processor\t: 0\n")), "Desconocido");
    assert_eq!(SystemService::cpu(None), "Desconocido");
    assert_eq!(SystemService::memory_kib(Some("MemTotal:       16314256 kB\n")), Some(s("16314256")));
    assert_eq!(SystemService::memory_kib(Some("MemFree: 1 kB\n")), None);
    let lspci = "00:00.0 Host bridge: AMD\n01:00.0 VGA compatible controller: NVIDIA Corporation GA104\n";
    assert_eq!(SystemService::gpu(Some(lspci)), "NVIDIA Corporation GA104");
    assert_eq!(SystemService::gpu(Some("00:00.0 Host bridge: AMD")), "Desconocida");
    assert_eq!(SystemService::hostname(Some("churros\n")), "churros");
    assert_eq!(SystemService::kernel(None), "Desconocido");
    assert_eq!(SystemService::session(None), "Desconocida");
    assert_eq!(SystemService::username(Some("ana")), "ana");
}

#[test]
fn package_count() {
    let entries = vec![(s("bash-5.2"), true), (s("ALPM_DB_VERSION"), true), (s("note"), false), (s("zsh-5.9"), true)];
    assert_eq!(ApplicationsService::count(Some(&entries), None), "2");
    assert_eq!(ApplicationsService::count(Some(&vec![]), Some("a 1\nb 2\nc 3\n")), "3");
    assert_eq!(ApplicationsService::count(None, None), "0");
}

#[test]
fn firewall_and_update_commands() {
    let (a, b) = PrivacyService::set_firewall(true, false);
    assert_eq!(a, vec!["pkexec", "systemctl", "enable", "ufw.service"]);
    assert_eq!(b, vec!["pkexec", "ufw", "--force", "enable"]);
    let (a, b) = PrivacyService::set_firewall(false, true);
    assert_eq!(a, vec!["systemctl", "disable", "ufw.service"]);
    assert_eq!(b, vec!["ufw", "--force", "disable"]);
    assert_eq!(UpdateService::timer_schedule("weekly"), "[Timer]\nOnCalendar=Mon *-*-* 04:00:00\n");
    assert_eq!(UpdateService::apply_timer_commands(false)[1], vec!["systemctl", "--user", "disable", "--now", "churros-update.timer"]);
    assert!(UpdateService::ensure_timer(true, false));
    assert!(!UpdateService::ensure_timer(true, true));
    assert_eq!(UpdateService::update_flatpak(), vec!["churros-pkexec", "flatpak", "update", "-y"]);
    assert_eq!(UpdateService::notify("a", "b"), vec!["notify-send", "-a", "ChurrOS", "a", "b"]);
}

#[test]
fn palette_colors() {
    let palette = Json::Object(vec![
        (s("special"), Json::Object(vec![(s("background"), Json::Str(s("#000000"))), (s("foreground"), Json::Str(s("#ffffff")))])),
        (s("colors"), Json::Object(vec![(s("color4"), Json::Str(s("#0000ff")))])),
    ]);
    assert_eq!(PywalService::apply_accent(&palette), (s("#0000ff"), s("#000000"), s("#ffffff")));
    assert_eq!(PywalService::apply_accent(&Json::Null), (s("#DE8636"), s("#111827"), s("#F8FAFC")));
    assert_eq!(PywalService::current_wallpaper("/w.png", true, true), Some(s("/w.png")));
    assert_eq!(PywalService::current_wallpaper("/w.png", false, true), Some(s("/usr/share/churros/wallpapers/default.jpeg")));
    assert_eq!(PywalService::current_wallpaper("", true, false), None);
    assert_eq!(PywalService::generate("/w.png"), vec!["wal", "-q", "-i", "/w.png", "-n", "-e"]);
}

#[test]
fn journal_fallbacks() {
    let first = LogsService::niri_logs_start(200);
    assert_eq!(first, vec!["journalctl", "-b0", "--no-pager", "--no-hostname", "-o", "short-iso", "-n", "200", "_COMM=niri"]);
    match LogsService::niri_logs(200, 0, Some("  \n")) {
        LogsStep::Run(c) => assert_eq!(c[8..], [s("-u"), s("greetd")]),
        other => panic!("{other:?}"),
    }
    assert_eq!(LogsService::niri_logs(200, 0, Some("x")), LogsStep::Done(s("x")));
    assert_eq!(LogsService::niri_logs(200, 1, Some("")), LogsStep::Done(String::new()));
    match LogsService::niri_logs(200, 1, None) {
        LogsStep::Run(c) => assert_eq!(c[8], "--grep=niri"),
        other => panic!("{other:?}"),
    }
    assert_eq!(LogsService::niri_logs(200, 2, None), LogsStep::Done(String::new()));
    assert_eq!(LogsService::niri_validate(Ok((true, "warn"))), (true, String::new()));
    assert_eq!(LogsService::niri_validate(Ok((false, " bad config \n"))), (false, s("bad config")));
    assert_eq!(LogsService::niri_validate(Err((true, "missing"))), (true, String::new()));
    assert_eq!(LogsService::niri_validate(Err((false, "denied"))), (false, s("denied")));
}

#[test]
fn backup_paths_stay_inside() {
    assert_eq!(BackupService::safe_join("/home/a/.config/churros", "settings.json"), Some(s("/home/a/.config/churros/settings.json")));
    assert_eq!(BackupService::safe_join("/base", "/etc/passwd"), None);
    assert_eq!(BackupService::safe_join("/base", "a/../../x"), None);
    assert_eq!(BackupService::safe_join("/base", "a/..b/x"), Some(s("/base/a/..b/x")));
    assert!(BackupService::is_zstd(&[0x28, 0xB5, 0x2F, 0xFD, 0]));
    assert!(!BackupService::is_zstd(&[0x28, 0xB5]));
    assert_eq!(BackupService::export_check(false, false), Err(s("No hay configuracion que exportar")));
    assert_eq!(BackupService::export_check(false, true), Ok(()));
    assert_eq!(BackupService::reset_to_defaults(false), Err(s("Defaults no encontrados: /usr/share/churros/defaults")));
    assert_eq!(BackupService::reset_to_defaults(true), Ok(true));
    assert_eq!(BackupService::dotfiles("/h")[4], (s("waybar"), s("/h/.config/waybar")));
    assert_eq!(BackupService::reload_services()[1], vec!["makoctl", "reload"]);
}

#[test]
fn import_plan() {
    let members = vec![
        (s("churros"), true),
        (s("churros/settings.json"), false),
        (s("churros/churros/x.json"), false),
        (s("dotfiles/niri"), true),
        (s("dotfiles/niri/config.kdl"), false),
        (s("dotfiles/evil/x"), false),
        (s("dotfiles/foot/../../x"), false),
        (s("dotfiles/foot/"), false),
        (s("other"), false),
    ];
    let acts = BackupService::import_from(&members, "/h/.config/churros", "/h/.config").unwrap();
    assert_eq!(
        acts,
        vec![
            ImportAction::Skip,
            ImportAction::WriteFile(s("/h/.config/churros/settings.json")),
            ImportAction::WriteFile(s("/h/.config/churros/x.json")),
            ImportAction::CreateDir(s("/h/.config/niri")),
            ImportAction::WriteFile(s("/h/.config/niri/config.kdl")),
            ImportAction::Skip,
            ImportAction::Skip,
            ImportAction::Skip,
            ImportAction::Skip,
        ]
    );
    assert_eq!(
        BackupService::import_from(&vec![(s("x/y"), false)], "/c", "/d"),
        Err(s("El archivo no es un backup de ChurrOS"))
    );
}

#[test]
fn wallpaper_files_and_steps() {
    assert_eq!(WallpaperService::user_dir("/h"), "/h/.local/share/churros/wallpapers");
    assert_eq!(WallpaperService::wallpaper_dirs("/h")[4], "/h/Pictures");
    assert!(WallpaperService::is_wallpaper("sunset.JPG"));
    assert!(WallpaperService::is_wallpaper("a.b.webp"));
    assert!(!WallpaperService::is_wallpaper(".png"));
    assert!(!WallpaperService::is_wallpaper("notes.txt"));
    assert!(!WallpaperService::is_wallpaper("png"));
    assert_eq!(WallpaperService::import_name("/tmp/sun.set.png", 0), "sun.set.png");
    assert_eq!(WallpaperService::import_name("/tmp/sun.set.png", 2), "sun.set_2.png");
    assert_eq!(WallpaperService::import_name("/tmp/README", 1), "README_1");
    assert_eq!(WallpaperService::apply("", true, true, true), ApplyStep::Done(false));
    assert_eq!(
        WallpaperService::apply("/w.png", true, true, true),
        ApplyStep::RunWrapper(vec![s("churros-apply-wallpaper"), s("/w.png")])
    );
    assert_eq!(WallpaperService::after_wrapper("/w.png", true, true), ApplyStep::Done(true));
    match WallpaperService::after_wrapper("/w.png", false, true) {
        ApplyStep::RunSwaybg(cmds, check) => {
            assert_eq!(cmds[1], vec!["swaybg", "-i", "/w.png", "-m", "fill"]);
            assert_eq!(check, vec!["pgrep", "-x", "swaybg"]);
        },
        other => panic!("{other:?}"),
    }
    assert_eq!(WallpaperService::apply("/w.png", true, false, false), ApplyStep::Done(false));
    let names = vec![s("wayland-1"), s("wayland-0")];
    assert_eq!(
        WallpaperService::env_additions(false, false, 1000, Some(&names)),
        vec![(s("WAYLAND_DISPLAY"), s("wayland-0")), (s("XDG_RUNTIME_DIR"), s("/run/user/1000"))]
    );
    assert_eq!(WallpaperService::env_additions(true, false, 7, Some(&names)), vec![(s("XDG_RUNTIME_DIR"), s("/run/user/7"))]);
    assert_eq!(WallpaperService::env_additions(true, true, 7, None), vec![]);
}

#[test]
fn wallpaper_list_sorted_as_paths() {
    let found: Vec<String> = vec![
        "/w/b-c/x.png".to_string(),
        "/w/b/y.png".to_string(),
        "/w//b/y.png".to_string(),
        "/w/a.png".to_string(),
        "/w/b/./x.png".to_string(),
    ];
    let listed = WallpaperService::list(&found);
    // By components: "b" comes before "b-c" though '-' sorts before '/'.
    assert_eq!(
        listed,
        vec![
            "/w/a.png".to_string(),
            "/w/b/./x.png".to_string(),
            "/w/b/y.png".to_string(),
            "/w/b-c/x.png".to_string(),
        ]
    );
    assert!(WallpaperService::list(&Vec::new()).is_empty());
}

fn tar_of(files: &[(&str, &[u8])]) -> Vec<u8> {
    let mut b = tar::Builder::new(Vec::new());
    for (name, data) in files {
        let mut h = tar::Header::new_gnu();
        h.set_size(data.len() as u64);
        h.set_mode(0o644);
        h.set_cksum();
        b.append_data(&mut h, name, *data).unwrap();
    }
    b.into_inner().unwrap()
}

#[test]
fn archive_import_reads_members() {
    let raw = tar_of(&[("churros/settings.json", b"{}"), ("dotfiles/niri/config.kdl", b"layout {}")]);
    let plan = BackupService::import_archive(&raw, "/h/.config/churros", "/h/.config").unwrap();
    assert_eq!(plan.len(), 2);
    assert_eq!(plan[0].0, ImportAction::WriteFile(s("/h/.config/churros/settings.json")));
    assert_eq!(plan[0].1, b"{}".to_vec());
    assert_eq!(plan[1].0, ImportAction::WriteFile(s("/h/.config/niri/config.kdl")));
    assert_eq!(plan[1].1, b"layout {}".to_vec());

    let packed = zstd::stream::encode_all(&raw[..], 3).unwrap();
    assert!(BackupService::is_zstd(&packed));
    let plan2 = BackupService::import_archive(&packed, "/c", "/d").unwrap();
    assert_eq!(plan2[0].0, ImportAction::WriteFile(s("/c/settings.json")));
    assert_eq!(plan2[0].1, b"{}".to_vec());

    let other = tar_of(&[("x/y", b"1")]);
    assert_eq!(
        BackupService::import_archive(&other, "/c", "/d"),
        Err(s("El archivo no es un backup de ChurrOS"))
    );
    let bad = BackupService::import_archive(&[0x28, 0xB5, 0x2F, 0xFD, 1, 2, 3], "/c", "/d");
    assert!(bad.unwrap_err().starts_with("Archivo invalido: "));
}

#[test]
fn import_name_steps() {
    assert_eq!(WallpaperService::name_step("/tmp/a.png", 0, false), NameStep::Take(s("a.png")));
    assert_eq!(WallpaperService::name_step("/tmp/a.png", 0, true), NameStep::Next(1));
    assert_eq!(WallpaperService::name_step("/tmp/a.png", 1, false), NameStep::Take(s("a_1.png")));
    assert_eq!(WallpaperService::name_step("/tmp/a.png", u32::MAX, true), NameStep::GiveUp);
}

#[test]
fn safe_join_stays_under_base() {
    let t = BackupService::safe_join("/h/.config", "niri/config.kdl").unwrap();
    assert!(t.starts_with("/h/.config/"));
    assert!(t.ends_with("niri/config.kdl"));
    assert!(BackupService::safe_join("/h", "../x").is_none());
    assert!(BackupService::safe_join("/h", "/etc/x").is_none());
}

#[test]
fn palette_cache_is_parsed() {
    let p = PywalService::read_cache_of(Some("{\"special\": {\"background\": \"#000000\"}}")).unwrap();
    assert!(matches!(p, Json::Object(ref m) if m.len() == 1 && m[0].0 == "special"));
    assert!(PywalService::read_cache_of(Some("{oops")).is_none());
    assert!(PywalService::read_cache_of(None).is_none());
}

#[test]
fn bytes_after_the_archive_are_not_read() {
    let raw = tar_of(&[("churros/settings.json", b"{}")]);
    let mut packed = zstd::stream::encode_all(&raw[..], 3).unwrap();
    packed.extend_from_slice(b"trailing bytes that are not zstd");
    let plan = BackupService::import_archive(&packed, "/c", "/d").unwrap();
    assert_eq!(plan[0].0, ImportAction::WriteFile(s("/c/settings.json")));
}
