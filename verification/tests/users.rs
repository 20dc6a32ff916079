use churros::services::users::{AutoLoginAction, UsersService};

const PASSWD: &str = "root:x:0:0:root:/root:/bin/bash\nana:x:1000:1000:Ana Pérez,,,:/home/ana:/bin/zsh\n";

fn s(x: &str) -> String {
    x.to_string()
}

#[test]
fn passwd_fields() {
    let e = UsersService::passwd_entry(PASSWD, 1000);
    assert_eq!(e, Some((s("ana"), s("1000"), s("1000"), s("Ana Pérez,,,"), s("/bin/zsh"))));
    assert_eq!(UsersService::full_name(&e, "ana"), "Ana Pérez");
    assert_eq!(UsersService::shell(&e), "/bin/zsh");
    assert_eq!(UsersService::username(None, &e), "ana");
    assert_eq!(UsersService::username(Some("x"), &e), "x");
    let none = UsersService::passwd_entry(PASSWD, 5);
    assert_eq!(none, None);
    assert_eq!(UsersService::full_name(&none, "x"), "x");
    assert_eq!(UsersService::shell(&none), "Desconocido");
    assert_eq!(UsersService::username(None, &none), "Desconocido");
    let root = UsersService::passwd_entry(PASSWD, 0);
    assert_eq!(UsersService::full_name(&root, "root"), "root");
    assert_eq!(UsersService::uid(1000), "1000");
    assert_eq!(UsersService::gid(Some("1000\n")), "1000");
    assert_eq!(UsersService::gid(Some("")), "0");
    assert_eq!(UsersService::hostname(Some("churros\n")), "churros");
    assert_eq!(UsersService::hostname(None), "Desconocido");
}

#[test]
fn auto_login_is_read() {
    let greetd = "[terminal]\nvt = 7\n\n[initial_session]\ncommand = \"niri\"\nuser = \"ana\"\n";
    assert!(UsersService::auto_login(true, Some(greetd), None, None));
    assert!(!UsersService::auto_login(true, Some("[default_session]\nuser = \"greeter\"\n"), None, None));
    assert!(!UsersService::auto_login(true, Some("[initial_session]\nuser = \"\"\n"), None, None));
    assert!(!UsersService::auto_login(true, None, Some("[Seat:*]\nautologin-user=ana\n"), None));
    assert!(UsersService::auto_login(false, None, Some("[Seat:*]\nautologin-user=ana\n"), None));
    assert!(UsersService::auto_login(false, None, None, Some("[SeatDefaults]\nAutologin-User = ana\n")));
    assert!(!UsersService::auto_login(false, None, Some("[Seat:*]\nautologin-user=false\n"), None));
    assert!(!UsersService::auto_login(false, None, Some("[Seat:*]\n#autologin-user=ana\n"), None));
}

#[test]
fn auto_login_actions() {
    assert_eq!(UsersService::set_auto_login(true, true, "ana", "niri", true, false), AutoLoginAction::Nothing);
    assert_eq!(
        UsersService::set_auto_login(false, true, "ana", "churros-niri", true, false),
        AutoLoginAction::Write {
            path: s("/etc/greetd/config.toml"),
            content: s("[terminal]\nvt = 7\n\n[default_session]\ncommand = \"env WLR_NO_HARDWARE_CURSORS=1 XCURSOR_THEME=Adwaita XCURSOR_SIZE=24 cage -s -- regreet\"\nuser = \"greeter\"\n\n[initial_session]\ncommand = \"niri\"\nuser = \"ana\"\n"),
        }
    );
    assert_eq!(
        UsersService::set_auto_login(true, false, "ana", "xfce", true, false),
        AutoLoginAction::Write {
            path: s("/etc/greetd/config.toml"),
            content: s("[terminal]\nvt = 7\n\n[default_session]\ncommand = \"env WLR_NO_HARDWARE_CURSORS=1 XCURSOR_THEME=Adwaita XCURSOR_SIZE=24 cage -s -- regreet\"\nuser = \"greeter\"\n"),
        }
    );
    assert_eq!(
        UsersService::set_auto_login(false, true, "ana", "churros-xfce", false, false),
        AutoLoginAction::Write {
            path: s("/etc/lightdm/lightdm.conf.d/autologin.conf"),
            content: s("[Seat:*]\nautologin-user=ana\nautologin-user-timeout=0\nautologin-session=xfce\n"),
        }
    );
    assert_eq!(
        UsersService::set_auto_login(true, false, "ana", "niri", false, true),
        AutoLoginAction::Remove { path: s("/etc/lightdm/lightdm.conf.d/autologin.conf") }
    );
    assert_eq!(UsersService::set_auto_login(true, false, "ana", "niri", false, false), AutoLoginAction::Nothing);
}

#[test]
fn greeter_files() {
    let c = "[background]\npath = \"/w.png\"\nfit = \"Cover\"\n\n[appearance]\ngreeting_msg = 'Hola'\n";
    assert_eq!(UsersService::regreet_wallpaper(Some(c)), "/w.png");
    assert_eq!(UsersService::regreet_wallpaper(None), "/usr/share/churros/wallpapers/default.png");
    assert_eq!(UsersService::regreet_greeting(Some(c)), "Hola");
    assert_eq!(UsersService::regreet_greeting(Some("path = \"\"\n")), "Bienvenido a ChurrOS");
    assert_eq!(
        UsersService::set_regreet_wallpaper(Some("[background]\npath = \"/old.png\"\nfit = \"Cover\"\n"), "/n.png"),
        "[background]\npath = \"/n.png\"\nfit = \"Cover\"\n"
    );
    assert_eq!(
        UsersService::set_regreet_wallpaper(None, "/n.png"),
        "[background]\npath = \"/n.png\"\nfit = \"Cover\"\n"
    );
    assert_eq!(
        UsersService::set_regreet_wallpaper(Some("[x]\n"), "/n.png"),
        "[x]\n[background]\npath = \"/n.png\"\nfit = \"Cover\"\n"
    );
    assert_eq!(
        UsersService::set_regreet_greeting(Some("greeting_msg = \"a\"\n"), "Hi"),
        "greeting_msg = \"Hi\"\n"
    );
    assert_eq!(UsersService::set_regreet_greeting(None, "Hi"), "[appearance]\ngreeting_msg = \"Hi\"\n");
}

#[test]
fn root_file_commands() {
    let (a, b) = UsersService::write_root_file_commands("/etc/greetd/config.toml", "/etc/greetd", "/tmp/c.tmp", false);
    assert_eq!(a, vec!["churros-pkexec", "mkdir", "-p", "/etc/greetd"]);
    assert_eq!(b, vec!["churros-pkexec", "install", "-m", "644", "/tmp/c.tmp", "/etc/greetd/config.toml"]);
    let (a, _) = UsersService::write_root_file_commands("/x/y", "/x", "/t", true);
    assert_eq!(a, vec!["mkdir", "-p", "/x"]);
    assert_eq!(UsersService::remove_root_file_command("/x/y", true), vec!["rm", "-f", "/x/y"]);
}
