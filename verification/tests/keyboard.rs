use churros::services::keyboard::{is_valid_key, make_action_line, parse_action, parse_bind_line, split_quote, KeyboardService};

#[test]
fn split_quote_keeps_first_char() {
    let (content, rest) = split_quote("churros-welcome\"");
    assert_eq!(content, "churros-welcome");
    assert!(rest.is_empty());

    let (content, rest) = split_quote("foot\" \"--flag\"");
    assert_eq!(content, "foot");
    assert_eq!(rest, " \"--flag\"");
}

#[test]
fn parse_spawn_bind_keeps_command() {
    let bind = parse_bind_line("    Mod+W { spawn \"churros-welcome\"; }").unwrap();
    assert_eq!(bind.key, "Mod+W");
    assert_eq!(bind.kind, "spawn");
    assert_eq!(bind.command, "churros-welcome");
    assert_eq!(bind.args, "");

    let bind = parse_bind_line("    Mod+Shift+N { spawn \"churros-popup\" \"network\"; }").unwrap();
    assert_eq!(bind.command, "churros-popup");
    assert_eq!(bind.args, "network");
}

#[test]
fn parse_spawn_sh_keeps_command() {
    let bind = parse_bind_line("    Mod+T { spawn-sh \"foot\"; }").unwrap();
    assert_eq!(bind.kind, "spawn-sh");
    assert_eq!(bind.command, "foot");
}

#[test]
fn make_action_line_escapes_quotes() {
    assert_eq!(make_action_line("spawn", "foot", ""), "spawn \"foot\"");
    assert_eq!(make_action_line("spawn", "cmd", "a b"), "spawn \"cmd\" \"a b\"");
    assert_eq!(make_action_line("spawn", "say", "\"hi\""), "spawn \"say\" \"\\\"hi\\\"\"");
    assert_eq!(make_action_line("builtin", "close-window", ""), "close-window");
}

#[test]
fn split_quote_edge_cases() {
    assert_eq!(split_quote("no closing"), (String::new(), String::new()));
    assert_eq!(split_quote("\"first"), (String::new(), String::new()));
    assert_eq!(split_quote("a\\\"b\" rest"), ("a\\\"b".to_string(), " rest".to_string()));
}

#[test]
fn builtin_bind_and_locked_flag() {
    let bind = parse_bind_line("Mod+Q allow-when-locked=true { close-window; }").unwrap();
    assert_eq!(bind.key, "Mod+Q");
    assert!(bind.allow_when_locked);
    assert_eq!(bind.kind, "builtin");
    assert_eq!(bind.command, "close-window");
    assert_eq!(bind.args, "");
    let bind = parse_bind_line("XF86AudioRaiseVolume { focus-column   left  now; }").unwrap();
    assert!(!bind.allow_when_locked);
    assert_eq!(bind.command, "focus-column");
    assert_eq!(bind.args, "left now");
    assert!(parse_bind_line("Super+Q { close-window; }").is_none());
    assert!(parse_bind_line("Mod+Q close-window").is_none());
    assert!(parse_bind_line("Mod+Q } close-window {").is_none());
}

#[test]
fn valid_keys() {
    assert!(is_valid_key("Mod+Return"));
    assert!(is_valid_key("Print"));
    assert!(is_valid_key("Ctrl+Print"));
    assert!(is_valid_key("Alt+Print"));
    assert!(is_valid_key("XF86AudioMute"));
    assert!(!is_valid_key("Shift+Print"));
    assert!(!is_valid_key("mod+x"));
}

const CONFIG: &str = "layout {\n    gaps 8\n}\n\nbinds {\n    Mod+Return { spawn \"foot\"; }\n}\n";

#[test]
fn keybinds_edit_roundtrip() {
    let added = KeyboardService::add_keybind(CONFIG, "Mod+W", "spawn", "churros-welcome", "");
    assert!(added.contains("    Mod+W { spawn \"churros-welcome\"; }"), "add: {added}");

    let set = KeyboardService::set_keybind(&added, "Mod+W", "spawn", "churros-settings", "").unwrap();
    assert!(set.contains("    Mod+W { spawn \"churros-settings\"; }"), "set: {set}");
    assert!(!set.contains("        Mod+W"), "set: {set}");

    let removed = KeyboardService::remove_keybind(&set, "Mod+W").unwrap();
    assert!(!removed.contains("Mod+W"), "remove: {removed}");
    assert!(removed.contains("Mod+Return"), "remove: {removed}");

    assert!(KeyboardService::set_keybind(CONFIG, "Mod+Z", "spawn", "x", "").is_none());
    assert!(KeyboardService::remove_keybind(CONFIG, "Mod+Z").is_none());

    let created = KeyboardService::add_keybind("layout {\n    gaps 8\n}\n", "Mod+T", "builtin", "close-window", "");
    assert_eq!(created, "layout {\n    gaps 8\n}\n\nbinds {\n    Mod+T { close-window; }\n}\n");
}

#[test]
fn get_keybinds_reads_the_binds_block() {
    let binds = KeyboardService::get_keybinds(CONFIG);
    assert_eq!(binds.len(), 1);
    assert_eq!(binds[0].key, "Mod+Return");
    assert_eq!(binds[0].command, "foot");
    assert!(KeyboardService::get_keybinds("layout {\n}\n").is_empty());
}

#[test]
fn write_path_roundtrip() {
    let config = "layout {\n    gaps 8\n}\n\nbinds {\n    Mod+Return { spawn \"foot\"; }\n}\n";

    let content = KeyboardService::add_keybind(config, "Mod+W", "spawn", "churros-welcome", "");
    assert!(content.contains("    Mod+W { spawn \"churros-welcome\"; }"), "add: {content}");

    let content = KeyboardService::set_keybind(&content, "Mod+W", "spawn", "churros-settings", "").expect("set");
    assert!(content.contains("    Mod+W { spawn \"churros-settings\"; }"), "set: {content}");
    assert!(!content.contains("        Mod+W"), "set: indent duplicado: {content}");

    let content = KeyboardService::remove_keybind(&content, "Mod+W").expect("remove");
    assert!(!content.contains("Mod+W"), "remove: {content}");
    assert!(content.contains("Mod+Return"), "remove: borró otro bind: {content}");

    let content = KeyboardService::add_keybind("layout {\n    gaps 8\n}\n", "Mod+T", "builtin", "close-window", "");
    assert!(
        content.contains("binds {") && content.contains("    Mod+T { close-window; }"),
        "sin binds: {content}"
    );
}

#[test]
fn added_bind_is_listed() {
    let config = "binds {\n    Mod+Return { spawn \"foot\"; }\n}\nlayout {\n}\n";
    let out = KeyboardService::add_keybind(config, "Mod+W", "spawn", "churros-welcome", "--now");
    let binds = KeyboardService::get_keybinds(&out);
    assert!(binds.iter().any(|b| b.key == "Mod+W" && b.command == "churros-welcome" && b.args == "--now"));
    assert!(binds.iter().any(|b| b.key == "Mod+Return"));
    let out = KeyboardService::add_keybind("", "XF86AudioMute", "builtin", "mute", "");
    assert!(KeyboardService::get_keybinds(&out).iter().any(|b| b.key == "XF86AudioMute"));
}

#[test]
fn spawn_sh_action_reads_back() {
    let line = make_action_line("spawn-sh", "foot -e htop", "");
    let (kind, cmd, args) = parse_action(&line.chars().collect::<Vec<char>>());
    assert_eq!(kind.iter().collect::<String>(), "spawn-sh");
    assert_eq!(cmd.iter().collect::<String>(), "foot -e htop");
    assert!(args.is_empty());
}

#[test]
fn keybind_edit_needs_a_bind() {
    let cfg = "binds {\n    Mod+T { spawn \"foot\"; }\n}\nMod+Q { close-window; }\n";
    assert!(KeyboardService::set_keybind(cfg, "Mod+Q", "builtin", "quit", "").is_none());
    assert!(KeyboardService::remove_keybind(cfg, "Mod+Q").is_none());
    assert!(KeyboardService::set_keybind(cfg, "Mod+T", "builtin", "quit", "").is_some());
}

#[test]
fn builtin_action_reads_back() {
    let line = make_action_line("builtin", "focus-column-left", "");
    let (kind, cmd, args) = parse_action(&line.chars().collect::<Vec<char>>());
    assert_eq!(kind.iter().collect::<String>(), "builtin");
    assert_eq!(cmd.iter().collect::<String>(), "focus-column-left");
    assert!(args.is_empty());
    let line2 = make_action_line("builtin", "set-column-width", "+10%   x");
    let (_, cmd2, args2) = parse_action(&line2.chars().collect::<Vec<char>>());
    assert_eq!(cmd2.iter().collect::<String>(), "set-column-width");
    assert_eq!(args2.iter().collect::<String>(), "+10% x");
}

#[test]
fn empty_spawn_sh_reads_back() {
    let line = make_action_line("spawn-sh", "", "");
    let (kind, cmd, args) = parse_action(&line.chars().collect::<Vec<char>>());
    assert_eq!(kind.iter().collect::<String>(), "spawn-sh");
    assert!(cmd.is_empty() && args.is_empty());
}
