use churros::services::about::AboutService;
use churros::services::fuzzel_config::FuzzelConfig;
use churros::services::mako_config::MakoConfig;

const MAKO: &str = "font=Inter 10\n[default]\nbackground-color=#111111\nborder-size=3\nmarkup=0\n\n[urgency=high]\nborder-size=9\n";

#[test]
fn mako_getters() {
    assert_eq!(MakoConfig::get_background_color(MAKO), "#111111");
    assert_eq!(MakoConfig::get_font(MAKO), "JetBrainsMono Nerd Font:size=11");
    assert_eq!(MakoConfig::get_text_color(""), "#cdd6f4");
    assert_eq!(MakoConfig::get_border_size(MAKO), 3);
    assert!(!MakoConfig::get_markup(MAKO));
    assert!(MakoConfig::get_actions(MAKO));
}

#[test]
fn mako_setters() {
    let out = MakoConfig::set_font(MAKO, "Fira 12");
    assert!(out.contains("[default]\nfont=Fira 12") || out.contains("font=Fira 12"));
    assert_eq!(MakoConfig::get_font(&out), "Fira 12");
    let c = MakoConfig::set_color(MAKO, "background-color", "#222222");
    assert_eq!(MakoConfig::get_background_color(&c), "#222222");
    assert_eq!(MakoConfig::get_border_size(&c), 3);
    let fresh = MakoConfig::set_anchor("", "top-left");
    assert_eq!(MakoConfig::get_anchor(&fresh), "top-left");
}

#[test]
fn fuzzel_getters_and_setters() {
    let cfg = "[main]\nfont=Inter:size=12\nwidth=40\n[colors]\nbackground=1e1e2eff\n";
    assert_eq!(FuzzelConfig::get_font(cfg), "Inter:size=12");
    assert_eq!(FuzzelConfig::get_width(cfg), 40);
    let out = FuzzelConfig::set_font(cfg, "Fira:size=10");
    assert_eq!(FuzzelConfig::get_font(&out), "Fira:size=10");
    assert_eq!(FuzzelConfig::get_width(&out), 40);
}

#[test]
fn about_facts() {
    assert_eq!(AboutService::distro(), "ChurrOS");
    assert_eq!(AboutService::base(), "Arch Linux");
    assert_eq!(AboutService::license(), "GPL-3.0");
}

#[test]
fn fuzzel_font_reads_back() {
    for cfg in ["", "[colors]\nbackground=000000ff\n", "[main]\nfont=Old\nwidth=30\n\n"] {
        let out = FuzzelConfig::set_font(cfg, "  Inter:size=12 ");
        assert_eq!(FuzzelConfig::get_font(&out), "Inter:size=12");
    }
}

#[test]
fn mako_markup_reads_back() {
    let cfg = "[default]\nfont=Inter 11\nmarkup=1\n\n[urgency=high]\nborder-color=#ff0000\n";
    for b in [true, false] {
        let out = MakoConfig::set_behaviors(cfg, Some(b), Some(true), None, Some(false), Some(48));
        assert_eq!(MakoConfig::get_markup(&out), b);
    }
}

#[test]
fn mako_markup_reads_back_without_section() {
    for cfg in ["", "font=Inter 11\n", "[urgency=low]\nbackground-color=#000000\n"] {
        for b in [true, false] {
            let out = MakoConfig::set_behaviors(cfg, Some(b), Some(false), Some(true), None, Some(64));
            assert_eq!(MakoConfig::get_markup(&out), b, "{out:?}");
        }
    }
}
