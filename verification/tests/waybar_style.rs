use churros::backend::waybar_style::{
    accent_hex, css_color, parse_define_colors, patch_first_decl, patch_style_text, sanitize_selectors,
    should_replace_style, splice_background_alpha,
};

#[test]
fn css_color_strips_alpha_hex() {
    assert_eq!(css_color("#2a1612cc"), "#2a1612");
    assert_eq!(css_color("#DE8636"), "#DE8636");
    assert_eq!(css_color("  #c9c4c3; "), "#c9c4c3");
    assert_eq!(css_color("rgba(0,0,0,0.5)"), "rgba(0,0,0,0.5)");
}

#[test]
fn sanitize_fixes_custom_slash_selectors() {
    let raw = "#custom/sep { color: red; }\n#custom-power { color: blue; }\n";
    let out = sanitize_selectors(raw);
    assert!(out.contains("#custom-sep"));
    assert!(!out.contains("#custom/"));
    assert!(out.contains("#custom-power"));
}

#[test]
fn should_replace_generated_css() {
    assert!(should_replace_style(""));
    assert!(should_replace_style("/* ChurrOS Waybar — Liquid Glass   (auto-generated) */\n"));
    assert!(should_replace_style("#custom/sep { }\n"));
    assert!(!should_replace_style("* { font-size: 12px; }\n"));
}

#[test]
fn accent_falls_back_to_color4() {
    let colors = parse_define_colors("@define-color background #111111;\n@define-color color4 #DE8636;\n");
    assert_eq!(accent_hex(&colors).as_deref(), Some("#DE8636"));
    assert!(colors.get("accent").is_none());
}

#[test]
fn define_colors_parse_rules() {
    let colors = parse_define_colors(
        "/* comment */\n@import \"x.css\";\n@define-color @accent  #123456 ;\n@define-color lonely\n@define-color accent #abcdef;\n",
    );
    assert_eq!(colors.pairs.len(), 2);
    assert_eq!(colors.get("accent").as_deref(), Some("#abcdef"));
    assert_eq!(accent_hex(&colors).as_deref(), Some("#abcdef"));
}

#[test]
fn patch_decl_and_alpha() {
    let css = "* {\n    font-family: 'A';\n    font-size: 12px;\n    background: alpha(@background, 0.8);\n}\n#rec { font-size: 10px; }\n";
    let out = patch_first_decl(css, "font-size", "16px");
    assert!(out.contains("    font-size: 16px;"));
    assert!(out.contains("font-size: 10px"));
    assert!(out.ends_with('\n'));
    assert_eq!(patch_first_decl("a: 1", "b", "2"), "a: 1");
    assert_eq!(splice_background_alpha("x alpha(@background,0.8) y", "0.50"), "x alpha(@background, 0.50) y");
    assert_eq!(splice_background_alpha("none", "0.50"), "none");
    let styled = patch_style_text(css, "Inter", 16, "0.50");
    assert!(styled.contains("font-family: 'Inter';"));
    assert!(styled.contains("font-size: 16px;"));
    assert!(styled.contains("alpha(@background, 0.50)"));
    assert!(styled.contains("font-size: 10px"));
}

#[test]
fn patch_style_keeps_skel_rules() {
    let original = "/* ChurrOS Waybar */\n* {\n    font-family: 'JetBrainsMono Nerd Font';\n    font-size: 13px;\n}\nwindow#waybar {\n    background: alpha(@background, 0.85);\n}\n#workspaces button { padding: 0 6px; }\n#custom/power { color: @color1; }\n#mpris { color: @foreground; }\n#custom/recording { font-size: 10px; }\n";
    let patched = patch_style_text(original, "Inter", 16, "0.50");
    assert!(patched.contains("#workspaces"), "se perdió #workspaces");
    assert!(patched.contains("#custom-power"), "se perdió #custom-power");
    assert!(patched.contains("#mpris"), "se perdió #mpris");
    assert!(patched.contains("font-family: 'Inter';"));
    assert!(patched.contains("font-size: 16px;"));
    assert!(patched.contains("alpha(@background, 0.50)"));
    assert!(patched.contains("font-size: 10px"), "no debe tocar el font-size del indicador de grabación");
    assert!(!patched.contains("#custom/"));
}
