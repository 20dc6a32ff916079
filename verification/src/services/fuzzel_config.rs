//! fuzzel's configuration file (`~/.config/fuzzel/fuzzel.ini`): the
//! `[main]` and `[colors]` sections read and edited line by line. Each function
//! takes the file's text (empty when it cannot be read); the setters return the
//! text to write back, the lines joined by `'\n'`.
use vstd::prelude::*;
use crate::text;
use crate::num;
use crate::services::ini;

verus! {

/// An integer setting read as text with the default's decimal form as the
/// fallback, then parsed; a value that is not an `i64` gives `default`.
pub open spec fn int_setting(ls: Seq<Seq<char>>, key: Seq<char>, default: int) -> int {
    match num::i64_of(ini::spec_get_or(ls, "main"@, key, num::dec(default))) {
        Some(n) => n,
        None => default,
    }
}

/// The launcher's settings.
pub struct FuzzelConfig;

fn read_int(content: &str, key: &str, default: i64) -> (r: i64)
    ensures
        r as int == int_setting(text::lines(content@), key@, default as int),
{
    let ls = text::lines_of(content);
    let s = text::chars_of("main");
    let k = text::chars_of(key);
    let v = match ini::get_key(&ls, &s, &k) {
        Some(v) => v,
        None => num::i64_to_chars(default),
    };
    match num::parse_i64(&v) {
        Some(n) => n,
        None => default,
    }
}

fn set_int(ls: Vec<Vec<char>>, key: &str, value: i64) -> (r: Vec<Vec<char>>)
    ensures
        text::views(r@) == ini::spec_set_key(text::views(ls@), "main"@, key@, num::dec(value as int)),
{
    let s = text::chars_of("main");
    let k = text::chars_of(key);
    let v = num::i64_to_chars(value);
    ini::set_key(ls, &s, &k, &v)
}

impl FuzzelConfig {
    pub fn get_font(content: &str) -> (r: String)
        ensures
            r@ == ini::spec_get_or(text::lines(content@), "main"@, "font"@, "JetBrainsMono Nerd Font:size=13"@),
    {
        ini::value_or(content, "main", "font", "JetBrainsMono Nerd Font:size=13")
    }

    pub fn get_icon_theme(content: &str) -> (r: String)
        ensures
            r@ == ini::spec_get_or(text::lines(content@), "main"@, "icon-theme"@, ""@),
    {
        ini::value_or(content, "main", "icon-theme", "")
    }

    pub fn get_width(content: &str) -> (r: i64)
        ensures
            r as int == int_setting(text::lines(content@), "width"@, 48),
    {
        read_int(content, "width", 48)
    }

    pub fn get_lines(content: &str) -> (r: i64)
        ensures
            r as int == int_setting(text::lines(content@), "lines"@, 12),
    {
        read_int(content, "lines", 12)
    }

    pub fn get_horizontal_pad(content: &str) -> (r: i64)
        ensures
            r as int == int_setting(text::lines(content@), "horizontal-pad"@, 36),
    {
        read_int(content, "horizontal-pad", 36)
    }

    pub fn get_vertical_pad(content: &str) -> (r: i64)
        ensures
            r as int == int_setting(text::lines(content@), "vertical-pad"@, 14),
    {
        read_int(content, "vertical-pad", 14)
    }

    pub fn get_inner_pad(content: &str) -> (r: i64)
        ensures
            r as int == int_setting(text::lines(content@), "inner-pad"@, 4),
    {
        read_int(content, "inner-pad", 4)
    }

    pub fn get_line_height(content: &str) -> (r: i64)
        ensures
            r as int == int_setting(text::lines(content@), "line-height"@, 24),
    {
        read_int(content, "line-height", 24)
    }

    pub fn get_letter_spacing(content: &str) -> (r: i64)
        ensures
            r as int == int_setting(text::lines(content@), "letter-spacing"@, 1),
    {
        read_int(content, "letter-spacing", 1)
    }

    /// The file with `font=` set.
    pub fn set_font(content: &str, font: &str) -> (r: String)
        ensures
            r@ == text::join(ini::spec_set_key(text::lines(content@), "main"@, "font"@, font@), text::nl()),
    {
        let ls = ini::assign(text::lines_of(content), "main", "font", font);
        text::join_lines(&ls)
    }

    /// The file with `icon-theme=` set.
    pub fn set_icon_theme(content: &str, theme: &str) -> (r: String)
        ensures
            r@ == text::join(ini::spec_set_key(text::lines(content@), "main"@, "icon-theme"@, theme@), text::nl()),
    {
        let ls = ini::assign(text::lines_of(content), "main", "icon-theme", theme);
        text::join_lines(&ls)
    }

    /// The file with the seven layout settings set, in this order.
    pub fn set_layout(
        content: &str,
        width: i64,
        lines_count: i64,
        h_pad: i64,
        v_pad: i64,
        inner_pad: i64,
        line_height: i64,
        letter_spacing: i64,
    ) -> (r: String)
        ensures
            r@ == text::join(
                ini::spec_set_key(ini::spec_set_key(ini::spec_set_key(ini::spec_set_key(
                ini::spec_set_key(ini::spec_set_key(ini::spec_set_key(text::lines(content@),
                    "main"@, "width"@, num::dec(width as int)),
                    "main"@, "lines"@, num::dec(lines_count as int)),
                    "main"@, "horizontal-pad"@, num::dec(h_pad as int)),
                    "main"@, "vertical-pad"@, num::dec(v_pad as int)),
                    "main"@, "inner-pad"@, num::dec(inner_pad as int)),
                    "main"@, "line-height"@, num::dec(line_height as int)),
                    "main"@, "letter-spacing"@, num::dec(letter_spacing as int)),
                text::nl(),
            ),
    {
        let ls = text::lines_of(content);
        let ls = set_int(ls, "width", width);
        let ls = set_int(ls, "lines", lines_count);
        let ls = set_int(ls, "horizontal-pad", h_pad);
        let ls = set_int(ls, "vertical-pad", v_pad);
        let ls = set_int(ls, "inner-pad", inner_pad);
        let ls = set_int(ls, "line-height", line_height);
        let ls = set_int(ls, "letter-spacing", letter_spacing);
        text::join_lines(&ls)
    }

    /// The file with `key=hex_color` set in `[colors]`.
    pub fn set_color(content: &str, key: &str, hex_color: &str) -> (r: String)
        ensures
            r@ == text::join(ini::spec_set_key(text::lines(content@), "colors"@, key@, hex_color@), text::nl()),
    {
        let ls = ini::assign(text::lines_of(content), "colors", key, hex_color);
        text::join_lines(&ls)
    }
}

/// The font reads back: after `set_font(content, f)`, `get_font` gives `f`
/// trimmed, for a font without line breaks.
pub proof fn law_font_reads_back(content: Seq<char>, font: Seq<char>)
    requires
        forall|x: int| 0 <= x < font.len() ==> #[trigger] font[x] != '\n',
    ensures
        ini::spec_get_or(
            text::lines(text::join(ini::spec_set_key(text::lines(content), "main"@, "font"@, font), text::nl())),
            "main"@,
            "font"@,
            "JetBrainsMono Nerd Font:size=13"@,
        ) == text::trim(font),
{
    reveal_strlit("main");
    reveal_strlit("font");
    ini::law_text_get_after_set(content, "main"@, "font"@, font);
}

} // verus!
