//! The cursor page: theme and size in the desktop settings, GTK's
//! `settings.ini`, the running session and the compositor's `cursor { … }`
//! block.
use vstd::prelude::*;
use crate::text;
use crate::num;
use crate::services::settings::{self, Json, JsonV};
use crate::services::gtk_settings::{self, ini_value_from};

verus! {

// ---------------------------------------------------------------- the cursor block

/// The end of the spaces and tabs that start at `i`.
pub open spec fn blank_end(s: Seq<char>, i: int) -> int
    decreases s.len() - i,
{
    if i < 0 || i >= s.len() || !(s[i] == ' ' || s[i] == '\t') {
        i
    } else {
        blank_end(s, i + 1)
    }
}

/// The end of the ASCII digits that start at `i`.
pub open spec fn digits_end(s: Seq<char>, i: int) -> int
    decreases s.len() - i,
{
    if i < 0 || i >= s.len() || !num::digit(s[i]) {
        i
    } else {
        digits_end(s, i + 1)
    }
}

pub open spec fn token() -> Seq<char> {
    "xcursor-size"@
}

/// The end of `xcursor-size`, the blanks and the digits after it, for the
/// token at `p`.
pub open spec fn token_end(s: Seq<char>, p: int) -> int {
    digits_end(s, blank_end(s, p + 12))
}

/// The setting line's text for a size.
pub open spec fn size_setting(size: int) -> Seq<char> {
    "xcursor-size "@ + num::dec(size)
}

/// Every `xcursor-size` from `from` on, with its blanks and digits,
/// replaced by `rep`.
pub open spec fn replace_tokens(s: Seq<char>, from: int, rep: Seq<char>) -> Seq<char>
    decreases s.len() + 1 - from,
{
    if from < 0 || from > s.len() {
        seq![]
    } else {
        match text::find_from(s, token(), from) {
            Some(p) => if from <= p && from < token_end(s, p) <= s.len() {
                s.subrange(from, p) + rep + replace_tokens(s, token_end(s, p), rep)
            } else {
                seq![]
            },
            None => s.subrange(from, s.len() as int),
        }
    }
}

/// The inside of a `cursor { … }` block with the size set: the first
/// `xcursor-size N` rewritten; when the first one has no number, every
/// `xcursor-size` rewritten; when there is none, a line added at the end.
pub open spec fn spec_rewrite_cursor_block(block: Seq<char>, size: int) -> Seq<char> {
    let rep = size_setting(size);
    match text::find(block, token()) {
        Some(p) => {
            let b = blank_end(block, p + 12);
            if digits_end(block, b) > b {
                block.take(p) + rep + block.skip(digits_end(block, b))
            } else {
                replace_tokens(block, 0, rep)
            }
        },
        None => block + "    "@ + rep + "\n"@,
    }
}

/// The first `cursor {` block from `from` on: `cursor` at the start of a
/// line, white space, `{`, and the first `}` after it; the indices of
/// `cursor`, of `{` and of `}`.
pub open spec fn cursor_block_from(c: Seq<char>, from: int) -> Option<(int, int, int)>
    decreases c.len() + 1 - from,
{
    if from < 0 {
        None
    } else {
        match text::find_from(c, "cursor"@, from) {
            None => None,
            Some(abs) => if abs < from || abs + 6 > c.len() {
                None
            } else {
                let after = c.skip(abs + 6);
                let t = text::trim_start(after);
                if (abs == 0 || c[abs - 1] == '\n') && t.len() > 0 && t[0] == '{' {
                    let bo = abs + 6 + (after.len() - t.len());
                    match text::find_from(c, seq!['}'], bo + 1) {
                        Some(close) => Some((abs, bo, close)),
                        None => cursor_block_from(c, abs + 6),
                    }
                } else {
                    cursor_block_from(c, abs + 6)
                }
            },
        }
    }
}

/// `config.kdl` with the cursor size set: the first `cursor { … }` block
/// rewritten (what comes before the line of that block is not kept), or a
/// block added at the end.
pub open spec fn spec_niri_cursor(content: Seq<char>, size: int) -> Seq<char> {
    match cursor_block_from(content, 0) {
        Some((abs, bo, close)) => content.subrange(abs, bo + 1) + spec_rewrite_cursor_block(
            content.subrange(bo + 1, close),
            size,
        ) + content.skip(close),
        None => {
            let c = if content.len() > 0 && content.last() == '\n' { content } else { content.push('\n') };
            c + "cursor {\n    "@ + size_setting(size) + "\n}\n"@
        },
    }
}

fn blank_end_of(s: &Vec<char>, i: usize) -> (r: usize)
    requires
        i <= s.len(),
    ensures
        r as int == blank_end(s@, i as int),
        i <= r <= s.len(),
{
    let mut j: usize = i;
    while j < s.len() && (s[j] == ' ' || s[j] == '\t')
        invariant
            i <= j <= s.len(),
            blank_end(s@, i as int) == blank_end(s@, j as int),
        decreases s.len() - j,
    {
        j += 1;
    }
    j
}

fn digits_end_of(s: &Vec<char>, i: usize) -> (r: usize)
    requires
        i <= s.len(),
    ensures
        r as int == digits_end(s@, i as int),
        i <= r <= s.len(),
{
    let mut j: usize = i;
    while j < s.len() && num::is_digit(s[j])
        invariant
            i <= j <= s.len(),
            digits_end(s@, i as int) == digits_end(s@, j as int),
        decreases s.len() - j,
    {
        j += 1;
    }
    j
}

fn setting_of(size: i64) -> (r: Vec<char>)
    ensures
        r@ == size_setting(size as int),
{
    let mut v = text::lit("xcursor-size ");
    text::append(&mut v, &num::i64_to_chars(size));
    v
}

fn rewrite_block(block: &Vec<char>, size: i64) -> (r: Vec<char>)
    ensures
        r@ == spec_rewrite_cursor_block(block@, size as int),
{
    let tok = text::lit("xcursor-size");
    proof {
        reveal_strlit("xcursor-size");
    }
    assert(tok@.len() == 12);
    let rep = setting_of(size);
    match text::search(block, &tok) {
        Some(p) => {
            proof {
                text::lemma_find_from_occurs(block@, tok@, 0);
            }
            assert(p + 12 <= block.len());
            let b = blank_end_of(block, p + 12);
            let d = digits_end_of(block, b);
            if d > b {
                let mut out = text::slice(block, 0, p);
                text::append(&mut out, &rep);
                text::append(&mut out, &text::slice(block, d, block.len()));
                assert(out@ =~= block@.take(p as int) + rep@ + block@.skip(d as int));
                out
            } else {
                let mut out: Vec<char> = Vec::new();
                let mut from: usize = 0;
                assert(out@ + replace_tokens(block@, 0, rep@) =~= replace_tokens(block@, 0, rep@));
                loop
                    invariant
                        from <= block.len(),
                        tok@ == token(),
                        tok@.len() == 12,
                        rep@ == size_setting(size as int),
                        text::find(block@, token()) == Some(p as int),
                        p + 12 <= block.len(),
                        digits_end(block@, blank_end(block@, p + 12)) <= blank_end(block@, p + 12),
                        out@ + replace_tokens(block@, from as int, rep@) == replace_tokens(block@, 0, rep@),
                    decreases block.len() + 1 - from,
                {
                    match text::search_from(block, &tok, from) {
                        Some(q) => {
                            proof {
                                text::lemma_find_from_occurs(block@, tok@, from as int);
                            }
                            let b2 = blank_end_of(block, q + 12);
                            let e = digits_end_of(block, b2);
                            let ghost o0 = out@;
                            text::append(&mut out, &text::slice(block, from, q));
                            text::append(&mut out, &rep);
                            assert(out@ =~= o0 + block@.subrange(from as int, q as int) + rep@);
                            assert(o0 + (block@.subrange(from as int, q as int) + rep@ + replace_tokens(block@, e as int, rep@))
                                =~= out@ + replace_tokens(block@, e as int, rep@));
                            from = e;
                        },
                        None => {
                            let ghost o0 = out@;
                            text::append(&mut out, &text::slice(block, from, block.len()));
                            assert(out@ == o0 + replace_tokens(block@, from as int, rep@));
                            return out;
                        },
                    }
                }
            }
        },
        None => {
            let mut out = text::slice(block, 0, block.len());
            text::append(&mut out, &text::lit("    "));
            text::append(&mut out, &rep);
            out.push('\n');
            proof {
                reveal_strlit("\n");
            }
            assert(out@ =~= block@ + "    "@ + rep@ + "\n"@);
            out
        },
    }
}

fn find_cursor_block(c: &Vec<char>) -> (r: Option<(usize, usize, usize)>)
    ensures
        match r {
            Some((a, b, e)) => cursor_block_from(c@, 0) == Some((a as int, b as int, e as int)) && a <= b < e < c.len(),
            None => cursor_block_from(c@, 0) is None,
        },
{
    let word = text::lit("cursor");
    proof {
        reveal_strlit("cursor");
    }
    assert(word@.len() == 6);
    let mut close_lit: Vec<char> = Vec::new();
    close_lit.push('}');
    let mut from: usize = 0;
    loop
        invariant
            from <= c.len() + 1,
            word@ == "cursor"@,
            word@.len() == 6,
            close_lit@ == seq!['}'],
            cursor_block_from(c@, 0) == cursor_block_from(c@, from as int),
        decreases c.len() + 1 - from,
    {
        if from > c.len() {
            return None;
        }
        match text::search_from(c, &word, from) {
            None => {
                return None;
            },
            Some(abs) => {
                proof {
                    text::lemma_find_from_occurs(c@, word@, from as int);
                }
                let at_start = abs == 0 || c[abs - 1] == '\n';
                let after = text::slice(c, abs + 6, c.len());
                assert(after@ =~= c@.skip(abs + 6));
                let t = text::trimmed_start(&after);
                if at_start && t.len() > 0 && t[0] == '{' {
                    proof {
                        text::lemma_trim_start_len(after@);
                    }
                    let bo = abs + 6 + (after.len() - t.len());
                    match text::search_from(c, &close_lit, bo + 1) {
                        Some(close) => {
                            proof {
                                text::lemma_find_from_occurs(c@, close_lit@, bo + 1);
                            }
                            return Some((abs, bo, close));
                        },
                        None => {},
                    }
                }
                from = abs + 6;
            },
        }
    }
}

// ---------------------------------------------------------------- the service

/// The theme: the desktop settings' `key` when set, else the value of the
/// GTK 3 `settings.ini` line that sets `prefix` (when the file is there),
/// else `fallback`.
pub open spec fn spec_current(data: JsonV, ini: Option<Seq<char>>, key: Seq<char>, prefix: Seq<char>, fallback: Seq<char>) -> Seq<char> {
    let cached = settings::spec_get_string(data, key, seq![]);
    if cached.len() > 0 {
        cached
    } else {
        match ini {
            Some(c) => match ini_value_from(text::lines(c), 0, prefix) {
                Some(v) => v,
                None => fallback,
            },
            None => fallback,
        }
    }
}

/// The theme of the settings and `settings.ini`.
pub fn current_theme(data: &Json, ini: Option<&str>, key: &str, prefix: &str, fallback: &str) -> (r: String)
    ensures
        r@ == spec_current(data@, text::opt_view(ini), key@, prefix@, fallback@),
{
    proof {
        reveal_strlit("");
        assert(""@ =~= Seq::<char>::empty());
    }
    let cached = settings::get_string(data, key, "");
    if text::chars_of(cached.as_str()).len() > 0 {
        return cached;
    }
    match ini {
        Some(c) => match gtk_settings::ini_value(c, prefix) {
            Some(v) => v,
            None => fallback.to_string(),
        },
        None => fallback.to_string(),
    }
}

/// The commands that show a theme in the running session: gnome-shell
/// told to reload, and the two GNOME settings.
pub open spec fn spec_live_commands(theme: Seq<char>, size: int) -> Seq<Seq<Seq<char>>> {
    seq![
        seq!["sh"@, "-c"@, "for pid in $(pgrep -x gnome-shell); do kill -USR1 $pid 2>/dev/null; done; exit 0"@],
        seq!["gsettings"@, "set"@, "org.gnome.desktop.interface"@, "cursor-theme"@, theme],
        seq!["gsettings"@, "set"@, "org.gnome.desktop.interface"@, "cursor-size"@, num::dec(size)],
    ]
}

pub open spec fn command_views(v: Seq<Vec<String>>) -> Seq<Seq<Seq<char>>> {
    v.map_values(|c: Vec<String>| text::string_views(c@))
}

pub open spec fn pair_views(v: Seq<(String, String)>) -> Seq<(Seq<char>, Seq<char>)> {
    v.map_values(|p: (String, String)| (p.0@, p.1@))
}

fn live_commands(theme: &str, size: i64) -> (r: Vec<Vec<String>>)
    ensures
        command_views(r@) == spec_live_commands(theme@, size as int),
{
    let a = text::strings_of(&["sh", "-c", "for pid in $(pgrep -x gnome-shell); do kill -USR1 $pid 2>/dev/null; done; exit 0"]);
    let b = text::strings_of(&["gsettings", "set", "org.gnome.desktop.interface", "cursor-theme", theme]);
    let n = text::string_of(&num::i64_to_chars(size));
    let ns = n.as_str();
    let c = text::strings_of(&["gsettings", "set", "org.gnome.desktop.interface", "cursor-size", ns]);
    assert(["sh", "-c", "for pid in $(pgrep -x gnome-shell); do kill -USR1 $pid 2>/dev/null; done; exit 0"]@.map_values(
        |s: &str| s@,
    ) =~= seq!["sh"@, "-c"@, "for pid in $(pgrep -x gnome-shell); do kill -USR1 $pid 2>/dev/null; done; exit 0"@]);
    assert(["gsettings", "set", "org.gnome.desktop.interface", "cursor-theme", theme]@.map_values(|s: &str| s@)
        =~= seq!["gsettings"@, "set"@, "org.gnome.desktop.interface"@, "cursor-theme"@, theme@]);
    assert(["gsettings", "set", "org.gnome.desktop.interface", "cursor-size", ns]@.map_values(|s: &str| s@)
        =~= seq!["gsettings"@, "set"@, "org.gnome.desktop.interface"@, "cursor-size"@, num::dec(size as int)]);
    let mut r: Vec<Vec<String>> = Vec::new();
    r.push(a);
    r.push(b);
    r.push(c);
    assert(command_views(r@) =~= spec_live_commands(theme@, size as int));
    r
}

/// What the page changes: the new settings, the `settings.ini` keys to
/// write in both GTK versions, and the commands to run.
pub type Changes = (Json, Vec<(String, String)>, Vec<Vec<String>>);

/// The cursor page's services.
pub struct CursorService;

impl CursorService {
    /// Where cursor themes are looked for.
    pub fn cursor_dirs(home: &str) -> (r: Vec<String>)
        ensures
            text::string_views(r@) == gtk_settings::theme_dirs(home@),
    {
        gtk_settings::theme_dirs_of(home)
    }

    /// The theme: `cursor.theme` of the settings, else the GTK 3
    /// `settings.ini` (its text, when the file is there), else `default`.
    pub fn current(data: &Json, ini: Option<&str>) -> (r: String)
        ensures
            r@ == spec_current(data@, text::opt_view(ini), "cursor.theme"@, "gtk-cursor-theme-name="@, "default"@),
    {
        current_theme(data, ini, "cursor.theme", "gtk-cursor-theme-name=", "default")
    }

    /// Sets the theme: the settings, `settings.ini` (theme and size) and
    /// the session; `size` is the cursor size in whole pixels.
    pub fn set(data: Json, theme: &str, size: i64) -> (r: Changes)
        ensures
            r.0@ == settings::spec_set(data@, "cursor.theme"@, JsonV::Str(theme@)),
            pair_views(r.1@) == seq![("gtk-cursor-theme-name"@, theme@), ("gtk-cursor-theme-size"@, num::dec(size as int))],
            command_views(r.2@) == spec_live_commands(theme@, size as int),
    {
        let d = settings::set(data, "cursor.theme", Json::Str(theme.to_string()));
        let mut ini: Vec<(String, String)> = Vec::new();
        ini.push(("gtk-cursor-theme-name".to_string(), theme.to_string()));
        ini.push(("gtk-cursor-theme-size".to_string(), text::string_of(&num::i64_to_chars(size))));
        assert(pair_views(ini@) =~= seq![("gtk-cursor-theme-name"@, theme@), ("gtk-cursor-theme-size"@, num::dec(size as int))]);
        (d, ini, live_commands(theme, size))
    }

    /// The themes found (the names of the theme directories that hold a
    /// `cursors` directory), sorted, each once.
    pub fn available(names: &Vec<String>) -> (r: Vec<String>)
        ensures
            text::strictly_sorted(text::string_views(r@)),
            text::string_views(r@).to_set() == text::string_views(names@).to_set(),
    {
        text::sorted_unique(names)
    }

    /// The text of `cursor.size` in the settings when it is a number, else
    /// `24`.
    pub fn size(data: &Json) -> (r: String)
        ensures
            r@ == match settings::spec_get(data@, "cursor.size"@, JsonV::Num("24"@)) {
                JsonV::Num(t) => t,
                _ => "24"@,
            },
    {
        let v = settings::get(settings::copy_json(data), "cursor.size", Json::Number("24".to_string()));
        match v {
            Json::Number(t) => t,
            _ => "24".to_string(),
        }
    }

    /// Sets the size (whole pixels) with the theme `theme`: the settings,
    /// `settings.ini` and the session. The compositor's configuration is
    /// `set_niri_cursor_size`.
    pub fn set_size(data: Json, theme: &str, size: i64) -> (r: Changes)
        ensures
            r.0@ == settings::spec_set(data@, "cursor.size"@, JsonV::Num(num::dec(size as int))),
            pair_views(r.1@) == seq![("gtk-cursor-theme-size"@, num::dec(size as int))],
            command_views(r.2@) == spec_live_commands(theme@, size as int),
    {
        let n = text::string_of(&num::i64_to_chars(size));
        let d = settings::set(data, "cursor.size", Json::Number(n));
        let mut ini: Vec<(String, String)> = Vec::new();
        ini.push(("gtk-cursor-theme-size".to_string(), text::string_of(&num::i64_to_chars(size))));
        assert(pair_views(ini@) =~= seq![("gtk-cursor-theme-size"@, num::dec(size as int))]);
        (d, ini, live_commands(theme, size))
    }

    /// The inside of a `cursor { … }` block with the size set.
    pub fn rewrite_cursor_block(block: &str, size: i64) -> (r: String)
        ensures
            r@ == spec_rewrite_cursor_block(block@, size as int),
    {
        text::string_of(&rewrite_block(&text::chars_of(block), size))
    }

    /// `config.kdl` (its text) with the cursor size set.
    pub fn set_niri_cursor_size(content: &str, size: i64) -> (r: String)
        ensures
            r@ == spec_niri_cursor(content@, size as int),
    {
        let c = text::chars_of(content);
        match find_cursor_block(&c) {
            Some((abs, bo, close)) => {
                let mut out = text::slice(&c, abs, bo + 1);
                let inner = text::slice(&c, bo + 1, close);
                text::append(&mut out, &rewrite_block(&inner, size));
                text::append(&mut out, &text::slice(&c, close, c.len()));
                assert(out@ =~= c@.subrange(abs as int, bo + 1) + spec_rewrite_cursor_block(
                    c@.subrange(bo + 1, close as int),
                    size as int,
                ) + c@.skip(close as int));
                text::string_of(&out)
            },
            None => {
                let mut out = text::slice(&c, 0, c.len());
                if !(c.len() > 0 && c[c.len() - 1] == '\n') {
                    out.push('\n');
                }
                let ghost o0 = out@;
                text::append(&mut out, &text::lit("cursor {\n    "));
                text::append(&mut out, &setting_of(size));
                text::append(&mut out, &text::lit("\n}\n"));
                assert(o0 =~= (if c@.len() > 0 && c@.last() == '\n' { c@ } else { c@.push('\n') }));
                assert(out@ =~= o0 + "cursor {\n    "@ + size_setting(size as int) + "\n}\n"@);
                text::string_of(&out)
            },
        }
    }
}

} // verus!
