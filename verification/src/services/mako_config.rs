//! mako's configuration file (`~/.config/mako/config`): the `[default]`
//! section read and edited line by line. Each function takes the file's text
//! (empty when the file cannot be read) and the setters return the text to
//! write back, the lines joined by `'\n'`.
use vstd::prelude::*;
use crate::text;
use crate::services::ini;
use crate::num;

verus! {

/// The notification daemon's settings.
pub struct MakoConfig;

impl MakoConfig {
    pub fn get_font(content: &str) -> (r: String)
        ensures
            r@ == ini::spec_get_or(text::lines(content@), "default"@, "font"@, "JetBrainsMono Nerd Font:size=11"@),
    {
        ini::value_or(content, "default", "font", "JetBrainsMono Nerd Font:size=11")
    }

    pub fn get_background_color(content: &str) -> (r: String)
        ensures
            r@ == ini::spec_get_or(text::lines(content@), "default"@, "background-color"@, "#1e1e2e"@),
    {
        ini::value_or(content, "default", "background-color", "#1e1e2e")
    }

    pub fn get_text_color(content: &str) -> (r: String)
        ensures
            r@ == ini::spec_get_or(text::lines(content@), "default"@, "text-color"@, "#cdd6f4"@),
    {
        ini::value_or(content, "default", "text-color", "#cdd6f4")
    }

    pub fn get_border_color(content: &str) -> (r: String)
        ensures
            r@ == ini::spec_get_or(text::lines(content@), "default"@, "border-color"@, "#f97316"@),
    {
        ini::value_or(content, "default", "border-color", "#f97316")
    }

    pub fn get_border_size(content: &str) -> (r: i64)
        ensures
            r as int == ini::spec_get_int(text::lines(content@), "default"@, "border-size"@, 2),
    {
        ini::int_or(content, "default", "border-size", 2)
    }

    pub fn get_border_radius(content: &str) -> (r: i64)
        ensures
            r as int == ini::spec_get_int(text::lines(content@), "default"@, "border-radius"@, 8),
    {
        ini::int_or(content, "default", "border-radius", 8)
    }

    pub fn get_padding(content: &str) -> (r: String)
        ensures
            r@ == ini::spec_get_or(text::lines(content@), "default"@, "padding"@, "12,16"@),
    {
        ini::value_or(content, "default", "padding", "12,16")
    }

    pub fn get_margin(content: &str) -> (r: i64)
        ensures
            r as int == ini::spec_get_int(text::lines(content@), "default"@, "margin"@, 8),
    {
        ini::int_or(content, "default", "margin", 8)
    }

    pub fn get_default_timeout(content: &str) -> (r: i64)
        ensures
            r as int == ini::spec_get_int(text::lines(content@), "default"@, "default-timeout"@, 5000),
    {
        ini::int_or(content, "default", "default-timeout", 5000)
    }

    pub fn get_width(content: &str) -> (r: i64)
        ensures
            r as int == ini::spec_get_int(text::lines(content@), "default"@, "width"@, 380),
    {
        ini::int_or(content, "default", "width", 380)
    }

    pub fn get_anchor(content: &str) -> (r: String)
        ensures
            r@ == ini::spec_get_or(text::lines(content@), "default"@, "anchor"@, "top-right"@),
    {
        ini::value_or(content, "default", "anchor", "top-right")
    }

    pub fn get_markup(content: &str) -> (r: bool)
        ensures
            r == ini::spec_get_bool(text::lines(content@), "default"@, "markup"@, true),
    {
        ini::bool_or(content, "default", "markup", true)
    }

    pub fn get_actions(content: &str) -> (r: bool)
        ensures
            r == ini::spec_get_bool(text::lines(content@), "default"@, "actions"@, true),
    {
        ini::bool_or(content, "default", "actions", true)
    }

    pub fn get_icons(content: &str) -> (r: bool)
        ensures
            r == ini::spec_get_bool(text::lines(content@), "default"@, "icons"@, true),
    {
        ini::bool_or(content, "default", "icons", true)
    }

    pub fn get_history(content: &str) -> (r: bool)
        ensures
            r == ini::spec_get_bool(text::lines(content@), "default"@, "history"@, true),
    {
        ini::bool_or(content, "default", "history", true)
    }

    pub fn get_max_icon_size(content: &str) -> (r: i64)
        ensures
            r as int == ini::spec_get_int(text::lines(content@), "default"@, "max-icon-size"@, 48),
    {
        ini::int_or(content, "default", "max-icon-size", 48)
    }

    /// The file with `font=` set.
    pub fn set_font(content: &str, font: &str) -> (r: String)
        ensures
            r@ == text::join(ini::spec_set_key(text::lines(content@), "default"@, "font"@, font@), text::nl()),
    {
        let ls = ini::assign(text::lines_of(content), "default", "font", font);
        text::join_lines(&ls)
    }

    /// The file with each given appearance setting set, in this order.
    pub fn set_appearance(
        content: &str,
        background_color: Option<&str>,
        text_color: Option<&str>,
        border_color: Option<&str>,
        border_size: Option<i64>,
        border_radius: Option<i64>,
    ) -> (r: String)
        ensures
            r@ == text::join(
                ini::set_opt(ini::set_opt(ini::set_opt(ini::set_opt(ini::set_opt(
                    text::lines(content@), "default"@, "background-color"@, text::opt_view(background_color)),
                    "default"@, "text-color"@, text::opt_view(text_color)),
                    "default"@, "border-color"@, text::opt_view(border_color)),
                    "default"@, "border-size"@, ini::opt_dec(border_size)),
                    "default"@, "border-radius"@, ini::opt_dec(border_radius)),
                text::nl(),
            ),
    {
        let ls = text::lines_of(content);
        let ls = ini::assign_opt(ls, "default", "background-color", background_color);
        let ls = ini::assign_opt(ls, "default", "text-color", text_color);
        let ls = ini::assign_opt(ls, "default", "border-color", border_color);
        let ls = ini::assign_opt_int(ls, "default", "border-size", border_size);
        let ls = ini::assign_opt_int(ls, "default", "border-radius", border_radius);
        text::join_lines(&ls)
    }

    /// The file with each given layout setting set, in this order.
    pub fn set_layout(
        content: &str,
        padding: Option<&str>,
        margin: Option<i64>,
        default_timeout: Option<i64>,
        width: Option<i64>,
    ) -> (r: String)
        ensures
            r@ == text::join(
                ini::set_opt(ini::set_opt(ini::set_opt(ini::set_opt(
                    text::lines(content@), "default"@, "padding"@, text::opt_view(padding)),
                    "default"@, "margin"@, ini::opt_dec(margin)),
                    "default"@, "default-timeout"@, ini::opt_dec(default_timeout)),
                    "default"@, "width"@, ini::opt_dec(width)),
                text::nl(),
            ),
    {
        let ls = text::lines_of(content);
        let ls = ini::assign_opt(ls, "default", "padding", padding);
        let ls = ini::assign_opt_int(ls, "default", "margin", margin);
        let ls = ini::assign_opt_int(ls, "default", "default-timeout", default_timeout);
        let ls = ini::assign_opt_int(ls, "default", "width", width);
        text::join_lines(&ls)
    }

    /// The file with `anchor=` set.
    pub fn set_anchor(content: &str, anchor: &str) -> (r: String)
        ensures
            r@ == text::join(ini::spec_set_key(text::lines(content@), "default"@, "anchor"@, anchor@), text::nl()),
    {
        let ls = ini::assign(text::lines_of(content), "default", "anchor", anchor);
        text::join_lines(&ls)
    }

    /// The file with each given behaviour set, in this order.
    pub fn set_behaviors(
        content: &str,
        markup: Option<bool>,
        actions: Option<bool>,
        icons: Option<bool>,
        history: Option<bool>,
        max_icon_size: Option<i64>,
    ) -> (r: String)
        ensures
            r@ == text::join(behaviors_lines(text::lines(content@), markup, actions, icons, history, max_icon_size), text::nl()),
    {
        let ls = text::lines_of(content);
        let ls = ini::assign_opt_bool(ls, "default", "markup", markup);
        let ls = ini::assign_opt_bool(ls, "default", "actions", actions);
        let ls = ini::assign_opt_bool(ls, "default", "icons", icons);
        let ls = ini::assign_opt_bool(ls, "default", "history", history);
        let ls = ini::assign_opt_int(ls, "default", "max-icon-size", max_icon_size);
        text::join_lines(&ls)
    }

    /// The file with `key=hex_color` set in `[default]`.
    pub fn set_color(content: &str, key: &str, hex_color: &str) -> (r: String)
        ensures
            r@ == text::join(ini::spec_set_key(text::lines(content@), "default"@, key@, hex_color@), text::nl()),
    {
        let ls = ini::assign(text::lines_of(content), "default", key, hex_color);
        text::join_lines(&ls)
    }
}

/// The lines after `set_behaviors`.
pub open spec fn behaviors_lines(
    ls: Seq<Seq<char>>,
    markup: Option<bool>,
    actions: Option<bool>,
    icons: Option<bool>,
    history: Option<bool>,
    max_icon_size: Option<i64>,
) -> Seq<Seq<char>> {
    ini::set_opt(ini::set_opt(ini::set_opt(ini::set_opt(ini::set_opt(
        ls, "default"@, "markup"@, ini::opt_bool(markup)),
        "default"@, "actions"@, ini::opt_bool(actions)),
        "default"@, "icons"@, ini::opt_bool(icons)),
        "default"@, "history"@, ini::opt_bool(history)),
        "default"@, "max-icon-size"@, ini::opt_dec(max_icon_size))
}

/// Setting another key keeps the section, what `markup` reads, and the
/// lines free of line breaks.
proof fn lemma_other_setting(ls: Seq<Seq<char>>, k: Seq<char>, v: Option<Seq<char>>)
    requires
        ini::spec_find_section(ls, "default"@) is Some,
        ini::plain_key(k),
        k != "markup"@,
        forall|a: int, b: int| 0 <= a < ls.len() && 0 <= b < ls[a].len() ==> #[trigger] ls[a][b] != '\n',
        forall|x: int| 0 <= x < k.len() ==> #[trigger] k[x] != '\n',
        v matches Some(w) ==> forall|x: int| 0 <= x < w.len() ==> #[trigger] w[x] != '\n',
    ensures
        ini::spec_find_section(ini::set_opt(ls, "default"@, k, v), "default"@) is Some,
        ini::spec_get_key(ini::set_opt(ls, "default"@, k, v), "default"@, "markup"@) == ini::spec_get_key(ls, "default"@, "markup"@),
        forall|a: int, b: int| 0 <= a < ini::set_opt(ls, "default"@, k, v).len() && 0 <= b < ini::set_opt(ls, "default"@, k, v)[a].len()
            ==> #[trigger] ini::set_opt(ls, "default"@, k, v)[a][b] != '\n',
{
    reveal_strlit("markup");
    match v {
        Some(w) => ini::lemma_set_other_key(ls, "default"@, "markup"@, k, w),
        None => {},
    }
}

/// Markup reads back in a file that has the `[default]` section.
proof fn lemma_markup_with_section(
    content: Seq<char>,
    b: bool,
    actions: Option<bool>,
    icons: Option<bool>,
    history: Option<bool>,
    max_icon_size: Option<i64>,
)
    requires
        ini::spec_find_section(text::lines(content), "default"@) is Some,
    ensures
        ini::spec_get_bool(
            text::lines(text::join(behaviors_lines(text::lines(content), Some(b), actions, icons, history, max_icon_size), text::nl())),
            "default"@,
            "markup"@,
            true,
        ) == b,
{
    reveal_strlit("markup");
    reveal_strlit("actions");
    reveal_strlit("icons");
    reveal_strlit("history");
    reveal_strlit("max-icon-size");
    reveal_strlit("true");
    reveal_strlit("false");
    reveal_strlit("yes");
    reveal_strlit("1");
    reveal_strlit("on");
    reveal_strlit("default");
    let ls0 = text::lines(content);
    text::lemma_lines_no_nl(content);
    let w = ini::bool_word(b);
    assert(forall|x: int| 0 <= x < w.len() ==> #[trigger] w[x] != '\n');
    assert(ini::plain_key("markup"@));
    assert(ini::plain_key("actions"@));
    assert(ini::plain_key("icons"@));
    assert(ini::plain_key("history"@));
    assert(ini::plain_key("max-icon-size"@));
    let ls1 = ini::set_opt(ls0, "default"@, "markup"@, Some(w));
    ini::law_get_after_set(ls0, "default"@, "markup"@, w);
    ini::lemma_set_other_key(ls0, "default"@, "actions"@, "markup"@, w);
    let ls2 = ini::set_opt(ls1, "default"@, "actions"@, ini::opt_bool(actions));
    lemma_other_setting(ls1, "actions"@, ini::opt_bool(actions));
    let ls3 = ini::set_opt(ls2, "default"@, "icons"@, ini::opt_bool(icons));
    lemma_other_setting(ls2, "icons"@, ini::opt_bool(icons));
    let ls4 = ini::set_opt(ls3, "default"@, "history"@, ini::opt_bool(history));
    lemma_other_setting(ls3, "history"@, ini::opt_bool(history));
    match max_icon_size {
        Some(m) => num::lemma_dec_shape(m as int),
        None => {},
    }
    lemma_other_setting(ls4, "max-icon-size"@, ini::opt_dec(max_icon_size));
    let ls5 = behaviors_lines(ls0, Some(b), actions, icons, history, max_icon_size);
    ini::lemma_find_section_from(ls5, "default"@, 0);
    ini::lemma_get_key_joined(ls5, "default"@, "markup"@);
    text::lemma_trim_plain(w);
    assert(text::ascii_lower(w) =~= w);
}

/// One more setting in a file whose `[default]` section was added: it is
/// written in the section's body, and `markup` reads as before.
proof fn lemma_missing_step(ls0: Seq<Seq<char>>, b: Seq<Seq<char>>, k: Seq<char>, v: Option<Seq<char>>, tw: Seq<char>)
    requires
        ini::spec_find_section(ls0, "default"@) is None,
        forall|p: int, q: int| 0 <= p < ls0.len() && 0 <= q < ls0[p].len() ==> #[trigger] ls0[p][q] != '\n',
        b.len() >= 1,
        forall|p: int, q: int| 0 <= p < b.len() && 0 <= q < b[p].len() ==> #[trigger] b[p][q] != '\n',
        ini::plain_key(k),
        k != "markup"@,
        forall|x: int| 0 <= x < k.len() ==> #[trigger] k[x] != '\n',
        v matches Some(w) ==> forall|x: int| 0 <= x < w.len() ==> #[trigger] w[x] != '\n',
        ini::spec_get_key(ini::with_header_lines(ls0, "default"@) + (seq![seq![]] + b), "default"@, "markup"@) == Some(tw),
    ensures
        ini::set_opt(ini::with_header(ls0, "default"@) + b, "default"@, k, v) == ini::with_header(ls0, "default"@)
            + ini::body_opt(b, k, v),
        ini::body_opt(b, k, v).len() >= 1,
        forall|p: int, q: int| 0 <= p < ini::body_opt(b, k, v).len() && 0 <= q < ini::body_opt(b, k, v)[p].len()
            ==> #[trigger] ini::body_opt(b, k, v)[p][q] != '\n',
        ini::spec_get_key(
            ini::with_header_lines(ls0, "default"@) + (seq![seq![]] + ini::body_opt(b, k, v)),
            "default"@,
            "markup"@,
        ) == Some(tw),
{
    reveal_strlit("markup");
    reveal_strlit("default");
    match v {
        None => {},
        Some(x) => {
            let sec = "default"@;
            let e: Seq<char> = seq![];
            let hl = ini::with_header_lines(ls0, sec);
            let y = hl + (seq![e] + b);
            ini::lemma_found_added_header(ls0, sec, b);
            ini::lemma_set_under_header(ini::with_header(ls0, sec), b, sec, k, x);
            ini::lemma_set_under_header(hl, seq![e] + b, sec, k, x);
            ini::lemma_body_blank_front(b, k, x);
            let h = ini::spec_header(sec);
            assert forall|p: int, q: int| 0 <= p < y.len() && 0 <= q < y[p].len() implies #[trigger] y[p][q] != '\n' by {
                let n = ls0.len() as int;
                if p < n {
                    assert(y[p] == ls0[p]);
                } else if p == n + 1 {
                    assert(y[p] == h);
                    if 0 < q < h.len() - 1 {
                        assert(h[q] == sec[q - 1]);
                    }
                } else if p >= n + 3 {
                    assert(y[p] == b[p - n - 3]);
                }
            }
            assert(ini::plain_key("markup"@));
            ini::lemma_set_other_key(y, sec, "markup"@, k, x);
            let b2 = ini::set_in_body(b, k, x);
            let y2 = hl + (seq![e] + b2);
            assert(ini::spec_set_key(y, sec, k, x) == y2);
            ini::lemma_section_end(b, 0);
            ini::lemma_find_key(b, k, 0, ini::spec_section_end(b, 0));
            assert(b2.len() >= b.len());
            assert forall|p: int, q: int| 0 <= p < b2.len() && 0 <= q < b2[p].len() implies #[trigger] b2[p][q] != '\n' by {
                assert(y2[ls0.len() + 3 + p] == b2[p]);
            }
        },
    }
}

/// Markup reads back: after `set_behaviors(content, Some(b), …)`,
/// `get_markup` gives `b`; when the file has no `[default]` section, the
/// section that the first write adds holds it.
pub proof fn law_markup_reads_back(
    content: Seq<char>,
    b: bool,
    actions: Option<bool>,
    icons: Option<bool>,
    history: Option<bool>,
    max_icon_size: Option<i64>,
)
    ensures
        ini::spec_get_bool(
            text::lines(text::join(behaviors_lines(text::lines(content), Some(b), actions, icons, history, max_icon_size), text::nl())),
            "default"@,
            "markup"@,
            true,
        ) == b,
{
    let ls0 = text::lines(content);
    let sec = "default"@;
    if ini::spec_find_section(ls0, sec) is Some {
        lemma_markup_with_section(content, b, actions, icons, history, max_icon_size);
    } else {
        reveal_strlit("markup");
        reveal_strlit("actions");
        reveal_strlit("icons");
        reveal_strlit("history");
        reveal_strlit("max-icon-size");
        reveal_strlit("true");
        reveal_strlit("false");
        reveal_strlit("yes");
        reveal_strlit("1");
        reveal_strlit("on");
        reveal_strlit("default");
        text::lemma_lines_no_nl(content);
        let w = ini::bool_word(b);
        assert(forall|x: int| 0 <= x < w.len() ==> #[trigger] w[x] != '\n');
        assert(ini::plain_key("actions"@));
        assert(ini::plain_key("icons"@));
        assert(ini::plain_key("history"@));
        assert(ini::plain_key("max-icon-size"@));
        let n = ls0.len() as int;
        let h = ini::spec_header(sec);
        let nh = seq!['\n'] + h + seq!['\n'];
        let am = ini::spec_assignment("markup"@, w);
        let e: Seq<char> = seq![];
        // the first write adds the section and the assignment
        let l1 = ls0.push(nh);
        assert(ini::spec_section_end(l1, n + 1) == n + 1);
        assert(ini::spec_find_key(l1, "markup"@, n + 1, n + 1) is None);
        let b1 = seq![am];
        assert(ini::set_opt(ls0, sec, "markup"@, Some(w)) =~= ini::with_header(ls0, sec) + b1);
        assert forall|p: int, q: int| 0 <= p < b1.len() && 0 <= q < b1[p].len() implies #[trigger] b1[p][q] != '\n' by {
            if q < 6 {
                assert(am[q] == "markup"@[q]);
            } else if q > 6 {
                assert(am[q] == w[q - 7]);
            }
        }
        // and reads back
        let y1 = ini::with_header_lines(ls0, sec) + (seq![e] + b1);
        ini::lemma_found_added_header(ls0, sec, b1);
        assert(forall|i: int| 0 <= i < e.len() ==> #[trigger] e[i] == ' ');
        ini::lemma_assignment_trim(e, "markup"@, w);
        assert(e + am =~= am);
        assert(text::trim(e) =~= e);
        assert(y1[n + 2] == e);
        assert(!ini::spec_is_header_line(y1[n + 2]));
        assert(!text::starts_with(text::trim(y1[n + 2]), "markup"@ + seq!['=']));
        assert(y1[n + 3] == am);
        ini::lemma_scan_key_at(y1, "markup"@, n + 2, n + 3);
        let tw = text::trim(w);
        assert(ini::spec_get_key(y1, sec, "markup"@) == Some(tw));
        // the other settings
        let b2 = ini::body_opt(b1, "actions"@, ini::opt_bool(actions));
        lemma_missing_step(ls0, b1, "actions"@, ini::opt_bool(actions), tw);
        let b3 = ini::body_opt(b2, "icons"@, ini::opt_bool(icons));
        lemma_missing_step(ls0, b2, "icons"@, ini::opt_bool(icons), tw);
        let b4 = ini::body_opt(b3, "history"@, ini::opt_bool(history));
        lemma_missing_step(ls0, b3, "history"@, ini::opt_bool(history), tw);
        match max_icon_size {
            Some(m) => num::lemma_dec_shape(m as int),
            None => {},
        }
        let b5 = ini::body_opt(b4, "max-icon-size"@, ini::opt_dec(max_icon_size));
        lemma_missing_step(ls0, b4, "max-icon-size"@, ini::opt_dec(max_icon_size), tw);
        let ls5 = behaviors_lines(ls0, Some(b), actions, icons, history, max_icon_size);
        assert(ls5 == ini::with_header(ls0, sec) + b5);
        // the text reads back as the lines with a blank line and the header
        let y5 = ini::with_header_lines(ls0, sec) + (seq![e] + b5);
        ini::lemma_header_join(ls0, sec, b5);
        assert forall|p: int, q: int| 0 <= p < y5.len() && 0 <= q < y5[p].len() implies #[trigger] y5[p][q] != '\n' by {
            if p < n {
                assert(y5[p] == ls0[p]);
            } else if p == n + 1 {
                assert(y5[p] == h);
                if 0 < q < h.len() - 1 {
                    assert(h[q] == sec[q - 1]);
                }
            } else if p >= n + 3 {
                assert(y5[p] == b5[p - n - 3]);
            }
        }
        ini::lemma_get_key_joined(y5, sec, "markup"@);
        text::lemma_trim_plain(w);
        assert(text::ascii_lower(w) =~= w);
    }
}

} // verus!
