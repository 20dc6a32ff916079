//! waybar's CSS: patched in place rather than regenerated, with the invalid
//! selectors repaired and the colours normalised for GTK.
use vstd::prelude::*;
use crate::text;

verus! {

// ---------------------------------------------------------------- model

pub open spec fn is_hex_digit(c: char) -> bool {
    ('0' <= c <= '9') || ('a' <= c <= 'f') || ('A' <= c <= 'F')
}

/// The value trimmed, without final `;`s, trimmed again.
pub open spec fn css_value(value: Seq<char>) -> Seq<char> {
    text::trim(text::trim_end_char(text::trim(value), ';'))
}

/// What follows a leading `#`; nothing without one.
pub open spec fn hex_part(v: Seq<char>) -> Seq<char> {
    if v.len() > 0 && v[0] == '#' {
        v.drop_first()
    } else {
        seq![]
    }
}

pub open spec fn all_hex(h: Seq<char>) -> bool {
    forall|i: int| 0 <= i < h.len() ==> is_hex_digit(#[trigger] h[i])
}

/// `#rrggbbaa` cut to `#rrggbb`; `#rrggbb` and anything else as they are
/// (trimmed, without the final `;`).
pub open spec fn spec_css_color(value: Seq<char>) -> Seq<char> {
    let v = css_value(value);
    let hex = hex_part(v);
    if (hex.len() == 6 || hex.len() == 8) && all_hex(hex) {
        seq!['#'] + hex.take(6)
    } else {
        v
    }
}

/// `#custom/x` selectors (which GTK does not read) made `#custom-x`.
pub open spec fn spec_sanitize_selectors(css: Seq<char>) -> Seq<char> {
    text::replace_all(css, "#custom/"@, "#custom-"@)
}

/// A style to replace: empty, generated by the old template, or with invalid
/// selectors.
pub open spec fn spec_should_replace_style(css: Seq<char>) -> bool {
    let t = text::trim(css);
    t.len() == 0 || text::contains(t, "auto-generated"@) || text::contains(t, "#custom/"@)
}

/// The colour that a line `@define-color name value;` defines.
pub open spec fn define_entry(line: Seq<char>) -> Option<(Seq<char>, Seq<char>)> {
    let l = text::trim(line);
    if l.len() == 0 || text::starts_with(l, "@import"@) || text::starts_with(l, "/*"@) {
        None
    } else if text::starts_with(l, "@define-color"@) {
        let rest = text::trim(l.skip(13));
        let k = text::first_ws(rest);
        if k >= rest.len() {
            None
        } else {
            let name = text::trim(rest.take(k as int));
            let value = text::trim(text::trim_end_char(text::trim(rest.skip(k + 1 as int)), ';'));
            if name.len() == 0 || value.len() == 0 {
                None
            } else {
                Some((text::trim_start_char(name, '@'), value))
            }
        }
    } else {
        None
    }
}

/// The colours defined by the first `n` lines, in order.
pub open spec fn define_entries(ls: Seq<Seq<char>>, n: int) -> Seq<(Seq<char>, Seq<char>)>
    decreases n,
{
    if n <= 0 || n > ls.len() {
        seq![]
    } else {
        match define_entry(ls[n - 1]) {
            Some(e) => define_entries(ls, n - 1).push(e),
            None => define_entries(ls, n - 1),
        }
    }
}

/// The value of the last definition of `key`.
pub open spec fn lookup(es: Seq<(Seq<char>, Seq<char>)>, key: Seq<char>) -> Option<Seq<char>>
    decreases es.len(),
{
    if es.len() == 0 {
        None
    } else if es.last().0 == key {
        Some(es.last().1)
    } else {
        lookup(es.drop_last(), key)
    }
}

/// The accent colour: the first of `accent`, `color4`, `color1` defined,
/// trimmed, when not empty.
pub open spec fn spec_accent_hex(es: Seq<(Seq<char>, Seq<char>)>) -> Option<Seq<char>> {
    let found = match lookup(es, "accent"@) {
        Some(v) => Some(v),
        None => match lookup(es, "color4"@) {
            Some(v) => Some(v),
            None => lookup(es, "color1"@),
        },
    };
    match found {
        Some(v) => if text::trim(v).len() > 0 {
            Some(text::trim(v))
        } else {
            None
        },
        None => None,
    }
}

/// `indent key: value[;]` for the first line whose trimmed text starts with
/// `key:` (the `;` kept when the line had one).
pub open spec fn decl_line(l: Seq<char>, key: Seq<char>, value: Seq<char>) -> Seq<char> {
    let t = text::trim(l);
    text::leading_ws(l) + key + seq![':', ' '] + value + if t.len() > 0 && t.last() == ';' { seq![';'] } else { seq![] }
}

/// First line from `i` on whose trimmed text starts with `key:`.
pub open spec fn first_decl(ls: Seq<Seq<char>>, key: Seq<char>, i: int) -> Option<int>
    decreases ls.len() - i,
{
    if i < 0 || i >= ls.len() {
        None
    } else if text::starts_with(text::trim(ls[i]), key + seq![':']) {
        Some(i)
    } else {
        first_decl(ls, key, i + 1)
    }
}

/// The CSS with its first declaration `key:` set to `value`, the lines joined
/// by `'\n'` and a final `'\n'` kept.
pub open spec fn spec_patch_first_decl(css: Seq<char>, key: Seq<char>, value: Seq<char>) -> Seq<char> {
    let ls = text::lines(css);
    let ls2 = match first_decl(ls, key, 0) {
        Some(j) => ls.update(j, decl_line(ls[j], key, value)),
        None => ls,
    };
    let out = text::join(ls2, text::nl());
    if css.len() > 0 && css.last() == '\n' {
        out.push('\n')
    } else {
        out
    }
}

/// The CSS with the value of the first `alpha(@background, …)` replaced by
/// `' '` and `alpha`.
pub open spec fn spec_splice_alpha(css: Seq<char>, alpha: Seq<char>) -> Seq<char> {
    let needle = "alpha(@background,"@;
    match text::find(css, needle) {
        None => css,
        Some(start) => {
            let after = start + needle.len();
            match text::find(css.skip(after), seq![')']) {
                None => css,
                Some(rel) => css.take(after) + seq![' '] + alpha + css.skip(after + rel),
            }
        },
    }
}

/// The style with its selectors repaired, the font family and size set and
/// the background alpha spliced in.
pub open spec fn spec_patch_style(css: Seq<char>, font_family: Seq<char>, font_size: int, alpha: Seq<char>) -> Seq<char> {
    let s1 = spec_sanitize_selectors(css);
    let s2 = spec_patch_first_decl(s1, "font-family"@, seq!['\''] + font_family + seq!['\'']);
    let s3 = spec_patch_first_decl(s2, "font-size"@, crate::num::dec(font_size) + "px"@);
    spec_splice_alpha(s3, alpha)
}

// ---------------------------------------------------------------- laws

/// Text without `#` survives the replacement of `#custom/` as it is: when the
/// result starts with such a word, so does the text.
proof fn lemma_replace_keeps_prefix(x: Seq<char>, w: Seq<char>)
    requires
        forall|i: int| 0 <= i < w.len() ==> #[trigger] w[i] != '#',
        text::starts_with(text::replace_all(x, "#custom/"@, "#custom-"@), w),
    ensures
        text::starts_with(x, w),
    decreases w.len(),
{
    reveal_strlit("#custom/");
    reveal_strlit("#custom-");
    let r = text::replace_all(x, "#custom/"@, "#custom-"@);
    if w.len() > 0 {
        if x.len() == 0 {
            assert(r.len() == 0);
        } else if text::starts_with(x, "#custom/"@) {
            let r1 = text::replace_all(x.skip(8), "#custom/"@, "#custom-"@);
            assert(r =~= "#custom-"@ + r1);
            assert(r[0] == '#');
            assert(r.take(w.len() as int)[0] == r[0]);
            assert(w[0] != '#');
            assert(r.take(w.len() as int)[0] == w[0]);
        } else {
            let r1 = text::replace_all(x.drop_first(), "#custom/"@, "#custom-"@);
            assert(r =~= seq![x[0]] + r1);
            assert(r.take(w.len() as int)[0] == x[0]);
            assert(x[0] == w[0]);
            let w1 = w.drop_first();
            assert(r1.take(w1.len() as int) =~= r.take(w.len() as int).drop_first());
            assert(text::starts_with(r1, w1));
            assert forall|i: int| 0 <= i < w1.len() implies #[trigger] w1[i] != '#' by {
                assert(w1[i] == w[i + 1]);
            }
            lemma_replace_keeps_prefix(x.drop_first(), w1);
            assert(x.take(w.len() as int) =~= seq![x[0]] + x.drop_first().take(w1.len() as int));
            assert(x.take(w.len() as int) =~= w);
        }
    } else {
        assert(x.take(0) =~= w);
    }
}

proof fn lemma_no_custom_slash_at(s: Seq<char>, k: int)
    ensures
        !text::occurs_at(text::replace_all(s, "#custom/"@, "#custom-"@), "#custom/"@, k),
    decreases s.len(),
{
    reveal_strlit("#custom/");
    reveal_strlit("#custom-");
    let f = "#custom/"@;
    let t = "#custom-"@;
    let r = text::replace_all(s, f, t);
    assert(f.len() == 8);
    if s.len() == 0 {
        assert(r.len() == 0);
    } else if text::starts_with(s, f) {
        let r1 = text::replace_all(s.skip(8), f, t);
        assert(r =~= t + r1);
        if text::occurs_at(r, f, k) {
            assert(r.subrange(k, k + 8) == f);
            if k >= 8 {
                assert(r1.subrange(k - 8, k - 8 + 8) =~= r.subrange(k, k + 8));
                lemma_no_custom_slash_at(s.skip(8), k - 8);
            } else if k == 0 {
                assert(r.subrange(0, 8)[7] == r[7]);
                assert(r[7] == '-');
                assert(f[7] == '/');
            } else {
                assert(r.subrange(k, k + 8)[0] == r[k]);
                assert(r[k] == t[k]);
                assert(f[0] == '#');
            }
        }
    } else {
        let r1 = text::replace_all(s.drop_first(), f, t);
        assert(r =~= seq![s[0]] + r1);
        if text::occurs_at(r, f, k) {
            if k >= 1 {
                assert(r1.subrange(k - 1, k - 1 + 8) =~= r.subrange(k, k + 8));
                lemma_no_custom_slash_at(s.drop_first(), k - 1);
            } else {
                let w = f.drop_first();
                assert(r.subrange(0, 8) == f);
                assert(r.subrange(0, 8)[0] == r[0]);
                assert(r[0] == s[0]);
                assert(s[0] == '#');
                assert(r1.take(7) =~= r.subrange(1, 8));
                assert(r.subrange(1, 8) =~= w);
                assert(text::starts_with(r1, w));
                assert forall|i: int| 0 <= i < w.len() implies #[trigger] w[i] != '#' by {
                    assert(w[i] == f[i + 1]);
                }
                lemma_replace_keeps_prefix(s.drop_first(), w);
                assert(s.take(8) =~= seq![s[0]] + s.drop_first().take(7));
                assert(s.take(8) =~= f);
            }
        }
    }
}

/// No `#custom/` selector is left after `sanitize_selectors`.
pub proof fn law_sanitize_leaves_no_slash_selector(css: Seq<char>)
    ensures
        !text::contains(spec_sanitize_selectors(css), "#custom/"@),
{
    let r = spec_sanitize_selectors(css);
    text::lemma_find_from_occurs(r, "#custom/"@, 0);
    match text::find(r, "#custom/"@) {
        Some(k) => {
            lemma_no_custom_slash_at(css, k);
        },
        None => {},
    }
}

// ---------------------------------------------------------------- exec

/// Cuts `#rrggbbaa` to `#rrggbb`, which GTK reads.
pub fn css_color(value: &str) -> (r: String)
    ensures
        r@ == spec_css_color(value@),
{
    let a = text::chars_of(value);
    let b = text::trimmed(&a);
    let c = text::cut_end_char(&b, ';');
    let v = text::trimmed(&c);
    let hex = if v.len() > 0 && v[0] == '#' {
        let h = text::slice(&v, 1, v.len());
        assert(h@ =~= v@.drop_first());
        h
    } else {
        Vec::new()
    };
    if hex.len() == 6 || hex.len() == 8 {
        let mut i: usize = 0;
        while i < hex.len()
            invariant
                i <= hex.len(),
                v@ == css_value(value@),
                hex@ == hex_part(v@),
                hex.len() == 6 || hex.len() == 8,
                forall|k: int| 0 <= k < i ==> is_hex_digit(#[trigger] hex@[k]),
            decreases hex.len() - i,
        {
            let c = hex[i];
            if !(('0' <= c && c <= '9') || ('a' <= c && c <= 'f') || ('A' <= c && c <= 'F')) {
                assert(!is_hex_digit(hex@[i as int]));
                assert(!all_hex(hex@));
                return text::string_of(&v);
            }
            i += 1;
        }
        let mut r: Vec<char> = Vec::new();
        r.push('#');
        let six = text::slice(&hex, 0, 6);
        text::append(&mut r, &six);
        assert(r@ =~= seq!['#'] + hex@.take(6));
        text::string_of(&r)
    } else {
        text::string_of(&v)
    }
}

/// Repairs `#custom/` selectors.
pub fn sanitize_selectors(css: &str) -> (r: String)
    ensures
        r@ == spec_sanitize_selectors(css@),
{
    let v = text::chars_of(css);
    let out = text::replace_chars(&v, &text::lit("#custom/"), &text::lit("#custom-"));
    text::string_of(&out)
}

/// Whether the style is to be replaced by the default one.
pub fn should_replace_style(css: &str) -> (r: bool)
    ensures
        r == spec_should_replace_style(css@),
{
    let v = text::chars_of(css);
    let t = text::trimmed(&v);
    t.len() == 0 || text::has(&t, &text::lit("auto-generated")) || text::has(&t, &text::lit("#custom/"))
}

/// The colours of a `@define-color` file, in the order they are defined; a
/// later definition of a name replaces an earlier one.
pub struct ColorMap {
    pub pairs: Vec<(String, String)>,
}

impl View for ColorMap {
    type V = Seq<(Seq<char>, Seq<char>)>;

    open spec fn view(&self) -> Self::V {
        self.pairs@.map_values(|p: (String, String)| (p.0@, p.1@))
    }
}

impl ColorMap {
    /// The value of `key`'s last definition.
    pub fn get(&self, key: &str) -> (r: Option<String>)
        ensures
            match r {
                Some(v) => lookup(self@, key@) == Some(v@),
                None => lookup(self@, key@) is None,
            },
    {
        let k = text::chars_of(key);
        let mut j: usize = self.pairs.len();
        assert(self@.take(j as int) =~= self@);
        while j > 0
            invariant
                j <= self.pairs.len(),
                k@ == key@,
                lookup(self@, key@) == lookup(self@.take(j as int), key@),
            decreases j,
        {
            let p = &self.pairs[j - 1];
            let pk = text::chars_of(p.0.as_str());
            assert(self@[j - 1] == (p.0@, p.1@));
            if text::same(&pk, &k) {
                return Some(p.1.clone());
            }
            assert(self@.take(j as int).drop_last() =~= self@.take(j - 1));
            j -= 1;
        }
        None
    }
}

fn define_entry_of(line: &Vec<char>) -> (r: Option<(Vec<char>, Vec<char>)>)
    ensures
        match r {
            Some((n, v)) => define_entry(line@) == Some((n@, v@)),
            None => define_entry(line@) is None,
        },
{
    let l = text::trimmed(line);
    if l.len() == 0 || text::has_prefix(&l, &text::lit("@import")) || text::has_prefix(&l, &text::lit("/*")) {
        return None;
    }
    let dc = text::lit("@define-color");
    if !text::has_prefix(&l, &dc) {
        return None;
    }
    proof {
        reveal_strlit("@define-color");
    }
    assert(dc@.len() == 13);
    let after = text::slice(&l, 13, l.len());
    assert(after@ =~= l@.skip(13));
    let rest = text::trimmed(&after);
    let mut k: usize = 0;
    while k < rest.len() && !text::char_is_ws(rest[k])
        invariant
            k <= rest.len(),
            forall|j: int| 0 <= j < k ==> !text::is_ws(rest@[j]),
        decreases rest.len() - k,
    {
        k += 1;
    }
    proof {
        text::lemma_first_ws_at(rest@, k as int);
    }
    if k >= rest.len() {
        return None;
    }
    let n0 = text::slice(&rest, 0, k);
    assert(n0@ =~= rest@.take(k as int));
    let name = text::trimmed(&n0);
    let v0 = text::slice(&rest, k + 1, rest.len());
    assert(v0@ =~= rest@.skip(k + 1));
    let v1 = text::trimmed(&v0);
    let v2 = text::cut_end_char(&v1, ';');
    let value = text::trimmed(&v2);
    if name.len() == 0 || value.len() == 0 {
        return None;
    }
    Some((text::cut_start_char(&name, '@'), value))
}

/// The colours that the `@define-color` lines define.
pub fn parse_define_colors(css: &str) -> (r: ColorMap)
    ensures
        r@ == define_entries(text::lines(css@), text::lines(css@).len() as int),
{
    let ls = text::lines_of(css);
    let ghost lv = text::views(ls@);
    let mut pairs: Vec<(String, String)> = Vec::new();
    let mut i: usize = 0;
    while i < ls.len()
        invariant
            i <= ls.len(),
            lv == text::views(ls@),
            lv == text::lines(css@),
            pairs@.map_values(|p: (String, String)| (p.0@, p.1@)) == define_entries(lv, i as int),
        decreases ls.len() - i,
    {
        assert(ls@[i as int]@ == lv[i as int]);
        match define_entry_of(&ls[i]) {
            Some((n, v)) => {
                let ghost p0 = pairs@.map_values(|p: (String, String)| (p.0@, p.1@));
                let e = (text::string_of(&n), text::string_of(&v));
                let ghost ev = (e.0@, e.1@);
                pairs.push(e);
                assert(pairs@.map_values(|p: (String, String)| (p.0@, p.1@)) =~= p0.push(ev));
            },
            None => {},
        }
        i += 1;
    }
    ColorMap { pairs }
}

/// The accent colour: `accent`, else `color4`, else `color1`.
pub fn accent_hex(colors: &ColorMap) -> (r: Option<String>)
    ensures
        match r {
            Some(v) => spec_accent_hex(colors@) == Some(v@),
            None => spec_accent_hex(colors@) is None,
        },
{
    let found = match colors.get("accent") {
        Some(v) => Some(v),
        None => match colors.get("color4") {
            Some(v) => Some(v),
            None => colors.get("color1"),
        },
    };
    match found {
        Some(v) => {
            let c = text::chars_of(v.as_str());
            let t = text::trimmed(&c);
            if t.len() > 0 {
                Some(text::string_of(&t))
            } else {
                None
            }
        },
        None => None,
    }
}

fn decl_line_of(l: &Vec<char>, key: &Vec<char>, value: &Vec<char>) -> (r: Vec<char>)
    ensures
        r@ == decl_line(l@, key@, value@),
{
    let t = text::trimmed(l);
    let mut out = text::leading_ws_of(l);
    text::append(&mut out, key);
    out.push(':');
    out.push(' ');
    text::append(&mut out, value);
    if t.len() > 0 && t[t.len() - 1] == ';' {
        out.push(';');
    }
    assert(out@ =~= decl_line(l@, key@, value@));
    out
}

/// Sets the first declaration `key:` (keeping its indentation and `;`).
pub fn patch_first_decl(css: &str, key: &str, value: &str) -> (r: String)
    ensures
        r@ == spec_patch_first_decl(css@, key@, value@),
{
    let c = text::chars_of(css);
    let r = patch_decl_in(&c, &text::chars_of(key), &text::chars_of(value));
    text::string_of(&r)
}

fn patch_decl_in(c: &Vec<char>, k: &Vec<char>, v: &Vec<char>) -> (r: Vec<char>)
    ensures
        r@ == spec_patch_first_decl(c@, k@, v@),
{
    let mut ls = text::split_lines(c);
    let ghost lv = text::views(ls@);
    let mut prefix = k.clone();
    prefix.push(':');
    assert(prefix@ =~= k@ + seq![':']);
    let mut i: usize = 0;
    let mut found: Option<usize> = None;
    while i < ls.len()
        invariant
            i <= ls.len(),
            lv == text::views(ls@),
            lv == text::lines(c@),
            prefix@ == k@ + seq![':'],
            found is None,
            first_decl(lv, k@, 0) == first_decl(lv, k@, i as int),
        decreases ls.len() - i,
    {
        let t = text::trimmed(&ls[i]);
        assert(t@ == text::trim(lv[i as int]));
        if text::has_prefix(&t, &prefix) {
            let line = decl_line_of(&ls[i], k, v);
            let ghost ln = line@;
            assert(ln == decl_line(lv[i as int], k@, v@));
            ls.set(i, line);
            assert(text::views(ls@) =~= lv.update(i as int, ln));
            let mut sep: Vec<char> = Vec::new();
            sep.push('\n');
            assert(sep@ =~= text::nl());
            let mut out = text::join_with(&ls, &sep);
            if c.len() > 0 && c[c.len() - 1] == '\n' {
                out.push('\n');
            }
            return out;
        }
        i += 1;
    }
    let mut sep: Vec<char> = Vec::new();
    sep.push('\n');
    assert(sep@ =~= text::nl());
    let mut out = text::join_with(&ls, &sep);
    if c.len() > 0 && c[c.len() - 1] == '\n' {
        out.push('\n');
    }
    out
}

/// Splices `alpha` as the value of the first `alpha(@background, …)`.
pub fn splice_background_alpha(css: &str, alpha: &str) -> (r: String)
    ensures
        r@ == spec_splice_alpha(css@, alpha@),
{
    let c = text::chars_of(css);
    let r = splice_in(&c, &text::chars_of(alpha));
    text::string_of(&r)
}

fn splice_in(c: &Vec<char>, alpha: &Vec<char>) -> (r: Vec<char>)
    ensures
        r@ == spec_splice_alpha(c@, alpha@),
{
    let needle = text::lit("alpha(@background,");
    let start = match text::search(c, &needle) {
        Some(s) => s,
        None => {
            return c.clone();
        },
    };
    proof {
        text::lemma_find_from_occurs(c@, needle@, 0);
        assert(text::occurs_at(c@, needle@, start as int));
    }
    assert(start + needle.len() <= c.len());
    let after = start + needle.len();
    let rest = text::slice(c, after, c.len());
    assert(rest@ =~= c@.skip(after as int));
    let mut close: Vec<char> = Vec::new();
    close.push(')');
    assert(close@ =~= seq![')']);
    let rel = match text::search(&rest, &close) {
        Some(x) => x,
        None => {
            return c.clone();
        },
    };
    proof {
        text::lemma_find_from_occurs(rest@, close@, 0);
        assert(text::occurs_at(rest@, close@, rel as int));
    }
    let mut out = text::slice(c, 0, after);
    out.push(' ');
    text::append(&mut out, alpha);
    let tail = text::slice(c, after + rel, c.len());
    text::append(&mut out, &tail);
    assert(out@ =~= c@.take(after as int) + seq![' '] + alpha@ + c@.skip(after + rel));
    out
}

/// Sets the font family and size and splices the background alpha (already
/// formatted) into the style, after repairing its selectors.
pub fn patch_style_text(css: &str, font_family: &str, font_size: i64, alpha: &str) -> (r: String)
    ensures
        r@ == spec_patch_style(css@, font_family@, font_size as int, alpha@),
{
    let c = text::chars_of(css);
    let s1 = text::replace_chars(&c, &text::lit("#custom/"), &text::lit("#custom-"));
    let mut fam: Vec<char> = Vec::new();
    fam.push('\'');
    text::append(&mut fam, &text::chars_of(font_family));
    fam.push('\'');
    assert(fam@ =~= seq!['\''] + font_family@ + seq!['\'']);
    let s2 = patch_decl_in(&s1, &text::lit("font-family"), &fam);
    let mut size = crate::num::i64_to_chars(font_size);
    text::append(&mut size, &text::lit("px"));
    let s3 = patch_decl_in(&s2, &text::lit("font-size"), &size);
    let s4 = splice_in(&s3, &text::chars_of(alpha));
    text::string_of(&s4)
}

} // verus!
