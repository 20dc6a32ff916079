//! What the window's widgets decide without drawing: whether a colour entry
//! holds a hex colour and the colour it gives, and which pages a sidebar
//! search shows.
use vstd::prelude::*;
use crate::text;

verus! {

pub open spec fn is_hex_digit(c: char) -> bool {
    ('0' <= c <= '9') || ('a' <= c <= 'f') || ('A' <= c <= 'F')
}

/// Six or eight hex digits.
pub open spec fn hex_digits(t: Seq<char>) -> bool {
    (t.len() == 6 || t.len() == 8) && forall|i: int| 0 <= i < t.len() ==> is_hex_digit(#[trigger] t[i])
}

/// A hex colour: six or eight hex digits, after an optional `#`.
pub open spec fn spec_valid_hex(s: Seq<char>) -> bool {
    hex_digits(if s.len() > 0 && s[0] == '#' { s.drop_first() } else { s })
}

/// The colour that a colour entry's text gives: trimmed, with a `#` put in
/// front when it has none, and kept when it is `#` and six or eight hex
/// digits (`None`: the entry keeps its colour).
pub open spec fn spec_entry_color(text: Seq<char>) -> Option<Seq<char>> {
    let x = text::trim(text);
    let t = if x.len() > 0 && x[0] == '#' { x } else { seq!['#'] + x };
    if (t.len() == 7 || t.len() == 9) && spec_valid_hex(t) {
        Some(t)
    } else {
        None
    }
}

/// Whether a colour entry holds a hex colour.
pub fn is_valid_hex(s: &str) -> (r: bool)
    ensures
        r == spec_valid_hex(s@),
{
    let v = text::chars_of(s);
    let t = if v.len() > 0 && v[0] == '#' {
        let x = text::slice(&v, 1, v.len());
        assert(x@ =~= v@.drop_first());
        x
    } else {
        v
    };
    if !(t.len() == 6 || t.len() == 8) {
        return false;
    }
    assert(v@ == s@);
    let ghost tv = if s@.len() > 0 && s@[0] == '#' { s@.drop_first() } else { s@ };
    assert(t@ == tv);
    let mut i: usize = 0;
    while i < t.len()
        invariant
            i <= t.len(),
            t@ == tv,
            tv == (if s@.len() > 0 && s@[0] == '#' { s@.drop_first() } else { s@ }),
            t.len() == 6 || t.len() == 8,
            forall|k: int| 0 <= k < i ==> is_hex_digit(#[trigger] t@[k]),
        decreases t.len() - i,
    {
        let c = t[i];
        if !(('0' <= c && c <= '9') || ('a' <= c && c <= 'f') || ('A' <= c && c <= 'F')) {
            assert(!is_hex_digit(tv[i as int]));
            assert(!hex_digits(tv));
            return false;
        }
        i += 1;
    }
    true
}

/// The colour that a colour entry's text gives (see `spec_entry_color`).
pub fn entry_color(entry: &str) -> (r: Option<String>)
    ensures
        match r {
            Some(c) => spec_entry_color(entry@) == Some(c@),
            None => spec_entry_color(entry@) is None,
        },
{
    let x = text::trimmed(&text::chars_of(entry));
    let t = if x.len() > 0 && x[0] == '#' {
        x
    } else {
        let mut h: Vec<char> = Vec::new();
        h.push('#');
        text::append(&mut h, &x);
        h
    };
    let ghost tv = t@;
    assert(tv == (if text::trim(entry@).len() > 0 && text::trim(entry@)[0] == '#' { text::trim(entry@) } else { seq!['#'] + text::trim(entry@) }));
    if (t.len() == 7 || t.len() == 9) && is_valid_hex(text::string_of(&t).as_str()) {
        Some(text::string_of(&t))
    } else {
        None
    }
}

/// A page that the search can find.
#[derive(Clone, Debug)]
pub struct PageEntry {
    pub id: String,
    pub parent: Option<String>,
    pub title: String,
    pub subtitle: String,
    pub icon: Option<String>,
}

/// Whether a main page stays in the menu for a query already in lower
/// case: always for an empty query, else when its title in lower case holds
/// the query.
pub open spec fn spec_title_visible(query: Seq<char>, title: Seq<char>) -> bool {
    query.len() == 0 || text::contains(text::lowercase(title), query)
}

/// Whether a sub-page matches a query already in lower case: its title, a
/// space and its subtitle, in lower case, hold the query.
pub open spec fn spec_entry_matches(query: Seq<char>, e: PageEntry) -> bool {
    text::contains(text::lowercase(e.title@ + " "@ + e.subtitle@), query)
}

fn copy_opt(o: &Option<String>) -> (r: Option<String>)
    ensures
        r == *o,
{
    match o {
        Some(s) => Some(s.clone()),
        None => None,
    }
}

/// Whether a main page stays in the menu.
pub fn title_visible(query: &str, title: &str) -> (r: bool)
    ensures
        r == spec_title_visible(query@, title@),
{
    let q = text::chars_of(query);
    if q.len() == 0 {
        return true;
    }
    let t = text::to_lower(title);
    text::has(&text::chars_of(t.as_str()), &q)
}

/// The sub-pages that match a query already in lower case, in order
/// (none for an empty query).
pub fn search_results(catalog: &Vec<PageEntry>, query: &str) -> (r: Vec<PageEntry>)
    ensures
        query@.len() == 0 ==> r.len() == 0,
        query@.len() > 0 ==> r@ == catalog@.filter(|e: PageEntry| spec_entry_matches(query@, e)),
{
    let q = text::chars_of(query);
    let mut out: Vec<PageEntry> = Vec::new();
    if q.len() == 0 {
        return out;
    }
    let mut i: usize = 0;
    while i < catalog.len()
        invariant
            i <= catalog.len(),
            q@ == query@,
            out@ == catalog@.take(i as int).filter(|e: PageEntry| spec_entry_matches(query@, e)),
        decreases catalog.len() - i,
    {
        let e = &catalog[i];
        let mut hay = text::chars_of(e.title.as_str());
        hay.push(' ');
        text::append(&mut hay, &text::chars_of(e.subtitle.as_str()));
        proof {
            reveal_strlit(" ");
        }
        assert(hay@ =~= e.title@ + " "@ + e.subtitle@);
        let low = text::to_lower(text::string_of(&hay).as_str());
        let hit = text::has(&text::chars_of(low.as_str()), &q);
        proof {
            assert(catalog@.take(i + 1).drop_last() =~= catalog@.take(i as int));
            catalog@.take(i as int).lemma_filter_push(catalog@[i as int], |e: PageEntry| spec_entry_matches(query@, e));
            assert(catalog@.take(i as int).push(catalog@[i as int]) =~= catalog@.take(i + 1));
        }
        if hit {
            let copy = PageEntry {
                id: e.id.clone(),
                parent: copy_opt(&e.parent),
                title: e.title.clone(),
                subtitle: e.subtitle.clone(),
                icon: copy_opt(&e.icon),
            };
            assert(copy == *e);
            out.push(copy);
        }
        i += 1;
    }
    assert(catalog@.take(catalog.len() as int) =~= catalog@);
    out
}

} // verus!
