//! Window rules: the top-level `window-rule { … }` blocks of the
//! compositor's `config.kdl`, read as JSON objects and written back in place.
//!
//! A rule is an object with the members `app_id`, `blur`,
//! `clip_to_geometry`, `corner_radius`, `index`, `open_floating`, `opacity`
//! and `title`. Numbers are held by their text: a value read from the file
//! keeps the text it had there.
use vstd::prelude::*;
use crate::text;
use crate::num;
use crate::services::settings::{self, Json, JsonV, jv, jv_members, lookup, obj_insert};

verus! {

/// The window-rule page's services.
pub struct WindowRulesService;

// ---------------------------------------------------------------- blocks

/// A trimmed line that the block scanner passes over: blank, or a `//`
/// comment.
pub open spec fn is_skipped(s: Seq<char>) -> bool {
    s.len() == 0 || (s.len() >= 2 && s[0] == '/' && s[1] == '/')
}

/// The name of the block that a trimmed line `NAME … {` opens: the text
/// before the first `=`, trimmed, without the quotes around it.
pub open spec fn head_name(s: Seq<char>) -> Seq<char> {
    let head = text::trim(text::trim_end_char(s, '{'));
    text::trim_char(text::trim(text::before(head, '=')), '"')
}

/// The blocks named `name` that close at depth zero, from line `i` on, with
/// the blocks still open before it on `stack` (their first line and name).
/// A block is the pair of its first and its closing line.
pub open spec fn scan(ls: Seq<Seq<char>>, name: Seq<char>, i: int, stack: Seq<(int, Seq<char>)>) -> Seq<(int, int)>
    decreases ls.len() - i,
{
    if i < 0 || i >= ls.len() {
        seq![]
    } else {
        let s = text::trim(ls[i]);
        if is_skipped(s) {
            scan(ls, name, i + 1, stack)
        } else if s[s.len() - 1] == '{' {
            scan(ls, name, i + 1, stack.push((i, head_name(s))))
        } else if s[0] == '}' {
            if stack.len() == 0 {
                scan(ls, name, i + 1, stack)
            } else {
                let rest = scan(ls, name, i + 1, stack.drop_last());
                if stack.len() == 1 && stack[0].1 == name {
                    seq![(stack[0].0, i)] + rest
                } else {
                    rest
                }
            }
        } else {
            scan(ls, name, i + 1, stack)
        }
    }
}

/// The top-level blocks named `name` of a file, by line.
pub open spec fn blocks(content: Seq<char>, name: Seq<char>) -> Seq<(int, int)> {
    scan(text::lines(content), name, 0, seq![])
}

pub open spec fn stack_ok(stack: Seq<(int, Seq<char>)>, i: int) -> bool {
    forall|m: int| 0 <= m < stack.len() ==> 0 <= #[trigger] stack[m].0 < i
}

/// Blocks that start at `lo` or later, end before `hi`, and follow one
/// another without overlap.
pub open spec fn spaced(bs: Seq<(int, int)>, lo: int, hi: int) -> bool {
    &&& forall|k: int| 0 <= k < bs.len() ==> lo <= #[trigger] bs[k].0 && bs[k].0 < bs[k].1 && bs[k].1 < hi
    &&& forall|k: int| 0 <= k < bs.len() - 1 ==> #[trigger] bs[k].1 < bs[k + 1].0
}

pub proof fn lemma_scan_spaced(ls: Seq<Seq<char>>, name: Seq<char>, i: int, stack: Seq<(int, Seq<char>)>)
    requires
        0 <= i,
        stack_ok(stack, i),
    ensures
        spaced(scan(ls, name, i, stack), if stack.len() > 0 { stack[0].0 } else { i }, ls.len() as int),
    decreases ls.len() - i,
{
    if i < ls.len() {
        let s = text::trim(ls[i]);
        if is_skipped(s) {
            lemma_scan_spaced(ls, name, i + 1, stack);
        } else if s[s.len() - 1] == '{' {
            let st = stack.push((i, head_name(s)));
            assert(stack_ok(st, i + 1));
            lemma_scan_spaced(ls, name, i + 1, st);
            if stack.len() > 0 {
                assert(st[0] == stack[0]);
            }
        } else if s[0] == '}' {
            if stack.len() == 0 {
                lemma_scan_spaced(ls, name, i + 1, stack);
            } else {
                let st = stack.drop_last();
                assert(stack_ok(st, i + 1));
                lemma_scan_spaced(ls, name, i + 1, st);
                let rest = scan(ls, name, i + 1, st);
                if stack.len() > 1 {
                    assert(st[0] == stack[0]);
                }
                if stack.len() == 1 && stack[0].1 == name {
                    let r = seq![(stack[0].0, i)] + rest;
                    assert forall|k: int| 0 <= k < r.len() implies stack[0].0 <= #[trigger] r[k].0 && r[k].0 < r[k].1
                        && r[k].1 < ls.len() by {
                        if k > 0 {
                            assert(r[k] == rest[k - 1]);
                        }
                    }
                    assert forall|k: int| 0 <= k < r.len() - 1 implies #[trigger] r[k].1 < r[k + 1].0 by {
                        assert(r[k + 1] == rest[k]);
                        if k > 0 {
                            assert(r[k] == rest[k - 1]);
                        }
                    }
                }
            }
        } else {
            lemma_scan_spaced(ls, name, i + 1, stack);
        }
    }
}

pub open spec fn pair_views(v: Seq<(usize, usize)>) -> Seq<(int, int)> {
    v.map_values(|p: (usize, usize)| (p.0 as int, p.1 as int))
}

pub open spec fn stack_views(v: Seq<(usize, Vec<char>)>) -> Seq<(int, Seq<char>)> {
    v.map_values(|p: (usize, Vec<char>)| (p.0 as int, p.1@))
}

fn head_of(s: &Vec<char>) -> (r: Vec<char>)
    ensures
        r@ == head_name(s@),
{
    let a = text::cut_end_char(s, '{');
    let head = text::trimmed(&a);
    let b = text::cut_before(&head, '=');
    let c = text::trimmed(&b);
    text::cut_char(&c, '"')
}

/// The top-level blocks named `name` of the lines `ls`.
fn scan_blocks(ls: &Vec<Vec<char>>, name: &Vec<char>) -> (r: Vec<(usize, usize)>)
    ensures
        pair_views(r@) == scan(text::views(ls@), name@, 0, seq![]),
{
    let ghost lv = text::views(ls@);
    let mut stack: Vec<(usize, Vec<char>)> = Vec::new();
    let mut acc: Vec<(usize, usize)> = Vec::new();
    let mut i: usize = 0;
    assert(stack_views(stack@) =~= Seq::<(int, Seq<char>)>::empty());
    assert(pair_views(acc@) + scan(lv, name@, 0, seq![]) =~= scan(lv, name@, 0, seq![]));
    while i < ls.len()
        invariant
            i <= ls.len(),
            lv == text::views(ls@),
            scan(lv, name@, 0, seq![]) == pair_views(acc@) + scan(lv, name@, i as int, stack_views(stack@)),
        decreases ls.len() - i,
    {
        let s = text::trimmed(&ls[i]);
        assert(ls@[i as int]@ == lv[i as int]);
        let ghost sv = stack_views(stack@);
        let ghost a0 = pair_views(acc@);
        if s.len() == 0 || (s.len() >= 2 && s[0] == '/' && s[1] == '/') {
        } else if s[s.len() - 1] == '{' {
            let h = head_of(&s);
            stack.push((i, h));
            assert(stack_views(stack@) =~= sv.push((i as int, head_name(s@))));
        } else if s[0] == '}' {
            if stack.len() > 0 {
                let top = stack.pop().unwrap();
                assert(stack_views(stack@) =~= sv.drop_last());
                if stack.len() == 0 && text::same(&top.1, name) {
                    acc.push((top.0, i));
                    assert(pair_views(acc@) =~= a0.push((sv[0].0, i as int)));
                    assert(a0 + (seq![(sv[0].0, i as int)] + scan(lv, name@, i + 1, sv.drop_last())) =~= a0.push(
                        (sv[0].0, i as int),
                    ) + scan(lv, name@, i + 1, sv.drop_last()));
                }
            }
        }
        i += 1;
    }
    assert(pair_views(acc@) + scan(lv, name@, i as int, stack_views(stack@)) =~= pair_views(acc@));
    acc
}

/// The top-level `window-rule` blocks of the lines `ls`.
fn rule_blocks(ls: &Vec<Vec<char>>) -> (r: Vec<(usize, usize)>)
    ensures
        pair_views(r@) == scan(text::views(ls@), "window-rule"@, 0, seq![]),
        spaced(pair_views(r@), 0, ls.len() as int),
{
    let r = scan_blocks(ls, &text::lit("window-rule"));
    proof {
        lemma_scan_spaced(text::views(ls@), "window-rule"@, 0, seq![]);
    }
    r
}

// ---------------------------------------------------------------- reading

/// The text between the first two `"` of a line.
pub open spec fn first_quoted(s: Seq<char>) -> Option<Seq<char>> {
    let a = text::index_of(s, '"');
    if a >= s.len() {
        None
    } else {
        let rest = s.skip(a + 1 as int);
        let b = text::index_of(rest, '"');
        if b >= rest.len() {
            None
        } else {
            Some(rest.take(b as int))
        }
    }
}

/// The second word of a line.
pub open spec fn second_word(s: Seq<char>) -> Option<Seq<char>> {
    let w = text::words(s);
    if w.len() >= 2 {
        Some(w[1])
    } else {
        None
    }
}

/// The first line from `k` on, before `end`, that closes a block.
pub open spec fn close_from(ls: Seq<Seq<char>>, k: int, end: int) -> Option<int>
    decreases end - k,
{
    if k < 0 || k >= end || k >= ls.len() {
        None
    } else {
        let s = text::trim(ls[k]);
        if s.len() > 0 && s[0] == '}' {
            Some(k)
        } else {
            close_from(ls, k + 1, end)
        }
    }
}

/// The `blur true|false` lines from `k` to `end`, each setting `blur`.
pub open spec fn blur_scan(ls: Seq<Seq<char>>, k: int, end: int, m: Seq<(Seq<char>, JsonV)>) -> Seq<(Seq<char>, JsonV)>
    decreases end - k,
{
    if k < 0 || k >= end || k >= ls.len() {
        m
    } else {
        let s = text::trim(ls[k]);
        let w = text::words(s);
        let m2 = if text::starts_with(s, "blur"@) && w.len() == 2 {
            obj_insert(m, "blur"@, JsonV::Bool(w[1] == "true"@))
        } else {
            m
        };
        blur_scan(ls, k + 1, end, m2)
    }
}

/// Lines that set no `blur` leave the rule as it is.
proof fn lemma_blur_scan_keeps(ls: Seq<Seq<char>>, k: int, end: int, m: Seq<(Seq<char>, JsonV)>)
    requires
        0 <= k,
        forall|q: int| k <= q < end ==> !text::starts_with(text::trim(#[trigger] ls[q]), "blur"@),
    ensures
        blur_scan(ls, k, end, m) == m,
    decreases end - k,
{
    if k < end && k < ls.len() {
        lemma_blur_scan_keeps(ls, k + 1, end, m);
    }
}

/// A rule's blur reads as its last `blur W` line says: on exactly when `W`
/// is `true`, so `blur false` reads as off whatever came before it.
pub proof fn law_blur_line_reads(
    ls: Seq<Seq<char>>,
    k: int,
    end: int,
    m: Seq<(Seq<char>, JsonV)>,
    p: int,
    w: Seq<char>,
)
    requires
        0 <= k <= p < end <= ls.len(),
        text::trim(ls[p]) == "blur "@ + w,
        w.len() > 0,
        forall|i: int| 0 <= i < w.len() ==> !text::is_ws(#[trigger] w[i]),
        forall|q: int| p < q < end ==> !text::starts_with(text::trim(#[trigger] ls[q]), "blur"@),
    ensures
        lookup(blur_scan(ls, k, end, m), "blur"@) == Some(JsonV::Bool(w == "true"@)),
    decreases p - k,
{
    let s = text::trim(ls[k]);
    let ws = text::words(s);
    let m2 = if text::starts_with(s, "blur"@) && ws.len() == 2 {
        obj_insert(m, "blur"@, JsonV::Bool(ws[1] == "true"@))
    } else {
        m
    };
    assert(blur_scan(ls, k, end, m) == blur_scan(ls, k + 1, end, m2));
    if k < p {
        law_blur_line_reads(ls, k + 1, end, m2, p, w);
    } else {
        reveal_strlit("blur ");
        reveal_strlit("blur");
        let b: Seq<char> = "blur"@;
        assert("blur "@ + w =~= b + seq![' '] + w);
        assert forall|i: int| 0 <= i < b.len() implies !text::is_ws(#[trigger] b[i]) by {}
        text::lemma_two_words(b, w);
        assert(s.take(4) =~= b);
        assert(m2 == obj_insert(m, "blur"@, JsonV::Bool(w == "true"@)));
        lemma_blur_scan_keeps(ls, p + 1, end, m2);
        settings::lemma_lookup_insert_same(m, "blur"@, JsonV::Bool(w == "true"@));
    }
}

/// The first line from `k` that starts with `}` closes the block.
proof fn lemma_close_at(ls: Seq<Seq<char>>, k: int, end: int, ie: int)
    requires
        0 <= k <= ie < end,
        ie < ls.len(),
        text::trim(ls[ie]).len() > 0 && text::trim(ls[ie])[0] == '}',
        forall|q: int| k <= q < ie ==> !(text::trim(#[trigger] ls[q]).len() > 0 && text::trim(ls[q])[0] == '}'),
    ensures
        close_from(ls, k, end) == Some(ie),
    decreases ie - k,
{
    if k < ie {
        lemma_close_at(ls, k + 1, end, ie);
    }
}

/// A rule's `background-effect` block sets the rule's blur as its last
/// `blur W` line says: on exactly when `W` is `true`.
pub proof fn law_background_effect_blur(
    ls: Seq<Seq<char>>,
    j: int,
    end: int,
    m: Seq<(Seq<char>, JsonV)>,
    p: int,
    w: Seq<char>,
    ie: int,
)
    requires
        0 <= j < p < ie < end <= ls.len(),
        text::starts_with(text::trim(ls[j]), "background-effect"@),
        text::trim(ls[p]) == "blur "@ + w,
        w.len() > 0,
        forall|i: int| 0 <= i < w.len() ==> !text::is_ws(#[trigger] w[i]),
        text::trim(ls[ie]).len() > 0 && text::trim(ls[ie])[0] == '}',
        forall|q: int| j < q < ie ==> !(text::trim(#[trigger] ls[q]).len() > 0 && text::trim(ls[q])[0] == '}'),
        forall|q: int| p < q < ie ==> !text::starts_with(text::trim(#[trigger] ls[q]), "blur"@),
    ensures
        lookup(apply_line(ls, j, end, m), "blur"@) == Some(JsonV::Bool(w == "true"@)),
{
    let s = text::trim(ls[j]);
    reveal_strlit("background-effect");
    reveal_strlit("match app-id");
    reveal_strlit("match title");
    reveal_strlit("opacity");
    reveal_strlit("open-floating");
    reveal_strlit("geometry-corner-radius");
    reveal_strlit("clip-to-geometry");
    assert(s.take(17) =~= "background-effect"@);
    assert(s.take(17)[0] == s[0]);
    assert(s[0] == 'b');
    assert(!text::starts_with(s, "match app-id"@)) by {
        assert(s.take(12)[0] != "match app-id"@[0]);
    }
    assert(!text::starts_with(s, "match title"@)) by {
        assert(s.take(11)[0] != "match title"@[0]);
    }
    assert(!text::starts_with(s, "opacity"@)) by {
        assert(s.take(7)[0] != "opacity"@[0]);
    }
    assert(!text::starts_with(s, "open-floating"@)) by {
        assert(s.take(13)[0] != "open-floating"@[0]);
    }
    assert(!text::starts_with(s, "geometry-corner-radius"@)) by {
        if "geometry-corner-radius"@.len() <= s.len() {
            assert(s.take(22)[0] != "geometry-corner-radius"@[0]);
        }
    }
    assert(!text::starts_with(s, "clip-to-geometry"@)) by {
        assert(s.take(16)[0] != "clip-to-geometry"@[0]);
    }
    lemma_close_at(ls, j + 1, end, ie);
    law_blur_line_reads(ls, j + 1, ie, m, p, w);
}

/// A rule written with blur `b` reads back with blur `b`: the line that
/// `rule_lines` writes inside `background-effect` sets the blur to `b`.
pub proof fn law_written_blur_reads_back(b: bool, m: Seq<(Seq<char>, JsonV)>)
    ensures
        lookup(blur_scan(seq!["        blur "@ + bool_text(b)], 0, 1, m), "blur"@) == Some(JsonV::Bool(b)),
{
    reveal_strlit("        blur ");
    reveal_strlit("blur ");
    reveal_strlit("true");
    reveal_strlit("false");
    let w = bool_text(b);
    let l: Seq<char> = "        blur "@ + w;
    let v: Seq<char> = "blur "@ + w;
    assert(l =~= l.take(8) + v);
    text::lemma_trim_start_after_ws(l.take(8), v);
    text::lemma_trim_plain(v);
    assert(text::trim(l) == v);
    assert forall|i: int| 0 <= i < w.len() implies !text::is_ws(#[trigger] w[i]) by {}
    law_blur_line_reads(seq![l], 0, 1, m, 0, w);
    assert((w == "true"@) == b);
}

/// A number member from the second word of a line, when that word reads as
/// a floating point number; `null` for an infinity or not a number (JSON has
/// no such numbers).
pub open spec fn with_number(m: Seq<(Seq<char>, JsonV)>, key: Seq<char>, s: Seq<char>) -> Seq<(Seq<char>, JsonV)> {
    match second_word(s) {
        Some(w) => if num::is_special_float(w) {
            obj_insert(m, key, JsonV::Null)
        } else if num::is_float_text(w) {
            obj_insert(m, key, JsonV::Num(w))
        } else {
            m
        },
        None => m,
    }
}

/// A boolean member from the second word of a line (`true` or anything else).
pub open spec fn with_flag(m: Seq<(Seq<char>, JsonV)>, key: Seq<char>, s: Seq<char>) -> Seq<(Seq<char>, JsonV)> {
    match second_word(s) {
        Some(w) => obj_insert(m, key, JsonV::Bool(w == "true"@)),
        None => m,
    }
}

/// What line `j` of a block that closes at `end` sets in the rule `m`.
pub open spec fn apply_line(ls: Seq<Seq<char>>, j: int, end: int, m: Seq<(Seq<char>, JsonV)>) -> Seq<(Seq<char>, JsonV)> {
    let s = text::trim(ls[j]);
    if text::starts_with(s, "match app-id"@) && first_quoted(s) is Some {
        obj_insert(m, "app_id"@, JsonV::Str(first_quoted(s)->0))
    } else if text::starts_with(s, "match title"@) && first_quoted(s) is Some {
        obj_insert(m, "title"@, JsonV::Str(first_quoted(s)->0))
    } else if text::starts_with(s, "opacity"@) {
        with_number(m, "opacity"@, s)
    } else if text::starts_with(s, "open-floating"@) {
        with_flag(m, "open_floating"@, s)
    } else if text::starts_with(s, "geometry-corner-radius"@) {
        with_number(m, "corner_radius"@, s)
    } else if text::starts_with(s, "clip-to-geometry"@) {
        with_flag(m, "clip_to_geometry"@, s)
    } else if text::starts_with(s, "background-effect"@) {
        match close_from(ls, j + 1, end) {
            Some(ie) => blur_scan(ls, j + 1, ie, m),
            None => m,
        }
    } else {
        m
    }
}

/// The rule `m` after the lines `j` to `end` of its block.
pub open spec fn fold_rule(ls: Seq<Seq<char>>, j: int, end: int, m: Seq<(Seq<char>, JsonV)>) -> Seq<(Seq<char>, JsonV)>
    decreases end - j,
{
    if j >= end {
        m
    } else {
        fold_rule(ls, j + 1, end, apply_line(ls, j, end, m))
    }
}

/// A rule with every member unset.
pub open spec fn empty_rule(index: int) -> Seq<(Seq<char>, JsonV)> {
    seq![
        ("app_id"@, JsonV::Str(seq![])),
        ("blur"@, JsonV::Null),
        ("clip_to_geometry"@, JsonV::Null),
        ("corner_radius"@, JsonV::Null),
        ("index"@, JsonV::Num(num::dec(index))),
        ("open_floating"@, JsonV::Null),
        ("opacity"@, JsonV::Null),
        ("title"@, JsonV::Str(seq![])),
    ]
}

/// The rule that block `b` of the lines `ls` holds, as rule number `index`.
pub open spec fn rule_at(ls: Seq<Seq<char>>, b: (int, int), index: int) -> JsonV {
    JsonV::Obj(fold_rule(ls, b.0 + 1, b.1, empty_rule(index)))
}

/// The rules of a file, in order.
pub open spec fn spec_list_rules(content: Seq<char>) -> Seq<JsonV> {
    let ls = text::lines(content);
    let bs = blocks(content, "window-rule"@);
    Seq::new(bs.len(), |k: int| rule_at(ls, bs[k], k))
}

pub fn quoted_of(s: &Vec<char>) -> (r: Option<Vec<char>>)
    ensures
        match r {
            Some(q) => first_quoted(s@) == Some(q@),
            None => first_quoted(s@) is None,
        },
{
    let a = text::find_char(s, '"');
    if a >= s.len() {
        return None;
    }
    let rest = text::slice(s, a + 1, s.len());
    assert(rest@ =~= s@.skip(a + 1 as int));
    let b = text::find_char(&rest, '"');
    if b >= rest.len() {
        return None;
    }
    let q = text::slice(&rest, 0, b);
    assert(q@ =~= rest@.take(b as int));
    Some(q)
}

pub fn second_of(s: &Vec<char>) -> (r: Option<Vec<char>>)
    ensures
        match r {
            Some(w) => second_word(s@) == Some(w@),
            None => second_word(s@) is None,
        },
{
    let w = text::words_of(s);
    if w.len() >= 2 {
        assert(w@[1]@ == text::views(w@)[1]);
        Some(text::slice(&w[1], 0, w[1].len()))
    } else {
        None
    }
}

fn key(k: &str) -> (r: Vec<char>)
    ensures
        r@ == k@,
{
    text::lit(k)
}

fn set_number(m: Vec<(String, Json)>, k: &str, s: &Vec<char>) -> (r: Vec<(String, Json)>)
    ensures
        jv_members(r@) == with_number(jv_members(m@), k@, s@),
{
    match second_of(s) {
        Some(w) => if num::special_float(&w) {
            settings::insert_member(m, &key(k), Json::Null)
        } else if num::float_text(&w) {
            settings::insert_member(m, &key(k), Json::Number(text::string_of(&w)))
        } else {
            m
        },
        None => m,
    }
}

fn set_flag(m: Vec<(String, Json)>, k: &str, s: &Vec<char>) -> (r: Vec<(String, Json)>)
    ensures
        jv_members(r@) == with_flag(jv_members(m@), k@, s@),
{
    match second_of(s) {
        Some(w) => {
            let t = text::same(&w, &text::lit("true"));
            settings::insert_member(m, &key(k), Json::Bool(t))
        },
        None => m,
    }
}

fn find_close(ls: &Vec<Vec<char>>, k: usize, end: usize) -> (r: Option<usize>)
    requires
        k <= end <= ls.len(),
    ensures
        match r {
            Some(x) => close_from(text::views(ls@), k as int, end as int) == Some(x as int) && k <= x < end,
            None => close_from(text::views(ls@), k as int, end as int) is None,
        },
{
    let ghost lv = text::views(ls@);
    let mut i: usize = k;
    while i < end
        invariant
            k <= i <= end <= ls.len(),
            lv == text::views(ls@),
            close_from(lv, k as int, end as int) == close_from(lv, i as int, end as int),
        decreases end - i,
    {
        let s = text::trimmed(&ls[i]);
        assert(ls@[i as int]@ == lv[i as int]);
        if s.len() > 0 && s[0] == '}' {
            return Some(i);
        }
        i += 1;
    }
    None
}

fn scan_blur(ls: &Vec<Vec<char>>, k: usize, end: usize, m: Vec<(String, Json)>) -> (r: Vec<(String, Json)>)
    requires
        k <= end <= ls.len(),
    ensures
        jv_members(r@) == blur_scan(text::views(ls@), k as int, end as int, jv_members(m@)),
{
    let ghost lv = text::views(ls@);
    let mut i: usize = k;
    let mut acc = m;
    while i < end
        invariant
            k <= i <= end <= ls.len(),
            lv == text::views(ls@),
            blur_scan(lv, k as int, end as int, jv_members(m@)) == blur_scan(lv, i as int, end as int, jv_members(acc@)),
        decreases end - i,
    {
        let s = text::trimmed(&ls[i]);
        assert(ls@[i as int]@ == lv[i as int]);
        let w = text::words_of(&s);
        if text::has_prefix(&s, &text::lit("blur")) && w.len() == 2 {
            assert(w@[1]@ == text::views(w@)[1]);
            let t = text::same(&w[1], &text::lit("true"));
            acc = settings::insert_member(acc, &key("blur"), Json::Bool(t));
        }
        i += 1;
    }
    acc
}

fn read_line(ls: &Vec<Vec<char>>, j: usize, end: usize, m: Vec<(String, Json)>) -> (r: Vec<(String, Json)>)
    requires
        j < end <= ls.len(),
    ensures
        jv_members(r@) == apply_line(text::views(ls@), j as int, end as int, jv_members(m@)),
{
    let ghost lv = text::views(ls@);
    let s = text::trimmed(&ls[j]);
    assert(ls@[j as int]@ == lv[j as int]);
    let q = quoted_of(&s);
    if text::has_prefix(&s, &text::lit("match app-id")) && q.is_some() {
        let v = q.unwrap();
        settings::insert_member(m, &key("app_id"), Json::Str(text::string_of(&v)))
    } else if text::has_prefix(&s, &text::lit("match title")) && q.is_some() {
        let v = q.unwrap();
        settings::insert_member(m, &key("title"), Json::Str(text::string_of(&v)))
    } else if text::has_prefix(&s, &text::lit("opacity")) {
        set_number(m, "opacity", &s)
    } else if text::has_prefix(&s, &text::lit("open-floating")) {
        set_flag(m, "open_floating", &s)
    } else if text::has_prefix(&s, &text::lit("geometry-corner-radius")) {
        set_number(m, "corner_radius", &s)
    } else if text::has_prefix(&s, &text::lit("clip-to-geometry")) {
        set_flag(m, "clip_to_geometry", &s)
    } else if text::has_prefix(&s, &text::lit("background-effect")) {
        match find_close(ls, j + 1, end) {
            Some(ie) => scan_blur(ls, j + 1, ie, m),
            None => m,
        }
    } else {
        m
    }
}

fn str_json(s: &str) -> (r: Json)
    ensures
        r@ == JsonV::Str(s@),
{
    Json::Str(s.to_string())
}

fn empty_rule_of(index: usize) -> (r: Vec<(String, Json)>)
    ensures
        jv_members(r@) == empty_rule(index as int),
{
    let mut m: Vec<(String, Json)> = Vec::new();
    let ghost m0 = jv_members(m@);
    assert(m0 =~= Seq::<(Seq<char>, JsonV)>::empty());
    proof {
        reveal_strlit("");
        assert(""@ =~= Seq::<char>::empty());
    }
    let e = str_json("");
    assert(e@ == JsonV::Str(seq![]));
    m = settings::with_member(m, "app_id", e);
    m = settings::with_member(m, "blur", Json::Null);
    m = settings::with_member(m, "clip_to_geometry", Json::Null);
    m = settings::with_member(m, "corner_radius", Json::Null);
    let n = num::nat_to_digits(index as u64);
    let nj = Json::Number(text::string_of(&n));
    assert(nj@ == JsonV::Num(num::dec(index as int)));
    m = settings::with_member(m, "index", nj);
    m = settings::with_member(m, "open_floating", Json::Null);
    m = settings::with_member(m, "opacity", Json::Null);
    let e2 = str_json("");
    assert(e2@ == JsonV::Str(seq![]));
    m = settings::with_member(m, "title", e2);
    assert(jv_members(m@) =~= empty_rule(index as int));
    m
}

fn read_rule(ls: &Vec<Vec<char>>, start: usize, end: usize, index: usize) -> (r: Json)
    requires
        start < end < ls.len(),
    ensures
        r@ == rule_at(text::views(ls@), (start as int, end as int), index as int),
{
    let ghost lv = text::views(ls@);
    let mut m = empty_rule_of(index);
    let mut j: usize = start + 1;
    while j < end
        invariant
            start < j <= end < ls.len(),
            lv == text::views(ls@),
            fold_rule(lv, start + 1, end as int, empty_rule(index as int)) == fold_rule(lv, j as int, end as int, jv_members(m@)),
        decreases end - j,
    {
        m = read_line(ls, j, end, m);
        j += 1;
    }
    Json::Object(m)
}

pub open spec fn json_views(v: Seq<Json>) -> Seq<JsonV> {
    v.map_values(|j: Json| j@)
}

impl WindowRulesService {
    /// The window rules of `config.kdl` (its text), in order; a rule's
    /// `index` is its place in that order.
    pub fn list_rules(content: &str) -> (r: Vec<Json>)
        ensures
            json_views(r@) == spec_list_rules(content@),
    {
        let ls = text::lines_of(content);
        let bs = rule_blocks(&ls);
        let ghost lv = text::views(ls@);
        let ghost bv = pair_views(bs@);
        let mut rules: Vec<Json> = Vec::new();
        let mut k: usize = 0;
        while k < bs.len()
            invariant
                k <= bs.len(),
                lv == text::views(ls@),
                lv == text::lines(content@),
                bv == pair_views(bs@),
                bv == blocks(content@, "window-rule"@),
                spaced(bv, 0, ls.len() as int),
                json_views(rules@) =~= Seq::new(k as nat, |i: int| rule_at(lv, bv[i], i)),
            decreases bs.len() - k,
        {
            assert(bv[k as int] == (bs@[k as int].0 as int, bs@[k as int].1 as int));
            let (start, end) = bs[k];
            let r = read_rule(&ls, start, end, k);
            let ghost r0 = json_views(rules@);
            rules.push(r);
            assert(json_views(rules@) =~= r0.push(rule_at(lv, bv[k as int], k as int)));
            k += 1;
        }
        rules
    }
}

// ---------------------------------------------------------------- writing

/// A member of a rule (none when the rule is not an object).
pub open spec fn rule_member(rule: JsonV, k: Seq<char>) -> Option<JsonV> {
    match rule {
        JsonV::Obj(m) => lookup(m, k),
        _ => None,
    }
}

pub open spec fn bool_text(b: bool) -> Seq<char> {
    if b {
        "true"@
    } else {
        "false"@
    }
}

/// A `match` line for a non-empty string member.
pub open spec fn with_match(l: Seq<Seq<char>>, v: Option<JsonV>, head: Seq<char>) -> Seq<Seq<char>> {
    match v {
        Some(JsonV::Str(a)) => if a.len() > 0 {
            l.push(head + a + "\""@)
        } else {
            l
        },
        _ => l,
    }
}

/// A line for a number member.
pub open spec fn with_num_line(l: Seq<Seq<char>>, v: Option<JsonV>, head: Seq<char>) -> Seq<Seq<char>> {
    match v {
        Some(JsonV::Num(n)) => l.push(head + n),
        _ => l,
    }
}

/// A line for a boolean member.
pub open spec fn with_bool_line(l: Seq<Seq<char>>, v: Option<JsonV>, head: Seq<char>) -> Seq<Seq<char>> {
    match v {
        Some(JsonV::Bool(b)) => l.push(head + bool_text(b)),
        _ => l,
    }
}

/// The lines of the block that states a rule: a member that is missing or
/// of another type than its line needs gives no line.
pub open spec fn rule_lines(rule: JsonV) -> Seq<Seq<char>> {
    let l1 = with_match(seq!["window-rule {"@], rule_member(rule, "app_id"@), "    match app-id=\""@);
    let l2 = with_match(l1, rule_member(rule, "title"@), "    match title=\""@);
    let l3 = with_num_line(l2, rule_member(rule, "opacity"@), "    opacity "@);
    let l4 = with_bool_line(l3, rule_member(rule, "open_floating"@), "    open-floating "@);
    let l5 = with_num_line(l4, rule_member(rule, "corner_radius"@), "    geometry-corner-radius "@);
    let l6 = with_bool_line(l5, rule_member(rule, "clip_to_geometry"@), "    clip-to-geometry "@);
    let l7 = match rule_member(rule, "blur"@) {
        Some(JsonV::Bool(b)) => l6.push("    background-effect {"@).push("        blur "@ + bool_text(b)).push("    }"@),
        _ => l6,
    };
    l7.push("}"@)
}

/// The text of a rule's block, ending with a line break.
pub open spec fn serialize_rule(rule: JsonV) -> Seq<char> {
    text::join(rule_lines(rule), text::nl()) + text::nl()
}

/// The lines of a file with block `k` on replaced by rule `k` (a block
/// without a rule is dropped), from line `cursor` on.
pub open spec fn rewritten(ls: Seq<Seq<char>>, bs: Seq<(int, int)>, rules: Seq<JsonV>, k: int, cursor: int) -> Seq<Seq<char>>
    decreases bs.len() - k,
{
    if k < 0 || k >= bs.len() {
        ls.subrange(cursor, ls.len() as int)
    } else {
        ls.subrange(cursor, bs[k].0) + (if k < rules.len() {
            text::lines(serialize_rule(rules[k]))
        } else {
            seq![]
        }) + rewritten(ls, bs, rules, k + 1, bs[k].1 + 1)
    }
}

/// The file with its window rules replaced by `rules`, everything between
/// them kept (none when it has no window rule: nothing is written then).
pub open spec fn spec_rewrite_all(content: Seq<char>, rules: Seq<JsonV>) -> Option<Seq<char>> {
    let bs = blocks(content, "window-rule"@);
    if bs.len() == 0 {
        None
    } else {
        Some(text::join(rewritten(text::lines(content), bs, rules, 0, 0), text::nl()) + text::nl())
    }
}

fn member_ref<'a>(rule: &'a Json, k: &str) -> (r: Option<&'a Json>)
    ensures
        match r {
            Some(x) => rule_member(rule@, k@) == Some(x@),
            None => rule_member(rule@, k@) is None,
        },
{
    match rule {
        Json::Object(m) => {
            let i = settings::member_of(m, &key(k));
            proof {
                settings::lemma_jv_members(m@);
                settings::lemma_member_index(jv_members(m@), k@);
            }
            if i < m.len() {
                Some(&m[i].1)
            } else {
                None
            }
        },
        _ => None,
    }
}

fn cat(a: &str, b: &Vec<char>) -> (r: Vec<char>)
    ensures
        r@ == a@ + b@,
{
    let mut v = text::lit(a);
    text::append(&mut v, b);
    v
}

fn push_match(l: &mut Vec<Vec<char>>, v: Option<&Json>, head: &str)
    ensures
        text::views(final(l)@) == with_match(text::views(old(l)@), match v {
            Some(x) => Some(x@),
            None => None,
        }, head@),
{
    let ghost l0 = text::views(l@);
    match v {
        Some(Json::Str(a)) => {
            let av = text::chars_of(a.as_str());
            if av.len() > 0 {
                let mut line = cat(head, &av);
                text::append(&mut line, &text::lit("\""));
                l.push(line);
                assert(text::views(l@) =~= l0.push(head@ + a@ + "\""@));
            }
        },
        _ => {},
    }
}

fn push_num(l: &mut Vec<Vec<char>>, v: Option<&Json>, head: &str)
    ensures
        text::views(final(l)@) == with_num_line(text::views(old(l)@), match v {
            Some(x) => Some(x@),
            None => None,
        }, head@),
{
    let ghost l0 = text::views(l@);
    match v {
        Some(Json::Number(n)) => {
            let line = cat(head, &text::chars_of(n.as_str()));
            l.push(line);
            assert(text::views(l@) =~= l0.push(head@ + n@));
        },
        _ => {},
    }
}

fn bool_chars(b: bool) -> (r: Vec<char>)
    ensures
        r@ == bool_text(b),
{
    if b {
        text::lit("true")
    } else {
        text::lit("false")
    }
}

fn push_bool(l: &mut Vec<Vec<char>>, v: Option<&Json>, head: &str)
    ensures
        text::views(final(l)@) == with_bool_line(text::views(old(l)@), match v {
            Some(x) => Some(x@),
            None => None,
        }, head@),
{
    let ghost l0 = text::views(l@);
    match v {
        Some(Json::Bool(b)) => {
            let line = cat(head, &bool_chars(*b));
            l.push(line);
            assert(text::views(l@) =~= l0.push(head@ + bool_text(*b)));
        },
        _ => {},
    }
}

fn rule_text(rule: &Json) -> (r: Vec<char>)
    ensures
        r@ == serialize_rule(rule@),
{
    let mut l: Vec<Vec<char>> = Vec::new();
    l.push(text::lit("window-rule {"));
    assert(text::views(l@) =~= seq!["window-rule {"@]);
    push_match(&mut l, member_ref(rule, "app_id"), "    match app-id=\"");
    push_match(&mut l, member_ref(rule, "title"), "    match title=\"");
    push_num(&mut l, member_ref(rule, "opacity"), "    opacity ");
    push_bool(&mut l, member_ref(rule, "open_floating"), "    open-floating ");
    push_num(&mut l, member_ref(rule, "corner_radius"), "    geometry-corner-radius ");
    push_bool(&mut l, member_ref(rule, "clip_to_geometry"), "    clip-to-geometry ");
    let ghost l6 = text::views(l@);
    match member_ref(rule, "blur") {
        Some(Json::Bool(b)) => {
            l.push(text::lit("    background-effect {"));
            l.push(cat("        blur ", &bool_chars(*b)));
            l.push(text::lit("    }"));
            assert(text::views(l@) =~= l6.push("    background-effect {"@).push("        blur "@ + bool_text(*b)).push("    }"@));
        },
        _ => {},
    }
    let ghost l7 = text::views(l@);
    l.push(text::lit("}"));
    assert(text::views(l@) =~= l7.push("}"@));
    let mut sep: Vec<char> = Vec::new();
    sep.push('\n');
    assert(sep@ == text::nl());
    let mut out = text::join_with(&l, &sep);
    text::append(&mut out, &sep);
    out
}

fn push_range(out: &mut Vec<Vec<char>>, ls: &Vec<Vec<char>>, a: usize, b: usize)
    requires
        a <= b <= ls.len(),
    ensures
        text::views(final(out)@) == text::views(old(out)@) + text::views(ls@).subrange(a as int, b as int),
{
    let ghost o0 = text::views(out@);
    let mut j: usize = a;
    while j < b
        invariant
            a <= j <= b <= ls.len(),
            text::views(out@) == o0 + text::views(ls@).subrange(a as int, j as int),
        decreases b - j,
    {
        let ghost o1 = text::views(out@);
        let x = text::slice(&ls[j], 0, ls[j].len());
        assert(x@ =~= ls@[j as int]@);
        out.push(x);
        assert(text::views(out@) =~= o1.push(ls@[j as int]@));
        assert(o0 + text::views(ls@).subrange(a as int, j + 1) =~= (o0 + text::views(ls@).subrange(a as int, j as int)).push(
            ls@[j as int]@,
        ));
        j += 1;
    }
}

fn push_all(out: &mut Vec<Vec<char>>, more: &Vec<Vec<char>>)
    ensures
        text::views(final(out)@) == text::views(old(out)@) + text::views(more@),
{
    push_range(out, more, 0, more.len());
    assert(text::views(more@).subrange(0, more.len() as int) =~= text::views(more@));
}

/// The file with its window rules replaced by `rules`.
fn rewrite(content: &str, rules: &Vec<Json>) -> (r: Option<String>)
    ensures
        match r {
            Some(t) => spec_rewrite_all(content@, json_views(rules@)) == Some(t@),
            None => spec_rewrite_all(content@, json_views(rules@)) is None,
        },
{
    let ls = text::lines_of(content);
    let bs = rule_blocks(&ls);
    if bs.len() == 0 {
        return None;
    }
    let ghost lv = text::views(ls@);
    let ghost bv = pair_views(bs@);
    let ghost rv = json_views(rules@);
    let mut out: Vec<Vec<char>> = Vec::new();
    let mut cursor: usize = 0;
    let mut k: usize = 0;
    assert(text::views(out@) + rewritten(lv, bv, rv, 0, 0) =~= rewritten(lv, bv, rv, 0, 0));
    while k < bs.len()
        invariant
            k <= bs.len(),
            lv == text::views(ls@),
            bv == pair_views(bs@),
            rv == json_views(rules@),
            spaced(bv, 0, ls.len() as int),
            k == 0 ==> cursor == 0,
            k > 0 ==> cursor == bv[k - 1].1 + 1,
            rewritten(lv, bv, rv, 0, 0) == text::views(out@) + rewritten(lv, bv, rv, k as int, cursor as int),
        decreases bs.len() - k,
    {
        assert(bv[k as int] == (bs@[k as int].0 as int, bs@[k as int].1 as int));
        if k > 0 {
            assert(bv[k - 1].1 < bv[k as int].0);
        }
        let (start, end) = bs[k];
        let ghost o0 = text::views(out@);
        push_range(&mut out, &ls, cursor, start);
        let ghost o1 = text::views(out@);
        let ghost part: Seq<Seq<char>> = if k < rules.len() {
            text::lines(serialize_rule(rv[k as int]))
        } else {
            seq![]
        };
        if k < rules.len() {
            let t = rule_text(&rules[k]);
            let tl = text::split_lines(&t);
            push_all(&mut out, &tl);
        }
        assert(text::views(out@) == o1 + part);
        assert(o0 + (lv.subrange(cursor as int, start as int) + part + rewritten(lv, bv, rv, k + 1, end + 1)) =~= text::views(
            out@,
        ) + rewritten(lv, bv, rv, k + 1, end + 1));
        cursor = end + 1;
        k += 1;
    }
    push_range(&mut out, &ls, cursor, ls.len());
    let t = text::join_lines(&out);
    let mut v = text::chars_of(t.as_str());
    v.push('\n');
    assert(v@ =~= text::join(text::views(out@), text::nl()) + text::nl());
    Some(text::string_of(&v))
}

impl WindowRulesService {
    /// The window rules of `config.kdl` (its text) replaced by `rules`, in
    /// order, with everything between them kept; none when the file has no
    /// window rule, so that nothing is written.
    pub fn rewrite_all(content: &str, rules: &Vec<Json>) -> (r: Option<String>)
        ensures
            match r {
                Some(t) => spec_rewrite_all(content@, json_views(rules@)) == Some(t@),
                None => spec_rewrite_all(content@, json_views(rules@)) is None,
            },
    {
        rewrite(content, rules)
    }
}

// ---------------------------------------------------------------- edits

pub open spec fn opt_num(v: Option<Seq<char>>) -> JsonV {
    match v {
        Some(n) => JsonV::Num(n),
        None => JsonV::Null,
    }
}

pub open spec fn opt_bool(v: Option<bool>) -> JsonV {
    match v {
        Some(b) => JsonV::Bool(b),
        None => JsonV::Null,
    }
}

/// A new rule from the page's fields (numbers by their text).
pub open spec fn new_rule(
    app_id: Seq<char>,
    title: Seq<char>,
    opacity: Option<Seq<char>>,
    open_floating: Option<bool>,
    corner_radius: Option<Seq<char>>,
    clip_to_geometry: Option<bool>,
    blur: Option<bool>,
) -> JsonV {
    JsonV::Obj(seq![
        ("app_id"@, JsonV::Str(app_id)),
        ("blur"@, opt_bool(blur)),
        ("clip_to_geometry"@, opt_bool(clip_to_geometry)),
        ("corner_radius"@, opt_num(corner_radius)),
        ("open_floating"@, opt_bool(open_floating)),
        ("opacity"@, opt_num(opacity)),
        ("title"@, JsonV::Str(title)),
    ])
}

/// The file with a rule added at its end, after a line break when it does
/// not end with one, a blank line and a comment line.
pub open spec fn with_rule(content: Seq<char>, rule: JsonV) -> Seq<char> {
    let c = if content.len() > 0 && content.last() != '\n' {
        content.push('\n')
    } else {
        content
    };
    c + "\n// Window rule (custom)\n"@ + serialize_rule(rule)
}

/// A rule with the members of `updates` set (when both are objects).
pub open spec fn merge_rule(rule: JsonV, updates: JsonV) -> JsonV {
    match (rule, updates) {
        (JsonV::Obj(m), JsonV::Obj(u)) => JsonV::Obj(settings::merge_members(m, u)),
        _ => rule,
    }
}

pub open spec fn range_error(index: int) -> Seq<char> {
    "window-rule index out of range: "@ + num::dec(index)
}

fn opt_text(v: Option<&str>) -> (r: Json)
    ensures
        r@ == opt_num(text::opt_view(v)),
{
    match v {
        Some(t) => Json::Number(t.to_string()),
        None => Json::Null,
    }
}

fn opt_flag(v: Option<bool>) -> (r: Json)
    ensures
        r@ == opt_bool(v),
{
    match v {
        Some(b) => Json::Bool(b),
        None => Json::Null,
    }
}

fn new_rule_of(
    app_id: &str,
    title: &str,
    opacity: Option<&str>,
    open_floating: Option<bool>,
    corner_radius: Option<&str>,
    clip_to_geometry: Option<bool>,
    blur: Option<bool>,
) -> (r: Json)
    ensures
        r@ == new_rule(app_id@, title@, text::opt_view(opacity), open_floating, text::opt_view(corner_radius), clip_to_geometry, blur),
{
    let mut m: Vec<(String, Json)> = Vec::new();
    assert(jv_members(m@) =~= Seq::<(Seq<char>, JsonV)>::empty());
    m = settings::with_member(m, "app_id", str_json(app_id));
    m = settings::with_member(m, "blur", opt_flag(blur));
    m = settings::with_member(m, "clip_to_geometry", opt_flag(clip_to_geometry));
    m = settings::with_member(m, "corner_radius", opt_text(corner_radius));
    m = settings::with_member(m, "open_floating", opt_flag(open_floating));
    m = settings::with_member(m, "opacity", opt_text(opacity));
    m = settings::with_member(m, "title", str_json(title));
    let r = Json::Object(m);
    assert(jv_members(m@) =~= seq![
        ("app_id"@, JsonV::Str(app_id@)),
        ("blur"@, opt_bool(blur)),
        ("clip_to_geometry"@, opt_bool(clip_to_geometry)),
        ("corner_radius"@, opt_num(text::opt_view(corner_radius))),
        ("open_floating"@, opt_bool(open_floating)),
        ("opacity"@, opt_num(text::opt_view(opacity))),
        ("title"@, JsonV::Str(title@)),
    ]);
    r
}

fn merge_json(rule: Json, updates: &Json) -> (r: Json)
    ensures
        r@ == merge_rule(rule@, updates@),
{
    match (rule, updates) {
        (Json::Object(m), Json::Object(u)) => Json::Object(settings::merge_of(m, u)),
        (other, _) => other,
    }
}

fn range_error_of(index: usize) -> (r: String)
    ensures
        r@ == range_error(index as int),
{
    let mut v = text::lit("window-rule index out of range: ");
    text::append(&mut v, &num::nat_to_digits(index as u64));
    text::string_of(&v)
}

fn count_rules(content: &str) -> (r: usize)
    ensures
        r == blocks(content@, "window-rule"@).len(),
{
    let ls = text::lines_of(content);
    let bs = rule_blocks(&ls);
    bs.len()
}

impl WindowRulesService {
    /// How many window rules the file holds.
    pub fn rule_count(content: &str) -> (r: usize)
        ensures
            r == blocks(content@, "window-rule"@).len(),
    {
        count_rules(content)
    }

    /// The file with a rule made of the page's fields added at its end
    /// (`opacity` and `corner_radius` are the text of the numbers).
    pub fn with_rule(
        content: &str,
        app_id: &str,
        title: &str,
        opacity: Option<&str>,
        open_floating: Option<bool>,
        corner_radius: Option<&str>,
        clip_to_geometry: Option<bool>,
        blur: Option<bool>,
    ) -> (r: String)
        ensures
            r@ == with_rule(content@, new_rule(app_id@, title@, text::opt_view(opacity), open_floating,
                text::opt_view(corner_radius), clip_to_geometry, blur)),
    {
        let rule = new_rule_of(app_id, title, opacity, open_floating, corner_radius, clip_to_geometry, blur);
        let mut c = text::chars_of(content);
        if c.len() > 0 && c[c.len() - 1] != '\n' {
            c.push('\n');
        }
        text::append(&mut c, &text::lit("\n// Window rule (custom)\n"));
        text::append(&mut c, &rule_text(&rule));
        text::string_of(&c)
    }

    /// Adds a rule at the end of the file: the new text, and the rule's
    /// index, the number of window rules of the new text less one.
    pub fn add_rule(
        content: &str,
        app_id: &str,
        title: &str,
        opacity: Option<&str>,
        open_floating: Option<bool>,
        corner_radius: Option<&str>,
        clip_to_geometry: Option<bool>,
        blur: Option<bool>,
    ) -> (r: (String, usize))
        requires
            blocks(with_rule(content@, new_rule(app_id@, title@, text::opt_view(opacity), open_floating,
                text::opt_view(corner_radius), clip_to_geometry, blur)), "window-rule"@).len() >= 1,
        ensures
            r.0@ == with_rule(content@, new_rule(app_id@, title@, text::opt_view(opacity), open_floating,
                text::opt_view(corner_radius), clip_to_geometry, blur)),
            r.1 + 1 == blocks(r.0@, "window-rule"@).len(),
    {
        let t = Self::with_rule(content, app_id, title, opacity, open_floating, corner_radius, clip_to_geometry, blur);
        let n = count_rules(t.as_str());
        (t, n - 1)
    }

    /// Sets the members of `updates` in rule `index` of `rules` (the rules
    /// of `content`) and writes them back: an error when there is no such
    /// rule, else the new text (none when the file has no window rule).
    pub fn update_rule(content: &str, rules: Vec<Json>, index: usize, updates: &Json) -> (r: Result<Option<String>, String>)
        ensures
            index >= rules.len() <==> r is Err,
            r is Err ==> r->Err_0@ == range_error(index as int),
            r is Ok ==> match r->Ok_0 {
                Some(t) => spec_rewrite_all(content@, json_views(rules@).update(index as int, merge_rule(json_views(rules@)[index as int], updates@))) == Some(t@),
                None => spec_rewrite_all(content@, json_views(rules@).update(index as int, merge_rule(json_views(rules@)[index as int], updates@))) is None,
            },
    {
        if index >= rules.len() {
            return Err(range_error_of(index));
        }
        let ghost rv = json_views(rules@);
        let mut rules = rules;
        let old_rule = settings::copy_json(&rules[index]);
        let ghost ov = old_rule@;
        assert(ov == rv[index as int]);
        let merged = merge_json(old_rule, updates);
        let ghost mv = merged@;
        rules.set(index, merged);
        assert(json_views(rules@) =~= rv.update(index as int, mv));
        Ok(rewrite(content, &rules))
    }

    /// Removes rule `index` of `rules` (the rules of `content`) and writes
    /// the rest back: an error when there is no such rule, else the new text
    /// (none when the file has no window rule).
    pub fn delete_rule(content: &str, rules: Vec<Json>, index: usize) -> (r: Result<Option<String>, String>)
        ensures
            index >= rules.len() <==> r is Err,
            r is Err ==> r->Err_0@ == range_error(index as int),
            r is Ok ==> match r->Ok_0 {
                Some(t) => spec_rewrite_all(content@, json_views(rules@).remove(index as int)) == Some(t@),
                None => spec_rewrite_all(content@, json_views(rules@).remove(index as int)) is None,
            },
    {
        if index >= rules.len() {
            return Err(range_error_of(index));
        }
        let ghost rv = json_views(rules@);
        let mut rules = rules;
        rules.remove(index);
        assert(json_views(rules@) =~= rv.remove(index as int));
        Ok(rewrite(content, &rules))
    }
}

} // verus!
