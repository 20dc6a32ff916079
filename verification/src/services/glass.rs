//! The blur of ChurrOS's own window rules, between the marker lines of
//! `config.kdl`: what `set_glass_blur` writes, `get_glass_blur` reads back.
use vstd::prelude::*;
use crate::text;
use crate::services::niri_config::{
    blur_word, glass_bounds, glass_end, glass_line, glass_lines, glass_start, joined, replace_first, spec_glass_blur,
    spec_set_glass_blur,
};

verus! {

/// The marked region has a line `blur true` or `blur false`.
pub open spec fn has_blur_line(content: Seq<char>) -> bool {
    match glass_bounds(content) {
        Some((s, e)) => blur_word(text::lines(content.subrange(s, e)), 0) is Some,
        None => false,
    }
}

spec fn no_nl(l: Seq<char>) -> bool {
    forall|j: int| 0 <= j < l.len() ==> #[trigger] l[j] != '\n'
}

spec fn lines_no_nl(ls: Seq<Seq<char>>) -> bool {
    forall|a: int, b: int| 0 <= a < ls.len() && 0 <= b < ls[a].len() ==> #[trigger] ls[a][b] != '\n'
}

/// A blur line rewritten: white space, the new words, white space.
proof fn lemma_rewrite(l: Seq<char>, from: Seq<char>, to: Seq<char>)
    requires
        text::trim(l) == from,
        from.len() > 0,
        to.len() > 0,
        to[0] == 'b',
        to.last() == 'e',
        no_nl(to),
        !to.contains('\r'),
    ensures
        text::trim(replace_first(l, from, to)) == to,
        replace_first(l, from, to)[0] != '/',
        no_nl(l) ==> no_nl(replace_first(l, from, to)),
        !l.contains('\r') ==> !replace_first(l, from, to).contains('\r'),
{
    let a = text::lemma_trim_split(l);
    let w1 = l.take(a);
    let w2 = l.skip(a + from.len());
    assert(text::occurs_at(l, from, a));
    assert forall|k: int| 0 <= k < a implies !text::occurs_at(l, from, k) by {
        if text::occurs_at(l, from, k) {
            assert(l.subrange(k, k + from.len())[0] == l[k]);
            assert(is_ws_at(l, k));
        }
    }
    text::lemma_find_first(l, from, 0, a);
    let r = replace_first(l, from, to);
    assert(r == w1 + to + w2);
    assert forall|j: int| 0 <= j < w1.len() implies text::is_ws(#[trigger] w1[j]) by {
        assert(w1[j] == l[j]);
    }
    assert forall|j: int| 0 <= j < w2.len() implies text::is_ws(#[trigger] w2[j]) by {
        assert(w2[j] == l[a + from.len() + j]);
    }
    text::lemma_trim_start_after_ws(w1, to + w2);
    assert(w1 + (to + w2) =~= r);
    text::lemma_trim_end_concat(to, w2);
    text::lemma_trim_end_all_ws(w2);
    assert(text::trim_end(w2) =~= Seq::<char>::empty());
    assert(to + text::trim_end(w2) =~= to);
    if a > 0 {
        assert(r[0] == w1[0]);
    } else {
        assert(r[0] == to[0]);
    }
    if !l.contains('\r') {
        assert forall|j: int| 0 <= j < r.len() implies #[trigger] r[j] != '\r' by {
            if j < w1.len() {
                assert(r[j] == l[j]);
            } else if j < w1.len() + to.len() {
                assert(r[j] == to[j - w1.len()]);
            } else {
                assert(r[j] == w2[j - w1.len() - to.len()]);
                assert(w2[j - w1.len() - to.len()] == l[a + from.len() + (j - w1.len() - to.len())]);
            }
        }
    }
    if no_nl(l) {
        assert forall|j: int| 0 <= j < r.len() implies #[trigger] r[j] != '\n' by {
            if j < w1.len() {
                assert(r[j] == l[j]);
            } else if j < w1.len() + to.len() {
                assert(r[j] == to[j - w1.len()]);
            } else {
                assert(r[j] == w2[j - w1.len() - to.len()]);
                assert(w2[j - w1.len() - to.len()] == l[a + from.len() + (j - w1.len() - to.len())]);
            }
        }
    }
}

spec fn is_ws_at(l: Seq<char>, k: int) -> bool {
    text::is_ws(l[k])
}

/// A line after the blur is set: a blur line reads the new blur, any other
/// is kept; a rewritten line does not start with `/`.
proof fn lemma_glass_line(l: Seq<char>, enabled: bool)
    ensures
        text::trim(glass_line(l, enabled)) == (if text::trim(l) == "blur true"@ || text::trim(l) == "blur false"@ {
            if enabled {
                "blur true"@
            } else {
                "blur false"@
            }
        } else {
            text::trim(l)
        }),
        glass_line(l, enabled).len() > 0 && glass_line(l, enabled)[0] == '/' ==> glass_line(l, enabled) == l,
        no_nl(l) ==> no_nl(glass_line(l, enabled)),
        !l.contains('\r') ==> !glass_line(l, enabled).contains('\r'),
        glass_line(glass_line(l, enabled), enabled) == glass_line(l, enabled),
{
    reveal_strlit("blur true");
    reveal_strlit("blur false");
    assert(!"blur true"@.contains('\r')) by {
        if "blur true"@.contains('\r') {
            let q = choose|q: int| 0 <= q < "blur true"@.len() && "blur true"@[q] == '\r';
        }
    }
    assert(!"blur false"@.contains('\r')) by {
        if "blur false"@.contains('\r') {
            let q = choose|q: int| 0 <= q < "blur false"@.len() && "blur false"@[q] == '\r';
        }
    }
    if !enabled && text::trim(l) == "blur true"@ {
        lemma_rewrite(l, "blur true"@, "blur false"@);
    } else if enabled && text::trim(l) == "blur false"@ {
        lemma_rewrite(l, "blur false"@, "blur true"@);
    }
}

/// The first blur line of the rewritten lines reads the new blur.
proof fn lemma_blur_word_glass(ls: Seq<Seq<char>>, enabled: bool, i: int)
    requires
        0 <= i,
    ensures
        blur_word(glass_lines(ls, enabled), i) == (if blur_word(ls, i) is Some {
            Some(enabled)
        } else {
            None::<bool>
        }),
    decreases ls.len() - i,
{
    reveal_strlit("blur true");
    reveal_strlit("blur false");
    if i < ls.len() {
        lemma_glass_line(ls[i], enabled);
        assert(glass_lines(ls, enabled)[i] == glass_line(ls[i], enabled));
        lemma_blur_word_glass(ls, enabled, i + 1);
    }
}

/// `blur_word` past a prefix of lines.
proof fn lemma_blur_word_shift(x: Seq<Seq<char>>, r: Seq<Seq<char>>, j: int)
    requires
        0 <= j,
    ensures
        blur_word(x + r, x.len() + j) == blur_word(r, j),
    decreases r.len() - j,
{
    if j < r.len() {
        assert((x + r)[x.len() + j] == r[j]);
        lemma_blur_word_shift(x, r, j + 1);
    }
}

/// The first blur line of lines that start with `a`.
proof fn lemma_blur_word_cons(a: Seq<char>, r: Seq<Seq<char>>)
    ensures
        blur_word(seq![a] + r, 0) == (if text::trim(a) == "blur true"@ {
            Some(true)
        } else if text::trim(a) == "blur false"@ {
            Some(false)
        } else {
            blur_word(r, 0)
        }),
{
    assert((seq![a] + r)[0] == a);
    lemma_blur_word_shift(seq![a], r, 0);
}

/// The text after `k`, whose first line is `a`.
spec fn ends(trail: bool) -> Seq<char> {
    if trail {
        text::nl()
    } else {
        seq![]
    }
}

/// Reading the lines of joined lines finds the same first blur line.
proof fn lemma_blur_word_rejoin(ls: Seq<Seq<char>>, trail: bool)
    requires
        lines_no_nl(ls),
    ensures
        blur_word(text::lines(text::join(ls, text::nl()) + ends(trail)), 0) == blur_word(ls, 0),
    decreases ls.len(),
{
    reveal_strlit("blur true");
    reveal_strlit("blur false");
    let n = text::join(ls, text::nl()) + ends(trail);
    if ls.len() == 0 {
        if trail {
            assert(n =~= seq!['\n']);
            text::lemma_index_of_char(n, '\n', 0);
            assert(n.skip(1).len() == 0);
            assert(text::lines(n) == seq![text::strip_cr(n.take(0))] + text::lines(n.skip(1)));
            assert(text::trim(text::strip_cr(n.take(0))).len() == 0);
            lemma_blur_word_cons(text::strip_cr(n.take(0)), text::lines(n.skip(1)));
        } else {
            assert(n.len() == 0);
        }
    } else if ls.len() == 1 {
        let l0 = ls[0];
        assert(text::join(ls, text::nl()) == l0);
        assert(ls =~= seq![l0] + Seq::<Seq<char>>::empty());
        lemma_blur_word_cons(l0, Seq::<Seq<char>>::empty());
        if trail {
            assert(n == l0 + text::nl());
            assert(n[l0.len() as int] == '\n');
            assert forall|j: int| 0 <= j < l0.len() implies n[j] != '\n' by {
                assert(n[j] == ls[0][j]);
            }
            text::lemma_index_of_char(n, '\n', l0.len() as int);
            assert(n.take(l0.len() as int) =~= l0);
            assert(n.skip(l0.len() + 1 as int).len() == 0);
            assert(text::lines(n) == seq![text::strip_cr(n.take(l0.len() as int))] + text::lines(n.skip(l0.len() + 1 as int)));
            assert(text::lines(n.skip(l0.len() + 1 as int)) == Seq::<Seq<char>>::empty());
            assert(text::lines(n) =~= seq![text::strip_cr(l0)] + Seq::<Seq<char>>::empty());
            text::lemma_trim_strip_cr(l0);
            lemma_blur_word_cons(text::strip_cr(l0), Seq::<Seq<char>>::empty());
        } else {
            assert(n =~= l0);
            if l0.len() == 0 {
                assert(text::trim(l0).len() == 0);
            } else {
                assert forall|j: int| 0 <= j < n.len() implies n[j] != '\n' by {
                    assert(n[j] == ls[0][j]);
                }
                text::lemma_index_of_char(n, '\n', n.len() as int);
                assert(text::lines(n) =~= seq![l0] + Seq::<Seq<char>>::empty());
            }
        }
    } else {
        let l0 = ls[0];
        let r = ls.drop_first();
        text::lemma_join_front(ls, text::nl());
        let jr = text::join(r, text::nl());
        assert(n =~= l0 + text::nl() + (jr + ends(trail)));
        assert(n[l0.len() as int] == '\n');
        assert forall|j: int| 0 <= j < l0.len() implies n[j] != '\n' by {
            assert(n[j] == ls[0][j]);
        }
        text::lemma_index_of_char(n, '\n', l0.len() as int);
        assert(n.take(l0.len() as int) =~= l0);
        assert(n.skip(l0.len() + 1 as int) =~= jr + ends(trail));
        assert(text::lines(n) == seq![text::strip_cr(l0)] + text::lines(jr + ends(trail)));
        assert(lines_no_nl(r)) by {
            assert forall|a: int, b: int| 0 <= a < r.len() && 0 <= b < r[a].len() implies #[trigger] r[a][b] != '\n' by {
                assert(r[a] == ls[a + 1]);
            }
        }
        lemma_blur_word_rejoin(r, trail);
        text::lemma_trim_strip_cr(l0);
        lemma_blur_word_cons(text::strip_cr(l0), text::lines(jr + ends(trail)));
        assert(ls =~= seq![l0] + r);
        lemma_blur_word_cons(l0, r);
    }
}

/// The end marker: a `'\n'`, then 22 characters that are not.
proof fn lemma_end_marker()
    ensures
        glass_end().len() == 23,
        glass_end()[0] == '\n',
        glass_end()[1] == '/',
        forall|q: int| 1 <= q < 23 ==> glass_end()[q] != '\n',
{
    reveal_strlit("\n// [CHURROS-GLASS-END]");
}

/// The rewritten lines hold no `'\n'`.
proof fn lemma_glass_lines_no_nl(r: Seq<char>, enabled: bool)
    ensures
        lines_no_nl(glass_lines(text::lines(r), enabled)),
{
    let ls = text::lines(r);
    let l = glass_lines(ls, enabled);
    text::lemma_lines_no_nl(r);
    assert forall|a: int, b: int| 0 <= a < l.len() && 0 <= b < l[a].len() implies #[trigger] l[a][b] != '\n' by {
        assert(no_nl(ls[a])) by {
            assert forall|j: int| 0 <= j < ls[a].len() implies #[trigger] ls[a][j] != '\n' by {}
        }
        lemma_glass_line(ls[a], enabled);
        assert(l[a] == glass_line(ls[a], enabled));
    }
}

/// The rewritten region, which ends with a `'\n'` when the region did.
spec fn new_region(r: Seq<char>, enabled: bool) -> Seq<char> {
    text::join(glass_lines(text::lines(r), enabled), text::nl()) + ends(r.len() > 0 && r.last() == '\n')
}

/// When the end marker first occurs right after the region, it first occurs
/// right after the rewritten region too.
proof fn lemma_no_early_end(r: Seq<char>, t: Seq<char>, enabled: bool)
    requires
        text::occurs_at(r + t, glass_end(), r.len() as int),
        forall|k: int| 0 <= k < r.len() ==> !text::occurs_at(r + t, glass_end(), k),
    ensures
        forall|k: int| 0 <= k < new_region(r, enabled).len() ==> !text::occurs_at(new_region(r, enabled) + t, glass_end(), k),
{
    let em = glass_end();
    lemma_end_marker();
    let ls = text::lines(r);
    let l = glass_lines(ls, enabled);
    let j = text::join(l, text::nl());
    let trail = r.len() > 0 && r.last() == '\n';
    let n = new_region(r, enabled);
    let x = n + t;
    lemma_glass_lines_no_nl(r, enabled);
    assert((r + t).subrange(r.len() as int, r.len() + 23 as int)[0] == t[0]);
    assert(t[0] == '\n');
    assert forall|k: int| 0 <= k < n.len() implies !text::occurs_at(x, em, k) by {
        if text::occurs_at(x, em, k) {
            assert forall|q: int| 0 <= q < 23 implies x[k + q] == em[q] by {
                assert(x.subrange(k, k + 23)[q] == x[k + q]);
            }
            if k == j.len() {
                assert(trail);
                assert(x[k + 1] == t[0]);
                assert(false);
            } else {
                assert(x[k] == j[k]);
                let i = text::lemma_join_nl(l, k);
                let tail = l.skip(i + 1);
                let m = l[i + 1];
                assert(tail[0] == m);
                assert(j.skip(k + 1) == text::join(tail, text::nl()));
                assert forall|q: int| 0 <= q < m.len() implies x[k + 1 + q] == m[q] by {
                    if tail.len() >= 2 {
                        text::lemma_join_front(tail, text::nl());
                        assert(text::join(tail, text::nl())[q] == m[q]);
                    } else {
                        assert(tail =~= seq![m]);
                        assert(text::join(tail, text::nl()) == m);
                    }
                    assert(q < text::join(tail, text::nl()).len());
                    assert(j.skip(k + 1).len() == j.len() - (k + 1));
                    assert(k + 1 + q < j.len());
                    assert(j.skip(k + 1)[q] == j[k + 1 + q]);
                    assert(x[k + 1 + q] == n[k + 1 + q]);
                    assert(n[k + 1 + q] == j[k + 1 + q]);
                }
                if m.len() < 22 {
                    let p = k + 1 + m.len();
                    if tail.len() >= 2 {
                        text::lemma_join_front(tail, text::nl());
                        assert(text::join(tail, text::nl())[m.len() as int] == '\n');
                        assert(m.len() < text::join(tail, text::nl()).len());
                        assert(j.skip(k + 1).len() == j.len() - (k + 1));
                        assert(p < j.len());
                        assert(j.skip(k + 1)[m.len() as int] == j[p]);
                        assert(x[p] == n[p]);
                        assert(n[p] == j[p]);
                    } else {
                        assert(tail =~= seq![m]);
                        assert(text::join(tail, text::nl()) == m);
                        assert(j.len() == p);
                        if trail {
                            assert(x[p] == n[p]);
                        } else {
                            assert(x[p] == t[0]);
                        }
                    }
                    assert(x[p] == '\n');
                    assert(x[p] == em[p - k]);
                    assert(false);
                } else {
                    assert(m[0] == em[1]);
                    assert(l[i + 1] == glass_line(ls[i + 1], enabled));
                    lemma_glass_line(ls[i + 1], enabled);
                    assert(m == ls[i + 1]);
                    let p = text::lemma_lines_suffix(r, i + 1);
                    let rs = r.skip(p);
                    assert(text::lines(rs)[0] == ls[i + 1]);
                    text::lemma_lines_first_prefix(rs);
                    assert(text::starts_with(rs, m));
                    assert(m.len() <= rs.len());
                    assert(p + 22 <= r.len());
                    assert forall|q: int| 0 <= q < 22 implies r[p + q] == m[q] by {
                        assert(rs.take(m.len() as int)[q] == rs[q]);
                        assert(rs[q] == r[p + q]);
                    }
                    assert(text::occurs_at(r + t, em, p - 1)) by {
                        assert forall|q: int| 0 <= q < 23 implies (r + t).subrange(p - 1, p - 1 + 23)[q] == em[q] by {
                            if q == 0 {
                                assert((r + t)[p - 1] == r[p - 1]);
                            } else {
                                assert(p - 1 + q < r.len());
                                assert((r + t)[p - 1 + q] == r[p - 1 + q]);
                                assert(r[p + (q - 1)] == m[q - 1]);
                                assert(x[k + 1 + (q - 1)] == m[q - 1]);
                                assert(x[k + q] == em[q]);
                            }
                        }
                        assert((r + t).subrange(p - 1, p - 1 + 23) =~= em);
                    }
                    assert(false);
                }
            }
        }
    }
}

/// What `set_glass_blur` writes: the text before the region, the rewritten
/// region and the text from the end marker on; the markers are found again
/// around the rewritten region.
proof fn lemma_set_shape(content: Seq<char>, enabled: bool)
    requires
        glass_bounds(content) is Some,
    ensures
        ({
            let (s, e) = glass_bounds(content).unwrap();
            let n = new_region(content.subrange(s, e), enabled);
            let new = content.take(s) + n + content.skip(e);
            &&& 0 <= s <= e <= content.len()
            &&& spec_set_glass_blur(content, enabled) == Some(new)
            &&& glass_bounds(new) == Some((s, s + n.len()))
            &&& new.subrange(s, s + n.len()) == n
        }),
{
    let sm = glass_start();
    let em = glass_end();
    lemma_end_marker();
    text::lemma_find_from_first(content, sm, 0);
    let i = text::find(content, sm).unwrap();
    let s = i + sm.len();
    let c2 = content.skip(s);
    text::lemma_find_from_first(c2, em, 0);
    let jj = text::find(c2, em).unwrap();
    let e = s + jj;
    assert(glass_bounds(content) == Some((s, e)));
    let r = content.subrange(s, e);
    let t = content.skip(e);
    assert(c2 =~= r + t);
    assert forall|k: int| 0 <= k < r.len() implies !text::occurs_at(r + t, em, k) by {
        assert(0 <= k < jj);
    }
    lemma_no_early_end(r, t, enabled);
    let ls = text::lines(r);
    let l = glass_lines(ls, enabled);
    let trail = r.len() > 0 && r.last() == '\n';
    let n = new_region(r, enabled);
    let jn = joined(l);
    let nr2 = if trail { jn.push('\n') } else { jn };
    assert(nr2 =~= n);
    let new = content.take(s) + n + t;
    assert(spec_set_glass_blur(content, enabled) == Some(new));
    assert forall|k: int| 0 <= k <= i implies text::occurs_at(new, sm, k) == text::occurs_at(content, sm, k) by {
        assert(new.subrange(k, k + sm.len()) =~= content.subrange(k, k + sm.len()));
    }
    text::lemma_find_first(new, sm, 0, i);
    assert(new.skip(s) =~= n + t);
    assert((n + t).subrange(n.len() as int, n.len() + 23 as int) =~= (r + t).subrange(r.len() as int, r.len() + 23 as int));
    text::lemma_find_first(n + t, em, 0, n.len() as int);
    assert(glass_bounds(new) == Some((s, s + n.len())));
    assert(new.subrange(s, s + n.len()) =~= n);
}

/// Setting the blur twice is setting it once: on a configuration with the
/// markers and without `'\r'`, a second `set_glass_blur` with the same
/// value writes the text unchanged.
pub proof fn law_glass_blur_idempotent(content: Seq<char>, enabled: bool)
    requires
        glass_bounds(content) is Some,
        !content.contains('\r'),
    ensures
        spec_set_glass_blur(content, enabled) is Some,
        spec_set_glass_blur(spec_set_glass_blur(content, enabled).unwrap(), enabled) == spec_set_glass_blur(content, enabled),
{
    lemma_set_shape(content, enabled);
    let (s, e) = glass_bounds(content).unwrap();
    let r = content.subrange(s, e);
    let t = content.skip(e);
    let n = new_region(r, enabled);
    let c2 = content.take(s) + n + t;
    lemma_set_shape(c2, enabled);
    assert(c2.subrange(s, s + n.len()) == n);
    assert(c2.take(s) =~= content.take(s));
    assert(c2.skip(s + n.len()) =~= t);
    // the region holds no '\r', nor do its rewritten lines
    assert(!r.contains('\r')) by {
        if r.contains('\r') {
            let q = choose|q: int| 0 <= q < r.len() && r[q] == '\r';
            assert(content[s + q] == '\r');
        }
    }
    let ls = text::lines(r);
    let l = glass_lines(ls, enabled);
    text::lemma_lines_no_cr(r);
    lemma_glass_lines_no_nl(r, enabled);
    assert forall|a: int| 0 <= a < l.len() implies !(#[trigger] l[a]).contains('\r') && text::strip_cr(l[a]) == l[a]
        && glass_line(l[a], enabled) == l[a] by {
        assert(!ls[a].contains('\r')) by {
            if ls[a].contains('\r') {
                let q = choose|q: int| 0 <= q < ls[a].len() && ls[a][q] == '\r';
                assert(ls[a][q] != '\r');
            }
        }
        lemma_glass_line(ls[a], enabled);
        assert(l[a] == glass_line(ls[a], enabled));
        if l[a].len() > 0 {
            assert(l[a][l[a].len() - 1] != '\r');
        }
    }
    let trail = r.len() > 0 && r.last() == '\n';
    let ln = text::lines(n);
    // the lines of the rewritten region are its rewritten lines
    assert(ln.len() <= l.len() && forall|i: int| 0 <= i < ln.len() ==> #[trigger] ln[i] == l[i]) by {
        if trail {
            assert(ls.len() > 0);
            text::lemma_lines_of_joined(l);
            assert(n == text::join(l, text::nl()) + text::nl());
        } else if l.len() == 0 {
            assert(n =~= Seq::<char>::empty());
            assert(ln =~= Seq::<Seq<char>>::empty());
        } else if l.last().len() > 0 {
            text::lemma_lines_of_join(l);
            assert(n =~= text::join(l, text::nl()));
        } else if l.len() == 1 {
            assert(text::join(l, text::nl()) == l[0]);
            assert(n =~= Seq::<char>::empty());
            assert(ln =~= Seq::<Seq<char>>::empty());
        } else {
            let d = l.drop_last();
            assert(text::join(l, text::nl()) =~= text::join(d, text::nl()) + text::nl());
            assert forall|a: int, b: int| 0 <= a < d.len() && 0 <= b < d[a].len() implies #[trigger] d[a][b] != '\n' by {
                assert(d[a] == l[a]);
            }
            text::lemma_lines_of_joined(d);
            assert forall|i: int| 0 <= i < ln.len() implies #[trigger] ln[i] == l[i] by {
                assert(d[i] == l[i]);
            }
        }
    }
    assert(glass_lines(ln, enabled) =~= ln) by {
        assert forall|i: int| 0 <= i < ln.len() implies #[trigger] glass_lines(ln, enabled)[i] == ln[i] by {
            assert(ln[i] == l[i]);
        }
    }
    assert(!n.contains('\r')) by {
        if n.contains('\r') {
            let q = choose|q: int| 0 <= q < n.len() && n[q] == '\r';
            lemma_glass_lines_no_nl(r, enabled);
            lemma_no_cr_join(l, trail);
            assert(n[q] != '\r');
        }
    }
    text::lemma_rejoin(n);
    assert(new_region(n, enabled) =~= n);
}

/// Setting the blur keeps the number of lines, on a configuration with the
/// markers and without `'\r'`.
pub proof fn law_glass_blur_keeps_line_count(content: Seq<char>, enabled: bool)
    requires
        glass_bounds(content) is Some,
        !content.contains('\r'),
    ensures
        spec_set_glass_blur(content, enabled) is Some,
        text::lines(spec_set_glass_blur(content, enabled).unwrap()).len() == text::lines(content).len(),
{
    lemma_set_shape(content, enabled);
    let (s, e) = glass_bounds(content).unwrap();
    let r = content.subrange(s, e);
    let t = content.skip(e);
    let a = content.take(s);
    let n = new_region(r, enabled);
    let new = a + n + t;
    // the end marker starts the rest, so both texts end as the rest does
    lemma_end_marker();
    text::lemma_find_from_first(content, glass_start(), 0);
    text::lemma_find_from_first(content.skip(s), glass_end(), 0);
    assert(t.len() >= 23) by {
        assert(content.skip(s).len() == content.len() - s);
    }
    assert(content =~= a + r + t);
    assert(new.last() == t.last() && content.last() == t.last());
    text::lemma_lines_count(content);
    text::lemma_lines_count(new);
    text::lemma_count_concat(a, r, '\n');
    text::lemma_count_concat(a + r, t, '\n');
    text::lemma_count_concat(a, n, '\n');
    text::lemma_count_concat(a + n, t, '\n');
    // the region and its rewrite hold as many line breaks
    assert(!r.contains('\r')) by {
        if r.contains('\r') {
            let q = choose|q: int| 0 <= q < r.len() && r[q] == '\r';
            assert(content[s + q] == '\r');
        }
    }
    let ls = text::lines(r);
    let l = glass_lines(ls, enabled);
    let trail = r.len() > 0 && r.last() == '\n';
    text::lemma_rejoin(r);
    text::lemma_lines_no_nl(r);
    lemma_glass_lines_no_nl(r, enabled);
    if ls.len() == 0 {
        assert(r.len() == 0);
        assert(n =~= Seq::<char>::empty());
    } else {
        text::lemma_count_join(ls);
        text::lemma_count_join(l);
        text::lemma_count_concat(text::join(ls, text::nl()), ends(trail), '\n');
        text::lemma_count_concat(text::join(l, text::nl()), ends(trail), '\n');
        assert(r == text::join(ls, text::nl()) + ends(trail));
    }
}

/// Lines without `'\r'` joined (and ended) hold none.
proof fn lemma_no_cr_join(l: Seq<Seq<char>>, trail: bool)
    requires
        forall|a: int| 0 <= a < l.len() ==> !(#[trigger] l[a]).contains('\r'),
    ensures
        !(text::join(l, text::nl()) + ends(trail)).contains('\r'),
    decreases l.len(),
{
    let x = text::join(l, text::nl()) + ends(trail);
    if l.len() == 0 {
        assert(x =~= ends(trail));
    } else {
        let d = l.drop_last();
        lemma_no_cr_join(d, false);
        assert(d.len() == 0 ==> text::join(l, text::nl()) == l[0]);
        assert forall|q: int| 0 <= q < x.len() implies x[q] != '\r' by {
            let jd = text::join(d, text::nl());
            if l.len() == 1 {
                if q < l[0].len() {
                    assert(x[q] == l[0][q]);
                    assert(!l[0].contains('\r'));
                }
            } else {
                assert(text::join(l, text::nl()) == jd + text::nl() + l.last());
                assert(!(jd + ends(false)).contains('\r'));
                assert(jd + ends(false) =~= jd);
                if q < jd.len() {
                    assert(x[q] == jd[q]);
                } else if q > jd.len() && q < jd.len() + 1 + l.last().len() {
                    assert(x[q] == l.last()[q - jd.len() - 1]);
                    assert(!l[l.len() - 1].contains('\r'));
                }
            }
        }
    }
}

/// What `set_glass_blur` writes, `get_glass_blur` reads back: on a
/// configuration with the markers, once the blur is set to `enabled`, the
/// marked window rules read `enabled` when they have a `blur` line, and off
/// (as without one) when they have none; the text before the region and from
/// its end marker on is kept.
pub proof fn law_glass_blur_reads_back(content: Seq<char>, enabled: bool)
    requires
        glass_bounds(content) is Some,
    ensures
        spec_set_glass_blur(content, enabled) is Some,
        spec_glass_blur(spec_set_glass_blur(content, enabled).unwrap()) == Some(enabled && has_blur_line(content)),
        text::starts_with(spec_set_glass_blur(content, enabled).unwrap(), content.take(glass_bounds(content).unwrap().0)),
        text::ends_with(spec_set_glass_blur(content, enabled).unwrap(), content.skip(glass_bounds(content).unwrap().1)),
{
    lemma_set_shape(content, enabled);
    let (s, e) = glass_bounds(content).unwrap();
    let r = content.subrange(s, e);
    let t = content.skip(e);
    let n = new_region(r, enabled);
    let new = content.take(s) + n + t;
    let ls = text::lines(r);
    let l = glass_lines(ls, enabled);
    let trail = r.len() > 0 && r.last() == '\n';
    lemma_glass_lines_no_nl(r, enabled);
    lemma_blur_word_rejoin(l, trail);
    lemma_blur_word_glass(ls, enabled, 0);
    assert(new.take(s) =~= content.take(s));
    assert(new.skip(new.len() - t.len()) =~= t);
}

} // verus!
