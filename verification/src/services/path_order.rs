//! The order of paths (`Path`'s `Ord`): by their components, which on Unix
//! are the root, a leading `.`, `..` and the names between `/`s (empty names
//! and the other `.`s are not components).
use vstd::prelude::*;
use crate::text;

verus! {

// ---------------------------------------------------------------- model

/// A component: its kind (1 the root, 2 a leading `.`, 3 `..`, 4 a name) and
/// its name (empty but for names). Kinds order as `Component`'s variants.
pub type Comp = (int, Seq<char>);

/// The components of the parts between `/`s: empty parts and `.` are not
/// components, `..` is the parent.
pub open spec fn body_comps(parts: Seq<Seq<char>>) -> Seq<Comp>
    decreases parts.len(),
{
    if parts.len() == 0 {
        seq![]
    } else {
        let s = parts[0];
        let rest = body_comps(parts.drop_first());
        if s.len() == 0 || s == "."@ {
            rest
        } else if s == ".."@ {
            seq![(3int, Seq::<char>::empty())] + rest
        } else {
            seq![(4int, s)] + rest
        }
    }
}

/// The first component: the root of an absolute path, or the `.` that
/// starts a relative one.
pub open spec fn head_comps(p: Seq<char>) -> Seq<Comp> {
    if p.len() > 0 && p[0] == '/' {
        seq![(1int, Seq::<char>::empty())]
    } else if p == "."@ || text::starts_with(p, "./"@) {
        seq![(2int, Seq::<char>::empty())]
    } else {
        seq![]
    }
}

/// The components of a path (`Path::components` on Unix).
pub open spec fn comps(p: Seq<char>) -> Seq<Comp> {
    head_comps(p) + body_comps(text::split(p, '/'))
}

/// One component before another: by kind, then by name.
pub open spec fn comp_lt(a: Comp, b: Comp) -> bool {
    a.0 < b.0 || (a.0 == b.0 && text::str_lt(a.1, b.1))
}

/// Components compared in order, a proper prefix first.
pub open spec fn comps_lt(x: Seq<Comp>, y: Seq<Comp>) -> bool
    decreases x.len(),
{
    if x.len() == 0 {
        y.len() > 0
    } else if y.len() == 0 {
        false
    } else if x[0] != y[0] {
        comp_lt(x[0], y[0])
    } else {
        comps_lt(x.drop_first(), y.drop_first())
    }
}

/// `a < b` for paths.
pub open spec fn path_lt(a: Seq<char>, b: Seq<char>) -> bool {
    comps_lt(comps(a), comps(b))
}

/// Each path before the next.
pub open spec fn path_sorted(v: Seq<Seq<char>>) -> bool {
    forall|i: int, j: int| 0 <= i < j < v.len() ==> path_lt(#[trigger] v[i], #[trigger] v[j])
}

/// No path before `m` has the components of the one at `m`.
pub open spec fn first_of_its_path(v: Seq<Seq<char>>, m: int) -> bool {
    forall|m2: int| 0 <= m2 < m ==> comps(#[trigger] v[m2]) != comps(v[m])
}

/// `r` is `v` sorted as paths, each path once (as `sort` then `dedup` on
/// `PathBuf`s leave them): in order, each one the first of its path in `v`,
/// and every path of `v` there.
pub open spec fn sorted_once(v: Seq<Seq<char>>, r: Seq<Seq<char>>) -> bool {
    &&& path_sorted(r)
    &&& firsts_of(v, r)
    &&& covers(v, r)
}

/// `x` is the first path of `v` with its components.
pub open spec fn first_in(v: Seq<Seq<char>>, x: Seq<char>) -> bool {
    exists|m: int| 0 <= m < v.len() && first_of_its_path(v, m) && x == #[trigger] v[m]
}

/// Some path of `r` has the components of `x`.
pub open spec fn has_path(r: Seq<Seq<char>>, x: Seq<char>) -> bool {
    exists|k: int| 0 <= k < r.len() && comps(#[trigger] r[k]) == comps(x)
}

/// Each path of `r` is the first path of `v` with its components.
pub open spec fn firsts_of(v: Seq<Seq<char>>, r: Seq<Seq<char>>) -> bool {
    forall|k: int| 0 <= k < r.len() ==> first_in(v, #[trigger] r[k])
}

/// Each path of `v` has its components in `r`.
pub open spec fn covers(v: Seq<Seq<char>>, r: Seq<Seq<char>>) -> bool {
    forall|m: int| 0 <= m < v.len() ==> has_path(r, #[trigger] v[m])
}

// ---------------------------------------------------------------- the order

proof fn lemma_comp_lt_irreflexive(a: Comp)
    ensures
        !comp_lt(a, a),
{
    text::lemma_str_lt_irreflexive(a.1);
}

proof fn lemma_comp_lt_transitive(a: Comp, b: Comp, c: Comp)
    requires
        comp_lt(a, b),
        comp_lt(b, c),
    ensures
        comp_lt(a, c),
{
    if a.0 == b.0 && b.0 == c.0 {
        text::lemma_str_lt_transitive(a.1, b.1, c.1);
    }
}

proof fn lemma_comp_total(a: Comp, b: Comp)
    ensures
        a == b || comp_lt(a, b) || comp_lt(b, a),
{
    text::lemma_str_lt_total(a.1, b.1);
}

pub proof fn lemma_comps_lt_irreflexive(x: Seq<Comp>)
    ensures
        !comps_lt(x, x),
    decreases x.len(),
{
    if x.len() > 0 {
        lemma_comps_lt_irreflexive(x.drop_first());
    }
}

pub proof fn lemma_comps_lt_transitive(x: Seq<Comp>, y: Seq<Comp>, z: Seq<Comp>)
    requires
        comps_lt(x, y),
        comps_lt(y, z),
    ensures
        comps_lt(x, z),
    decreases x.len(),
{
    if x.len() > 0 && y.len() > 0 && z.len() > 0 {
        if x[0] == y[0] && y[0] == z[0] {
            lemma_comps_lt_transitive(x.drop_first(), y.drop_first(), z.drop_first());
        } else if x[0] != y[0] && y[0] != z[0] {
            lemma_comp_lt_transitive(x[0], y[0], z[0]);
            if x[0] == z[0] {
                lemma_comp_lt_irreflexive(x[0]);
            }
        }
    }
}

pub proof fn lemma_comps_lt_total(x: Seq<Comp>, y: Seq<Comp>)
    ensures
        x == y || comps_lt(x, y) || comps_lt(y, x),
    decreases x.len(),
{
    if x.len() > 0 && y.len() > 0 {
        if x[0] == y[0] {
            lemma_comps_lt_total(x.drop_first(), y.drop_first());
            if x.drop_first() == y.drop_first() {
                assert(x =~= seq![x[0]] + x.drop_first());
                assert(y =~= seq![y[0]] + y.drop_first());
            }
        } else {
            lemma_comp_total(x[0], y[0]);
        }
    } else if x.len() == 0 && y.len() == 0 {
        assert(x =~= y);
    }
}

// ---------------------------------------------------------------- exec

pub open spec fn comp_views(v: Seq<(u8, Vec<char>)>) -> Seq<Comp> {
    v.map_values(|c: (u8, Vec<char>)| (c.0 as int, c.1@))
}

/// The components of a path.
pub fn comps_of(p: &str) -> (r: Vec<(u8, Vec<char>)>)
    ensures
        comp_views(r@) == comps(p@),
{
    let v = text::chars_of(p);
    let dot = text::lit(".");
    let dotdot = text::lit("..");
    let mut out: Vec<(u8, Vec<char>)> = Vec::new();
    if v.len() > 0 && v[0] == '/' {
        out.push((1u8, Vec::new()));
    } else if text::same(&v, &dot) || text::has_prefix(&v, &text::lit("./")) {
        out.push((2u8, Vec::new()));
    }
    assert(comp_views(out@) =~= head_comps(p@));
    let parts = text::split_char(&v, '/');
    let ghost pv = text::views(parts@);
    let mut i: usize = 0;
    assert(pv.skip(0) =~= pv);
    while i < parts.len()
        invariant
            i <= parts.len(),
            pv == text::views(parts@),
            pv == text::split(p@, '/'),
            dot@ == "."@,
            dotdot@ == ".."@,
            comps(p@) == comp_views(out@) + body_comps(pv.skip(i as int)),
        decreases parts.len() - i,
    {
        let s = &parts[i];
        assert(pv.skip(i as int)[0] == s@);
        assert(pv.skip(i as int).drop_first() =~= pv.skip(i + 1));
        let ghost o = comp_views(out@);
        if s.len() == 0 || text::same(s, &dot) {
        } else if text::same(s, &dotdot) {
            out.push((3u8, Vec::new()));
            assert(comp_views(out@) =~= o + seq![(3int, Seq::<char>::empty())]);
        } else {
            out.push((4u8, s.clone()));
            assert(comp_views(out@) =~= o + seq![(4int, s@)]);
        }
        i += 1;
    }
    assert(pv.skip(i as int) =~= Seq::<Seq<char>>::empty());
    assert(comp_views(out@) + body_comps(Seq::<Seq<char>>::empty()) =~= comp_views(out@));
    out
}

fn comp_same(a: &(u8, Vec<char>), b: &(u8, Vec<char>)) -> (r: bool)
    ensures
        r == ((a.0 as int, a.1@) == (b.0 as int, b.1@)),
{
    a.0 == b.0 && text::same(&a.1, &b.1)
}

fn comp_less(a: &(u8, Vec<char>), b: &(u8, Vec<char>)) -> (r: bool)
    ensures
        r == comp_lt((a.0 as int, a.1@), (b.0 as int, b.1@)),
{
    a.0 < b.0 || (a.0 == b.0 && text::str_less(&a.1, &b.1))
}

fn comps_less(x: &Vec<(u8, Vec<char>)>, y: &Vec<(u8, Vec<char>)>) -> (r: bool)
    ensures
        r == comps_lt(comp_views(x@), comp_views(y@)),
{
    let ghost xv = comp_views(x@);
    let ghost yv = comp_views(y@);
    let mut i: usize = 0;
    assert(xv.skip(0) =~= xv);
    assert(yv.skip(0) =~= yv);
    while i < x.len() && i < y.len()
        invariant
            i <= x.len(),
            i <= y.len(),
            xv == comp_views(x@),
            yv == comp_views(y@),
            comps_lt(xv, yv) == comps_lt(xv.skip(i as int), yv.skip(i as int)),
        decreases x.len() - i,
    {
        assert(xv.skip(i as int)[0] == xv[i as int]);
        assert(yv.skip(i as int)[0] == yv[i as int]);
        if !comp_same(&x[i], &y[i]) {
            return comp_less(&x[i], &y[i]);
        }
        assert(xv.skip(i as int).drop_first() =~= xv.skip(i + 1));
        assert(yv.skip(i as int).drop_first() =~= yv.skip(i + 1));
        i += 1;
    }
    x.len() <= i && i < y.len()
}

fn comps_same(x: &Vec<(u8, Vec<char>)>, y: &Vec<(u8, Vec<char>)>) -> (r: bool)
    ensures
        r == (comp_views(x@) == comp_views(y@)),
{
    if x.len() != y.len() {
        assert(comp_views(x@).len() != comp_views(y@).len());
        return false;
    }
    let mut i: usize = 0;
    while i < x.len()
        invariant
            i <= x.len(),
            x.len() == y.len(),
            forall|k: int| 0 <= k < i ==> comp_views(x@)[k] == comp_views(y@)[k],
        decreases x.len() - i,
    {
        if !comp_same(&x[i], &y[i]) {
            assert(comp_views(x@)[i as int] != comp_views(y@)[i as int]);
            return false;
        }
        i += 1;
    }
    assert(comp_views(x@) =~= comp_views(y@));
    true
}

fn path_less(a: &str, xc: &Vec<(u8, Vec<char>)>) -> (r: bool)
    ensures
        r == comps_lt(comps(a@), comp_views(xc@)),
{
    comps_less(&comps_of(a), xc)
}

fn path_same(a: &str, xc: &Vec<(u8, Vec<char>)>) -> (r: bool)
    ensures
        r == (comps(a@) == comp_views(xc@)),
{
    comps_same(&comps_of(a), xc)
}

/// The paths sorted as paths, each path once (the first one given).
pub fn sort_paths(v: &Vec<String>) -> (r: Vec<String>)
    ensures
        sorted_once(text::string_views(v@), text::string_views(r@)),
{
    let ghost vv = text::string_views(v@);
    let mut out: Vec<String> = Vec::new();
    let ghost mut src: Seq<int> = Seq::empty();
    let mut i: usize = 0;
    while i < v.len()
        invariant
            i <= v.len(),
            vv == text::string_views(v@),
            path_sorted(text::string_views(out@)),
            src.len() == out.len(),
            forall|k: int| 0 <= k < out.len() ==> 0 <= #[trigger] src[k] < i && first_of_its_path(vv, src[k])
                && text::string_views(out@)[k] == vv[src[k]],
            forall|m: int| 0 <= m < i ==> has_path(text::string_views(out@), #[trigger] vv[m]),
        decreases v.len() - i,
    {
        let ghost ov = text::string_views(out@);
        let ghost x = vv[i as int];
        assert(v@[i as int]@ == x);
        let xc = comps_of(v[i].as_str());
        let mut p: usize = 0;
        while p < out.len() && path_less(out[p].as_str(), &xc)
            invariant
                p <= out.len(),
                ov == text::string_views(out@),
                comp_views(xc@) == comps(x),
                forall|k: int| 0 <= k < p ==> path_lt(#[trigger] ov[k], x),
            decreases out.len() - p,
        {
            assert(ov[p as int] == out@[p as int]@);
            p += 1;
        }
        proof {
            if p < out.len() {
                assert(ov[p as int] == out@[p as int]@);
            }
        }
        if p < out.len() && path_same(out[p].as_str(), &xc) {
            proof {
                assert(comps(ov[p as int]) == comps(x));
                assert forall|m: int| 0 <= m < i + 1 implies has_path(ov, #[trigger] vv[m]) by {
                    if m == i {
                        assert(comps(ov[p as int]) == comps(vv[m]));
                    }
                }
            }
        } else {
            proof {
                // x goes before every path from p on
                assert forall|k: int| p <= k < ov.len() implies comps_lt(comps(x), comps(#[trigger] ov[k])) by {
                    assert(!comps_lt(comps(ov[p as int]), comps(x)));
                    assert(comps(ov[p as int]) != comps(x));
                    lemma_comps_lt_total(comps(ov[p as int]), comps(x));
                    if k > p {
                        assert(path_lt(ov[p as int], ov[k]));
                        lemma_comps_lt_transitive(comps(x), comps(ov[p as int]), comps(ov[k]));
                    }
                }
                // and no earlier path has its components
                assert forall|m2: int| 0 <= m2 < i implies comps(#[trigger] vv[m2]) != comps(vv[i as int]) by {
                    let k = choose|k: int| 0 <= k < out.len() && comps(ov[k]) == comps(vv[m2]);
                    if comps(vv[m2]) == comps(x) {
                        if k < p {
                            assert(path_lt(ov[k], x));
                            lemma_comps_lt_irreflexive(comps(x));
                        } else {
                            assert(comps_lt(comps(x), comps(ov[k])));
                            lemma_comps_lt_irreflexive(comps(x));
                        }
                    }
                }
                assert(first_of_its_path(vv, i as int));
            }
            let ghost src0 = src;
            out.insert(p, v[i].clone());
            proof {
                src = src0.insert(p as int, i as int);
                let nv = text::string_views(out@);
                assert(nv =~= ov.insert(p as int, x));
                assert forall|a: int, b: int| 0 <= a < b < nv.len() implies path_lt(#[trigger] nv[a], #[trigger] nv[b]) by {
                    if b < p {
                        assert(nv[a] == ov[a] && nv[b] == ov[b]);
                    } else if b == p {
                        assert(nv[a] == ov[a] && nv[b] == x);
                    } else if a < p {
                        assert(nv[a] == ov[a] && nv[b] == ov[b - 1]);
                        assert(path_lt(ov[a], x));
                        assert(comps_lt(comps(x), comps(ov[b - 1])));
                        lemma_comps_lt_transitive(comps(ov[a]), comps(x), comps(ov[b - 1]));
                    } else if a == p {
                        assert(nv[a] == x && nv[b] == ov[b - 1]);
                    } else {
                        assert(nv[a] == ov[a - 1] && nv[b] == ov[b - 1]);
                    }
                }
                assert forall|k: int| 0 <= k < out.len() implies 0 <= #[trigger] src[k] < i + 1 && first_of_its_path(vv, src[k])
                    && text::string_views(out@)[k] == vv[src[k]] by {
                    if k < p {
                        assert(src[k] == src0[k]);
                        assert(nv[k] == ov[k]);
                    } else if k == p {
                        assert(src[k] == i);
                    } else {
                        assert(src[k] == src0[k - 1]);
                        assert(nv[k] == ov[k - 1]);
                    }
                }
                assert forall|m: int| 0 <= m < i + 1 implies has_path(nv, #[trigger] vv[m]) by {
                    if m == i {
                        assert(nv[p as int] == x);
                    } else {
                        let k = choose|k: int| 0 <= k < ov.len() && comps(ov[k]) == comps(vv[m]);
                        if k < p {
                            assert(nv[k] == ov[k]);
                        } else {
                            assert(nv[k + 1] == ov[k]);
                        }
                    }
                }
            }
        }
        i += 1;
    }
    proof {
        let rv = text::string_views(out@);
        assert forall|k: int| 0 <= k < rv.len() implies first_in(vv, #[trigger] rv[k]) by {
            assert(0 <= src[k] < vv.len() && first_of_its_path(vv, src[k]) && rv[k] == vv[src[k]]);
        }
    }
    out
}

} // verus!
