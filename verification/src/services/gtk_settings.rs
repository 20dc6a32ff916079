//! What the appearance pages share: a key of GTK's `settings.ini`, the
//! user's id from `/proc/self/status`, the Wayland socket of the session,
//! and paths under a home directory.
use vstd::prelude::*;
use crate::text;
use crate::num;

verus! {

// ---------------------------------------------------------------- settings.ini

/// A line that sets `prefix` (`KEY=`), after its indentation.
pub open spec fn is_key_line(l: Seq<char>, prefix: Seq<char>) -> bool {
    text::starts_with(text::trim_start(l), prefix)
}

pub open spec fn has_key_line(ls: Seq<Seq<char>>, prefix: Seq<char>) -> bool {
    exists|i: int| 0 <= i < ls.len() && is_key_line(#[trigger] ls[i], prefix)
}

/// The lines with each one that sets `prefix` replaced by `line`.
pub open spec fn set_key_lines(ls: Seq<Seq<char>>, prefix: Seq<char>, line: Seq<char>) -> Seq<Seq<char>> {
    ls.map_values(|l: Seq<char>| if is_key_line(l, prefix) { line } else { l })
}

/// A `settings.ini` with `key=value`: every line that sets the key
/// replaced, or the line added at the end; a `[Settings]` line put first
/// when there is none; a line break at the end.
pub open spec fn spec_ini_with_key(existing: Seq<char>, key: Seq<char>, value: Seq<char>) -> Seq<char> {
    let prefix = key + "="@;
    let line = prefix + value;
    let ls = text::lines(existing);
    let l1 = set_key_lines(ls, prefix, line);
    let l2 = if has_key_line(ls, prefix) { l1 } else { l1.push(line) };
    let joined = text::join(l2, text::nl());
    (if text::contains(joined, "[Settings]"@) { joined } else { "[Settings]"@ + text::nl() + joined }) + text::nl()
}

/// The value of the first line from `i` on that sets `prefix` (what follows
/// its first `=`, trimmed).
pub open spec fn ini_value_from(ls: Seq<Seq<char>>, i: int, prefix: Seq<char>) -> Option<Seq<char>>
    decreases ls.len() - i,
{
    if i < 0 || i >= ls.len() {
        None
    } else if is_key_line(ls[i], prefix) && text::index_of(ls[i], '=') < ls[i].len() {
        Some(text::trim(ls[i].skip(text::index_of(ls[i], '=') + 1 as int)))
    } else {
        ini_value_from(ls, i + 1, prefix)
    }
}

/// `settings.ini` with `key=value`.
pub fn ini_with_key(existing: &str, key: &str, value: &str) -> (r: String)
    ensures
        r@ == spec_ini_with_key(existing@, key@, value@),
{
    let mut prefix = text::chars_of(key);
    prefix.push('=');
    assert(prefix@ =~= key@ + "="@) by {
        reveal_strlit("=");
    }
    let mut line = text::slice(&prefix, 0, prefix.len());
    text::append(&mut line, &text::chars_of(value));
    assert(line@ =~= key@ + "="@ + value@);
    let ls = text::lines_of(existing);
    let ghost lv = text::views(ls@);
    let mut out: Vec<Vec<char>> = Vec::new();
    let mut seen = false;
    let mut i: usize = 0;
    while i < ls.len()
        invariant
            i <= ls.len(),
            lv == text::views(ls@),
            lv == text::lines(existing@),
            text::views(out@) =~= set_key_lines(lv.take(i as int), prefix@, line@),
            seen == has_key_line(lv.take(i as int), prefix@),
        decreases ls.len() - i,
    {
        assert(ls@[i as int]@ == lv[i as int]);
        let t = text::trimmed_start(&ls[i]);
        let ghost o0 = text::views(out@);
        let hit = text::has_prefix(&t, &prefix);
        assert(hit == is_key_line(lv[i as int], prefix@));
        if hit {
            let x = text::slice(&line, 0, line.len());
            assert(x@ =~= line@);
            out.push(x);
            seen = true;
        } else {
            let x = text::slice(&ls[i], 0, ls[i].len());
            assert(x@ =~= lv[i as int]);
            out.push(x);
        }
        proof {
            let tk = lv.take(i + 1);
            assert(tk =~= lv.take(i as int).push(lv[i as int]));
            let f = |l: Seq<char>| if is_key_line(l, prefix@) { line@ } else { l };
            assert(text::views(out@) =~= o0.push(f(lv[i as int])));
            assert(tk.map_values(f) =~= lv.take(i as int).map_values(f).push(f(lv[i as int])));
            assert(text::views(out@) =~= set_key_lines(tk, prefix@, line@));
            if hit {
                assert(is_key_line(tk[i as int], prefix@));
            } else if has_key_line(tk, prefix@) {
                let k = choose|k: int| 0 <= k < tk.len() && is_key_line(#[trigger] tk[k], prefix@);
                if k < i {
                    assert(lv.take(i as int)[k] == tk[k]);
                }
            }
            if seen && !hit {
                let k = choose|k: int| 0 <= k < i && is_key_line(#[trigger] lv.take(i as int)[k], prefix@);
                assert(tk[k] == lv.take(i as int)[k]);
            }
        }
        i += 1;
    }
    assert(lv.take(ls.len() as int) =~= lv);
    let ghost l1 = text::views(out@);
    if !seen {
        let x = text::slice(&line, 0, line.len());
        assert(x@ =~= line@);
        out.push(x);
        assert(text::views(out@) =~= l1.push(line@));
    }
    assert(text::views(out@) == (if has_key_line(lv, prefix@) { l1 } else { l1.push(line@) }));
    let mut sep: Vec<char> = Vec::new();
    sep.push('\n');
    assert(sep@ == text::nl());
    let joined = text::join_with(&out, &sep);
    assert(joined@ == text::join(text::views(out@), text::nl()));
    let settings = text::lit("[Settings]");
    let mut r = if text::has(&joined, &settings) {
        joined
    } else {
        let mut h = text::slice(&settings, 0, settings.len());
        h.push('\n');
        text::append(&mut h, &joined);
        assert(h@ =~= "[Settings]"@ + text::nl() + joined@);
        h
    };
    let ghost rr = r@;
    r.push('\n');
    assert(rr == (if text::contains(joined@, "[Settings]"@) { joined@ } else { "[Settings]"@ + text::nl() + joined@ }));
    assert(r@ =~= rr + text::nl());
    assert(r@ =~= spec_ini_with_key(existing@, key@, value@));
    text::string_of(&r)
}

/// The value of the first line of `content` that sets `prefix`.
pub fn ini_value(content: &str, prefix: &str) -> (r: Option<String>)
    ensures
        match r {
            Some(v) => ini_value_from(text::lines(content@), 0, prefix@) == Some(v@),
            None => ini_value_from(text::lines(content@), 0, prefix@) is None,
        },
{
    let ls = text::lines_of(content);
    let ghost lv = text::views(ls@);
    let p = text::lit(prefix);
    let mut i: usize = 0;
    while i < ls.len()
        invariant
            i <= ls.len(),
            lv == text::views(ls@),
            lv == text::lines(content@),
            p@ == prefix@,
            ini_value_from(lv, 0, prefix@) == ini_value_from(lv, i as int, prefix@),
        decreases ls.len() - i,
    {
        assert(ls@[i as int]@ == lv[i as int]);
        let t = text::trimmed_start(&ls[i]);
        if text::has_prefix(&t, &p) {
            let k = text::find_char(&ls[i], '=');
            if k < ls[i].len() {
                let rest = text::slice(&ls[i], k + 1, ls[i].len());
                assert(rest@ =~= lv[i as int].skip(k + 1 as int));
                return Some(text::string_of(&text::trimmed(&rest)));
            }
        }
        i += 1;
    }
    None
}

// ---------------------------------------------------------------- session

/// The user id of `/proc/self/status`: the first `Uid:` line whose first
/// field reads as a `u32`, else 1000.
pub open spec fn uid_from(ls: Seq<Seq<char>>, i: int) -> int
    decreases ls.len() - i,
{
    if i < 0 || i >= ls.len() {
        1000
    } else {
        let w = text::words(ls[i].skip(4));
        if text::starts_with(ls[i], "Uid:"@) && w.len() > 0 && num::u32_of(w[0]) is Some {
            num::u32_of(w[0])->0
        } else {
            uid_from(ls, i + 1)
        }
    }
}

/// The user id in `/proc/self/status` (its text), 1000 when it is not
/// there.
pub fn uid_from_status(content: &str) -> (r: u32)
    ensures
        r as int == uid_from(text::lines(content@), 0),
{
    let ls = text::lines_of(content);
    let ghost lv = text::views(ls@);
    let uid = text::lit("Uid:");
    proof {
        reveal_strlit("Uid:");
    }
    let mut i: usize = 0;
    while i < ls.len()
        invariant
            i <= ls.len(),
            lv == text::views(ls@),
            lv == text::lines(content@),
            uid@ == "Uid:"@,
            uid@.len() == 4,
            uid_from(lv, 0) == uid_from(lv, i as int),
        decreases ls.len() - i,
    {
        assert(ls@[i as int]@ == lv[i as int]);
        if text::has_prefix(&ls[i], &uid) {
            let rest = text::slice(&ls[i], 4, ls[i].len());
            assert(rest@ =~= lv[i as int].skip(4));
            let w = text::words_of(&rest);
            if w.len() > 0 {
                assert(w@[0]@ == text::views(w@)[0]);
                match num::parse_u32(&w[0]) {
                    Some(v) => {
                        return v;
                    },
                    None => {},
                }
            }
        }
        i += 1;
    }
    1000
}

/// A name of a Wayland socket (`wayland-0`, …).
pub open spec fn is_socket(n: Seq<char>) -> bool {
    text::starts_with(n, "wayland-"@)
}

/// The least socket name among `names`, by string order.
pub open spec fn least_socket(names: Seq<Seq<char>>) -> Option<Seq<char>> {
    if exists|i: int| 0 <= i < names.len() && is_socket(#[trigger] names[i]) {
        Some(choose|x: Seq<char>| names.contains(x) && is_socket(x) && forall|j: int| 0 <= j < names.len() && is_socket(
            #[trigger] names[j],
        ) ==> x == names[j] || text::str_lt(x, names[j]))
    } else {
        None
    }
}

/// The first socket name among `names`, in their order.
pub open spec fn first_socket(names: Seq<Seq<char>>) -> Option<Seq<char>>
    decreases names.len(),
{
    if names.len() == 0 {
        None
    } else if is_socket(names[0]) {
        Some(names[0])
    } else {
        first_socket(names.drop_first())
    }
}

/// The least socket name among the entries of the runtime directory.
pub fn least_wayland(names: &Vec<String>) -> (r: Option<String>)
    ensures
        match r {
            Some(x) => least_socket(text::string_views(names@)) == Some(x@),
            None => least_socket(text::string_views(names@)) is None,
        },
{
    let ghost nv = text::string_views(names@);
    let w = text::lit("wayland-");
    let mut best: Option<Vec<char>> = None;
    let mut bi: usize = 0;
    let mut i: usize = 0;
    while i < names.len()
        invariant
            i <= names.len(),
            nv == text::string_views(names@),
            w@ == "wayland-"@,
            match best {
                Some(b) => bi < i && nv[bi as int] == b@ && is_socket(b@) && forall|j: int| 0 <= j < i && is_socket(
                    #[trigger] nv[j],
                ) ==> b@ == nv[j] || text::str_lt(b@, nv[j]),
                None => forall|j: int| 0 <= j < i ==> !is_socket(#[trigger] nv[j]),
            },
        decreases names.len() - i,
    {
        let n = text::chars_of(names[i].as_str());
        assert(nv[i as int] == n@);
        if text::has_prefix(&n, &w) {
            let better = match &best {
                Some(b) => text::str_less(&n, b),
                None => true,
            };
            if better {
                proof {
                    if best is Some {
                        let b = best->0;
                        {
                            assert forall|j: int| 0 <= j < i + 1 && is_socket(#[trigger] nv[j]) implies n@ == nv[j]
                                || text::str_lt(n@, nv[j]) by {
                                if j < i {
                                    if b@ != nv[j] {
                                        text::lemma_str_lt_transitive(n@, b@, nv[j]);
                                    }
                                }
                            }
                        }
                    }
                }
                best = Some(n);
                bi = i;
            } else {
                proof {
                    let b = best->0;
                    text::lemma_str_lt_total(n@, b@);
                }
            }
        }
        i += 1;
    }
    proof {
        if best is Some {
            let b = best->0;
            {
                assert(nv.contains(b@)) by {
                    assert(nv[bi as int] == b@);
                }
                let x = choose|x: Seq<char>| nv.contains(x) && is_socket(x) && forall|j: int| 0 <= j < nv.len() && is_socket(
                    #[trigger] nv[j],
                ) ==> x == nv[j] || text::str_lt(x, nv[j]);
                let k = choose|k: int| 0 <= k < nv.len() && nv[k] == x;
                if x != b@ {
                    assert(b@ == nv[k] || text::str_lt(b@, nv[k]));
                    assert(x == nv[bi as int] || text::str_lt(x, nv[bi as int]));
                    text::lemma_str_lt_asymmetric(b@, x);
                }
            }
        }
    }
    match best {
        Some(b) => Some(text::string_of(&b)),
        None => None,
    }
}

/// The first socket name among the entries of the runtime directory.
pub fn first_wayland(names: &Vec<String>) -> (r: Option<String>)
    ensures
        match r {
            Some(x) => first_socket(text::string_views(names@)) == Some(x@),
            None => first_socket(text::string_views(names@)) is None,
        },
{
    let ghost nv = text::string_views(names@);
    let w = text::lit("wayland-");
    let mut i: usize = 0;
    assert(nv.skip(0) =~= nv);
    while i < names.len()
        invariant
            i <= names.len(),
            nv == text::string_views(names@),
            w@ == "wayland-"@,
            first_socket(nv) == first_socket(nv.skip(i as int)),
        decreases names.len() - i,
    {
        let n = text::chars_of(names[i].as_str());
        assert(nv.skip(i as int)[0] == nv[i as int]);
        if text::has_prefix(&n, &w) {
            return Some(text::string_of(&n));
        }
        assert(nv.skip(i as int).drop_first() =~= nv.skip(i + 1));
        i += 1;
    }
    None
}

/// The Wayland display for commands run from here: `WAYLAND_DISPLAY` when
/// it is set and not empty, else the least socket in the runtime directory
/// (its entries, none when it is not a directory).
pub fn detect_wayland_display(env: Option<&str>, entries: Option<&Vec<String>>) -> (r: Option<String>)
    ensures
        match text::opt_view(env) {
            Some(v) if v.len() > 0 => r is Some && r->0@ == v,
            _ => match entries {
                Some(es) => match r {
                    Some(x) => least_socket(text::string_views(es@)) == Some(x@),
                    None => least_socket(text::string_views(es@)) is None,
                },
                None => r is None,
            },
        },
{
    match env {
        Some(v) => {
            if text::chars_of(v).len() > 0 {
                return Some(v.to_string());
            }
        },
        None => {},
    }
    match entries {
        Some(es) => least_wayland(es),
        None => None,
    }
}

// ---------------------------------------------------------------- paths

/// `Path::join` of a relative path: a `/` between the two unless the base
/// is empty or ends with one.
pub open spec fn path_join(base: Seq<char>, rel: Seq<char>) -> Seq<char> {
    if base.len() == 0 {
        rel
    } else if base.last() == '/' {
        base + rel
    } else {
        base + "/"@ + rel
    }
}

/// `Path::join` of a relative path.
pub fn join_path(base: &str, rel: &str) -> (r: String)
    ensures
        r@ == path_join(base@, rel@),
{
    let mut b = text::chars_of(base);
    if b.len() == 0 {
        return rel.to_string();
    }
    if b[b.len() - 1] != '/' {
        b.push('/');
        assert(b@ =~= base@ + "/"@) by {
            reveal_strlit("/");
        }
    }
    text::append(&mut b, &text::chars_of(rel));
    text::string_of(&b)
}

/// The theme directories under a home directory, after the system one.
pub open spec fn theme_dirs(home: Seq<char>) -> Seq<Seq<char>> {
    seq!["/usr/share/icons"@, path_join(home, ".icons"@), path_join(home, ".local/share/icons"@)]
}

/// The theme directories.
pub fn theme_dirs_of(home: &str) -> (r: Vec<String>)
    ensures
        text::string_views(r@) == theme_dirs(home@),
{
    let mut r: Vec<String> = Vec::new();
    r.push("/usr/share/icons".to_string());
    r.push(join_path(home, ".icons"));
    r.push(join_path(home, ".local/share/icons"));
    assert(text::string_views(r@) =~= theme_dirs(home@));
    r
}

} // verus!
