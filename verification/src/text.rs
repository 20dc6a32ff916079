use vstd::prelude::*;

verus! {

broadcast use vstd::string::group_string_axioms;

// ---------------------------------------------------------------- model

/// Unicode `White_Space`, the set that `char::is_whitespace` and `str::trim` use.
pub open spec fn is_ws(c: char) -> bool {
    let u: u32 = c as u32;
    ||| 0x9 <= u <= 0xd
    ||| u == 0x20
    ||| u == 0x85
    ||| u == 0xa0
    ||| u == 0x1680
    ||| 0x2000 <= u <= 0x200a
    ||| u == 0x2028
    ||| u == 0x2029
    ||| u == 0x202f
    ||| u == 0x205f
    ||| u == 0x3000
}

/// `s` without its leading white space.
pub open spec fn trim_start(s: Seq<char>) -> Seq<char>
    decreases s.len(),
{
    if s.len() > 0 && is_ws(s[0]) {
        trim_start(s.drop_first())
    } else {
        s
    }
}

/// `s` without its trailing white space.
pub open spec fn trim_end(s: Seq<char>) -> Seq<char>
    decreases s.len(),
{
    if s.len() > 0 && is_ws(s.last()) {
        trim_end(s.drop_last())
    } else {
        s
    }
}

/// `s` without leading and trailing white space (`str::trim`).
pub open spec fn trim(s: Seq<char>) -> Seq<char> {
    trim_end(trim_start(s))
}

pub open spec fn starts_with(s: Seq<char>, p: Seq<char>) -> bool {
    p.len() <= s.len() && s.take(p.len() as int) == p
}

pub open spec fn ends_with(s: Seq<char>, p: Seq<char>) -> bool {
    p.len() <= s.len() && s.skip(s.len() - p.len()) == p
}

/// `p` occurs in `s` starting at `i`.
pub open spec fn occurs_at(s: Seq<char>, p: Seq<char>, i: int) -> bool {
    0 <= i && i + p.len() <= s.len() && s.subrange(i, i + p.len()) == p
}

/// The first occurrence of `p` in `s` at or after `i`.
pub open spec fn find_from(s: Seq<char>, p: Seq<char>, i: int) -> Option<int>
    decreases s.len() + 1 - i,
{
    if i < 0 || i + p.len() > s.len() {
        None
    } else if occurs_at(s, p, i) {
        Some(i)
    } else {
        find_from(s, p, i + 1)
    }
}

/// Index of the first occurrence of `p` in `s` (`str::find`).
pub open spec fn find(s: Seq<char>, p: Seq<char>) -> Option<int> {
    find_from(s, p, 0)
}

pub open spec fn contains(s: Seq<char>, p: Seq<char>) -> bool {
    find(s, p) is Some
}

/// Index of the first `c` in `s`, or `s.len()` when there is none.
pub open spec fn index_of(s: Seq<char>, c: char) -> nat
    decreases s.len(),
{
    if s.len() == 0 {
        0
    } else if s[0] == c {
        0
    } else {
        1 + index_of(s.drop_first(), c)
    }
}

/// A line as `str::lines` yields it: the text before a `'\n'`, without one
/// `'\r'` that ends it.
pub open spec fn strip_cr(l: Seq<char>) -> Seq<char> {
    if l.len() > 0 && l.last() == '\r' {
        l.drop_last()
    } else {
        l
    }
}

/// `str::lines`: the text split at `'\n'`, a final line ending being optional.
pub open spec fn lines(s: Seq<char>) -> Seq<Seq<char>>
    decreases s.len(),
{
    if s.len() == 0 {
        seq![]
    } else {
        let k = index_of(s, '\n');
        proof {
            lemma_index_of_bound(s, '\n');
        }
        if k == s.len() {
            seq![s]
        } else {
            seq![strip_cr(s.take(k as int))] + lines(s.skip(k + 1 as int))
        }
    }
}

/// The lines joined with `sep` between them (`[String]::join`).
pub open spec fn join(ls: Seq<Seq<char>>, sep: Seq<char>) -> Seq<char>
    decreases ls.len(),
{
    if ls.len() == 0 {
        seq![]
    } else if ls.len() == 1 {
        ls[0]
    } else {
        join(ls.drop_last(), sep) + sep + ls.last()
    }
}

/// The views of a vector of lines.
pub open spec fn views(v: Seq<Vec<char>>) -> Seq<Seq<char>> {
    v.map_values(|l: Vec<char>| l@)
}

/// `c` with ASCII upper case letters made lower case.
pub open spec fn ascii_lower_char(c: char) -> char {
    if 'A' <= c <= 'Z' {
        ((c as u32) + 32) as char
    } else {
        c
    }
}

/// `str::to_ascii_lowercase`.
pub open spec fn ascii_lower(s: Seq<char>) -> Seq<char> {
    s.map_values(|c: char| ascii_lower_char(c))
}

/// The view of an optional string.
pub open spec fn opt_view(o: Option<&str>) -> Option<Seq<char>> {
    match o {
        Some(s) => Some(s@),
        None => None,
    }
}

/// Number of `c` in `s` (`str::matches(c).count()`).
pub open spec fn count(s: Seq<char>, c: char) -> nat
    decreases s.len(),
{
    if s.len() == 0 {
        0
    } else {
        count(s.drop_last(), c) + if s.last() == c { 1nat } else { 0nat }
    }
}

/// `s` without the `c`s that end it (`str::trim_end_matches(c)`).
pub open spec fn trim_end_char(s: Seq<char>, c: char) -> Seq<char>
    decreases s.len(),
{
    if s.len() > 0 && s.last() == c {
        trim_end_char(s.drop_last(), c)
    } else {
        s
    }
}

/// `s` without the `c`s that start it (`str::trim_start_matches(c)`).
pub open spec fn trim_start_char(s: Seq<char>, c: char) -> Seq<char>
    decreases s.len(),
{
    if s.len() > 0 && s[0] == c {
        trim_start_char(s.drop_first(), c)
    } else {
        s
    }
}

/// `str::trim_matches(c)`.
pub open spec fn trim_char(s: Seq<char>, c: char) -> Seq<char> {
    trim_end_char(trim_start_char(s, c), c)
}

/// The part of `s` before its first `c` (all of `s` when there is none).
pub open spec fn before(s: Seq<char>, c: char) -> Seq<char> {
    s.take(index_of(s, c) as int)
}

/// The spaces and tabs that start `l`.
pub open spec fn leading_blanks(l: Seq<char>) -> Seq<char>
    decreases l.len(),
{
    if l.len() > 0 && (l[0] == ' ' || l[0] == '\t') {
        seq![l[0]] + leading_blanks(l.drop_first())
    } else {
        seq![]
    }
}

pub open spec fn nl() -> Seq<char> {
    seq!['\n']
}

// ---------------------------------------------------------------- lemmas

pub proof fn lemma_index_of_bound(s: Seq<char>, c: char)
    ensures
        index_of(s, c) <= s.len(),
        index_of(s, c) < s.len() ==> s[index_of(s, c) as int] == c,
        forall|j: int| 0 <= j < index_of(s, c) ==> s[j] != c,
    decreases s.len(),
{
    if s.len() > 0 && s[0] != c {
        lemma_index_of_bound(s.drop_first(), c);
        assert forall|j: int| 0 <= j < index_of(s, c) implies s[j] != c by {
            if j > 0 {
                assert(s[j] == s.drop_first()[j - 1]);
            }
        }
    }
}

pub proof fn lemma_index_of_char(s: Seq<char>, c: char, k: int)
    requires
        0 <= k <= s.len(),
        k < s.len() ==> s[k] == c,
        forall|j: int| 0 <= j < k ==> s[j] != c,
    ensures
        index_of(s, c) == k,
    decreases s.len(),
{
    if s.len() > 0 && k > 0 {
        assert(s[0] != c);
        assert forall|j: int| 0 <= j < k - 1 implies s.drop_first()[j] != c by {
            assert(s.drop_first()[j] == s[j + 1]);
        }
        lemma_index_of_char(s.drop_first(), c, k - 1);
    }
}

/// White space before a word that does not start with white space is what
/// `trim_start` removes.
pub proof fn lemma_trim_start_after_ws(b: Seq<char>, w: Seq<char>)
    requires
        forall|i: int| 0 <= i < b.len() ==> is_ws(#[trigger] b[i]),
        w.len() > 0,
        !is_ws(w[0]),
    ensures
        trim_start(b + w) == w,
    decreases b.len(),
{
    if b.len() == 0 {
        assert(b + w =~= w);
    } else {
        assert((b + w)[0] == b[0]);
        assert((b + w).drop_first() =~= b.drop_first() + w);
        lemma_trim_start_after_ws(b.drop_first(), w);
    }
}

/// `trim_end` stops at a character that is not white space.
pub proof fn lemma_trim_end_concat(a: Seq<char>, b: Seq<char>)
    requires
        a.len() > 0,
        !is_ws(a.last()),
    ensures
        trim_end(a + b) == a + trim_end(b),
    decreases b.len(),
{
    if b.len() == 0 {
        assert(a + b =~= a);
        assert(a + trim_end(b) =~= a);
    } else if is_ws(b.last()) {
        assert((a + b).last() == b.last());
        assert((a + b).drop_last() =~= a + b.drop_last());
        lemma_trim_end_concat(a, b.drop_last());
    } else {
        assert((a + b).last() == b.last());
    }
}

/// Removing trailing white space does not change `trim`.
pub proof fn lemma_trim_drop_ws_last(v: Seq<char>)
    requires
        v.len() > 0,
        is_ws(v.last()),
    ensures
        trim(v) == trim(v.drop_last()),
{
    let d = v.drop_last();
    lemma_trim_start_shape(v);
    lemma_trim_start_shape(d);
    lemma_trim_start_prefix(v);
    let t = trim_start(v);
    let td = trim_start(d);
    if t.len() == 0 {
        assert(td.len() == 0);
        assert(trim(v) =~= Seq::<char>::empty());
        assert(trim(d) =~= Seq::<char>::empty());
    } else {
        assert(t.last() == v.last());
        assert(t.drop_last() =~= td);
    }
}

/// `trim_start` removes the leading white space and nothing more: it gives
/// the empty text when `v` is all white space, and of `v` without its last
/// character, that result without its last character otherwise.
pub proof fn lemma_trim_start_prefix(v: Seq<char>)
    requires
        v.len() > 0,
    ensures
        trim_start(v).len() == 0 ==> trim_start(v.drop_last()).len() == 0,
        trim_start(v).len() > 0 ==> trim_start(v.drop_last()) == trim_start(v).drop_last(),
    decreases v.len(),
{
    if is_ws(v[0]) {
        if v.len() > 1 {
            assert(v.drop_first().drop_last() =~= v.drop_last().drop_first());
            lemma_trim_start_prefix(v.drop_first());
        } else {
            assert(v.drop_last().len() == 0);
        }
    } else {
        assert(v.drop_last().len() == 0 || v.drop_last()[0] == v[0]);
    }
}

/// `trim` of a text without its trailing white space is its `trim`.
pub proof fn lemma_trim_trim_end(v: Seq<char>)
    ensures
        trim(trim_end(v)) == trim(v),
    decreases v.len(),
{
    if v.len() > 0 && is_ws(v.last()) {
        lemma_trim_trim_end(v.drop_last());
        lemma_trim_drop_ws_last(v);
    }
}

/// What `find_from` finds occurs there.
pub proof fn lemma_find_from_occurs(s: Seq<char>, p: Seq<char>, i: int)
    ensures
        match find_from(s, p, i) {
            Some(k) => occurs_at(s, p, k) && i <= k,
            None => true,
        },
    decreases s.len() + 1 - i,
{
    if !(i < 0 || i + p.len() > s.len()) && !occurs_at(s, p, i) {
        lemma_find_from_occurs(s, p, i + 1);
    }
}

/// What `find_from` finds is the first occurrence from `i` on; when it finds
/// none, there is none.
pub proof fn lemma_find_from_first(s: Seq<char>, p: Seq<char>, i: int)
    requires
        0 <= i,
    ensures
        match find_from(s, p, i) {
            Some(m) => occurs_at(s, p, m) && i <= m && forall|k: int| i <= k < m ==> !occurs_at(s, p, k),
            None => forall|k: int| i <= k ==> !occurs_at(s, p, k),
        },
    decreases s.len() + 1 - i,
{
    if !(i + p.len() > s.len()) && !occurs_at(s, p, i) {
        lemma_find_from_first(s, p, i + 1);
    }
}

/// An occurrence with none before it is what `find_from` finds.
pub proof fn lemma_find_first(s: Seq<char>, p: Seq<char>, i: int, m: int)
    requires
        0 <= i <= m,
        occurs_at(s, p, m),
        forall|k: int| i <= k < m ==> !occurs_at(s, p, k),
    ensures
        find_from(s, p, i) == Some(m),
    decreases m - i,
{
    if i < m {
        lemma_find_first(s, p, i + 1, m);
    }
}

/// No line holds a `'\n'`.
pub proof fn lemma_lines_no_nl(s: Seq<char>)
    ensures
        forall|i: int, j: int| 0 <= i < lines(s).len() && 0 <= j < lines(s)[i].len() ==> #[trigger] lines(s)[i][j] != '\n',
    decreases s.len(),
{
    if s.len() > 0 {
        let k = index_of(s, '\n');
        lemma_index_of_bound(s, '\n');
        if k < s.len() {
            let rest = s.skip(k + 1 as int);
            lemma_lines_no_nl(rest);
            let f = strip_cr(s.take(k as int));
            assert forall|j: int| 0 <= j < f.len() implies f[j] != '\n' by {
                assert(f[j] == s[j]);
            }
            assert forall|i: int, j: int| 0 <= i < lines(s).len() && 0 <= j < lines(s)[i].len() implies #[trigger] lines(s)[i][j] != '\n' by {
                if i > 0 {
                    assert(lines(s)[i] == lines(rest)[i - 1]);
                }
            }
        }
    }
}

/// No line of a text without `'\r'` holds one, and each line is the text
/// between line breaks.
pub proof fn lemma_lines_no_cr(s: Seq<char>)
    requires
        !s.contains('\r'),
    ensures
        forall|i: int, j: int| 0 <= i < lines(s).len() && 0 <= j < lines(s)[i].len() ==> #[trigger] lines(s)[i][j] != '\r',
    decreases s.len(),
{
    if s.len() > 0 {
        let k = index_of(s, '\n');
        lemma_index_of_bound(s, '\n');
        if k < s.len() {
            let rest = s.skip(k + 1 as int);
            assert(!rest.contains('\r')) by {
                if rest.contains('\r') {
                    let q = choose|q: int| 0 <= q < rest.len() && rest[q] == '\r';
                    assert(s[k + 1 + q] == '\r');
                }
            }
            lemma_lines_no_cr(rest);
            let f = strip_cr(s.take(k as int));
            assert forall|j: int| 0 <= j < f.len() implies f[j] != '\r' by {
                assert(f[j] == s[j]);
            }
            assert forall|i: int, j: int| 0 <= i < lines(s).len() && 0 <= j < lines(s)[i].len() implies #[trigger] lines(s)[i][j] != '\r' by {
                if i > 0 {
                    assert(lines(s)[i] == lines(rest)[i - 1]);
                }
            }
        } else {
            assert forall|j: int| 0 <= j < s.len() implies s[j] != '\r' by {}
        }
    }
}

/// A text without `'\r'` is its lines joined by `'\n'`, with a final
/// `'\n'` when it ends with one.
pub proof fn lemma_rejoin(s: Seq<char>)
    requires
        !s.contains('\r'),
    ensures
        join(lines(s), nl()) + (if s.len() > 0 && s.last() == '\n' { nl() } else { seq![] }) == s,
    decreases s.len(),
{
    if s.len() > 0 {
        let k = index_of(s, '\n');
        lemma_index_of_bound(s, '\n');
        if k == s.len() {
            assert(lines(s) == seq![s]);
            assert(s.last() != '\n');
        } else {
            let rest = s.skip(k + 1 as int);
            let a = s.take(k as int);
            assert(!a.contains('\r')) by {
                if a.contains('\r') {
                    let q = choose|q: int| 0 <= q < a.len() && a[q] == '\r';
                    assert(s[q] == '\r');
                }
            }
            assert(strip_cr(a) == a) by {
                if a.len() > 0 {
                    assert(a.last() == a[a.len() - 1]);
                }
            }
            assert(!rest.contains('\r')) by {
                if rest.contains('\r') {
                    let q = choose|q: int| 0 <= q < rest.len() && rest[q] == '\r';
                    assert(s[k + 1 + q] == '\r');
                }
            }
            lemma_rejoin(rest);
            assert(lines(s) == seq![a] + lines(rest));
            if rest.len() == 0 {
                assert(lines(rest) =~= Seq::<Seq<char>>::empty());
                assert(lines(s) =~= seq![a]);
                assert(s =~= a + nl());
            } else {
                let lr = lines(rest);
                assert(lr.len() > 0);
                let ls = lines(s);
                assert(ls.drop_first() =~= lr);
                lemma_join_front(ls, nl());
                assert(s.last() == rest.last());
                assert(s =~= a + nl() + rest);
            }
        }
    }
}

/// Joining two runs of lines: the first joined, the separator, the second
/// joined.
pub proof fn lemma_join_concat(x: Seq<Seq<char>>, y: Seq<Seq<char>>, sep: Seq<char>)
    requires
        x.len() > 0,
        y.len() > 0,
    ensures
        join(x + y, sep) == join(x, sep) + sep + join(y, sep),
    decreases y.len(),
{
    assert((x + y).drop_last() =~= x + y.drop_last());
    assert((x + y).last() == y.last());
    if y.len() == 1 {
        assert(y.drop_last().len() == 0);
        assert(x + y.drop_last() =~= x);
        assert(join(y, sep) == y[0]);
    } else {
        lemma_join_concat(x, y.drop_last(), sep);
    }
}

/// Counting over two texts one after the other.
pub proof fn lemma_count_concat(a: Seq<char>, b: Seq<char>, c: char)
    ensures
        count(a + b, c) == count(a, c) + count(b, c),
    decreases b.len(),
{
    if b.len() == 0 {
        assert(a + b =~= a);
    } else {
        lemma_count_concat(a, b.drop_last(), c);
        assert((a + b).drop_last() =~= a + b.drop_last());
        assert((a + b).last() == b.last());
    }
}

/// A text without `c` counts none.
pub proof fn lemma_count_none(a: Seq<char>, c: char)
    requires
        forall|j: int| 0 <= j < a.len() ==> #[trigger] a[j] != c,
    ensures
        count(a, c) == 0,
    decreases a.len(),
{
    if a.len() > 0 {
        assert(a.last() == a[a.len() - 1]);
        lemma_count_none(a.drop_last(), c);
    }
}

/// Lines without `'\n'` joined hold one `'\n'` between each two.
pub proof fn lemma_count_join(ls: Seq<Seq<char>>)
    requires
        ls.len() >= 1,
        forall|a: int, b: int| 0 <= a < ls.len() && 0 <= b < ls[a].len() ==> #[trigger] ls[a][b] != '\n',
    ensures
        count(join(ls, nl()), '\n') == ls.len() - 1,
    decreases ls.len(),
{
    assert forall|j: int| 0 <= j < ls.last().len() implies #[trigger] ls.last()[j] != '\n' by {
        assert(ls[ls.len() - 1][j] != '\n');
    }
    lemma_count_none(ls.last(), '\n');
    if ls.len() > 1 {
        let d = ls.drop_last();
        assert forall|a: int, b: int| 0 <= a < d.len() && 0 <= b < d[a].len() implies #[trigger] d[a][b] != '\n' by {
            assert(d[a] == ls[a]);
        }
        lemma_count_join(d);
        lemma_count_concat(join(d, nl()), nl(), '\n');
        lemma_count_concat(join(d, nl()) + nl(), ls.last(), '\n');
        assert(count(nl(), '\n') == 1) by {
            assert(nl().drop_last() =~= Seq::<char>::empty());
            assert(count(Seq::<char>::empty(), '\n') == 0);
            assert(nl().last() == '\n');
            assert(count(nl(), '\n') == count(nl().drop_last(), '\n') + 1);
        }
    } else {
        assert(join(ls, nl()) == ls[0]);
    }
}

/// The number of lines: one per `'\n'`, and one more for text after the
/// last.
pub proof fn lemma_lines_count(x: Seq<char>)
    ensures
        lines(x).len() == count(x, '\n') + (if x.len() > 0 && x.last() != '\n' { 1int } else { 0int }),
    decreases x.len(),
{
    if x.len() > 0 {
        let k = index_of(x, '\n');
        lemma_index_of_bound(x, '\n');
        if k == x.len() {
            lemma_count_none(x, '\n');
        } else {
            let a = x.take(k as int);
            let rest = x.skip(k + 1 as int);
            lemma_lines_count(rest);
            assert forall|j: int| 0 <= j < a.len() implies #[trigger] a[j] != '\n' by {}
            lemma_count_none(a, '\n');
            assert(x =~= a + nl() + rest);
            lemma_count_concat(a, nl(), '\n');
            lemma_count_concat(a + nl(), rest, '\n');
            assert(count(nl(), '\n') == 1) by {
                assert(nl().drop_last() =~= Seq::<char>::empty());
                assert(count(Seq::<char>::empty(), '\n') == 0);
                assert(nl().last() == '\n');
                assert(count(nl(), '\n') == count(nl().drop_last(), '\n') + 1);
            }
            if rest.len() > 0 {
                assert(x.last() == rest.last());
            }
        }
    }
}

/// The first line is where the text starts.
pub proof fn lemma_lines_first_prefix(s: Seq<char>)
    requires
        lines(s).len() > 0,
    ensures
        starts_with(s, lines(s)[0]),
{
    let k = index_of(s, '\n');
    lemma_index_of_bound(s, '\n');
    if k < s.len() {
        let f = s.take(k as int);
        assert(strip_cr(f) =~= f.take(strip_cr(f).len() as int));
        assert(s.take(strip_cr(f).len() as int) =~= strip_cr(f));
    } else {
        assert(s.take(s.len() as int) =~= s);
    }
}

/// The lines from the `i`th on are the lines of the text after a `'\n'`.
pub proof fn lemma_lines_suffix(s: Seq<char>, i: int) -> (p: int)
    requires
        1 <= i < lines(s).len(),
    ensures
        1 <= p <= s.len(),
        s[p - 1] == '\n',
        lines(s.skip(p)) == lines(s).skip(i),
    decreases i,
{
    let k = index_of(s, '\n');
    lemma_index_of_bound(s, '\n');
    assert(k < s.len());
    let rest = s.skip(k + 1 as int);
    assert(lines(s) == seq![strip_cr(s.take(k as int))] + lines(rest));
    if i == 1 {
        assert(lines(s).skip(1) =~= lines(rest));
        (k + 1) as int
    } else {
        let q = lemma_lines_suffix(rest, i - 1);
        assert(rest.skip(q) =~= s.skip(k + 1 + q));
        assert(lines(s).skip(i) =~= lines(rest).skip(i - 1));
        assert(s[k + q] == rest[q - 1]);
        (k + 1 + q) as int
    }
}

/// Joining from the front: the first line, the separator, the others.
pub proof fn lemma_join_front(ls: Seq<Seq<char>>, sep: Seq<char>)
    requires
        ls.len() >= 2,
    ensures
        join(ls, sep) == ls[0] + sep + join(ls.drop_first(), sep),
    decreases ls.len(),
{
    if ls.len() == 2 {
        assert(ls.drop_last() =~= seq![ls[0]]);
        assert(ls.drop_first() =~= seq![ls[1]]);
        assert(join(ls.drop_last(), sep) == ls[0]);
        assert(join(ls.drop_first(), sep) == ls[1]);
        assert(join(ls, sep) == join(ls.drop_last(), sep) + sep + ls.last());
    } else {
        let d = ls.drop_last();
        lemma_join_front(d, sep);
        assert(ls.drop_first().drop_last() =~= d.drop_first());
        assert(ls.drop_first().last() == ls.last());
        assert(d[0] == ls[0]);
        assert(join(ls, sep) =~= ls[0] + sep + join(ls.drop_first(), sep));
    }
}

/// A `'\n'` between lines that hold none is followed by the later lines
/// joined.
pub proof fn lemma_join_nl(ls: Seq<Seq<char>>, k: int) -> (i: int)
    requires
        forall|a: int, b: int| 0 <= a < ls.len() && 0 <= b < ls[a].len() ==> #[trigger] ls[a][b] != '\n',
        0 <= k < join(ls, nl()).len(),
        join(ls, nl())[k] == '\n',
    ensures
        0 <= i < ls.len() - 1,
        join(ls, nl()).skip(k + 1) == join(ls.skip(i + 1), nl()),
    decreases ls.len(),
{
    if ls.len() == 1 {
        assert(ls[0][k] != '\n');
        0
    } else {
        lemma_join_front(ls, nl());
        let l0 = ls[0];
        let r = ls.drop_first();
        let jr = join(r, nl());
        assert(join(ls, nl()) == l0 + nl() + jr);
        if k < l0.len() {
            assert(join(ls, nl())[k] == l0[k]);
            0
        } else if k == l0.len() {
            assert(join(ls, nl()).skip(k + 1) =~= jr);
            assert(ls.skip(1) =~= r);
            0
        } else {
            let k2 = k - l0.len() - 1;
            assert(jr[k2] == join(ls, nl())[k]);
            let i2 = lemma_join_nl(r, k2);
            assert(join(ls, nl()).skip(k + 1) =~= jr.skip(k2 + 1));
            assert(r.skip(i2 + 1) =~= ls.skip(i2 + 2));
            i2 + 1
        }
    }
}

/// What `trim_start` removes is white space.
pub proof fn lemma_trim_start_removes_ws(s: Seq<char>)
    ensures
        trim_start(s).len() <= s.len(),
        forall|j: int| 0 <= j < s.len() - trim_start(s).len() ==> is_ws(#[trigger] s[j]),
    decreases s.len(),
{
    if s.len() > 0 && is_ws(s[0]) {
        lemma_trim_start_removes_ws(s.drop_first());
        assert forall|j: int| 0 <= j < s.len() - trim_start(s).len() implies is_ws(#[trigger] s[j]) by {
            if j > 0 {
                assert(s[j] == s.drop_first()[j - 1]);
            }
        }
    }
}

/// `trim_end` keeps a prefix and removes white space only.
pub proof fn lemma_trim_end_shape(s: Seq<char>)
    ensures
        trim_end(s).len() <= s.len(),
        trim_end(s) == s.take(trim_end(s).len() as int),
        forall|j: int| trim_end(s).len() <= j < s.len() ==> is_ws(#[trigger] s[j]),
        trim_end(s).len() > 0 ==> !is_ws(trim_end(s).last()),
    decreases s.len(),
{
    if s.len() > 0 && is_ws(s.last()) {
        let d = s.drop_last();
        lemma_trim_end_shape(d);
        assert(d.take(trim_end(d).len() as int) =~= s.take(trim_end(d).len() as int));
        assert forall|j: int| trim_end(s).len() <= j < s.len() implies is_ws(#[trigger] s[j]) by {
            if j < s.len() - 1 {
                assert(s[j] == d[j]);
            }
        }
    } else {
        assert(s.take(s.len() as int) =~= s);
    }
}

/// Text that is all white space trims to nothing at its end.
pub proof fn lemma_trim_end_all_ws(w: Seq<char>)
    requires
        forall|j: int| 0 <= j < w.len() ==> is_ws(#[trigger] w[j]),
    ensures
        trim_end(w).len() == 0,
    decreases w.len(),
{
    if w.len() > 0 {
        assert(is_ws(w[w.len() - 1]));
        lemma_trim_end_all_ws(w.drop_last());
    }
}

/// A line whose trim is `t` (not empty) is white space, `t`, white space:
/// the position of `t` is returned.
pub proof fn lemma_trim_split(l: Seq<char>) -> (a: int)
    requires
        trim(l).len() > 0,
    ensures
        0 <= a,
        a + trim(l).len() <= l.len(),
        l.subrange(a, a + trim(l).len()) == trim(l),
        forall|j: int| 0 <= j < a ==> is_ws(#[trigger] l[j]),
        forall|j: int| a + trim(l).len() <= j < l.len() ==> is_ws(#[trigger] l[j]),
        !is_ws(trim(l)[0]),
{
    lemma_trim_start_shape(l);
    lemma_trim_start_removes_ws(l);
    let ts = trim_start(l);
    let a = l.len() - ts.len();
    lemma_trim_end_shape(ts);
    let t = trim(l);
    assert(t == trim_end(ts));
    assert(ts == l.skip(a));
    assert(t == ts.take(t.len() as int));
    assert(l.subrange(a, a + t.len()) =~= t);
    assert forall|j: int| a + t.len() <= j < l.len() implies is_ws(#[trigger] l[j]) by {
        assert(l[j] == ts[j - a]);
    }
    assert(t[0] == ts[0]);
    a
}

/// Dropping one final `'\r'` does not change `trim`.
pub proof fn lemma_trim_strip_cr(l: Seq<char>)
    ensures
        trim(strip_cr(l)) == trim(l),
{
    if l.len() > 0 && l.last() == '\r' {
        lemma_trim_drop_ws_last(l);
    }
}

/// A text that is empty or ends with `'\n'`, then another: the lines of the
/// first, then those of the second.
pub proof fn lemma_lines_append(s: Seq<char>, t: Seq<char>)
    requires
        s.len() == 0 || s.last() == '\n',
    ensures
        lines(s + t) == lines(s) + lines(t),
    decreases s.len(),
{
    if s.len() == 0 {
        assert(s + t =~= t);
        assert(lines(s) + lines(t) =~= lines(t));
    } else {
        lemma_index_of_bound(s, '\n');
        let k = index_of(s, '\n');
        assert(k < s.len());
        lemma_index_of_char(s + t, '\n', k as int);
        let r = s.skip(k + 1 as int);
        assert((s + t).take(k as int) =~= s.take(k as int));
        assert((s + t).skip(k + 1 as int) =~= r + t);
        assert(r.len() == 0 || r.last() == '\n');
        lemma_lines_append(r, t);
        assert(lines(s + t) =~= lines(s) + lines(t));
    }
}

/// A text that does not end with `'\n'`, with one added: the same lines, the
/// last without one final `'\r'`.
pub proof fn lemma_lines_push_nl(s: Seq<char>)
    requires
        s.len() > 0,
        s.last() != '\n',
    ensures
        lines(s).len() > 0,
        lines(s.push('\n')) == lines(s).drop_last().push(strip_cr(lines(s).last())),
    decreases s.len(),
{
    let u = s.push('\n');
    lemma_index_of_bound(s, '\n');
    let k = index_of(s, '\n');
    if k == s.len() {
        lemma_index_of_char(u, '\n', s.len() as int);
        assert(u.take(s.len() as int) =~= s);
        let e: Seq<char> = seq![];
        assert(u.skip(s.len() + 1 as int) =~= e);
        assert(lines(e).len() == 0);
        assert(lines(s) == seq![s]);
        assert(lines(u) == seq![strip_cr(u.take(s.len() as int))] + lines(u.skip(s.len() + 1 as int)));
        assert(lines(s.push('\n')) =~= lines(s).drop_last().push(strip_cr(lines(s).last())));
    } else {
        assert(k < s.len() - 1);
        lemma_index_of_char(u, '\n', k as int);
        let r = s.skip(k + 1 as int);
        assert(u.take(k as int) =~= s.take(k as int));
        assert(u.skip(k + 1 as int) =~= r.push('\n'));
        assert(r.last() == s.last());
        lemma_lines_push_nl(r);
        assert(lines(s.push('\n')) =~= lines(s).drop_last().push(strip_cr(lines(s).last())));
    }
}

/// Lines that hold no `'\n'`, joined and ended by `'\n'`, read back as
/// themselves, each without one final `'\r'`.
pub proof fn lemma_lines_of_joined(ls: Seq<Seq<char>>)
    requires
        ls.len() >= 1,
        forall|a: int, b: int| 0 <= a < ls.len() && 0 <= b < ls[a].len() ==> #[trigger] ls[a][b] != '\n',
    ensures
        lines(join(ls, nl()) + nl()) == ls.map_values(|l: Seq<char>| strip_cr(l)),
    decreases ls.len(),
{
    let n = join(ls, nl()) + nl();
    let l0 = ls[0];
    let k = l0.len() as int;
    if ls.len() == 1 {
        assert(join(ls, nl()) == l0);
        assert(n =~= l0 + nl());
    } else {
        lemma_join_front(ls, nl());
        assert(n =~= l0 + nl() + (join(ls.drop_first(), nl()) + nl()));
    }
    assert(n[k] == '\n');
    assert forall|j: int| 0 <= j < k implies n[j] != '\n' by {
        assert(n[j] == ls[0][j]);
    }
    lemma_index_of_char(n, '\n', k);
    assert(n.take(k) =~= l0);
    assert(lines(n) == seq![strip_cr(n.take(k))] + lines(n.skip(k + 1)));
    if ls.len() == 1 {
        assert(n.skip(k + 1).len() == 0);
        assert(lines(n.skip(k + 1)) == Seq::<Seq<char>>::empty());
        assert(lines(n) =~= ls.map_values(|l: Seq<char>| strip_cr(l)));
    } else {
        let r = ls.drop_first();
        assert(n.skip(k + 1) =~= join(r, nl()) + nl());
        assert forall|a: int, b: int| 0 <= a < r.len() && 0 <= b < r[a].len() implies #[trigger] r[a][b] != '\n' by {
            assert(r[a] == ls[a + 1]);
        }
        lemma_lines_of_joined(r);
        assert(lines(n) =~= ls.map_values(|l: Seq<char>| strip_cr(l)));
    }
}

/// Lines that hold no `'\n'`, joined: read back, each line but the last is
/// itself without one final `'\r'`.
pub proof fn lemma_lines_of_join(ls: Seq<Seq<char>>)
    requires
        ls.len() >= 1,
        forall|a: int, b: int| 0 <= a < ls.len() && 0 <= b < ls[a].len() ==> #[trigger] ls[a][b] != '\n',
    ensures
        lines(join(ls, nl())).len() >= ls.len() - 1,
        forall|i: int| 0 <= i < ls.len() - 1 ==> #[trigger] lines(join(ls, nl()))[i] == strip_cr(ls[i]),
        ls.last().len() > 0 ==> lines(join(ls, nl())).len() == ls.len() && lines(join(ls, nl()))[ls.len() - 1]
            == ls.last(),
    decreases ls.len(),
{
    if ls.len() == 1 {
        let l0 = ls[0];
        if l0.len() > 0 {
            assert forall|j: int| 0 <= j < l0.len() implies l0[j] != '\n' by {
                assert(ls[0][j] != '\n');
            }
            lemma_index_of_char(l0, '\n', l0.len() as int);
            assert(join(ls, nl()) == l0);
            assert(lines(l0) == seq![l0]);
        }
    }
    if ls.len() >= 2 {
        lemma_join_front(ls, nl());
        let l0 = ls[0];
        let r = ls.drop_first();
        let n = join(ls, nl());
        let k = l0.len() as int;
        assert(n == l0 + nl() + join(r, nl()));
        assert(n[k] == '\n');
        assert forall|j: int| 0 <= j < k implies n[j] != '\n' by {
            assert(n[j] == l0[j]);
        }
        lemma_index_of_char(n, '\n', k);
        assert(n.take(k) =~= l0);
        assert(n.skip(k + 1) =~= join(r, nl()));
        assert(lines(n) == seq![strip_cr(l0)] + lines(join(r, nl())));
        assert forall|a: int, b: int| 0 <= a < r.len() && 0 <= b < r[a].len() implies #[trigger] r[a][b] != '\n' by {
            assert(r[a] == ls[a + 1]);
        }
        lemma_lines_of_join(r);
        assert(lines(n).len() == 1 + lines(join(r, nl())).len());
        assert(r.last() == ls.last());
        assert forall|i: int| 0 <= i < ls.len() - 1 implies #[trigger] lines(n)[i] == strip_cr(ls[i]) by {
            if i > 0 {
                assert(r[i - 1] == ls[i]);
                assert(lines(n)[i] == lines(join(r, nl()))[i - 1]);
            }
        }
    }
}

/// A text that neither starts nor ends with white space is its own `trim`.
pub proof fn lemma_trim_plain(v: Seq<char>)
    requires
        v.len() > 0,
        !is_ws(v[0]),
        !is_ws(v.last()),
    ensures
        trim(v) == v,
{
    assert(trim_start(v) == v);
    assert(trim_end(v) == v);
}

/// The spaces and tabs that start a line.
pub proof fn lemma_leading_blanks(l: Seq<char>)
    ensures
        forall|k: int| 0 <= k < leading_blanks(l).len() ==> #[trigger] leading_blanks(l)[k] == ' '
            || leading_blanks(l)[k] == '\t',
    decreases l.len(),
{
    if l.len() > 0 && (l[0] == ' ' || l[0] == '\t') {
        lemma_leading_blanks(l.drop_first());
        let r = leading_blanks(l.drop_first());
        assert forall|k: int| 0 <= k < leading_blanks(l).len() implies #[trigger] leading_blanks(l)[k] == ' '
            || leading_blanks(l)[k] == '\t' by {
            if k > 0 {
                assert(leading_blanks(l)[k] == r[k - 1]);
            }
        }
    }
}

/// Sum of the lengths of the lines.
pub open spec fn total_len(ls: Seq<Seq<char>>) -> nat
    decreases ls.len(),
{
    if ls.len() == 0 {
        0
    } else {
        total_len(ls.drop_last()) + ls.last().len()
    }
}

pub proof fn lemma_count_le(s: Seq<char>, c: char)
    ensures
        count(s, c) <= s.len(),
    decreases s.len(),
{
    if s.len() > 0 {
        lemma_count_le(s.drop_last(), c);
    }
}

pub proof fn lemma_trim_start_len(s: Seq<char>)
    ensures
        trim_start(s).len() <= s.len(),
    decreases s.len(),
{
    if s.len() > 0 && is_ws(s[0]) {
        lemma_trim_start_len(s.drop_first());
    }
}

pub proof fn lemma_trim_end_len(s: Seq<char>)
    ensures
        trim_end(s).len() <= s.len(),
    decreases s.len(),
{
    if s.len() > 0 && is_ws(s.last()) {
        lemma_trim_end_len(s.drop_last());
    }
}

pub proof fn lemma_trim_len(s: Seq<char>)
    ensures
        trim(s).len() <= s.len(),
{
    lemma_trim_start_len(s);
    lemma_trim_end_len(trim_start(s));
}

proof fn lemma_total_len_append(a: Seq<Seq<char>>, b: Seq<Seq<char>>)
    ensures
        total_len(a + b) == total_len(a) + total_len(b),
    decreases b.len(),
{
    if b.len() == 0 {
        assert(a + b =~= a);
    } else {
        lemma_total_len_append(a, b.drop_last());
        assert((a + b).drop_last() =~= a + b.drop_last());
    }
}

/// The lines of a text are not longer together than the text.
pub proof fn lemma_lines_total_len(s: Seq<char>)
    ensures
        total_len(lines(s)) <= s.len(),
    decreases s.len(),
{
    if s.len() > 0 {
        let k = index_of(s, '\n');
        lemma_index_of_bound(s, '\n');
        if k == s.len() {
            assert(lines(s) == seq![s]);
            assert(seq![s].drop_last() =~= Seq::<Seq<char>>::empty());
            assert(total_len(Seq::<Seq<char>>::empty()) == 0);
            assert(seq![s].last() == s);
        } else {
            let rest = s.skip(k + 1 as int);
            lemma_lines_total_len(rest);
            let first = seq![strip_cr(s.take(k as int))];
            assert(lines(s) == first + lines(rest));
            lemma_total_len_append(first, lines(rest));
            assert(first.drop_last() =~= Seq::<Seq<char>>::empty());
            assert(total_len(Seq::<Seq<char>>::empty()) == 0);
            assert(first.last() == strip_cr(s.take(k as int)));
        }
    }
}

/// A prefix of lines is not longer than all of them.
pub proof fn lemma_total_len_take(ls: Seq<Seq<char>>, i: int)
    requires
        0 <= i <= ls.len(),
    ensures
        total_len(ls.take(i)) <= total_len(ls),
        i < ls.len() ==> total_len(ls.take(i + 1)) == total_len(ls.take(i)) + ls[i].len(),
    decreases ls.len() - i,
{
    if i < ls.len() {
        assert(ls.take(i + 1).drop_last() =~= ls.take(i));
        lemma_total_len_take(ls, i + 1);
    } else {
        assert(ls.take(i) =~= ls);
    }
}

// ---------------------------------------------------------------- exec

/// The characters of `s`, in order.
pub fn chars_of(s: &str) -> (r: Vec<char>)
    ensures
        r@ == s@,
{
    let mut v: Vec<char> = Vec::new();
    for c in it: s.chars()
        invariant
            v@ == it.seq().take(it.index()),
    {
        v.push(c);
    }
    assert(v@ =~= s@);
    v
}

/// Appends one character (`String::push`).
#[verifier::external_body]
pub fn push_char(s: &mut String, c: char)
    ensures
        final(s)@ == old(s)@.push(c),
{
    s.push(c);
}

/// A `String` holding the characters of `v`.
pub fn string_of(v: &Vec<char>) -> (r: String)
    ensures
        r@ == v@,
{
    let mut s = String::new();
    for i in 0..v.len()
        invariant
            s@ == v@.take(i as int),
    {
        push_char(&mut s, v[i]);
        assert(v@.take(i + 1) =~= v@.take(i as int).push(v@[i as int]));
    }
    assert(v@.take(v.len() as int) =~= v@);
    s
}

pub fn char_is_ws(c: char) -> (r: bool)
    ensures
        r == is_ws(c),
{
    let u: u32 = c as u32;
    (0x9 <= u && u <= 0xd) || u == 0x20 || u == 0x85 || u == 0xa0 || u == 0x1680 || (0x2000 <= u
        && u <= 0x200a) || u == 0x2028 || u == 0x2029 || u == 0x202f || u == 0x205f || u == 0x3000
}

/// `v@.subrange(a, b)` as a new vector.
pub fn slice(v: &Vec<char>, a: usize, b: usize) -> (r: Vec<char>)
    requires
        a <= b <= v.len(),
    ensures
        r@ == v@.subrange(a as int, b as int),
{
    let mut r: Vec<char> = Vec::new();
    let mut i: usize = a;
    while i < b
        invariant
            a <= i <= b <= v.len(),
            r@ == v@.subrange(a as int, i as int),
        decreases b - i,
    {
        r.push(v[i]);
        i += 1;
        assert(r@ =~= v@.subrange(a as int, i as int));
    }
    r
}


/// Whether `a` and `b` hold the same characters.
pub fn same(a: &Vec<char>, b: &Vec<char>) -> (r: bool)
    ensures
        r == (a@ == b@),
{
    if a.len() != b.len() {
        return false;
    }
    let mut i: usize = 0;
    while i < a.len()
        invariant
            a.len() == b.len(),
            i <= a.len(),
            a@.take(i as int) == b@.take(i as int),
        decreases a.len() - i,
    {
        if a[i] != b[i] {
            assert(a@[i as int] != b@[i as int]);
            return false;
        }
        i += 1;
        assert(a@.take(i as int) =~= a@.take(i - 1).push(a@[i - 1]));
        assert(b@.take(i as int) =~= b@.take(i - 1).push(b@[i - 1]));
    }
    assert(a@ =~= a@.take(i as int));
    assert(b@ =~= b@.take(i as int));
    true
}

/// Whether `p` occurs in `s` at `i`.
pub fn matches_at(s: &Vec<char>, p: &Vec<char>, i: usize) -> (r: bool)
    ensures
        r == occurs_at(s@, p@, i as int),
{
    if i > s.len() || p.len() > s.len() - i {
        return false;
    }
    let mut j: usize = 0;
    while j < p.len()
        invariant
            i + p.len() <= s.len(),
            j <= p.len(),
            forall|k: int| 0 <= k < j ==> s@[i + k] == p@[k],
        decreases p.len() - j,
    {
        if s[i + j] != p[j] {
            assert(s@.subrange(i as int, i + p.len())[j as int] != p@[j as int]);
            return false;
        }
        j += 1;
    }
    assert(s@.subrange(i as int, i + p.len()) =~= p@);
    true
}

pub fn has_prefix(s: &Vec<char>, p: &Vec<char>) -> (r: bool)
    ensures
        r == starts_with(s@, p@),
{
    let r = matches_at(s, p, 0);
    assert(s@.subrange(0, p@.len() as int) =~= s@.take(p@.len() as int));
    r
}

pub fn has_suffix(s: &Vec<char>, p: &Vec<char>) -> (r: bool)
    ensures
        r == ends_with(s@, p@),
{
    if p.len() > s.len() {
        return false;
    }
    let r = matches_at(s, p, s.len() - p.len());
    assert(s@.subrange(s.len() - p.len(), s.len() as int) =~= s@.skip(s.len() - p.len()));
    r
}

/// First occurrence of `p` in `s` at or after `from` (`str::find`).
pub fn search_from(s: &Vec<char>, p: &Vec<char>, from: usize) -> (r: Option<usize>)
    ensures
        match r {
            Some(i) => find_from(s@, p@, from as int) == Some(i as int),
            None => find_from(s@, p@, from as int) is None,
        },
{
    let mut i: usize = from;
    while i <= s.len() && p.len() <= s.len() - i
        invariant
            find_from(s@, p@, from as int) == find_from(s@, p@, i as int),
            from <= i,
        decreases s.len() + 1 - i,
    {
        if matches_at(s, p, i) {
            return Some(i);
        }
        if i == s.len() {
            assert(p@.len() > 0) by {
                if p@.len() == 0 {
                    assert(s@.subrange(i as int, i as int) =~= p@);
                }
            }
            return None;
        }
        i += 1;
    }
    None
}

pub fn search(s: &Vec<char>, p: &Vec<char>) -> (r: Option<usize>)
    ensures
        match r {
            Some(i) => find(s@, p@) == Some(i as int),
            None => find(s@, p@) is None,
        },
{
    search_from(s, p, 0)
}

pub fn has(s: &Vec<char>, p: &Vec<char>) -> (r: bool)
    ensures
        r == contains(s@, p@),
{
    search(s, p).is_some()
}

/// Bounds of `s` without leading and trailing white space.
pub fn trim_bounds(s: &Vec<char>) -> (r: (usize, usize))
    ensures
        r.0 <= r.1 <= s.len(),
        s@.subrange(r.0 as int, r.1 as int) == trim(s@),
        s@.skip(r.0 as int) == trim_start(s@),
{
    let mut i: usize = 0;
    assert(s@.skip(0) =~= s@);
    while i < s.len() && char_is_ws(s[i])
        invariant
            i <= s.len(),
            trim_start(s@) == trim_start(s@.skip(i as int)),
        decreases s.len() - i,
    {
        assert(s@.skip(i as int).drop_first() =~= s@.skip(i + 1));
        i += 1;
    }
    assert(trim_start(s@.skip(i as int)) == s@.skip(i as int)) by {
        if i < s.len() {
            assert(s@.skip(i as int)[0] == s@[i as int]);
        }
    }
    let mut j: usize = s.len();
    while j > i && char_is_ws(s[j - 1])
        invariant
            i <= j <= s.len(),
            trim_end(s@.skip(i as int)) == trim_end(s@.subrange(i as int, j as int)),
        decreases j,
    {
        assert(s@.subrange(i as int, j as int).drop_last() =~= s@.subrange(i as int, j - 1));
        j -= 1;
    }
    assert(s@.skip(i as int) =~= s@.subrange(i as int, s.len() as int));
    (i, j)
}

/// `str::trim` as a new vector.
pub fn trimmed(s: &Vec<char>) -> (r: Vec<char>)
    ensures
        r@ == trim(s@),
{
    let (a, b) = trim_bounds(s);
    slice(s, a, b)
}

/// `str::trim_start` as a new vector.
pub fn trimmed_start(s: &Vec<char>) -> (r: Vec<char>)
    ensures
        r@ == trim_start(s@),
{
    let (a, _b) = trim_bounds(s);
    let r = slice(s, a, s.len());
    assert(r@ =~= s@.skip(a as int));
    r
}

/// `str::lines`.
pub fn split_lines(s: &Vec<char>) -> (r: Vec<Vec<char>>)
    ensures
        views(r@) == lines(s@),
{
    let mut out: Vec<Vec<char>> = Vec::new();
    let mut cur: Vec<char> = Vec::new();
    let mut start: usize = 0;
    let mut i: usize = 0;
    assert(s@.skip(0) =~= s@);
    assert(views(out@) =~= Seq::<Seq<char>>::empty());
    while i < s.len()
        invariant
            start <= i <= s.len(),
            cur@ == s@.subrange(start as int, i as int),
            forall|k: int| start <= k < i ==> s@[k] != '\n',
            lines(s@) == views(out@) + lines(s@.skip(start as int)),
        decreases s.len() - i,
    {
        let c = s[i];
        if c == '\n' {
            let ghost rest = s@.skip(start as int);
            proof {
                lemma_index_of_char(rest, '\n', i - start);
                assert(rest.take(i - start) =~= cur@);
                assert(rest.skip(i - start + 1) =~= s@.skip(i + 1));
            }
            let line = if cur.len() > 0 && cur[cur.len() - 1] == '\r' {
                let l = slice(&cur, 0, cur.len() - 1);
                assert(l@ =~= cur@.drop_last());
                l
            } else {
                cur
            };
            let ghost old_out = views(out@);
            out.push(line);
            assert(views(out@) =~= old_out.push(line@));
            assert(views(out@) + lines(s@.skip(i + 1)) =~= old_out + (seq![strip_cr(cur@)]
                + lines(s@.skip(i + 1))));
            cur = Vec::new();
            start = i + 1;
        } else {
            cur.push(c);
        }
        i += 1;
        assert(cur@ =~= s@.subrange(start as int, i as int));
    }
    if start < s.len() {
        let ghost rest = s@.skip(start as int);
        proof {
            lemma_index_of_char(rest, '\n', rest.len() as int);
            assert(rest =~= cur@);
        }
        let ghost old_out = views(out@);
        out.push(cur);
        assert(views(out@) =~= old_out.push(rest));
    } else {
        assert(s@.skip(start as int) =~= Seq::<char>::empty());
        assert(views(out@) + lines(s@.skip(start as int)) =~= views(out@));
    }
    out
}

/// The lines joined with `sep` between them.
pub fn join_with(ls: &Vec<Vec<char>>, sep: &Vec<char>) -> (r: Vec<char>)
    ensures
        r@ == join(views(ls@), sep@),
{
    let mut out: Vec<char> = Vec::new();
    let mut i: usize = 0;
    while i < ls.len()
        invariant
            i <= ls.len(),
            out@ == join(views(ls@).take(i as int), sep@),
        decreases ls.len() - i,
    {
        let ghost before = out@;
        if i > 0 {
            append(&mut out, sep);
        }
        append(&mut out, &ls[i]);
        i += 1;
        let ghost t = views(ls@).take(i as int);
        assert(t.drop_last() =~= views(ls@).take(i - 1));
        assert(t.last() == ls[i - 1]@);
        if i == 1 {
            assert(before =~= Seq::<char>::empty());
            assert(out@ =~= t[0]);
        }
    }
    assert(views(ls@).take(i as int) =~= views(ls@));
    out
}

/// The lines of `s` (`str::lines`).
pub fn lines_of(s: &str) -> (r: Vec<Vec<char>>)
    ensures
        views(r@) == lines(s@),
{
    let v = chars_of(s);
    split_lines(&v)
}

/// The lines joined by `'\n'` as a `String`.
pub fn join_lines(ls: &Vec<Vec<char>>) -> (r: String)
    ensures
        r@ == join(views(ls@), nl()),
{
    let mut sep: Vec<char> = Vec::new();
    sep.push('\n');
    assert(sep@ == nl());
    let v = join_with(ls, &sep);
    string_of(&v)
}

/// `str::to_ascii_lowercase`.
pub fn to_ascii_lower(s: &Vec<char>) -> (r: Vec<char>)
    ensures
        r@ == ascii_lower(s@),
{
    let mut r: Vec<char> = Vec::new();
    let mut i: usize = 0;
    while i < s.len()
        invariant
            i <= s.len(),
            r@ == ascii_lower(s@.take(i as int)),
        decreases s.len() - i,
    {
        let c = s[i];
        let d = if 'A' <= c && c <= 'Z' {
            ((c as u8) + 32) as char
        } else {
            c
        };
        r.push(d);
        i += 1;
        assert(r@ =~= ascii_lower(s@.take(i as int)));
    }
    assert(s@.take(i as int) =~= s@);
    r
}

/// Number of `c` in `s`.
pub fn count_char(s: &Vec<char>, c: char) -> (r: usize)
    ensures
        r == count(s@, c),
{
    let mut n: usize = 0;
    let mut i: usize = 0;
    while i < s.len()
        invariant
            i <= s.len(),
            n == count(s@.take(i as int), c),
            n <= i,
        decreases s.len() - i,
    {
        assert(s@.take(i + 1).drop_last() =~= s@.take(i as int));
        if s[i] == c {
            n += 1;
        }
        i += 1;
    }
    assert(s@.take(i as int) =~= s@);
    n
}

/// `str::trim_end_matches(c)`.
pub fn cut_end_char(s: &Vec<char>, c: char) -> (r: Vec<char>)
    ensures
        r@ == trim_end_char(s@, c),
{
    let mut j: usize = s.len();
    assert(s@.take(j as int) =~= s@);
    while j > 0 && s[j - 1] == c
        invariant
            j <= s.len(),
            trim_end_char(s@, c) == trim_end_char(s@.take(j as int), c),
        decreases j,
    {
        assert(s@.take(j as int).drop_last() =~= s@.take(j - 1));
        j -= 1;
    }
    let r = slice(s, 0, j);
    assert(r@ =~= s@.take(j as int));
    r
}

/// `str::trim_start_matches(c)`.
pub fn cut_start_char(s: &Vec<char>, c: char) -> (r: Vec<char>)
    ensures
        r@ == trim_start_char(s@, c),
{
    let mut i: usize = 0;
    assert(s@.skip(0) =~= s@);
    while i < s.len() && s[i] == c
        invariant
            i <= s.len(),
            trim_start_char(s@, c) == trim_start_char(s@.skip(i as int), c),
        decreases s.len() - i,
    {
        assert(s@.skip(i as int).drop_first() =~= s@.skip(i + 1));
        i += 1;
    }
    let r = slice(s, i, s.len());
    assert(r@ =~= s@.skip(i as int));
    r
}

/// `str::trim_matches(c)`.
pub fn cut_char(s: &Vec<char>, c: char) -> (r: Vec<char>)
    ensures
        r@ == trim_char(s@, c),
{
    let t = cut_start_char(s, c);
    cut_end_char(&t, c)
}

/// The index of the first `c` in `s`, or its length.
pub fn find_char(s: &Vec<char>, c: char) -> (r: usize)
    ensures
        r as int == index_of(s@, c),
        r <= s.len(),
{
    let mut i: usize = 0;
    while i < s.len() && s[i] != c
        invariant
            i <= s.len(),
            forall|k: int| 0 <= k < i ==> s@[k] != c,
        decreases s.len() - i,
    {
        i += 1;
    }
    proof {
        lemma_index_of_char(s@, c, i as int);
    }
    i
}

/// The part of `s` before its first `c`.
pub fn cut_before(s: &Vec<char>, c: char) -> (r: Vec<char>)
    ensures
        r@ == before(s@, c),
{
    let mut i: usize = 0;
    while i < s.len() && s[i] != c
        invariant
            i <= s.len(),
            forall|k: int| 0 <= k < i ==> s@[k] != c,
        decreases s.len() - i,
    {
        i += 1;
    }
    proof {
        lemma_index_of_char(s@, c, i as int);
    }
    slice(s, 0, i)
}

/// The spaces and tabs that start `l`.
pub fn blanks_of(l: &Vec<char>) -> (r: Vec<char>)
    ensures
        r@ == leading_blanks(l@),
{
    let mut i: usize = 0;
    proof {
        assert(l@.skip(0) =~= l@);
        assert(l@.take(0) + leading_blanks(l@) =~= leading_blanks(l@));
    }
    while i < l.len() && (l[i] == ' ' || l[i] == '\t')
        invariant
            i <= l.len(),
            leading_blanks(l@) == l@.take(i as int) + leading_blanks(l@.skip(i as int)),
        decreases l.len() - i,
    {
        proof {
            let rest = l@.skip(i as int);
            assert(rest.drop_first() =~= l@.skip(i + 1));
            assert(l@.take(i + 1) =~= l@.take(i as int) + seq![rest[0]]);
        }
        i += 1;
    }
    let r = slice(l, 0, i);
    assert(leading_blanks(l@.skip(i as int)) =~= Seq::<char>::empty()) by {
        if i < l.len() {
            assert(l@.skip(i as int)[0] == l@[i as int]);
        }
    }
    assert(r@ =~= l@.take(i as int));
    r
}

/// A vector holding the characters of a literal.
pub fn lit(s: &str) -> (r: Vec<char>)
    ensures
        r@ == s@,
{
    chars_of(s)
}

/// Whether two vectors of lines hold the same lines.
pub fn same_lines(a: &Vec<Vec<char>>, b: &Vec<Vec<char>>) -> (r: bool)
    ensures
        r == (views(a@) == views(b@)),
{
    if a.len() != b.len() {
        assert(views(a@).len() != views(b@).len());
        return false;
    }
    let mut i: usize = 0;
    while i < a.len()
        invariant
            a.len() == b.len(),
            i <= a.len(),
            forall|k: int| 0 <= k < i ==> a@[k]@ == b@[k]@,
        decreases a.len() - i,
    {
        if !same(&a[i], &b[i]) {
            assert(views(a@)[i as int] != views(b@)[i as int]);
            return false;
        }
        i += 1;
    }
    assert(views(a@) =~= views(b@));
    true
}

/// Appends the characters of `b` to `a`.
pub fn append(a: &mut Vec<char>, b: &Vec<char>)
    ensures
        final(a)@ == old(a)@ + b@,
{
    let mut i: usize = 0;
    while i < b.len()
        invariant
            i <= b.len(),
            a@ == old(a)@ + b@.take(i as int),
        decreases b.len() - i,
    {
        a.push(b[i]);
        i += 1;
        assert(old(a)@ + b@.take(i as int) =~= old(a)@ + b@.take(i - 1) + seq![b@[i - 1]]);
    }
    assert(b@.take(i as int) =~= b@);
}

// ---------------------------------------------------------------- words

/// Index of the first white space character of `s`, or its length.
pub open spec fn first_ws(s: Seq<char>) -> nat
    decreases s.len(),
{
    if s.len() == 0 {
        0
    } else if is_ws(s[0]) {
        0
    } else {
        1 + first_ws(s.drop_first())
    }
}

pub proof fn lemma_first_ws(s: Seq<char>)
    ensures
        first_ws(s) <= s.len(),
        s.len() > 0 && !is_ws(s[0]) ==> first_ws(s) >= 1,
        forall|j: int| 0 <= j < first_ws(s) ==> !is_ws(s[j]),
        first_ws(s) < s.len() ==> is_ws(s[first_ws(s) as int]),
    decreases s.len(),
{
    if s.len() > 0 && !is_ws(s[0]) {
        lemma_first_ws(s.drop_first());
        assert forall|j: int| 0 <= j < first_ws(s) implies !is_ws(s[j]) by {
            if j > 0 {
                assert(s[j] == s.drop_first()[j - 1]);
            }
        }
    }
}

pub proof fn lemma_trim_start_shape(s: Seq<char>)
    ensures
        trim_start_ok(s),
    decreases s.len(),
{
    if s.len() > 0 && is_ws(s[0]) {
        let d = s.drop_first();
        lemma_trim_start_shape(d);
        let t = trim_start(d);
        assert(d.skip(d.len() - t.len()) =~= s.skip(s.len() - t.len()));
    } else {
        assert(s.skip(0) =~= s);
    }
}

/// `trim_start(s)` is a suffix of `s` that does not start with white space.
pub open spec fn trim_start_ok(s: Seq<char>) -> bool {
    let t = trim_start(s);
    &&& t.len() <= s.len()
    &&& t == s.skip(s.len() - t.len())
    &&& (t.len() > 0 ==> !is_ws(t[0]))
}

/// The words of `s` (`str::split_whitespace`).
pub open spec fn words(s: Seq<char>) -> Seq<Seq<char>>
    decreases s.len(),
{
    let t = trim_start(s);
    if t.len() == 0 {
        seq![]
    } else {
        let k = first_ws(t);
        proof {
            lemma_trim_start_shape(s);
            lemma_first_ws(t);
        }
        seq![t.take(k as int)] + words(t.skip(k as int))
    }
}

pub proof fn lemma_first_ws_at(s: Seq<char>, k: int)
    requires
        0 <= k <= s.len(),
        k < s.len() ==> is_ws(s[k]),
        forall|j: int| 0 <= j < k ==> !is_ws(s[j]),
    ensures
        first_ws(s) == k,
    decreases s.len(),
{
    if s.len() > 0 && k > 0 {
        assert forall|j: int| 0 <= j < k - 1 implies !is_ws(s.drop_first()[j]) by {
            assert(s.drop_first()[j] == s[j + 1]);
        }
        lemma_first_ws_at(s.drop_first(), k - 1);
    }
}

/// The split of `words` at a white space character.
pub proof fn lemma_words_skip_ws(s: Seq<char>, i: int)
    requires
        0 <= i < s.len(),
        is_ws(s[i]),
    ensures
        words(s.skip(i)) == words(s.skip(i + 1)),
{
    assert(s.skip(i).drop_first() =~= s.skip(i + 1));
    assert(trim_start(s.skip(i)) == trim_start(s.skip(i + 1)));
}

/// A word without white space is one word.
pub proof fn lemma_one_word(b: Seq<char>)
    requires
        b.len() > 0,
        forall|i: int| 0 <= i < b.len() ==> !is_ws(#[trigger] b[i]),
    ensures
        words(b) == seq![b],
{
    assert(trim_start(b) == b);
    lemma_first_ws_at(b, b.len() as int);
    assert(b.take(b.len() as int) =~= b);
    let e: Seq<char> = seq![];
    assert(b.skip(b.len() as int) =~= e);
    assert(trim_start(e) == e);
    assert(words(e) =~= seq![]);
    assert(words(b) =~= seq![b] + words(e));
}

/// Two words without white space, one space between them, are those two
/// words.
pub proof fn lemma_two_words(a: Seq<char>, b: Seq<char>)
    requires
        a.len() > 0,
        b.len() > 0,
        forall|i: int| 0 <= i < a.len() ==> !is_ws(#[trigger] a[i]),
        forall|i: int| 0 <= i < b.len() ==> !is_ws(#[trigger] b[i]),
    ensures
        words(a + seq![' '] + b) == seq![a, b],
{
    let s = a + seq![' '] + b;
    assert(s[0] == a[0]);
    assert(trim_start(s) == s);
    assert(is_ws(' '));
    lemma_first_ws_at(s, a.len() as int);
    assert(s.take(a.len() as int) =~= a);
    let r = s.skip(a.len() as int);
    assert(r =~= seq![' '] + b);
    lemma_trim_start_after_ws(seq![' '], b);
    lemma_first_ws_at(b, b.len() as int);
    assert(b.take(b.len() as int) =~= b);
    let e: Seq<char> = seq![];
    assert(b.skip(b.len() as int) =~= e);
    assert(trim_start(e) == e);
    assert(words(e) =~= seq![]);
    assert(words(r) =~= seq![b] + words(e));
    assert(words(s) =~= seq![a] + words(r));
}

/// The words of `s`.
pub fn words_of(s: &Vec<char>) -> (r: Vec<Vec<char>>)
    ensures
        views(r@) == words(s@),
{
    let mut out: Vec<Vec<char>> = Vec::new();
    let mut i: usize = 0;
    assert(s@.skip(0) =~= s@);
    assert(views(out@) =~= Seq::<Seq<char>>::empty());
    while i < s.len()
        invariant
            i <= s.len(),
            words(s@) == views(out@) + words(s@.skip(i as int)),
        decreases s.len() - i,
    {
        if char_is_ws(s[i]) {
            proof {
                lemma_words_skip_ws(s@, i as int);
            }
            i += 1;
        } else {
            let mut m: usize = i;
            while m < s.len() && !char_is_ws(s[m])
                invariant
                    i <= m <= s.len(),
                    forall|j: int| i <= j < m ==> !is_ws(s@[j]),
                decreases s.len() - m,
            {
                m += 1;
            }
            let w = slice(s, i, m);
            proof {
                let t = s@.skip(i as int);
                assert(trim_start(t) == t) by {
                    assert(t[0] == s@[i as int]);
                }
                assert forall|j: int| 0 <= j < m - i implies !is_ws(t[j]) by {
                    assert(t[j] == s@[i + j]);
                }
                if m < s.len() {
                    assert(t[m - i] == s@[m as int]);
                }
                lemma_first_ws_at(t, m - i);
                assert(t.take(m - i) =~= w@);
                assert(t.skip(m - i) =~= s@.skip(m as int));
                assert(words(t) == seq![w@] + words(s@.skip(m as int)));
            }
            let ghost o0 = views(out@);
            out.push(w);
            assert(views(out@) =~= o0.push(s@.subrange(i as int, m as int)));
            assert(o0 + (seq![s@.subrange(i as int, m as int)] + words(s@.skip(m as int))) =~= o0.push(
                s@.subrange(i as int, m as int),
            ) + words(s@.skip(m as int)));
            i = m;
        }
    }
    proof {
        assert(s@.skip(i as int) =~= Seq::<char>::empty());
        assert(words(s@.skip(i as int)) =~= Seq::<Seq<char>>::empty());
        assert(views(out@) + Seq::<Seq<char>>::empty() =~= views(out@));
    }
    out
}


/// The white space that starts `l`.
pub open spec fn leading_ws(l: Seq<char>) -> Seq<char> {
    l.take(l.len() - trim_start(l).len())
}

/// The white space that starts `l`.
pub fn leading_ws_of(l: &Vec<char>) -> (r: Vec<char>)
    ensures
        r@ == leading_ws(l@),
{
    let t = trimmed_start(l);
    proof {
        lemma_trim_start_shape(l@);
    }
    let r = slice(l, 0, l.len() - t.len());
    assert(r@ =~= leading_ws(l@));
    r
}


/// `s` with each `from`, left to right, replaced by `to` (`str::replace`).
pub open spec fn replace_all(s: Seq<char>, from: Seq<char>, to: Seq<char>) -> Seq<char>
    decreases s.len(),
{
    if s.len() == 0 || from.len() == 0 {
        s
    } else if starts_with(s, from) {
        to + replace_all(s.skip(from.len() as int), from, to)
    } else {
        seq![s[0]] + replace_all(s.drop_first(), from, to)
    }
}

/// `s` with each `from` replaced by `to`.
pub fn replace_chars(s: &Vec<char>, from: &Vec<char>, to: &Vec<char>) -> (r: Vec<char>)
    ensures
        r@ == replace_all(s@, from@, to@),
{
    if from.len() == 0 {
        return s.clone();
    }
    let mut out: Vec<char> = Vec::new();
    let mut i: usize = 0;
    assert(s@.skip(0) =~= s@);
    while i < s.len()
        invariant
            i <= s.len(),
            from.len() > 0,
            replace_all(s@, from@, to@) == out@ + replace_all(s@.skip(i as int), from@, to@),
        decreases s.len() - i,
    {
        let ghost rest = s@.skip(i as int);
        let ghost o0 = out@;
        if matches_at(s, from, i) {
            assert(rest.take(from.len() as int) =~= s@.subrange(i as int, i + from.len()));
            assert(rest.skip(from.len() as int) =~= s@.skip(i + from.len()));
            append(&mut out, to);
            i += from.len();
            assert(o0 + (to@ + replace_all(s@.skip(i as int), from@, to@)) =~= out@ + replace_all(s@.skip(i as int), from@, to@));
        } else {
            assert(!starts_with(rest, from@)) by {
                if starts_with(rest, from@) {
                    assert(rest.take(from.len() as int) =~= s@.subrange(i as int, i + from.len()));
                }
            }
            assert(rest.drop_first() =~= s@.skip(i + 1));
            assert(rest[0] == s@[i as int]);
            out.push(s[i]);
            i += 1;
            assert(o0 + (seq![rest[0]] + replace_all(s@.skip(i as int), from@, to@)) =~= out@ + replace_all(s@.skip(i as int), from@, to@));
        }
    }
    assert(replace_all(s@.skip(i as int), from@, to@) =~= Seq::<char>::empty()) by {
        assert(s@.skip(i as int).len() == 0);
    }
    assert(out@ + Seq::<char>::empty() =~= out@);
    out
}


/// The views of a vector of strings.
pub open spec fn string_views(v: Seq<String>) -> Seq<Seq<char>> {
    v.map_values(|s: String| s@)
}

/// A command line: the strings of `parts`.
pub fn strings_of(parts: &[&str]) -> (r: Vec<String>)
    ensures
        string_views(r@) == parts@.map_values(|s: &str| s@),
{
    let mut r: Vec<String> = Vec::new();
    let mut i: usize = 0;
    while i < parts.len()
        invariant
            i <= parts.len(),
            string_views(r@) == parts@.map_values(|s: &str| s@).take(i as int),
        decreases parts.len() - i,
    {
        let s: &str = parts[i];
        assert(s == parts@[i as int]);
        let ghost r0 = string_views(r@);
        r.push(s.to_string());
        assert(string_views(r@) =~= r0.push(s@));
        i += 1;
        assert(parts@.map_values(|s: &str| s@).take(i as int) =~= parts@.map_values(|s: &str| s@).take(i - 1).push(parts@[i - 1]@));
    }
    assert(parts@.map_values(|s: &str| s@).take(i as int) =~= parts@.map_values(|s: &str| s@));
    r
}

/// `str::trim_end` as a new vector.
pub fn cut_end_ws(s: &Vec<char>) -> (r: Vec<char>)
    ensures
        r@ == trim_end(s@),
{
    let mut j: usize = s.len();
    assert(s@.take(j as int) =~= s@);
    while j > 0 && char_is_ws(s[j - 1])
        invariant
            j <= s.len(),
            trim_end(s@) == trim_end(s@.take(j as int)),
        decreases j,
    {
        assert(s@.take(j as int).drop_last() =~= s@.take(j - 1));
        j -= 1;
    }
    let r = slice(s, 0, j);
    assert(r@ =~= s@.take(j as int));
    r
}

/// What `str::to_lowercase` makes of a string: the Unicode lower case
/// mapping, which a character may turn into more than one.
pub uninterp spec fn lowercase(s: Seq<char>) -> Seq<char>;

/// `str::to_lowercase`. Trusted: the result is what std's Unicode tables
/// make of the argument; nothing more is stated of it.
#[verifier::external_body]
pub fn to_lower(s: &str) -> (r: String)
    ensures
        r@ == lowercase(s@),
{
    s.to_lowercase()
}

// ---------------------------------------------------------------- order

/// `a < b` for strings: characters compared in order, a proper prefix
/// first (the order of `String`, whose UTF-8 bytes compare the same way as
/// the characters they encode).
pub open spec fn str_lt(a: Seq<char>, b: Seq<char>) -> bool
    decreases a.len(),
{
    if a.len() == 0 {
        b.len() > 0
    } else if b.len() == 0 {
        false
    } else if a[0] != b[0] {
        a[0] < b[0]
    } else {
        str_lt(a.drop_first(), b.drop_first())
    }
}

pub proof fn lemma_str_lt_irreflexive(a: Seq<char>)
    ensures
        !str_lt(a, a),
    decreases a.len(),
{
    if a.len() > 0 {
        lemma_str_lt_irreflexive(a.drop_first());
    }
}

pub proof fn lemma_str_lt_transitive(a: Seq<char>, b: Seq<char>, c: Seq<char>)
    requires
        str_lt(a, b),
        str_lt(b, c),
    ensures
        str_lt(a, c),
    decreases a.len(),
{
    if a.len() > 0 && b.len() > 0 && c.len() > 0 && a[0] == b[0] && b[0] == c[0] {
        lemma_str_lt_transitive(a.drop_first(), b.drop_first(), c.drop_first());
    }
}

pub proof fn lemma_str_lt_total(a: Seq<char>, b: Seq<char>)
    ensures
        a == b || str_lt(a, b) || str_lt(b, a),
    decreases a.len(),
{
    if a.len() > 0 && b.len() > 0 && a[0] == b[0] {
        lemma_str_lt_total(a.drop_first(), b.drop_first());
        if a.drop_first() == b.drop_first() {
            assert(a =~= seq![a[0]] + a.drop_first());
            assert(b =~= seq![b[0]] + b.drop_first());
        }
    } else if a.len() == 0 && b.len() == 0 {
        assert(a =~= b);
    }
}

pub proof fn lemma_str_lt_asymmetric(a: Seq<char>, b: Seq<char>)
    requires
        str_lt(a, b),
    ensures
        !str_lt(b, a),
{
    if str_lt(b, a) {
        lemma_str_lt_transitive(a, b, a);
        lemma_str_lt_irreflexive(a);
    }
}

/// `a < b` for strings.
pub fn str_less(a: &Vec<char>, b: &Vec<char>) -> (r: bool)
    ensures
        r == str_lt(a@, b@),
{
    let mut i: usize = 0;
    assert(a@.skip(0) =~= a@);
    assert(b@.skip(0) =~= b@);
    while i < a.len() && i < b.len() && a[i] == b[i]
        invariant
            i <= a.len(),
            i <= b.len(),
            str_lt(a@, b@) == str_lt(a@.skip(i as int), b@.skip(i as int)),
        decreases a.len() - i,
    {
        assert(a@.skip(i as int).drop_first() =~= a@.skip(i + 1));
        assert(b@.skip(i as int).drop_first() =~= b@.skip(i + 1));
        i += 1;
    }
    if i == a.len() {
        i < b.len()
    } else if i == b.len() {
        false
    } else {
        assert(a@.skip(i as int)[0] == a@[i as int]);
        assert(b@.skip(i as int)[0] == b@[i as int]);
        a[i] < b[i]
    }
}

/// Strings in strictly increasing order (so each at most once).
pub open spec fn strictly_sorted(v: Seq<Seq<char>>) -> bool {
    forall|i: int, j: int| 0 <= i < j < v.len() ==> str_lt(#[trigger] v[i], #[trigger] v[j])
}

fn insert_sorted(out: &mut Vec<Vec<char>>, x: Vec<char>)
    requires
        strictly_sorted(views(old(out)@)),
    ensures
        strictly_sorted(views(final(out)@)),
        views(final(out)@).to_set() == views(old(out)@).to_set().insert(x@),
{
    let ghost o = views(out@);
    let mut p: usize = 0;
    while p < out.len() && str_less(&out[p], &x)
        invariant
            p <= out.len(),
            o == views(out@),
            forall|k: int| 0 <= k < p ==> str_lt(#[trigger] o[k], x@),
        decreases out.len() - p,
    {
        assert(o[p as int] == out@[p as int]@);
        p += 1;
    }
    if p < out.len() && same(&out[p], &x) {
        assert(o[p as int] == x@);
        assert(o.to_set().insert(x@) =~= o.to_set());
        return;
    }
    proof {
        if p < out.len() {
            assert(o[p as int] == out@[p as int]@);
            lemma_str_lt_total(o[p as int], x@);
        }
    }
    out.insert(p, x);
    proof {
        let n = views(out@);
        assert(n =~= o.insert(p as int, x@));
        assert forall|i: int, j: int| 0 <= i < j < n.len() implies str_lt(#[trigger] n[i], #[trigger] n[j]) by {
            if j < p {
                assert(n[i] == o[i] && n[j] == o[j]);
            } else if j == p {
                assert(n[i] == o[i]);
            } else if i == p {
                assert(n[j] == o[j - 1]);
                if j - 1 > p {
                    lemma_str_lt_transitive(x@, o[p as int], o[j - 1]);
                }
            } else if i < p {
                assert(n[i] == o[i] && n[j] == o[j - 1]);
                if j - 1 >= p {
                    lemma_str_lt_transitive(o[i], x@, o[p as int]);
                    if j - 1 > p {
                        lemma_str_lt_transitive(o[i], o[p as int], o[j - 1]);
                    }
                }
            } else {
                assert(n[i] == o[i - 1] && n[j] == o[j - 1]);
            }
        }
        assert(n.to_set() =~= o.to_set().insert(x@)) by {
            assert forall|e: Seq<char>| n.to_set().contains(e) implies o.to_set().insert(x@).contains(e) by {
                let k = choose|k: int| 0 <= k < n.len() && n[k] == e;
                if k < p {
                    assert(o[k] == e);
                } else if k > p {
                    assert(o[k - 1] == e);
                }
            }
            assert forall|e: Seq<char>| o.to_set().insert(x@).contains(e) implies n.to_set().contains(e) by {
                if e == x@ {
                    assert(n[p as int] == e);
                } else {
                    let k = choose|k: int| 0 <= k < o.len() && o[k] == e;
                    if k < p {
                        assert(n[k] == e);
                    } else {
                        assert(n[k + 1] == e);
                    }
                }
            }
        }
    }
}

/// The strings of `v` in increasing order, each once (a sort after
/// dropping repeats).
pub fn sorted_unique(v: &Vec<String>) -> (r: Vec<String>)
    ensures
        strictly_sorted(string_views(r@)),
        string_views(r@).to_set() == string_views(v@).to_set(),
{
    let ghost vv = string_views(v@);
    let mut out: Vec<Vec<char>> = Vec::new();
    let mut i: usize = 0;
    assert(vv.take(0).to_set() =~= Set::<Seq<char>>::empty());
    assert(views(out@).to_set() =~= Set::<Seq<char>>::empty());
    while i < v.len()
        invariant
            i <= v.len(),
            vv == string_views(v@),
            strictly_sorted(views(out@)),
            views(out@).to_set() == vv.take(i as int).to_set(),
        decreases v.len() - i,
    {
        let x = chars_of(v[i].as_str());
        assert(vv[i as int] == v@[i as int]@);
        insert_sorted(&mut out, x);
        assert(vv.take(i + 1) =~= vv.take(i as int).push(vv[i as int]));
        proof {
            vv.take(i as int).lemma_push_to_set_commute(vv[i as int]);
            assert(vv.take(i as int).push(vv[i as int]).to_set() =~= vv.take(i as int).to_set().insert(vv[i as int]));
        }
        i += 1;
    }
    assert(vv.take(v.len() as int) =~= vv);
    let mut r: Vec<String> = Vec::new();
    let mut k: usize = 0;
    while k < out.len()
        invariant
            k <= out.len(),
            string_views(r@) =~= views(out@).take(k as int),
        decreases out.len() - k,
    {
        let ghost r0 = string_views(r@);
        r.push(string_of(&out[k]));
        assert(string_views(r@) =~= r0.push(out@[k as int]@));
        k += 1;
    }
    assert(views(out@).take(out.len() as int) =~= views(out@));
    r
}

// ---------------------------------------------------------------- split

/// `str::split(c)`: the pieces between the `c`s (one piece when there is
/// none).
pub open spec fn split(s: Seq<char>, c: char) -> Seq<Seq<char>>
    decreases s.len(),
{
    let i = index_of(s, c);
    if i >= s.len() {
        seq![s]
    } else {
        proof {
            lemma_index_of_bound(s, c);
        }
        seq![s.take(i as int)] + split(s.skip(i + 1 as int), c)
    }
}

/// `str::split(c)`.
pub fn split_char(s: &Vec<char>, c: char) -> (r: Vec<Vec<char>>)
    ensures
        views(r@) == split(s@, c),
        r.len() >= 1,
{
    let mut out: Vec<Vec<char>> = Vec::new();
    let mut start: usize = 0;
    let mut i: usize = 0;
    assert(s@.skip(0) =~= s@);
    assert(views(out@) + split(s@.skip(0), c) =~= split(s@, c));
    while i < s.len()
        invariant
            start <= i <= s.len(),
            forall|k: int| start <= k < i ==> s@[k] != c,
            split(s@, c) == views(out@) + split(s@.skip(start as int), c),
        decreases s.len() - i,
    {
        if s[i] == c {
            let ghost rest = s@.skip(start as int);
            proof {
                lemma_index_of_char(rest, c, i - start);
                assert(rest.take(i - start) =~= s@.subrange(start as int, i as int));
                assert(rest.skip(i - start + 1) =~= s@.skip(i + 1));
            }
            let seg = slice(s, start, i);
            let ghost o0 = views(out@);
            out.push(seg);
            assert(views(out@) =~= o0.push(s@.subrange(start as int, i as int)));
            assert(o0 + (seq![s@.subrange(start as int, i as int)] + split(s@.skip(i + 1), c)) =~= views(out@) + split(
                s@.skip(i + 1),
                c,
            ));
            start = i + 1;
        }
        i += 1;
    }
    let ghost rest = s@.skip(start as int);
    proof {
        lemma_index_of_char(rest, c, rest.len() as int);
    }
    let seg = slice(s, start, s.len());
    assert(seg@ =~= rest);
    let ghost o0 = views(out@);
    out.push(seg);
    assert(views(out@) =~= o0 + seq![rest]);
    out
}

} // verus!
