//! Line-oriented editing of niri's KDL configuration (`config.kdl`): blocks
//! `name { ... }` are found by their braces, values `key value` are read and
//! written inside them, and missing blocks are created.
use vstd::prelude::*;
use crate::text;
use crate::services::ini;

verus! {

// ---------------------------------------------------------------- model

/// A trimmed line that the block scanners pass over: empty or a `//` comment.
pub open spec fn is_skipped(t: Seq<char>) -> bool {
    t.len() == 0 || text::starts_with(t, seq!['/', '/'])
}

/// A trimmed line that opens a block: it ends with `{`.
pub open spec fn opens(t: Seq<char>) -> bool {
    t.len() > 0 && t.last() == '{'
}

/// A trimmed line that closes a block: it starts with `}`.
pub open spec fn closes(t: Seq<char>) -> bool {
    t.len() > 0 && t[0] == '}'
}

/// The name of the block that the trimmed line `t` opens, as the block finder
/// reads it: `name`, `name "x"` or `name = "x"` give `name`.
pub open spec fn block_name(t: Seq<char>) -> Seq<char> {
    text::trim_char(
        text::trim(text::before(text::trim_end_char(text::trim(text::trim_end_char(t, '{')), '"'), '=')),
        '"',
    )
}

/// The name of the block that `t` opens, as the value reader reads it (it
/// keeps a closing quote of `name "x"`).
pub open spec fn value_block_name(t: Seq<char>) -> Seq<char> {
    text::trim_char(text::trim(text::before(text::trim(text::trim_end_char(t, '{')), '=')), '"')
}

/// The block scan from line `i`, with the open blocks' first lines in `starts`
/// and their names in `names`: the first closing line met while the open
/// blocks are exactly `path` ends the search, giving the opening and the
/// closing line.
pub open spec fn nested_from(
    ls: Seq<Seq<char>>,
    path: Seq<Seq<char>>,
    i: int,
    starts: Seq<int>,
    names: Seq<Seq<char>>,
) -> Option<(int, int)>
    decreases ls.len() - i,
{
    if i < 0 || i >= ls.len() {
        None
    } else {
        let t = text::trim(ls[i]);
        if is_skipped(t) {
            nested_from(ls, path, i + 1, starts, names)
        } else if opens(t) {
            nested_from(ls, path, i + 1, starts.push(i), names.push(block_name(t)))
        } else if closes(t) && names.len() > 0 {
            if names == path {
                Some((starts.last(), i))
            } else {
                nested_from(ls, path, i + 1, starts.drop_last(), names.drop_last())
            }
        } else {
            nested_from(ls, path, i + 1, starts, names)
        }
    }
}

/// The opening and closing line of the block at `path` (`["layout", "border"]`
/// is `border { }` inside `layout { }`).
pub open spec fn nested_block(ls: Seq<Seq<char>>, path: Seq<Seq<char>>) -> Option<(int, int)> {
    nested_from(ls, path, 0, seq![], seq![])
}

/// `name {`.
pub open spec fn block_head(name: Seq<char>) -> Seq<char> {
    name + seq![' ', '{']
}

/// The top-level block scan from line `i`; `open` holds the first line of the
/// block found and the brace depth reached.
pub open spec fn block_from(ls: Seq<Seq<char>>, name: Seq<char>, i: int, open: Option<(int, int)>) -> Option<(int, int)>
    decreases ls.len() - i,
{
    if i < 0 || i >= ls.len() {
        None
    } else {
        let t = text::trim(ls[i]);
        match open {
            Some((s, d)) => {
                let d2 = d + text::count(t, '{') - text::count(t, '}');
                if d2 <= 0 {
                    Some((s, i + 1))
                } else {
                    block_from(ls, name, i + 1, Some((s, d2)))
                }
            },
            None => {
                if text::starts_with(t, block_head(name)) {
                    if text::count(t, '{') > text::count(t, '}') {
                        block_from(ls, name, i + 1, Some((i, 1)))
                    } else {
                        Some((i, i + 1))
                    }
                } else {
                    block_from(ls, name, i + 1, None)
                }
            },
        }
    }
}

/// The lines `[start, end)` of the first block `name { ... }`: from the line
/// that starts with `name {` to the line where its braces balance.
pub open spec fn top_block(ls: Seq<Seq<char>>, name: Seq<char>) -> Option<(int, int)> {
    block_from(ls, name, 0, None)
}

/// The names of the open blocks after the trimmed line `t`.
pub open spec fn names_after(names: Seq<Seq<char>>, t: Seq<char>) -> Seq<Seq<char>> {
    if opens(t) {
        names.push(value_block_name(t))
    } else if closes(t) && names.len() > 0 {
        names.drop_last()
    } else {
        names
    }
}

/// The value of `key` on the trimmed line `t`: what follows the key, without
/// an `=`, a final `;` and the white space round them.
pub open spec fn value_of(t: Seq<char>, key: Seq<char>) -> Seq<char> {
    text::trim(text::trim_end_char(text::trim(text::trim_start_char(text::trim(t.skip(key.len() as int)), '=')), ';'))
}

/// The value scan from line `i` with the open blocks `names`.
pub open spec fn value_from(ls: Seq<Seq<char>>, path: Seq<Seq<char>>, key: Seq<char>, i: int, names: Seq<Seq<char>>) -> Option<Seq<char>>
    decreases ls.len() - i,
{
    if i < 0 || i >= ls.len() {
        None
    } else {
        let t = text::trim(ls[i]);
        if is_skipped(t) {
            value_from(ls, path, key, i + 1, names)
        } else {
            let n2 = names_after(names, t);
            if n2 == path && ini::spec_key_matches(ls[i], key) {
                Some(value_of(t, key))
            } else {
                value_from(ls, path, key, i + 1, n2)
            }
        }
    }
}

/// The value of the first line `key value` (or `key=value`) met while the open
/// blocks are exactly `path`.
pub open spec fn block_value(ls: Seq<Seq<char>>, path: Seq<Seq<char>>, key: Seq<char>) -> Option<Seq<char>> {
    value_from(ls, path, key, 0, seq![])
}

/// `n` spaces.
pub open spec fn spaces(n: nat) -> Seq<char> {
    Seq::new(n, |k: int| ' ')
}

/// The indentation of a line `depth` blocks deep: four spaces a level.
pub open spec fn indent(depth: nat) -> Seq<char> {
    spaces(4 * depth)
}

/// `indent key value`.
pub open spec fn kv_line(indent: Seq<char>, key: Seq<char>, value: Seq<char>) -> Seq<char> {
    indent + key + seq![' '] + value
}

/// The lines with `key value` set in the block at `path`: the first line of
/// the block that assigns `key` is replaced, or the line is added before the
/// closing one; it is indented one level deeper than the opening line.
pub open spec fn updated_lines(ls: Seq<Seq<char>>, path: Seq<Seq<char>>, key: Seq<char>, value: Seq<char>) -> Option<Seq<Seq<char>>> {
    match nested_block(ls, path) {
        None => None,
        Some((s, e)) => {
            let line = kv_line(text::leading_blanks(ls[s]) + spaces(4), key, value);
            match ini::spec_find_key(ls, key, s + 1, e) {
                Some(j) => Some(ls.update(j, line)),
                None => Some(ls.insert(e, line)),
            }
        },
    }
}

/// The text with `key value` set in the block at `path`, the lines joined by
/// `'\n'`; `None` when there is no such block.
pub open spec fn spec_update_value(content: Seq<char>, path: Seq<Seq<char>>, key: Seq<char>, value: Seq<char>) -> Option<Seq<char>> {
    match updated_lines(text::lines(content), path, key, value) {
        Some(l) => Some(text::join(l, text::nl())),
        None => None,
    }
}

/// How many leading blocks of `path`, from the `i`th on, exist one inside the
/// other.
pub open spec fn existing_depth_from(ls: Seq<Seq<char>>, path: Seq<Seq<char>>, i: nat) -> nat
    decreases path.len() - i,
{
    if i < path.len() && nested_block(ls, path.take(i + 1 as int)) is Some {
        existing_depth_from(ls, path, i + 1)
    } else {
        i
    }
}

/// The body lines, each indented `depth` levels and ended by `'\n'`.
pub open spec fn body_text(body: Seq<Seq<char>>, depth: nat) -> Seq<char>
    decreases body.len(),
{
    if body.len() == 0 {
        seq![]
    } else {
        body_text(body.drop_last(), depth) + indent(depth) + body.last() + text::nl()
    }
}

/// The blocks `path[i..]` one inside the other, the body in the deepest.
pub open spec fn wrapped(path: Seq<Seq<char>>, body: Seq<Seq<char>>, i: nat) -> Seq<char>
    decreases path.len() - i,
{
    if i >= path.len() {
        body_text(body, path.len())
    } else {
        indent(i) + path[i as int] + seq![' ', '{', '\n'] + wrapped(path, body, i + 1) + indent(i) + seq!['}', '\n']
    }
}

/// The text with the block at `path` created: unchanged when it exists; the
/// missing blocks nested before the closing line of the deepest existing one,
/// or appended at the end (after a `'\n'` when the text does not end with one).
pub open spec fn spec_create_block(content: Seq<char>, path: Seq<Seq<char>>, body: Seq<Seq<char>>) -> Seq<char> {
    let ls = text::lines(content);
    let d = existing_depth_from(ls, path, 0);
    if d == path.len() {
        content
    } else {
        let inner = wrapped(path, body, d);
        if d > 0 {
            let e = nested_block(ls, path.take(d as int)).unwrap().1;
            text::join(ls.take(e) + text::lines(inner) + ls.skip(e), text::nl())
        } else if content.len() > 0 && content.last() != '\n' {
            content.push('\n') + inner
        } else {
            content + inner
        }
    }
}

pub proof fn lemma_existing_depth(ls: Seq<Seq<char>>, path: Seq<Seq<char>>, i: nat)
    ensures
        i <= existing_depth_from(ls, path, i),
        i <= path.len() ==> existing_depth_from(ls, path, i) <= path.len(),
        existing_depth_from(ls, path, i) > i ==> nested_block(ls, path.take(existing_depth_from(ls, path, i) as int)) is Some,
    decreases path.len() - i,
{
    if i < path.len() && nested_block(ls, path.take(i + 1 as int)) is Some {
        lemma_existing_depth(ls, path, i + 1);
    }
}

/// The views of a slice of strings.
pub open spec fn str_views(v: Seq<&str>) -> Seq<Seq<char>> {
    v.map_values(|s: &str| s@)
}

/// The views of a vector of indices.
pub open spec fn ints(v: Seq<usize>) -> Seq<int> {
    v.map_values(|x: usize| x as int)
}


// ---------------------------------------------------------------- reading back

/// The names of the open blocks before line `i`, as the value reader
/// tracks them.
pub open spec fn open_names(ls: Seq<Seq<char>>, i: int) -> Seq<Seq<char>>
    decreases i,
{
    if i <= 0 {
        seq![]
    } else {
        let t = text::trim(ls[i - 1]);
        let n = open_names(ls, i - 1);
        if is_skipped(t) {
            n
        } else {
            names_after(n, t)
        }
    }
}

/// Line `i` is where the value reader finds `key` at `path`.
pub open spec fn value_hit(ls: Seq<Seq<char>>, path: Seq<Seq<char>>, key: Seq<char>, i: int) -> bool {
    let t = text::trim(ls[i]);
    !is_skipped(t) && names_after(open_names(ls, i), t) == path && ini::spec_key_matches(ls[i], key)
}

/// The open blocks (first lines and names) before line `i`, as the block
/// finder tracks them.
pub open spec fn nest_state(ls: Seq<Seq<char>>, i: int) -> (Seq<int>, Seq<Seq<char>>)
    decreases i,
{
    if i <= 0 {
        (seq![], seq![])
    } else {
        let t = text::trim(ls[i - 1]);
        let st = nest_state(ls, i - 1);
        if is_skipped(t) {
            st
        } else if opens(t) {
            (st.0.push(i - 1), st.1.push(block_name(t)))
        } else if closes(t) && st.1.len() > 0 {
            (st.0.drop_last(), st.1.drop_last())
        } else {
            st
        }
    }
}

/// Line `i` closes the block at `path` for the block finder.
pub open spec fn nest_end(ls: Seq<Seq<char>>, path: Seq<Seq<char>>, i: int) -> bool {
    let t = text::trim(ls[i]);
    &&& !is_skipped(t)
    &&& !opens(t)
    &&& closes(t)
    &&& nest_state(ls, i).1.len() > 0
    &&& nest_state(ls, i).1 == path
}

/// Both scanners give the same name to each block opened before line `e`.
pub open spec fn names_agree(ls: Seq<Seq<char>>, e: int) -> bool {
    forall|k: int| 0 <= k < e && opens(#[trigger] text::trim(ls[k])) ==> block_name(text::trim(ls[k]))
        == value_block_name(text::trim(ls[k]))
}

/// The reader, past lines where it finds nothing, is the reader from there.
proof fn lemma_value_walk(ls: Seq<Seq<char>>, path: Seq<Seq<char>>, key: Seq<char>, i: int)
    requires
        0 <= i <= ls.len(),
        forall|k: int| 0 <= k < i ==> !value_hit(ls, path, key, k),
    ensures
        block_value(ls, path, key) == value_from(ls, path, key, i, open_names(ls, i)),
    decreases i,
{
    if i > 0 {
        lemma_value_walk(ls, path, key, i - 1);
        assert(!value_hit(ls, path, key, i - 1));
    }
}

/// The reader gives the value on the first line where it finds the key.
proof fn lemma_value_found(ls: Seq<Seq<char>>, path: Seq<Seq<char>>, key: Seq<char>, h: int)
    requires
        0 <= h < ls.len(),
        forall|k: int| 0 <= k < h ==> !value_hit(ls, path, key, k),
        value_hit(ls, path, key, h),
    ensures
        block_value(ls, path, key) == Some(value_of(text::trim(ls[h]), key)),
{
    lemma_value_walk(ls, path, key, h);
}

/// The block finder, past lines that close nothing at `path`, is the finder
/// from there.
proof fn lemma_nested_walk(ls: Seq<Seq<char>>, path: Seq<Seq<char>>, i: int)
    requires
        0 <= i <= ls.len(),
        forall|k: int| 0 <= k < i ==> !nest_end(ls, path, k),
    ensures
        nested_block(ls, path) == nested_from(ls, path, i, nest_state(ls, i).0, nest_state(ls, i).1),
    decreases i,
{
    if i > 0 {
        lemma_nested_walk(ls, path, i - 1);
        assert(!nest_end(ls, path, i - 1));
    }
}

/// What the block finder finds: the first line that closes a block at
/// `path`, and the line that opened it.
proof fn lemma_nested_found(ls: Seq<Seq<char>>, path: Seq<Seq<char>>, i: int)
    requires
        0 <= i <= ls.len(),
        forall|k: int| 0 <= k < i ==> !nest_end(ls, path, k),
        nested_block(ls, path) is Some,
    ensures
        ({
            let (s, e) = nested_block(ls, path).unwrap();
            &&& i <= e < ls.len()
            &&& nest_end(ls, path, e)
            &&& forall|k: int| 0 <= k < e ==> !nest_end(ls, path, k)
            &&& nest_state(ls, e).1 == path
            &&& nest_state(ls, e).0.len() == path.len()
            &&& s == nest_state(ls, e).0.last()
        }),
    decreases ls.len() - i,
{
    lemma_nested_walk(ls, path, i);
    if i < ls.len() && !nest_end(ls, path, i) {
        lemma_nested_found(ls, path, i + 1);
    } else if i < ls.len() {
        lemma_nest_state_lens(ls, i);
    }
}

/// The finder holds as many first lines as names.
proof fn lemma_nest_state_lens(ls: Seq<Seq<char>>, i: int)
    ensures
        nest_state(ls, i).0.len() == nest_state(ls, i).1.len(),
    decreases i,
{
    if i > 0 {
        lemma_nest_state_lens(ls, i - 1);
    }
}

/// Where the scanners name blocks alike, they see the same open blocks.
proof fn lemma_names_agree(ls: Seq<Seq<char>>, e: int, i: int)
    requires
        0 <= i <= e,
        names_agree(ls, e),
    ensures
        open_names(ls, i) == nest_state(ls, i).1,
    decreases i,
{
    if i > 0 {
        lemma_names_agree(ls, e, i - 1);
        let t = text::trim(ls[i - 1]);
        if opens(t) {
            assert(block_name(t) == value_block_name(t));
        }
    }
}

/// The reader's open blocks depend on the lines' trimmed text alone.
proof fn lemma_open_names_trims(a: Seq<Seq<char>>, b: Seq<Seq<char>>, i: int)
    requires
        0 <= i,
        forall|k: int| 0 <= k < i ==> text::trim(#[trigger] a[k]) == text::trim(b[k]),
    ensures
        open_names(a, i) == open_names(b, i),
    decreases i,
{
    if i > 0 {
        lemma_open_names_trims(a, b, i - 1);
        assert(text::trim(a[i - 1]) == text::trim(b[i - 1]));
    }
}

/// The finder's open blocks started on earlier lines.
proof fn lemma_nest_starts_before(ls: Seq<Seq<char>>, i: int)
    requires
        0 <= i,
    ensures
        forall|x: int| 0 <= x < nest_state(ls, i).0.len() ==> 0 <= #[trigger] nest_state(ls, i).0[x] < i,
    decreases i,
{
    if i > 0 {
        lemma_nest_starts_before(ls, i - 1);
        lemma_nest_state_lens(ls, i - 1);
        let p = nest_state(ls, i - 1).0;
        let q = nest_state(ls, i).0;
        let t = text::trim(ls[i - 1]);
        if is_skipped(t) {
            assert(q == p);
        } else if opens(t) {
            assert(q == p.push(i - 1));
        } else if closes(t) && nest_state(ls, i - 1).1.len() > 0 {
            assert(q == p.drop_last());
        } else {
            assert(q == p);
        }
        assert forall|x: int| 0 <= x < q.len() implies 0 <= #[trigger] q[x] < i by {
            if x < p.len() {
                assert(q[x] == p[x]);
            }
        }
    }
}

/// The block the finder finds opens before it closes.
proof fn lemma_nested_order(ls: Seq<Seq<char>>, path: Seq<Seq<char>>)
    requires
        path.len() > 0,
        nested_block(ls, path) is Some,
    ensures
        0 <= nested_block(ls, path).unwrap().0 < nested_block(ls, path).unwrap().1 < ls.len(),
{
    lemma_nested_found(ls, path, 0);
    let e = nested_block(ls, path).unwrap().1;
    lemma_nest_starts_before(ls, e);
    let st = nest_state(ls, e).0;
    assert(0 <= st[st.len() - 1] < e);
}

/// Once the finder's open blocks are `path`, they keep `path` under them
/// until a line closes the block at `path`.
proof fn lemma_nest_keeps(ls: Seq<Seq<char>>, path: Seq<Seq<char>>, m: int, m2: int)
    requires
        0 <= m <= m2 <= ls.len(),
        path.len() > 0,
        nest_state(ls, m).1 == path,
        forall|k: int| m <= k < m2 ==> !nest_end(ls, path, k),
    ensures
        nest_state(ls, m2).1.len() >= path.len(),
        nest_state(ls, m2).1.take(path.len() as int) == path,
        nest_state(ls, m2).0.take(path.len() as int) == nest_state(ls, m).0,
    decreases m2 - m,
{
    lemma_nest_state_lens(ls, m);
    if m2 > m {
        lemma_nest_keeps(ls, path, m, m2 - 1);
        lemma_nest_state_lens(ls, m2 - 1);
        let d = path.len() as int;
        let (st, nm) = nest_state(ls, m2 - 1);
        let t = text::trim(ls[m2 - 1]);
        assert(!nest_end(ls, path, m2 - 1));
        if nm.len() == d {
            assert(nm =~= nm.take(d));
        }
        if !is_skipped(t) && opens(t) {
            assert(st.push(m2 - 1).take(d) =~= st.take(d));
            assert(nm.push(block_name(t)).take(d) =~= nm.take(d));
        } else if !is_skipped(t) && closes(t) && nm.len() > 0 {
            assert(nm.len() > d);
            assert(st.drop_last().take(d) =~= st.take(d));
            assert(nm.drop_last().take(d) =~= nm.take(d));
        }
    }
}

/// No line before the block's opening one gives the reader the key at
/// `path`: the reader's open blocks are `path` there only inside that block.
proof fn lemma_no_hit_before(ls: Seq<Seq<char>>, path: Seq<Seq<char>>, key: Seq<char>, k: int)
    requires
        path.len() > 0,
        nested_block(ls, path) is Some,
        names_agree(ls, nested_block(ls, path).unwrap().1),
        0 <= k < nested_block(ls, path).unwrap().0,
    ensures
        !value_hit(ls, path, key, k),
{
    lemma_nested_found(ls, path, 0);
    lemma_nested_order(ls, path);
    let (s, e) = nested_block(ls, path).unwrap();
    if value_hit(ls, path, key, k) {
        lemma_names_agree(ls, e, k);
        let t = text::trim(ls[k]);
        if opens(t) {
            assert(block_name(t) == value_block_name(t));
        }
        assert(nest_state(ls, k + 1).1 == path);
        lemma_nest_keeps(ls, path, k + 1, e);
        lemma_nest_state_lens(ls, k + 1);
        let st = nest_state(ls, k + 1).0;
        assert(nest_state(ls, e).0 =~= nest_state(ls, e).0.take(path.len() as int));
        lemma_nest_starts_before(ls, k + 1);
        assert(st[st.len() - 1] < k + 1);
    }
}

/// A line `key value` as the reader sees it.
pub open spec fn plain_entry(key: Seq<char>, value: Seq<char>) -> bool {
    &&& key.len() > 0
    &&& !text::is_ws(key[0])
    &&& key[0] != '}'
    &&& key[0] != '/'
    &&& value.len() > 0
    &&& !text::is_ws(value[0])
    &&& !text::is_ws(value.last())
    &&& value[0] != '='
    &&& value.last() != ';'
    &&& value.last() != '{'
    &&& forall|x: int| 0 <= x < key.len() ==> #[trigger] key[x] != '\n'
    &&& forall|x: int| 0 <= x < value.len() ==> #[trigger] value[x] != '\n'
}

proof fn lemma_kv_line(ind: Seq<char>, key: Seq<char>, value: Seq<char>)
    requires
        plain_entry(key, value),
        forall|x: int| 0 <= x < ind.len() ==> #[trigger] ind[x] == ' ' || ind[x] == '\t',
    ensures
        ({
            let l = kv_line(ind, key, value);
            let t = text::trim(l);
            &&& t == key + seq![' '] + value
            &&& !is_skipped(t)
            &&& !opens(t)
            &&& !closes(t)
            &&& ini::spec_key_matches(l, key)
            &&& value_of(t, key) == value
            &&& forall|x: int| 0 <= x < l.len() ==> #[trigger] l[x] != '\n'
        }),
{
    let l = kv_line(ind, key, value);
    let t0 = key + seq![' '] + value;
    assert(l =~= ind + t0);
    assert forall|x: int| 0 <= x < ind.len() implies text::is_ws(#[trigger] ind[x]) by {
        assert(ind[x] == ' ' || ind[x] == '\t');
    }
    assert(t0[0] == key[0]);
    assert(t0.last() == value.last());
    text::lemma_trim_start_after_ws(ind, t0);
    assert(text::trim_end(t0) == t0);
    let t = text::trim(l);
    assert(t == t0);
    assert(t.take(key.len() + 1 as int) =~= key + seq![' ']);
    assert(t.take(2)[0] == key[0]);
    let sv = seq![' '] + value;
    assert(t.skip(key.len() as int) =~= sv);
    assert(sv.drop_first() =~= value);
    assert(text::trim_start(sv) == text::trim_start(value));
    text::lemma_trim_plain(value);
    assert(text::trim_end(value) == value);
    assert(text::trim(sv) == value);
    assert(text::trim_start_char(value, '=') == value);
    assert(text::trim_end_char(value, ';') == value);
    assert forall|x: int| 0 <= x < l.len() implies #[trigger] l[x] != '\n' by {
        if x < ind.len() {
            assert(l[x] == ind[x]);
        } else if x < ind.len() + key.len() {
            assert(l[x] == key[x - ind.len()]);
        } else if x > ind.len() + key.len() {
            assert(l[x] == value[x - ind.len() - key.len() - 1]);
        }
    }
}

/// The block at `path` exists and a value written into it reads back: both
/// scanners name the blocks before its end alike, its opening line does not
/// itself read as `key`, and its first line that reads as `key` (the one a
/// write replaces) sits directly in it, not in a block nested in it.
pub open spec fn reads_back_at(ls: Seq<Seq<char>>, path: Seq<Seq<char>>, key: Seq<char>) -> bool {
    match nested_block(ls, path) {
        Some((s, e)) => {
            &&& names_agree(ls, e)
            &&& !ini::spec_key_matches(ls[s], key)
            &&& forall|j: int| ini::spec_find_key(ls, key, s + 1, e) == Some(j) ==> open_names(ls, j) == path
        },
        None => false,
    }
}

/// Reading back a value written into an existing block: after `key value`
/// is set in the block at `path`, the reader finds `value` at `path`, where
/// `reads_back_at` holds of the text's lines.
pub proof fn law_value_reads_back(content: Seq<char>, path: Seq<Seq<char>>, key: Seq<char>, value: Seq<char>)
    requires
        plain_entry(key, value),
        path.len() > 0,
        reads_back_at(text::lines(content), path, key),
    ensures
        spec_update_value(content, path, key, value) is Some,
        block_value(text::lines(spec_update_value(content, path, key, value).unwrap()), path, key) == Some(value),
{
    let ls = text::lines(content);
    lemma_nested_found(ls, path, 0);
    lemma_nested_order(ls, path);
    let (s, e) = nested_block(ls, path).unwrap();
    let ind = text::leading_blanks(ls[s]) + spaces(4);
    text::lemma_leading_blanks(ls[s]);
    assert forall|x: int| 0 <= x < ind.len() implies #[trigger] ind[x] == ' ' || ind[x] == '\t' by {
        if x >= text::leading_blanks(ls[s]).len() {
            assert(ind[x] == spaces(4)[x - text::leading_blanks(ls[s]).len()]);
        }
    }
    let line = kv_line(ind, key, value);
    lemma_kv_line(ind, key, value);
    ini::lemma_find_key(ls, key, s + 1, e);
    text::lemma_lines_no_nl(content);
    let (ls2, h) = match ini::spec_find_key(ls, key, s + 1, e) {
        Some(j) => (ls.update(j, line), j),
        None => (ls.insert(e, line), e),
    };
    assert(updated_lines(ls, path, key, value) == Some(ls2));
    assert(h < ls2.len() - 1);
    assert(ls2[h] == line);
    assert forall|k: int| 0 <= k < h implies #[trigger] ls2[k] == ls[k] by {}
    // the lines read back
    assert forall|a: int, b: int| 0 <= a < ls2.len() && 0 <= b < ls2[a].len() implies #[trigger] ls2[a][b] != '\n' by {
        if a != h {
            if a < h {
                assert(ls2[a] == ls[a]);
            } else if ls2.len() == ls.len() {
                assert(ls2[a] == ls[a]);
            } else {
                assert(ls2[a] == ls[a - 1]);
            }
        }
    }
    let c2 = text::join(ls2, text::nl());
    text::lemma_lines_of_join(ls2);
    let ls3 = text::lines(c2);
    assert forall|k: int| 0 <= k <= h implies text::trim(#[trigger] ls3[k]) == text::trim(ls2[k]) by {
        text::lemma_trim_strip_cr(ls2[k]);
    }
    // the reader's open blocks up to the line written
    lemma_names_agree(ls, e, h);
    assert(open_names(ls, h) == path) by {
        if h == e {
            assert(nest_state(ls, e).1 == path);
        }
    }
    assert forall|k: int| 0 <= k < h implies text::trim(#[trigger] ls3[k]) == text::trim(ls[k]) by {
        text::lemma_trim_strip_cr(ls2[k]);
    }
    lemma_open_names_trims(ls3, ls, h);
    assert forall|k: int| 0 <= k < h implies !value_hit(ls3, path, key, k) by {
        text::lemma_trim_strip_cr(ls2[k]);
        lemma_open_names_trims(ls3, ls, k);
        if k < s {
            lemma_no_hit_before(ls, path, key, k);
        } else if k > s {
            assert(!ini::spec_key_matches(ls[k], key));
        }
        assert(!value_hit(ls, path, key, k));
    }
    text::lemma_trim_strip_cr(ls2[h]);
    assert(value_hit(ls3, path, key, h));
    lemma_value_found(ls3, path, key, h);
}

/// Writing a value into an existing block keeps the lines outside it: the
/// lines up to the block's opening one, and those from its closing one on,
/// read back in order, shifted by the line added when the key was not in
/// the block (each without one final `'\r'`, the last as it was; an empty
/// last line is not read back).
pub proof fn law_update_keeps_outside(content: Seq<char>, path: Seq<Seq<char>>, key: Seq<char>, value: Seq<char>)
    requires
        path.len() > 0,
        nested_block(text::lines(content), path) is Some,
        forall|x: int| 0 <= x < key.len() ==> #[trigger] key[x] != '\n',
        forall|x: int| 0 <= x < value.len() ==> #[trigger] value[x] != '\n',
    ensures
        spec_update_value(content, path, key, value) is Some,
        ({
            let ls = text::lines(content);
            let (s, e) = nested_block(ls, path).unwrap();
            let l2 = text::lines(spec_update_value(content, path, key, value).unwrap());
            let d: int = if ini::spec_find_key(ls, key, s + 1, e) is Some { 0 } else { 1 };
            &&& forall|k: int| 0 <= k <= s ==> #[trigger] l2[k] == text::strip_cr(ls[k])
            &&& forall|k: int| e <= k < ls.len() - 1 ==> l2[k + d] == text::strip_cr(#[trigger] ls[k])
            &&& ls.last().len() > 0 ==> l2[ls.len() - 1 + d] == ls.last()
        }),
{
    let ls = text::lines(content);
    lemma_nested_order(ls, path);
    let (s, e) = nested_block(ls, path).unwrap();
    let ind = text::leading_blanks(ls[s]) + spaces(4);
    text::lemma_leading_blanks(ls[s]);
    let line = kv_line(ind, key, value);
    text::lemma_lines_no_nl(content);
    assert forall|x: int| 0 <= x < line.len() implies #[trigger] line[x] != '\n' by {
        if x < ind.len() {
            if x >= text::leading_blanks(ls[s]).len() {
                assert(ind[x] == spaces(4)[x - text::leading_blanks(ls[s]).len()]);
            }
            assert(line[x] == ind[x]);
        } else if x < ind.len() + key.len() {
            assert(line[x] == key[x - ind.len()]);
        } else if x > ind.len() + key.len() {
            assert(line[x] == value[x - ind.len() - key.len() - 1]);
        }
    }
    ini::lemma_find_key(ls, key, s + 1, e);
    let ls2 = match ini::spec_find_key(ls, key, s + 1, e) {
        Some(j) => ls.update(j, line),
        None => ls.insert(e, line),
    };
    let d = ls2.len() - ls.len();
    assert(updated_lines(ls, path, key, value) == Some(ls2));
    assert forall|a: int, b: int| 0 <= a < ls2.len() && 0 <= b < ls2[a].len() implies #[trigger] ls2[a][b] != '\n' by {
        match ini::spec_find_key(ls, key, s + 1, e) {
            Some(j) => {
                if a != j {
                    assert(ls2[a] == ls[a]);
                }
            },
            None => {
                if a < e {
                    assert(ls2[a] == ls[a]);
                } else if a > e {
                    assert(ls2[a] == ls[a - 1]);
                }
            },
        }
    }
    text::lemma_lines_of_join(ls2);
    let l2 = text::lines(text::join(ls2, text::nl()));
    assert forall|k: int| 0 <= k <= s implies #[trigger] l2[k] == text::strip_cr(ls[k]) by {
        assert(ls2[k] == ls[k]);
    }
    assert forall|k: int| e <= k < ls.len() - 1 implies l2[k + d] == text::strip_cr(#[trigger] ls[k]) by {
        assert(ls2[k + d] == ls[k]);
    }
    assert(ls2.last() == ls.last());
}

/// A line that neither opens nor closes a block for the block finder.
pub open spec fn neutral_line(l: Seq<char>) -> bool {
    let t = text::trim(l);
    !opens(t) && !closes(t)
}

/// The finder's state depends on the lines' trimmed text alone.
pub proof fn lemma_nest_trims(a: Seq<Seq<char>>, b: Seq<Seq<char>>, i: int)
    requires
        0 <= i,
        forall|k: int| 0 <= k < i ==> text::trim(#[trigger] a[k]) == text::trim(b[k]),
    ensures
        nest_state(a, i) == nest_state(b, i),
    decreases i,
{
    if i > 0 {
        lemma_nest_trims(a, b, i - 1);
        assert(text::trim(a[i - 1]) == text::trim(b[i - 1]));
    }
}

/// Where the lines' trimmed text agrees up to the end of the block found,
/// the same block is found.
pub proof fn lemma_nested_trims(a: Seq<Seq<char>>, b: Seq<Seq<char>>, path: Seq<Seq<char>>)
    requires
        path.len() > 0,
        nested_block(a, path) is Some,
        nested_block(a, path).unwrap().1 < b.len(),
        forall|k: int| 0 <= k <= nested_block(a, path).unwrap().1 ==> text::trim(#[trigger] a[k]) == text::trim(b[k]),
    ensures
        nested_block(b, path) == nested_block(a, path),
{
    lemma_nested_found(a, path, 0);
    let (s, e) = nested_block(a, path).unwrap();
    assert forall|k: int| 0 <= k <= e implies nest_state(a, k) == nest_state(b, k) by {
        lemma_nest_trims(a, b, k);
    }
    assert forall|k: int| 0 <= k < e implies !nest_end(b, path, k) by {
        assert(nest_state(a, k) == nest_state(b, k));
        assert(text::trim(a[k]) == text::trim(b[k]));
        assert(!nest_end(a, path, k));
    }
    lemma_nested_walk(b, path, e);
    assert(nest_state(a, e) == nest_state(b, e));
    assert(text::trim(a[e]) == text::trim(b[e]));
}

pub open spec fn shift_starts(st: Seq<int>, p: int) -> Seq<int> {
    st.map_values(|x: int| if x >= p { x + 1 } else { x })
}

/// The finder's state after a neutral line inserted at `p`: as before, with
/// the first lines from `p` on one further down.
proof fn lemma_nest_inserted(ls: Seq<Seq<char>>, p: int, l: Seq<char>, i: int)
    requires
        0 <= p <= ls.len(),
        neutral_line(l),
        p < i <= ls.len() + 1,
    ensures
        nest_state(ls.insert(p, l), i).1 == nest_state(ls, i - 1).1,
        nest_state(ls.insert(p, l), i).0 == shift_starts(nest_state(ls, i - 1).0, p),
    decreases i,
{
    let l2 = ls.insert(p, l);
    lemma_nest_state_lens(ls, i - 1);
    if i == p + 1 {
        assert forall|k: int| 0 <= k < p implies text::trim(#[trigger] l2[k]) == text::trim(ls[k]) by {
            assert(l2[k] == ls[k]);
        }
        lemma_nest_trims(l2, ls, p);
        assert(l2[p] == l);
        lemma_nest_starts_before(ls, p);
        let st = nest_state(ls, p).0;
        assert(shift_starts(st, p) =~= st) by {
            assert forall|x: int| 0 <= x < st.len() implies shift_starts(st, p)[x] == st[x] by {
                assert(st[x] < p);
            }
        }
    } else {
        lemma_nest_inserted(ls, p, l, i - 1);
        assert(l2[i - 1] == ls[i - 2]);
        let (st, nm) = nest_state(ls, i - 2);
        let t = text::trim(ls[i - 2]);
        lemma_nest_state_lens(ls, i - 2);
        if !is_skipped(t) && opens(t) {
            assert(shift_starts(st.push(i - 2), p) =~= shift_starts(st, p).push(i - 1));
        } else if !is_skipped(t) && closes(t) && nm.len() > 0 {
            assert(shift_starts(st.drop_last(), p) =~= shift_starts(st, p).drop_last());
        }
    }
}

/// A neutral line inserted inside the block found, after its opening line,
/// leaves the block where it was, closing one line further down.
pub proof fn lemma_nested_insert_neutral(ls: Seq<Seq<char>>, path: Seq<Seq<char>>, p: int, l: Seq<char>)
    requires
        path.len() > 0,
        nested_block(ls, path) is Some,
        nested_block(ls, path).unwrap().0 < p <= nested_block(ls, path).unwrap().1,
        neutral_line(l),
    ensures
        nested_block(ls.insert(p, l), path) == Some((nested_block(ls, path).unwrap().0, nested_block(ls, path).unwrap().1 + 1)),
{
    lemma_nested_found(ls, path, 0);
    lemma_nested_order(ls, path);
    let (s, e) = nested_block(ls, path).unwrap();
    let l2 = ls.insert(p, l);
    assert forall|k: int| 0 <= k < e + 1 implies !nest_end(l2, path, k) by {
        if k < p {
            assert forall|m: int| 0 <= m < k implies text::trim(#[trigger] l2[m]) == text::trim(ls[m]) by {
                assert(l2[m] == ls[m]);
            }
            lemma_nest_trims(l2, ls, k);
            assert(l2[k] == ls[k]);
            assert(!nest_end(ls, path, k));
        } else if k == p {
            assert(l2[k] == l);
        } else {
            lemma_nest_inserted(ls, p, l, k);
            assert(l2[k] == ls[k - 1]);
            assert(!nest_end(ls, path, k - 1));
        }
    }
    lemma_nested_walk(l2, path, e + 1);
    lemma_nest_inserted(ls, p, l, e + 1);
    assert(l2[e + 1] == ls[e]);
    lemma_nest_state_lens(ls, e);
    lemma_nest_starts_before(ls, e);
    let st = nest_state(ls, e).0;
    assert(st.len() > 0);
    assert(st[st.len() - 1] == s);
    assert(shift_starts(st, p)[st.len() - 1] == s);
}

/// A block found opens before it closes, within the lines, and its closing
/// line starts with `}`.
pub proof fn lemma_nested_bounds(ls: Seq<Seq<char>>, path: Seq<Seq<char>>)
    requires
        path.len() > 0,
        nested_block(ls, path) is Some,
    ensures
        0 <= nested_block(ls, path).unwrap().0 < nested_block(ls, path).unwrap().1 < ls.len(),
        closes(text::trim(ls[nested_block(ls, path).unwrap().1])),
{
    lemma_nested_found(ls, path, 0);
    lemma_nested_order(ls, path);
}

/// Where no block is found at `path`, no line closes one there.
proof fn lemma_no_nest_end(ls: Seq<Seq<char>>, path: Seq<Seq<char>>, i: int)
    requires
        0 <= i <= ls.len(),
        nested_block(ls, path) is None,
    ensures
        forall|k: int| 0 <= k < i ==> !nest_end(ls, path, k),
    decreases i,
{
    if i > 0 {
        lemma_no_nest_end(ls, path, i - 1);
        if nest_end(ls, path, i - 1) {
            lemma_nested_walk(ls, path, i - 1);
        }
    }
}

/// A child block of three lines (its opening line, a neutral line and its
/// closing line) put where the block at `parent` closes is found at
/// `parent` and the child's name, where no such block was found before.
pub proof fn lemma_nested_child_added(
    ls: Seq<Seq<char>>,
    parent: Seq<Seq<char>>,
    name: Seq<char>,
    a: Seq<char>,
    b: Seq<char>,
    c: Seq<char>,
)
    requires
        parent.len() > 0,
        nested_block(ls, parent) is Some,
        nested_block(ls, parent.push(name)) is None,
        !is_skipped(text::trim(a)),
        opens(text::trim(a)),
        block_name(text::trim(a)) == name,
        neutral_line(b),
        !is_skipped(text::trim(c)),
        !opens(text::trim(c)),
        closes(text::trim(c)),
    ensures
        ({
            let pe = nested_block(ls, parent).unwrap().1;
            nested_block(ls.take(pe) + seq![a, b, c] + ls.skip(pe), parent.push(name)) == Some((pe, pe + 2))
        }),
{
    let path = parent.push(name);
    lemma_nested_found(ls, parent, 0);
    lemma_nested_order(ls, parent);
    let pe = nested_block(ls, parent).unwrap().1;
    let l2 = ls.take(pe) + seq![a, b, c] + ls.skip(pe);
    lemma_no_nest_end(ls, path, ls.len() as int);
    assert(l2[pe] == a);
    assert(l2[pe + 1] == b);
    assert(l2[pe + 2] == c);
    assert forall|m: int| 0 <= m < pe implies text::trim(#[trigger] l2[m]) == text::trim(ls[m]) by {
        assert(l2[m] == ls[m]);
    }
    assert forall|k: int| 0 <= k < pe + 2 implies !nest_end(l2, path, k) by {
        if k < pe {
            lemma_nest_trims(l2, ls, k);
            assert(l2[k] == ls[k]);
            assert(!nest_end(ls, path, k));
        }
    }
    lemma_nest_trims(l2, ls, pe);
    let st = nest_state(ls, pe);
    assert(st.1 == parent);
    assert(nest_state(l2, pe + 1) == (st.0.push(pe), st.1.push(name)));
    assert(nest_state(l2, pe + 2) == nest_state(l2, pe + 1));
    assert(nest_end(l2, path, pe + 2));
    lemma_nested_walk(l2, path, pe + 2);
}

/// Line numbers moved `n` further down.
pub open spec fn offset(st: Seq<int>, n: int) -> Seq<int> {
    st.map_values(|x: int| x + n)
}

/// After lines that leave no block open, the finder's state on the lines
/// that follow is theirs alone, their first lines moved down.
proof fn lemma_nest_appended(ls: Seq<Seq<char>>, more: Seq<Seq<char>>, j: int)
    requires
        nest_state(ls, ls.len() as int).1.len() == 0,
        0 <= j <= more.len(),
    ensures
        nest_state(ls + more, ls.len() + j).1 == nest_state(more, j).1,
        nest_state(ls + more, ls.len() + j).0 == offset(nest_state(more, j).0, ls.len() as int),
    decreases j,
{
    let l2 = ls + more;
    let n0 = ls.len() as int;
    if j == 0 {
        assert forall|k: int| 0 <= k < n0 implies text::trim(#[trigger] l2[k]) == text::trim(ls[k]) by {
            assert(l2[k] == ls[k]);
        }
        lemma_nest_trims(l2, ls, n0);
        lemma_nest_state_lens(ls, n0);
        assert(offset(nest_state(more, 0).0, n0) =~= seq![]);
        assert(nest_state(l2, n0).0 =~= seq![]);
    } else {
        lemma_nest_appended(ls, more, j - 1);
        assert(l2[n0 + j - 1] == more[j - 1]);
        let st = nest_state(more, j - 1).0;
        lemma_nest_state_lens(more, j - 1);
        assert(offset(st.push(j - 1), n0) =~= offset(st, n0).push(n0 + j - 1));
        if st.len() > 0 {
            assert(offset(st.drop_last(), n0) =~= offset(st, n0).drop_last());
        }
    }
}

/// Lines that leave no block open and hold none at `path`, followed by lines
/// that hold one: the block is found among the latter.
pub proof fn lemma_nested_appended(ls: Seq<Seq<char>>, more: Seq<Seq<char>>, path: Seq<Seq<char>>)
    requires
        path.len() > 0,
        nested_block(ls, path) is None,
        nest_state(ls, ls.len() as int).1.len() == 0,
        nested_block(more, path) is Some,
    ensures
        nested_block(ls + more, path) == Some(
            (nested_block(more, path).unwrap().0 + ls.len(), nested_block(more, path).unwrap().1 + ls.len()),
        ),
{
    let l2 = ls + more;
    let n0 = ls.len() as int;
    lemma_no_nest_end(ls, path, n0);
    lemma_nested_found(more, path, 0);
    let e = nested_block(more, path).unwrap().1;
    assert forall|k: int| 0 <= k < n0 + e implies !nest_end(l2, path, k) by {
        if k < n0 {
            assert forall|m: int| 0 <= m < k implies text::trim(#[trigger] l2[m]) == text::trim(ls[m]) by {
                assert(l2[m] == ls[m]);
            }
            lemma_nest_trims(l2, ls, k);
            assert(l2[k] == ls[k]);
            assert(!nest_end(ls, path, k));
        } else {
            lemma_nest_appended(ls, more, k - n0);
            assert(l2[k] == more[k - n0]);
            assert(!nest_end(more, path, k - n0));
        }
    }
    lemma_nest_appended(ls, more, e);
    assert(l2[n0 + e] == more[e]);
    lemma_nested_walk(l2, path, n0 + e);
    lemma_nested_walk(more, path, e);
    lemma_nest_state_lens(more, e);
    let st = nest_state(more, e).0;
    assert(st.len() > 0);
    assert(offset(st, n0).last() == st.last() + n0);
}

// ---------------------------------------------------------------- exec

/// The vectors of characters of a slice of strings.
pub fn strs_of(v: &[&str]) -> (r: Vec<Vec<char>>)
    ensures
        text::views(r@) == str_views(v@),
{
    let mut r: Vec<Vec<char>> = Vec::new();
    let mut i: usize = 0;
    while i < v.len()
        invariant
            i <= v.len(),
            text::views(r@) == str_views(v@).take(i as int),
        decreases v.len() - i,
    {
        let s: &str = v[i];
        assert(s == v@[i as int]);
        let l = text::chars_of(s);
        let ghost r0 = text::views(r@);
        r.push(l);
        assert(text::views(r@) =~= r0.push(s@));
        assert(str_views(v@).take(i + 1) =~= str_views(v@).take(i as int).push(v@[i as int]@));
        i += 1;
        assert(text::views(r@) =~= str_views(v@).take(i as int));
    }
    assert(str_views(v@).take(i as int) =~= str_views(v@));
    r
}

fn skipped(t: &Vec<char>) -> (r: bool)
    ensures
        r == is_skipped(t@),
{
    let slashes = text::lit("//");
    proof {
        reveal_strlit("//");
    }
    assert(slashes@ =~= seq!['/', '/']);
    t.len() == 0 || text::has_prefix(t, &slashes)
}

fn name_of(t: &Vec<char>) -> (r: Vec<char>)
    ensures
        r@ == block_name(t@),
{
    let a = text::cut_end_char(t, '{');
    let b = text::trimmed(&a);
    let c = text::cut_end_char(&b, '"');
    let d = text::cut_before(&c, '=');
    let e = text::trimmed(&d);
    text::cut_char(&e, '"')
}

fn value_name_of(t: &Vec<char>) -> (r: Vec<char>)
    ensures
        r@ == value_block_name(t@),
{
    let a = text::cut_end_char(t, '{');
    let b = text::trimmed(&a);
    let d = text::cut_before(&b, '=');
    let e = text::trimmed(&d);
    text::cut_char(&e, '"')
}

/// The opening and closing line of the block at `path`.
pub fn find_nested_block(ls: &Vec<Vec<char>>, path: &Vec<Vec<char>>) -> (r: Option<(usize, usize)>)
    ensures
        match r {
            Some((s, e)) => nested_block(text::views(ls@), text::views(path@)) == Some((s as int, e as int))
                && s < e < ls.len(),
            None => nested_block(text::views(ls@), text::views(path@)) is None,
        },
{
    let ghost lv = text::views(ls@);
    let ghost pv = text::views(path@);
    let mut starts: Vec<usize> = Vec::new();
    let mut names: Vec<Vec<char>> = Vec::new();
    let mut i: usize = 0;
    assert(ints(starts@) =~= Seq::<int>::empty());
    assert(text::views(names@) =~= Seq::<Seq<char>>::empty());
    while i < ls.len()
        invariant
            i <= ls.len(),
            lv == text::views(ls@),
            pv == text::views(path@),
            forall|k: int| 0 <= k < starts.len() ==> starts@[k] < i,
            starts.len() == names.len(),
            nested_block(lv, pv) == nested_from(lv, pv, i as int, ints(starts@), text::views(names@)),
        decreases ls.len() - i,
    {
        let t = text::trimmed(&ls[i]);
        assert(t@ == text::trim(lv[i as int]));
        if skipped(&t) {
        } else if t[t.len() - 1] == '{' {
            let n = name_of(&t);
            let ghost n0 = text::views(names@);
            let ghost s0 = ints(starts@);
            starts.push(i);
            names.push(n);
            assert(ints(starts@) =~= s0.push(i as int));
            assert(text::views(names@) =~= n0.push(block_name(t@)));
        } else if t[0] == '}' && names.len() > 0 {
            if text::same_lines(&names, path) {
                let s = starts[starts.len() - 1];
                assert(ints(starts@).last() == s as int);
                return Some((s, i));
            }
            let ghost s0 = ints(starts@);
            let ghost n0 = text::views(names@);
            starts.pop();
            names.pop();
            assert(ints(starts@) =~= s0.drop_last());
            assert(text::views(names@) =~= n0.drop_last());
        }
        i += 1;
    }
    None
}

/// The lines `[start, end)` of the first top-level block `name { ... }`.
pub fn find_block(ls: &Vec<Vec<char>>, name: &Vec<char>) -> (r: Option<(usize, usize)>)
    requires
        text::total_len(text::views(ls@)) <= usize::MAX,
    ensures
        match r {
            Some((s, e)) => top_block(text::views(ls@), name@) == Some((s as int, e as int)) && s < e <= ls.len(),
            None => top_block(text::views(ls@), name@) is None,
        },
{
    let ghost lv = text::views(ls@);
    let mut head = name.clone();
    head.push(' ');
    head.push('{');
    assert(head@ =~= block_head(name@));
    let mut started = false;
    let mut start: usize = 0;
    let mut depth: i128 = 0;
    let mut i: usize = 0;
    while i < ls.len()
        invariant
            i <= ls.len(),
            lv == text::views(ls@),
            head@ == block_head(name@),
            text::total_len(lv) <= usize::MAX,
            started ==> start < i && 1 <= depth <= 1 + text::total_len(lv.take(i as int)),
            top_block(lv, name@) == block_from(lv, name@, i as int,
                if started { Some((start as int, depth as int)) } else { None }),
        decreases ls.len() - i,
    {
        let t = text::trimmed(&ls[i]);
        proof {
            text::lemma_trim_len(lv[i as int]);
            text::lemma_total_len_take(lv, i as int);
            text::lemma_total_len_take(lv, i + 1);
            text::lemma_count_le(t@, '{');
            text::lemma_count_le(t@, '}');
        }
        let o = text::count_char(&t, '{');
        let c = text::count_char(&t, '}');
        if started {
            let d2: i128 = depth + (o as i128) - (c as i128);
            if d2 <= 0 {
                return Some((start, i + 1));
            }
            depth = d2;
        } else if text::has_prefix(&t, &head) {
            if o > c {
                started = true;
                start = i;
                depth = 1;
            } else {
                return Some((i, i + 1));
            }
        }
        i += 1;
    }
    None
}

fn value_str(t: &Vec<char>, key: &Vec<char>) -> (r: Vec<char>)
    requires
        key.len() <= t.len(),
    ensures
        r@ == value_of(t@, key@),
{
    let a = text::slice(t, key.len(), t.len());
    assert(a@ =~= t@.skip(key@.len() as int));
    let b = text::trimmed(&a);
    let c = text::cut_start_char(&b, '=');
    let d = text::trimmed(&c);
    let e = text::cut_end_char(&d, ';');
    text::trimmed(&e)
}

/// The value of `key` in the block at `path` (see `block_value`).
pub fn extract_value(ls: &Vec<Vec<char>>, path: &Vec<Vec<char>>, key: &Vec<char>) -> (r: Option<Vec<char>>)
    ensures
        match r {
            Some(v) => block_value(text::views(ls@), text::views(path@), key@) == Some(v@),
            None => block_value(text::views(ls@), text::views(path@), key@) is None,
        },
{
    let ghost lv = text::views(ls@);
    let ghost pv = text::views(path@);
    let mut names: Vec<Vec<char>> = Vec::new();
    let mut i: usize = 0;
    assert(text::views(names@) =~= Seq::<Seq<char>>::empty());
    while i < ls.len()
        invariant
            i <= ls.len(),
            lv == text::views(ls@),
            pv == text::views(path@),
            block_value(lv, pv, key@) == value_from(lv, pv, key@, i as int, text::views(names@)),
        decreases ls.len() - i,
    {
        let t = text::trimmed(&ls[i]);
        assert(t@ == text::trim(lv[i as int]));
        if !skipped(&t) {
            let ghost n0 = text::views(names@);
            if t[t.len() - 1] == '{' {
                let n = value_name_of(&t);
                names.push(n);
                assert(text::views(names@) =~= n0.push(value_block_name(t@)));
            } else if t[0] == '}' && names.len() > 0 {
                names.pop();
                assert(text::views(names@) =~= n0.drop_last());
            }
            assert(text::views(names@) == names_after(n0, t@));
            if text::same_lines(&names, path) && ini::key_matches(&ls[i], key) {
                assert(key@.len() <= t@.len());
                return Some(value_str(&t, key));
            }
        }
        i += 1;
    }
    None
}

/// The lines with `key value` set in the block at `path` (see `updated_lines`).
pub fn set_in_block(input: Vec<Vec<char>>, path: &Vec<Vec<char>>, key: &Vec<char>, value: &Vec<char>) -> (r: Option<Vec<Vec<char>>>)
    ensures
        match r {
            Some(o) => updated_lines(text::views(input@), text::views(path@), key@, value@) == Some(text::views(o@)),
            None => updated_lines(text::views(input@), text::views(path@), key@, value@) is None,
        },
{
    let ghost lv = text::views(input@);
    let (s, e) = match find_nested_block(&input, path) {
        Some(b) => b,
        None => {
            return None;
        },
    };
    let mut ls = input;
    let mut line = text::blanks_of(&ls[s]);
    let sp = indent_of(1);
    text::append(&mut line, &sp);
    text::append(&mut line, key);
    line.push(' ');
    text::append(&mut line, value);
    assert(line@ =~= kv_line(text::leading_blanks(lv[s as int]) + spaces(4), key@, value@));
    let mut j: usize = s + 1;
    while j < e
        invariant
            s < j <= e < ls.len(),
            text::views(ls@) == lv,
            lv == text::views(input@),
            nested_block(lv, text::views(path@)) == Some((s as int, e as int)),
            line@ == kv_line(text::leading_blanks(lv[s as int]) + spaces(4), key@, value@),
            ini::spec_find_key(lv, key@, s + 1, e as int) == ini::spec_find_key(lv, key@, j as int, e as int),
        decreases e - j,
    {
        if ini::key_matches(&ls[j], key) {
            assert(lv[j as int] == ls@[j as int]@);
            assert(ini::spec_find_key(lv, key@, j as int, e as int) == Some(j as int));
            let ghost l0 = text::views(ls@);
            let ghost ln = line@;
            ls.set(j, line);
            assert(text::views(ls@) =~= l0.update(j as int, ln));
            assert(updated_lines(lv, text::views(path@), key@, value@) == Some(lv.update(j as int, ln)));
            return Some(ls);
        }
        j += 1;
    }
    let ghost l0 = text::views(ls@);
    let ghost ln = line@;
    ls.insert(e, line);
    assert(text::views(ls@) =~= l0.insert(e as int, ln));
    Some(ls)
}

/// Sets `key value` in the block at `path` of the text; `None` when the block
/// does not exist.
pub fn update_value_in_block(content: &str, path: &[&str], key: &str, value: &str) -> (r: Option<String>)
    ensures
        match r {
            Some(x) => spec_update_value(content@, str_views(path@), key@, value@) == Some(x@),
            None => spec_update_value(content@, str_views(path@), key@, value@) is None,
        },
{
    let ls = text::lines_of(content);
    let p = strs_of(path);
    let k = text::chars_of(key);
    let v = text::chars_of(value);
    match set_in_block(ls, &p, &k, &v) {
        Some(out) => Some(text::join_lines(&out)),
        None => None,
    }
}

/// `depth` levels of indentation.
pub fn indent_of(depth: usize) -> (r: Vec<char>)
    ensures
        r@ == indent(depth as nat),
{
    let mut r: Vec<char> = Vec::new();
    let mut m: usize = 0;
    while m < depth
        invariant
            m <= depth,
            r@ == spaces(4 * m as nat),
        decreases depth - m,
    {
        r.push(' ');
        r.push(' ');
        r.push(' ');
        r.push(' ');
        m += 1;
        assert(r@ =~= spaces(4 * m as nat));
    }
    r
}

/// The first `n` lines of `v`.
pub fn prefix(v: &Vec<Vec<char>>, n: usize) -> (r: Vec<Vec<char>>)
    requires
        n <= v.len(),
    ensures
        text::views(r@) == text::views(v@).take(n as int),
{
    let mut r: Vec<Vec<char>> = Vec::new();
    let mut i: usize = 0;
    while i < n
        invariant
            i <= n <= v.len(),
            text::views(r@) == text::views(v@).take(i as int),
        decreases n - i,
    {
        let l = v[i].clone();
        assert(l@ == v@[i as int]@);
        let ghost r0 = text::views(r@);
        r.push(l);
        assert(text::views(r@) =~= r0.push(l@));
        i += 1;
        assert(text::views(r@) =~= text::views(v@).take(i as int));
    }
    r
}

/// Appends copies of the lines `v[a..b]` to `out`.
pub fn push_lines(out: &mut Vec<Vec<char>>, v: &Vec<Vec<char>>, a: usize, b: usize)
    requires
        a <= b <= v.len(),
    ensures
        text::views(final(out)@) == text::views(old(out)@) + text::views(v@).subrange(a as int, b as int),
{
    let mut i: usize = a;
    while i < b
        invariant
            a <= i <= b <= v.len(),
            text::views(out@) == text::views(old(out)@) + text::views(v@).subrange(a as int, i as int),
        decreases b - i,
    {
        let l = v[i].clone();
        assert(l@ == v@[i as int]@);
        let ghost o0 = text::views(out@);
        out.push(l);
        assert(text::views(out@) =~= o0.push(l@));
        i += 1;
        assert(text::views(out@) =~= text::views(old(out)@) + text::views(v@).subrange(a as int, i as int));
    }
}

fn has_block(ls: &Vec<Vec<char>>, path: &Vec<Vec<char>>, n: usize) -> (r: bool)
    requires
        n <= path.len(),
    ensures
        r == (nested_block(text::views(ls@), text::views(path@).take(n as int)) is Some),
{
    let p = prefix(path, n);
    find_nested_block(ls, &p).is_some()
}

fn body_text_of(body: &Vec<Vec<char>>, depth: usize) -> (r: Vec<char>)
    ensures
        r@ == body_text(text::views(body@), depth as nat),
{
    let ghost bv = text::views(body@);
    let ind = indent_of(depth);
    let mut out: Vec<char> = Vec::new();
    let mut i: usize = 0;
    assert(bv.take(0) =~= Seq::<Seq<char>>::empty());
    while i < body.len()
        invariant
            i <= body.len(),
            bv == text::views(body@),
            ind@ == indent(depth as nat),
            out@ == body_text(bv.take(i as int), depth as nat),
        decreases body.len() - i,
    {
        text::append(&mut out, &ind);
        text::append(&mut out, &body[i]);
        out.push('\n');
        assert(bv.take(i + 1).drop_last() =~= bv.take(i as int));
        assert(bv.take(i + 1).last() == body@[i as int]@);
        i += 1;
        assert(out@ =~= body_text(bv.take(i as int), depth as nat));
    }
    assert(bv.take(i as int) =~= bv);
    out
}

/// The text with the block at `path` created (see `spec_create_block`).
pub fn create_in(content: &Vec<char>, path: &Vec<Vec<char>>, body: &Vec<Vec<char>>) -> (r: Vec<char>)
    ensures
        r@ == spec_create_block(content@, text::views(path@), text::views(body@)),
{
    let ghost pv = text::views(path@);
    let ghost bv = text::views(body@);
    let ls = text::split_lines(content);
    let ghost lv = text::views(ls@);
    let mut d: usize = 0;
    while d < path.len() && has_block(&ls, path, d + 1)
        invariant
            d <= path.len(),
            pv == text::views(path@),
            lv == text::views(ls@),
            existing_depth_from(lv, pv, 0) == existing_depth_from(lv, pv, d as nat),
        decreases path.len() - d,
    {
        d += 1;
    }
    if d == path.len() {
        return content.clone();
    }
    let mut inner = body_text_of(body, path.len());
    let mut k: usize = path.len();
    while k > d
        invariant
            d <= k <= path.len(),
            pv == text::views(path@),
            bv == text::views(body@),
            inner@ == wrapped(pv, bv, k as nat),
        decreases k,
    {
        k -= 1;
        let mut x = indent_of(k);
        text::append(&mut x, &path[k]);
        x.push(' ');
        x.push('{');
        x.push('\n');
        text::append(&mut x, &inner);
        let ind = indent_of(k);
        text::append(&mut x, &ind);
        x.push('}');
        x.push('\n');
        assert(x@ =~= wrapped(pv, bv, k as nat));
        inner = x;
    }
    if d > 0 {
        proof {
            lemma_existing_depth(lv, pv, 0);
        }
        let pre = prefix(path, d);
        match find_nested_block(&ls, &pre) {
            Some((_s, e)) => {
                let mut out: Vec<Vec<char>> = Vec::new();
                push_lines(&mut out, &ls, 0, e);
                let il = text::split_lines(&inner);
                push_lines(&mut out, &il, 0, il.len());
                push_lines(&mut out, &ls, e, ls.len());
                assert(text::views(out@) =~= lv.take(e as int) + text::lines(inner@) + lv.skip(e as int)) by {
                    assert(text::views(il@).subrange(0, il.len() as int) =~= text::views(il@));
                    assert(lv.subrange(0, e as int) =~= lv.take(e as int));
                    assert(lv.subrange(e as int, ls.len() as int) =~= lv.skip(e as int));
                }
                let mut sep: Vec<char> = Vec::new();
                sep.push('\n');
                assert(sep@ =~= text::nl());
                text::join_with(&out, &sep)
            },
            None => {
                assert(false);
                Vec::new()
            },
        }
    } else {
        let mut c = content.clone();
        assert(c@ == content@);
        if c.len() > 0 && c[c.len() - 1] != '\n' {
            c.push('\n');
        }
        text::append(&mut c, &inner);
        c
    }
}

/// Creates the block at `path` with `body_lines` in the deepest block (see
/// `spec_create_block`).
pub fn create_block(content: &str, path: &[&str], body_lines: &[&str]) -> (r: String)
    ensures
        r@ == spec_create_block(content@, str_views(path@), str_views(body_lines@)),
{
    let c = text::chars_of(content);
    let p = strs_of(path);
    let b = strs_of(body_lines);
    let out = create_in(&c, &p, &b);
    text::string_of(&out)
}

} // verus!
