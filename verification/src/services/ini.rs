//! `key=value` files split in `[section]`s, as mako and fuzzel write them.
use vstd::prelude::*;
use crate::text;
use crate::num;

verus! {

// ---------------------------------------------------------------- model

/// `[section]`.
pub open spec fn spec_header(section: Seq<char>) -> Seq<char> {
    seq!['['] + section + seq![']']
}

/// A line that opens a section: trimmed, it starts with `[` and ends with `]`.
pub open spec fn spec_is_header_line(l: Seq<char>) -> bool {
    let t = text::trim(l);
    text::starts_with(t, seq!['[']) && text::ends_with(t, seq![']'])
}

/// First line at or after `i` whose trimmed text is `[section]`.
pub open spec fn spec_find_section_from(ls: Seq<Seq<char>>, section: Seq<char>, i: int) -> Option<int>
    decreases ls.len() - i,
{
    if i < 0 || i >= ls.len() {
        None
    } else if text::trim(ls[i]) == spec_header(section) {
        Some(i)
    } else {
        spec_find_section_from(ls, section, i + 1)
    }
}

pub open spec fn spec_find_section(ls: Seq<Seq<char>>, section: Seq<char>) -> Option<int> {
    spec_find_section_from(ls, section, 0)
}

/// First section header at or after `j`, or the number of lines.
pub open spec fn spec_section_end(ls: Seq<Seq<char>>, j: int) -> int
    decreases ls.len() - j,
{
    if j < 0 || j >= ls.len() {
        ls.len() as int
    } else if spec_is_header_line(ls[j]) {
        j
    } else {
        spec_section_end(ls, j + 1)
    }
}

/// `key=` or `key ` starts the trimmed line.
pub open spec fn spec_key_matches(l: Seq<char>, key: Seq<char>) -> bool {
    let t = text::trim(l);
    text::starts_with(t, key + seq!['=']) || text::starts_with(t, key + seq![' '])
}

/// First line in `[j, end)` that `key_matches`.
pub open spec fn spec_find_key(ls: Seq<Seq<char>>, key: Seq<char>, j: int, end: int) -> Option<int>
    decreases end - j,
{
    if j < 0 || j >= end || j >= ls.len() {
        None
    } else if spec_key_matches(ls[j], key) {
        Some(j)
    } else {
        spec_find_key(ls, key, j + 1, end)
    }
}

/// `key=value`.
pub open spec fn spec_assignment(key: Seq<char>, value: Seq<char>) -> Seq<char> {
    key + seq!['='] + value
}

/// The lines with `key=value` set in `section`: the first line of the section
/// that assigns `key` is replaced (keeping its indentation), otherwise the
/// assignment is added at the end of the section; a missing section is added
/// at the end of the file as a line `"\n[section]\n"`.
pub open spec fn spec_set_key(ls: Seq<Seq<char>>, section: Seq<char>, key: Seq<char>, value: Seq<char>) -> Seq<Seq<char>> {
    let ls1 = match spec_find_section(ls, section) {
        Some(i) => ls,
        None => ls.push(seq!['\n'] + spec_header(section) + seq!['\n']),
    };
    let idx = match spec_find_section(ls, section) {
        Some(i) => i,
        None => ls.len() as int,
    };
    let end = spec_section_end(ls1, idx + 1);
    match spec_find_key(ls1, key, idx + 1, end) {
        Some(j) => ls1.update(j, text::leading_blanks(ls1[j]) + spec_assignment(key, value)),
        None => ls1.insert(end, spec_assignment(key, value)),
    }
}

/// The value of the first `key=` line of the section that starts after line `j`.
pub open spec fn spec_scan_key(ls: Seq<Seq<char>>, key: Seq<char>, j: int) -> Option<Seq<char>>
    decreases ls.len() - j,
{
    if j < 0 || j >= ls.len() {
        None
    } else if spec_is_header_line(ls[j]) {
        None
    } else if text::starts_with(text::trim(ls[j]), key + seq!['=']) {
        Some(text::trim(text::trim(ls[j]).skip(key.len() + 1 as int)))
    } else {
        spec_scan_key(ls, key, j + 1)
    }
}

/// The trimmed value of `key` in `section`, if the section assigns it.
pub open spec fn spec_get_key(ls: Seq<Seq<char>>, section: Seq<char>, key: Seq<char>) -> Option<Seq<char>> {
    match spec_find_section(ls, section) {
        Some(i) => spec_scan_key(ls, key, i + 1),
        None => None,
    }
}

/// `get_key`, or `default` when the key is not set.
pub open spec fn spec_get_or(ls: Seq<Seq<char>>, section: Seq<char>, key: Seq<char>, default: Seq<char>) -> Seq<char> {
    match spec_get_key(ls, section, key) {
        Some(v) => v,
        None => default,
    }
}

/// The integer value of `key`, or `default` when unset or not an `i64`.
pub open spec fn spec_get_int(ls: Seq<Seq<char>>, section: Seq<char>, key: Seq<char>, default: int) -> int {
    match spec_get_key(ls, section, key) {
        Some(v) => match num::i64_of(v) {
            Some(n) => n,
            None => default,
        },
        None => default,
    }
}

/// The words mako reads as "yes", in any ASCII case.
pub open spec fn is_true_word(v: Seq<char>) -> bool {
    let w = text::ascii_lower(text::trim(v));
    w == "true"@ || w == "yes"@ || w == "1"@ || w == "on"@
}

/// The boolean value of `key`, or `default` when unset.
pub open spec fn spec_get_bool(ls: Seq<Seq<char>>, section: Seq<char>, key: Seq<char>, default: bool) -> bool {
    match spec_get_key(ls, section, key) {
        Some(v) => is_true_word(v),
        None => default,
    }
}

/// `set_key` when a value is given.
pub open spec fn set_opt(ls: Seq<Seq<char>>, section: Seq<char>, key: Seq<char>, value: Option<Seq<char>>) -> Seq<Seq<char>> {
    match value {
        Some(v) => spec_set_key(ls, section, key, v),
        None => ls,
    }
}

/// The decimal form of an optional integer.
pub open spec fn opt_dec(value: Option<i64>) -> Option<Seq<char>> {
    match value {
        Some(n) => Some(num::dec(n as int)),
        None => None,
    }
}

/// `"true"` or `"false"`.
pub open spec fn bool_word(b: bool) -> Seq<char> {
    if b {
        "true"@
    } else {
        "false"@
    }
}

/// The word of an optional boolean.
pub open spec fn opt_bool(value: Option<bool>) -> Option<Seq<char>> {
    match value {
        Some(b) => Some(bool_word(b)),
        None => None,
    }
}

// ---------------------------------------------------------------- lemmas

pub(crate) proof fn lemma_find_section_from(ls: Seq<Seq<char>>, section: Seq<char>, i: int)
    requires
        0 <= i,
    ensures
        match spec_find_section_from(ls, section, i) {
            Some(k) => i <= k < ls.len() && text::trim(ls[k]) == spec_header(section)
                && forall|m: int| i <= m < k ==> text::trim(#[trigger] ls[m]) != spec_header(section),
            None => forall|m: int| i <= m < ls.len() ==> text::trim(#[trigger] ls[m]) != spec_header(section),
        },
    decreases ls.len() - i,
{
    if i < ls.len() && text::trim(ls[i]) != spec_header(section) {
        lemma_find_section_from(ls, section, i + 1);
    }
}

pub(crate) proof fn lemma_find_section_at(ls: Seq<Seq<char>>, section: Seq<char>, i: int, k: int)
    requires
        0 <= i <= k < ls.len(),
        text::trim(ls[k]) == spec_header(section),
        forall|m: int| i <= m < k ==> text::trim(#[trigger] ls[m]) != spec_header(section),
    ensures
        spec_find_section_from(ls, section, i) == Some(k),
    decreases k - i,
{
    if i < k {
        lemma_find_section_at(ls, section, i + 1, k);
    }
}

pub(crate) proof fn lemma_section_end(ls: Seq<Seq<char>>, j: int)
    requires
        0 <= j <= ls.len(),
    ensures
        j <= spec_section_end(ls, j) <= ls.len(),
        forall|m: int| j <= m < spec_section_end(ls, j) ==> !spec_is_header_line(#[trigger] ls[m]),
    decreases ls.len() - j,
{
    if j < ls.len() && !spec_is_header_line(ls[j]) {
        lemma_section_end(ls, j + 1);
    }
}

pub proof fn lemma_find_key(ls: Seq<Seq<char>>, key: Seq<char>, j: int, end: int)
    requires
        0 <= j,
    ensures
        match spec_find_key(ls, key, j, end) {
            Some(k) => j <= k < end && k < ls.len() && spec_key_matches(ls[k], key)
                && forall|m: int| j <= m < k ==> !spec_key_matches(#[trigger] ls[m], key),
            None => forall|m: int| j <= m < end && m < ls.len() ==> !spec_key_matches(#[trigger] ls[m], key),
        },
    decreases end - j,
{
    if j < end && j < ls.len() && !spec_key_matches(ls[j], key) {
        lemma_find_key(ls, key, j + 1, end);
    }
}

pub(crate) proof fn lemma_scan_key_at(ls: Seq<Seq<char>>, key: Seq<char>, j: int, k: int)
    requires
        0 <= j <= k < ls.len(),
        forall|m: int| j <= m < k ==> !spec_is_header_line(#[trigger] ls[m]) && !text::starts_with(text::trim(ls[m]), key + seq!['=']),
        !spec_is_header_line(ls[k]),
        text::starts_with(text::trim(ls[k]), key + seq!['=']),
    ensures
        spec_scan_key(ls, key, j) == Some(text::trim(text::trim(ls[k]).skip(key.len() + 1 as int))),
    decreases k - j,
{
    if j < k {
        lemma_scan_key_at(ls, key, j + 1, k);
    }
}

/// The trimmed text of a line `blanks key=value`.
pub(crate) proof fn lemma_assignment_trim(blanks: Seq<char>, key: Seq<char>, value: Seq<char>)
    requires
        forall|i: int| 0 <= i < blanks.len() ==> #[trigger] blanks[i] == ' ' || blanks[i] == '\t',
        key.len() == 0 || (!text::is_ws(key[0]) && key[0] != '['),
    ensures
        text::trim(blanks + spec_assignment(key, value)) == key + seq!['='] + text::trim_end(value),
        !spec_is_header_line(blanks + spec_assignment(key, value)),
        text::starts_with(text::trim(blanks + spec_assignment(key, value)), key + seq!['=']),
        text::trim(text::trim(blanks + spec_assignment(key, value)).skip(key.len() + 1 as int)) == text::trim(value),
{
    let a = spec_assignment(key, value);
    let ke = key + seq!['='];
    assert(a =~= ke + value);
    assert forall|i: int| 0 <= i < blanks.len() implies text::is_ws(#[trigger] blanks[i]) by {
        assert(blanks[i] == ' ' || blanks[i] == '\t');
    }
    assert(a[0] == if key.len() > 0 { key[0] } else { '=' });
    text::lemma_trim_start_after_ws(blanks, a);
    assert(ke.last() == '=');
    text::lemma_trim_end_concat(ke, value);
    let t = ke + text::trim_end(value);
    assert(t.take(ke.len() as int) =~= ke);
    assert(t.skip(key.len() + 1 as int) =~= text::trim_end(value));
    text::lemma_trim_trim_end(value);
    assert(t[0] != '[');
}

/// Reading back a key of an INI file gives the value written, trimmed: after
/// `set_key(ls, section, key, value)`, `get_key` of the same section and key
/// is `trim(value)`. The key must not start with white space or `[` (such a
/// line would not read back as the assignment).
pub proof fn law_get_after_set(ls: Seq<Seq<char>>, section: Seq<char>, key: Seq<char>, value: Seq<char>)
    requires
        key.len() == 0 || (!text::is_ws(key[0]) && key[0] != '['),
    ensures
        spec_get_key(spec_set_key(ls, section, key, value), section, key) == Some(text::trim(value)),
{
    let h = spec_header(section);
    let newline = seq!['\n'] + h + seq!['\n'];
    let ls1 = match spec_find_section(ls, section) {
        Some(i) => ls,
        None => ls.push(newline),
    };
    let idx = match spec_find_section(ls, section) {
        Some(i) => i,
        None => ls.len() as int,
    };
    lemma_find_section_from(ls, section, 0);
    // the section line of ls1 is idx, the first one
    assert(0 <= idx < ls1.len());
    assert(text::trim(ls1[idx]) == h) by {
        if spec_find_section(ls, section) is None {
            assert(ls1[idx] == newline);
            assert(h[0] == '[');
            assert(forall|i: int| 0 <= i < seq!['\n'].len() ==> text::is_ws(#[trigger] seq!['\n'][i]));
            assert(newline =~= seq!['\n'] + (h + seq!['\n']));
            text::lemma_trim_start_after_ws(seq!['\n'], h + seq!['\n']);
            assert(h.last() == ']');
            text::lemma_trim_end_concat(h, seq!['\n']);
            assert(text::trim_end(seq!['\n']) =~= Seq::<char>::empty()) by {
                assert(seq!['\n'].drop_last() =~= Seq::<char>::empty());
                assert(text::is_ws(seq!['\n'].last()));
                assert(text::trim_end(Seq::<char>::empty()) =~= Seq::<char>::empty());
            }
            assert(h + Seq::<char>::empty() =~= h);
        }
    }
    assert(forall|m: int| 0 <= m < idx ==> text::trim(#[trigger] ls1[m]) != h) by {
        assert forall|m: int| 0 <= m < idx implies text::trim(#[trigger] ls1[m]) != h by {
            assert(ls1[m] == ls[m]);
        }
    }
    let end = spec_section_end(ls1, idx + 1);
    lemma_section_end(ls1, idx + 1);
    lemma_find_key(ls1, key, idx + 1, end);
    let ls2 = spec_set_key(ls, section, key, value);
    match spec_find_key(ls1, key, idx + 1, end) {
        Some(j) => {
            let line = text::leading_blanks(ls1[j]) + spec_assignment(key, value);
            assert(ls2 == ls1.update(j, line));
            text::lemma_leading_blanks(ls1[j]);
            lemma_assignment_trim(text::leading_blanks(ls1[j]), key, value);
            lemma_find_section_at(ls2, section, 0, idx);
            assert forall|m: int| idx + 1 <= m < j implies !spec_is_header_line(#[trigger] ls2[m])
                && !text::starts_with(text::trim(ls2[m]), key + seq!['=']) by {
                assert(ls2[m] == ls1[m]);
                assert(!spec_key_matches(ls1[m], key));
            }
            lemma_scan_key_at(ls2, key, idx + 1, j);
        },
        None => {
            let line = spec_assignment(key, value);
            assert(ls2 == ls1.insert(end, line));
            assert(forall|i: int| 0 <= i < Seq::<char>::empty().len() ==> #[trigger] Seq::<char>::empty()[i] == ' ');
            lemma_assignment_trim(Seq::<char>::empty(), key, value);
            assert(Seq::<char>::empty() + line =~= line);
            assert forall|m: int| 0 <= m < idx implies text::trim(#[trigger] ls2[m]) != h by {
                assert(ls2[m] == ls1[m]);
            }
            assert(ls2[idx] == ls1[idx]);
            lemma_find_section_at(ls2, section, 0, idx);
            assert forall|m: int| idx + 1 <= m < end implies !spec_is_header_line(#[trigger] ls2[m])
                && !text::starts_with(text::trim(ls2[m]), key + seq!['=']) by {
                assert(ls2[m] == ls1[m]);
                assert(!spec_key_matches(ls1[m], key));
            }
            assert(ls2[end] == line);
            lemma_scan_key_at(ls2, key, idx + 1, end);
        },
    }
}

// ---------------------------------------------------------------- reading the text back

proof fn lemma_find_from_trims(a: Seq<Seq<char>>, b: Seq<Seq<char>>, section: Seq<char>, i: int)
    requires
        0 <= i,
        a.len() == b.len(),
        forall|k: int| 0 <= k < a.len() ==> text::trim(#[trigger] a[k]) == text::trim(b[k]),
    ensures
        spec_find_section_from(a, section, i) == spec_find_section_from(b, section, i),
    decreases a.len() - i,
{
    if i < a.len() {
        assert(text::trim(a[i]) == text::trim(b[i]));
        lemma_find_from_trims(a, b, section, i + 1);
    }
}

proof fn lemma_scan_trims(a: Seq<Seq<char>>, b: Seq<Seq<char>>, key: Seq<char>, j: int)
    requires
        0 <= j,
        a.len() == b.len(),
        forall|k: int| 0 <= k < a.len() ==> text::trim(#[trigger] a[k]) == text::trim(b[k]),
    ensures
        spec_scan_key(a, key, j) == spec_scan_key(b, key, j),
    decreases a.len() - j,
{
    if j < a.len() {
        assert(text::trim(a[j]) == text::trim(b[j]));
        lemma_scan_trims(a, b, key, j + 1);
    }
}

/// Reading a key depends on the lines' trimmed text alone.
proof fn lemma_get_key_trims(a: Seq<Seq<char>>, b: Seq<Seq<char>>, section: Seq<char>, key: Seq<char>)
    requires
        a.len() == b.len(),
        forall|k: int| 0 <= k < a.len() ==> text::trim(#[trigger] a[k]) == text::trim(b[k]),
    ensures
        spec_get_key(a, section, key) == spec_get_key(b, section, key),
{
    lemma_find_from_trims(a, b, section, 0);
    lemma_find_section_from(a, section, 0);
    match spec_find_section(a, section) {
        Some(i) => lemma_scan_trims(a, b, key, i + 1),
        None => {},
    }
}

proof fn lemma_find_from_blank(a: Seq<Seq<char>>, l: Seq<char>, section: Seq<char>, i: int)
    requires
        0 <= i,
        text::trim(l).len() == 0,
    ensures
        spec_find_section_from(a.push(l), section, i) == spec_find_section_from(a, section, i),
    decreases a.len() + 1 - i,
{
    if i < a.len() {
        assert(a.push(l)[i] == a[i]);
        lemma_find_from_blank(a, l, section, i + 1);
    } else if i == a.len() {
        assert(a.push(l)[i] == l);
        assert(spec_header(section).len() >= 2);
        assert(text::trim(a.push(l)[i]) != spec_header(section));
        assert(spec_find_section_from(a.push(l), section, i + 1) is None);
    }
}

proof fn lemma_scan_blank(a: Seq<Seq<char>>, l: Seq<char>, key: Seq<char>, j: int)
    requires
        0 <= j,
        text::trim(l).len() == 0,
    ensures
        spec_scan_key(a.push(l), key, j) == spec_scan_key(a, key, j),
    decreases a.len() + 1 - j,
{
    if j < a.len() {
        assert(a.push(l)[j] == a[j]);
        lemma_scan_blank(a, l, key, j + 1);
    } else if j == a.len() {
        assert(a.push(l)[j] == l);
        assert((key + seq!['=']).len() >= 1);
        assert(!spec_is_header_line(l));
        assert(!text::starts_with(text::trim(l), key + seq!['=']));
        assert(spec_scan_key(a.push(l), key, j + 1) is None);
    }
}

/// A blank last line changes nothing that is read.
proof fn lemma_get_key_blank(a: Seq<Seq<char>>, l: Seq<char>, section: Seq<char>, key: Seq<char>)
    requires
        text::trim(l).len() == 0,
    ensures
        spec_get_key(a.push(l), section, key) == spec_get_key(a, section, key),
{
    lemma_find_from_blank(a, l, section, 0);
    lemma_find_section_from(a, section, 0);
    match spec_find_section(a, section) {
        Some(i) => lemma_scan_blank(a, l, key, i + 1),
        None => {},
    }
}

/// Lines without line breaks, joined and read back, read the same keys.
pub(crate) proof fn lemma_get_key_joined(ls: Seq<Seq<char>>, section: Seq<char>, key: Seq<char>)
    requires
        ls.len() >= 1,
        forall|a: int, b: int| 0 <= a < ls.len() && 0 <= b < ls[a].len() ==> #[trigger] ls[a][b] != '\n',
    ensures
        spec_get_key(text::lines(text::join(ls, text::nl())), section, key) == spec_get_key(ls, section, key),
{
    let l3 = text::lines(text::join(ls, text::nl()));
    if ls.last().len() > 0 {
        text::lemma_lines_of_join(ls);
        assert forall|k: int| 0 <= k < l3.len() implies text::trim(#[trigger] l3[k]) == text::trim(ls[k]) by {
            text::lemma_trim_strip_cr(ls[k]);
        }
        lemma_get_key_trims(l3, ls, section, key);
    } else {
        let d = ls.drop_last();
        assert(d.push(ls.last()) =~= ls);
        assert(text::trim(ls.last()) =~= Seq::<char>::empty());
        lemma_get_key_blank(d, ls.last(), section, key);
        if d.len() == 0 {
            assert(text::join(ls, text::nl()) =~= Seq::<char>::empty());
            assert(l3 =~= Seq::<Seq<char>>::empty());
            assert(d =~= Seq::<Seq<char>>::empty());
        } else {
            assert(text::join(ls, text::nl()) =~= text::join(d, text::nl()) + text::nl());
            assert forall|a: int, b: int| 0 <= a < d.len() && 0 <= b < d[a].len() implies #[trigger] d[a][b] != '\n' by {
                assert(d[a] == ls[a]);
            }
            text::lemma_lines_of_joined(d);
            assert forall|k: int| 0 <= k < l3.len() implies text::trim(#[trigger] l3[k]) == text::trim(d[k]) by {
                text::lemma_trim_strip_cr(d[k]);
            }
            lemma_get_key_trims(l3, d, section, key);
        }
    }
}

/// The file's text after `set_key`, read again, gives the value written,
/// trimmed: the key must not start with white space or `[`, and neither the
/// section, the key nor the value holds a line break.
pub proof fn law_text_get_after_set(content: Seq<char>, section: Seq<char>, key: Seq<char>, value: Seq<char>)
    requires
        key.len() > 0,
        !text::is_ws(key[0]),
        key[0] != '[',
        forall|x: int| 0 <= x < section.len() ==> #[trigger] section[x] != '\n',
        forall|x: int| 0 <= x < key.len() ==> #[trigger] key[x] != '\n',
        forall|x: int| 0 <= x < value.len() ==> #[trigger] value[x] != '\n',
    ensures
        spec_get_key(
            text::lines(text::join(spec_set_key(text::lines(content), section, key, value), text::nl())),
            section,
            key,
        ) == Some(text::trim(value)),
{
    let ls = text::lines(content);
    text::lemma_lines_no_nl(content);
    let a = spec_assignment(key, value);
    assert forall|x: int| 0 <= x < a.len() implies #[trigger] a[x] != '\n' by {
        if x < key.len() {
            assert(a[x] == key[x]);
        } else if x > key.len() {
            assert(a[x] == value[x - key.len() - 1]);
        }
    }
    lemma_find_section_from(ls, section, 0);
    let h = spec_header(section);
    match spec_find_section(ls, section) {
        Some(idx) => {
            law_get_after_set(ls, section, key, value);
            let end = spec_section_end(ls, idx + 1);
            lemma_section_end(ls, idx + 1);
            lemma_find_key(ls, key, idx + 1, end);
            let ls2 = spec_set_key(ls, section, key, value);
            match spec_find_key(ls, key, idx + 1, end) {
                Some(j) => {
                    let line = text::leading_blanks(ls[j]) + a;
                    text::lemma_leading_blanks(ls[j]);
                    assert(ls2 == ls.update(j, line));
                    assert forall|x: int| 0 <= x < line.len() implies #[trigger] line[x] != '\n' by {
                        if x >= text::leading_blanks(ls[j]).len() {
                            assert(line[x] == a[x - text::leading_blanks(ls[j]).len()]);
                        }
                    }
                    assert forall|p: int, q: int| 0 <= p < ls2.len() && 0 <= q < ls2[p].len() implies #[trigger] ls2[p][q] != '\n' by {
                        if p != j {
                            assert(ls2[p] == ls[p]);
                        }
                    }
                },
                None => {
                    assert(ls2 == ls.insert(end, a));
                    assert forall|p: int, q: int| 0 <= p < ls2.len() && 0 <= q < ls2[p].len() implies #[trigger] ls2[p][q] != '\n' by {
                        if p < end {
                            assert(ls2[p] == ls[p]);
                        } else if p > end {
                            assert(ls2[p] == ls[p - 1]);
                        }
                    }
                },
            }
            lemma_get_key_joined(ls2, section, key);
        },
        None => {
            let n = ls.len() as int;
            let nh = seq!['\n'] + h + seq!['\n'];
            let ls1 = ls.push(nh);
            assert(spec_find_section(ls, section) is None);
            assert(spec_section_end(ls1, n + 1) == n + 1);
            assert(spec_find_key(ls1, key, n + 1, n + 1) is None);
            let ls2 = spec_set_key(ls, section, key, value);
            assert(ls2 == ls1.insert(n + 1, a));
            assert(ls2 =~= ls.push(nh).push(a));
            let e: Seq<char> = seq![];
            let ls3 = ls.push(e).push(h).push(e).push(a);
            // the same text
            let j3 = text::join(ls3, text::nl());
            let j2 = text::join(ls2, text::nl());
            assert(ls3.drop_last() =~= ls.push(e).push(h).push(e));
            assert(ls3.drop_last().drop_last() =~= ls.push(e).push(h));
            assert(ls3.drop_last().drop_last().drop_last() =~= ls.push(e));
            assert(ls2.drop_last() =~= ls.push(nh));
            let nl = text::nl();
            let pe = text::join(ls.push(e), nl);
            let pn = text::join(ls.push(nh), nl);
            if n == 0 {
                assert(ls.push(e) =~= seq![e]);
                assert(ls.push(nh) =~= seq![nh]);
                assert(pe == e);
                assert(pn == nh);
            } else {
                assert(ls.push(e).drop_last() =~= ls);
                assert(ls.push(nh).drop_last() =~= ls);
                assert(pe == text::join(ls, nl) + nl + e);
                assert(pn == text::join(ls, nl) + nl + nh);
            }
            assert(text::join(ls.push(e).push(h), nl) == pe + nl + h);
            assert(text::join(ls.push(e).push(h).push(e), nl) == pe + nl + h + nl + e);
            assert(j3 == pe + nl + h + nl + e + nl + a);
            assert(j2 == pn + nl + a);
            assert(j2 =~= j3);
            // the lines read back
            assert forall|p: int, q: int| 0 <= p < ls3.len() && 0 <= q < ls3[p].len() implies #[trigger] ls3[p][q] != '\n' by {
                if p < n {
                    assert(ls3[p] == ls[p]);
                } else if p == n + 1 {
                    assert(ls3[p] == h);
                    if 0 < q < h.len() - 1 {
                        assert(h[q] == section[q - 1]);
                    }
                } else if p == n + 3 {
                    assert(ls3[p] == a);
                }
            }
            lemma_get_key_joined(ls3, section, key);
            // read on ls3: the section line is n + 1, then a blank line, then the assignment
            assert(h[0] == '[' && h.last() == ']');
            text::lemma_trim_plain(h);
            assert(text::trim(e) =~= e);
            assert forall|m: int| 0 <= m < n + 1 implies text::trim(#[trigger] ls3[m]) != h by {
                if m < n {
                    assert(ls3[m] == ls[m]);
                } else {
                    assert(ls3[m] == e);
                }
            }
            lemma_find_section_at(ls3, section, 0, n + 1);
            assert(forall|i: int| 0 <= i < e.len() ==> #[trigger] e[i] == ' ');
            lemma_assignment_trim(e, key, value);
            assert(e + a =~= a);
            assert(!spec_is_header_line(ls3[n + 2])) by {
                assert(ls3[n + 2] == e);
            }
            assert(!text::starts_with(text::trim(ls3[n + 2]), key + seq!['=']));
            assert(ls3[n + 3] == a);
            lemma_scan_key_at(ls3, key, n + 2, n + 3);
        },
    }
}

/// A key of one plain word: not empty, not starting with `[`, and without
/// white space or `=`.
pub open spec fn plain_key(k: Seq<char>) -> bool {
    k.len() > 0 && k[0] != '[' && forall|x: int| 0 <= x < k.len() ==> !text::is_ws(#[trigger] k[x]) && k[x] != '='
}

/// A line that assigns `k2` does not read as an assignment of another plain
/// key `k1`.
proof fn lemma_other_key(t: Seq<char>, k1: Seq<char>, k2: Seq<char>)
    requires
        plain_key(k1),
        plain_key(k2),
        k1 != k2,
        text::starts_with(t, k2 + seq!['=']) || text::starts_with(t, k2 + seq![' ']),
    ensures
        !text::starts_with(t, k1 + seq!['=']),
{
    if text::starts_with(t, k1 + seq!['=']) {
        let n1 = k1.len() as int;
        let n2 = k2.len() as int;
        if n1 == n2 {
            assert forall|x: int| 0 <= x < n1 implies k1[x] == k2[x] by {
                assert(t.take(n1 + 1)[x] == t[x]);
                assert(t.take(n2 + 1)[x] == t[x]);
            }
            assert(k1 =~= k2);
        } else if n1 < n2 {
            assert(t.take(n1 + 1)[n1] == t[n1]);
            assert(t.take(n2 + 1)[n1] == t[n1]);
            assert(k2[n1] == '=');
        } else {
            assert(t.take(n1 + 1)[n2] == t[n2]);
            assert(t.take(n2 + 1)[n2] == t[n2]);
            assert(k1[n2] == '=' || k1[n2] == ' ');
            assert(text::is_ws(' '));
        }
    }
}

/// The key scan over lines that differ only where neither has a section
/// header nor an assignment of the key.
proof fn lemma_scan_same(a: Seq<Seq<char>>, b: Seq<Seq<char>>, key: Seq<char>, j: int)
    requires
        0 <= j,
        a.len() == b.len(),
        forall|m: int| j <= m < a.len() && a[m] != b[m] ==> !spec_is_header_line(#[trigger] a[m])
            && !spec_is_header_line(b[m]) && !text::starts_with(text::trim(a[m]), key + seq!['='])
            && !text::starts_with(text::trim(b[m]), key + seq!['=']),
    ensures
        spec_scan_key(a, key, j) == spec_scan_key(b, key, j),
    decreases a.len() - j,
{
    if j < a.len() {
        lemma_scan_same(a, b, key, j + 1);
    }
}

/// The key scan past a line added at `p` that is neither a header nor an
/// assignment of the key.
proof fn lemma_scan_inserted(ls: Seq<Seq<char>>, line: Seq<char>, key: Seq<char>, p: int, j: int)
    requires
        0 <= j <= p <= ls.len(),
        !spec_is_header_line(line),
        !text::starts_with(text::trim(line), key + seq!['=']),
    ensures
        spec_scan_key(ls.insert(p, line), key, j) == spec_scan_key(ls, key, j),
    decreases ls.len() + 1 - j,
{
    let l2 = ls.insert(p, line);
    if j < p {
        assert(l2[j] == ls[j]);
        lemma_scan_inserted(ls, line, key, p, j + 1);
    } else {
        assert(l2[p] == line);
        lemma_scan_shifted(ls, line, key, p, p);
    }
}

proof fn lemma_scan_shifted(ls: Seq<Seq<char>>, line: Seq<char>, key: Seq<char>, p: int, m: int)
    requires
        0 <= p <= m <= ls.len(),
    ensures
        spec_scan_key(ls.insert(p, line), key, m + 1) == spec_scan_key(ls, key, m),
    decreases ls.len() - m,
{
    if m < ls.len() {
        assert(ls.insert(p, line)[m + 1] == ls[m]);
        lemma_scan_shifted(ls, line, key, p, m + 1);
    }
}

/// Setting one plain key of a section that exists keeps the section, keeps
/// what another plain key reads, and adds no line break.
pub(crate) proof fn lemma_set_other_key(ls: Seq<Seq<char>>, section: Seq<char>, k1: Seq<char>, k2: Seq<char>, v2: Seq<char>)
    requires
        spec_find_section(ls, section) is Some,
        plain_key(k1),
        plain_key(k2),
        k1 != k2,
        forall|a: int, b: int| 0 <= a < ls.len() && 0 <= b < ls[a].len() ==> #[trigger] ls[a][b] != '\n',
        forall|x: int| 0 <= x < k2.len() ==> #[trigger] k2[x] != '\n',
        forall|x: int| 0 <= x < v2.len() ==> #[trigger] v2[x] != '\n',
    ensures
        spec_find_section(spec_set_key(ls, section, k2, v2), section) == spec_find_section(ls, section),
        spec_get_key(spec_set_key(ls, section, k2, v2), section, k1) == spec_get_key(ls, section, k1),
        forall|a: int, b: int| 0 <= a < spec_set_key(ls, section, k2, v2).len() && 0 <= b < spec_set_key(
            ls,
            section,
            k2,
            v2,
        )[a].len() ==> #[trigger] spec_set_key(ls, section, k2, v2)[a][b] != '\n',
{
    let idx = spec_find_section(ls, section).unwrap();
    lemma_find_section_from(ls, section, 0);
    let end = spec_section_end(ls, idx + 1);
    lemma_section_end(ls, idx + 1);
    lemma_find_key(ls, k2, idx + 1, end);
    let ls2 = spec_set_key(ls, section, k2, v2);
    let a = spec_assignment(k2, v2);
    assert(k2[0] != '[' && !text::is_ws(k2[0]));
    match spec_find_key(ls, k2, idx + 1, end) {
        Some(j) => {
            let bl = text::leading_blanks(ls[j]);
            text::lemma_leading_blanks(ls[j]);
            let line = bl + a;
            assert(ls2 == ls.update(j, line));
            lemma_assignment_trim(bl, k2, v2);
            assert(text::starts_with(text::trim(line), k2 + seq!['=']));
            lemma_other_key(text::trim(line), k1, k2);
            lemma_other_key(text::trim(ls[j]), k1, k2);
            lemma_scan_same(ls2, ls, k1, idx + 1);
            assert forall|m: int| 0 <= m <= idx implies text::trim(#[trigger] ls2[m]) == text::trim(ls[m]) by {
                assert(ls2[m] == ls[m]);
            }
            lemma_find_section_at(ls2, section, 0, idx);
            assert forall|x: int| 0 <= x < line.len() implies #[trigger] line[x] != '\n' by {
                if x >= bl.len() {
                    assert(line[x] == a[x - bl.len()]);
                    if x - bl.len() < k2.len() {
                        assert(a[x - bl.len()] == k2[x - bl.len()]);
                    } else if x - bl.len() > k2.len() {
                        assert(a[x - bl.len()] == v2[x - bl.len() - k2.len() - 1]);
                    }
                }
            }
            assert forall|p: int, q: int| 0 <= p < ls2.len() && 0 <= q < ls2[p].len() implies #[trigger] ls2[p][q] != '\n' by {
                if p != j {
                    assert(ls2[p] == ls[p]);
                }
            }
        },
        None => {
            assert(ls2 == ls.insert(end, a));
            assert(forall|i: int| 0 <= i < Seq::<char>::empty().len() ==> #[trigger] Seq::<char>::empty()[i] == ' ');
            lemma_assignment_trim(Seq::<char>::empty(), k2, v2);
            assert(Seq::<char>::empty() + a =~= a);
            lemma_other_key(text::trim(a), k1, k2);
            lemma_scan_inserted(ls, a, k1, end, idx + 1);
            assert forall|m: int| 0 <= m <= idx implies text::trim(#[trigger] ls2[m]) == text::trim(ls[m]) by {
                assert(ls2[m] == ls[m]);
            }
            lemma_find_section_at(ls2, section, 0, idx);
            assert forall|p: int, q: int| 0 <= p < ls2.len() && 0 <= q < ls2[p].len() implies #[trigger] ls2[p][q] != '\n' by {
                if p < end {
                    assert(ls2[p] == ls[p]);
                } else if p > end {
                    assert(ls2[p] == ls[p - 1]);
                } else {
                    assert(ls2[p] == a);
                    if q < k2.len() {
                        assert(a[q] == k2[q]);
                    } else if q > k2.len() {
                        assert(a[q] == v2[q - k2.len() - 1]);
                    }
                }
            }
        },
    }
}

// ---------------------------------------------------------------- a section's body

/// `set_key` on the lines that follow a section's header: the first line of
/// the section that assigns `key` replaced, else the assignment added at the
/// section's end.
pub open spec fn set_in_body(b: Seq<Seq<char>>, key: Seq<char>, value: Seq<char>) -> Seq<Seq<char>> {
    let end = spec_section_end(b, 0);
    match spec_find_key(b, key, 0, end) {
        Some(j) => b.update(j, text::leading_blanks(b[j]) + spec_assignment(key, value)),
        None => b.insert(end, spec_assignment(key, value)),
    }
}

proof fn lemma_end_shift(a: Seq<Seq<char>>, b: Seq<Seq<char>>, i: int)
    requires
        0 <= i <= b.len(),
    ensures
        spec_section_end(a + b, a.len() + i) == a.len() + spec_section_end(b, i),
    decreases b.len() - i,
{
    if i < b.len() {
        assert((a + b)[a.len() + i] == b[i]);
        lemma_end_shift(a, b, i + 1);
    }
}

proof fn lemma_find_key_shift(a: Seq<Seq<char>>, b: Seq<Seq<char>>, key: Seq<char>, i: int, e: int)
    requires
        0 <= i,
        e <= b.len(),
    ensures
        spec_find_key(a + b, key, a.len() + i, a.len() + e) == match spec_find_key(b, key, i, e) {
            Some(j) => Some(a.len() + j),
            None => None::<int>,
        },
    decreases e - i,
{
    if i < e {
        assert((a + b)[a.len() + i] == b[i]);
        lemma_find_key_shift(a, b, key, i + 1, e);
    }
}

/// Setting a key of the section whose header ends `a` edits `b` alone.
pub(crate) proof fn lemma_set_under_header(a: Seq<Seq<char>>, b: Seq<Seq<char>>, section: Seq<char>, key: Seq<char>, value: Seq<char>)
    requires
        a.len() > 0,
        spec_find_section(a + b, section) == Some(a.len() - 1),
    ensures
        spec_set_key(a + b, section, key, value) == a + set_in_body(b, key, value),
{
    let ls = a + b;
    let n = a.len() as int;
    lemma_end_shift(a, b, 0);
    lemma_section_end(b, 0);
    let eb = spec_section_end(b, 0);
    lemma_find_key_shift(a, b, key, 0, eb);
    assert(spec_section_end(ls, n) == n + eb);
    match spec_find_key(b, key, 0, eb) {
        Some(j) => {
            lemma_find_key(b, key, 0, eb);
            assert(ls[n + j] == b[j]);
            assert(ls.update(n + j, text::leading_blanks(b[j]) + spec_assignment(key, value)) =~= a + b.update(
                j,
                text::leading_blanks(b[j]) + spec_assignment(key, value),
            ));
        },
        None => {
            assert(ls.insert(n + eb, spec_assignment(key, value)) =~= a + b.insert(eb, spec_assignment(key, value)));
        },
    }
}

/// `set_in_body` when a value is given.
pub open spec fn body_opt(b: Seq<Seq<char>>, key: Seq<char>, value: Option<Seq<char>>) -> Seq<Seq<char>> {
    match value {
        Some(v) => set_in_body(b, key, v),
        None => b,
    }
}

/// The lines of a file whose section was missing, with the header added as
/// `set_key` adds it (one element holding line breaks).
pub open spec fn with_header(ls: Seq<Seq<char>>, section: Seq<char>) -> Seq<Seq<char>> {
    ls.push(seq!['\n'] + spec_header(section) + seq!['\n'])
}

/// The same lines as they read back: a blank line, then the header.
pub open spec fn with_header_lines(ls: Seq<Seq<char>>, section: Seq<char>) -> Seq<Seq<char>> {
    ls + seq![seq![], spec_header(section)]
}

pub(crate) proof fn lemma_header_trim(section: Seq<char>)
    ensures
        text::trim(seq!['\n'] + spec_header(section) + seq!['\n']) == spec_header(section),
        text::trim(spec_header(section)) == spec_header(section),
{
    let h = spec_header(section);
    let newline = seq!['\n'] + h + seq!['\n'];
    assert(h[0] == '[');
    assert(forall|i: int| 0 <= i < seq!['\n'].len() ==> text::is_ws(#[trigger] seq!['\n'][i]));
    assert(newline =~= seq!['\n'] + (h + seq!['\n']));
    text::lemma_trim_start_after_ws(seq!['\n'], h + seq!['\n']);
    assert(h.last() == ']');
    text::lemma_trim_end_concat(h, seq!['\n']);
    assert(text::trim_end(seq!['\n']) =~= Seq::<char>::empty()) by {
        assert(seq!['\n'].drop_last() =~= Seq::<char>::empty());
        assert(text::is_ws(seq!['\n'].last()));
        assert(text::trim_end(Seq::<char>::empty()) =~= Seq::<char>::empty());
    }
    assert(h + Seq::<char>::empty() =~= h);
    text::lemma_trim_plain(h);
}

/// In a file without the section, the added header is where the section is
/// found, whatever follows it.
pub(crate) proof fn lemma_found_added_header(ls: Seq<Seq<char>>, section: Seq<char>, b: Seq<Seq<char>>)
    requires
        spec_find_section(ls, section) is None,
    ensures
        spec_find_section(with_header(ls, section) + b, section) == Some(ls.len() as int),
        spec_find_section(with_header_lines(ls, section) + (seq![seq![]] + b), section) == Some(ls.len() + 1int),
{
    let n = ls.len() as int;
    let h = spec_header(section);
    lemma_find_section_from(ls, section, 0);
    lemma_header_trim(section);
    let x = with_header(ls, section) + b;
    let y = with_header_lines(ls, section) + (seq![seq![]] + b);
    assert forall|m: int| 0 <= m < n implies text::trim(#[trigger] x[m]) != h by {
        assert(x[m] == ls[m]);
    }
    assert(x[n] == seq!['\n'] + h + seq!['\n']);
    lemma_find_section_at(x, section, 0, n);
    let e: Seq<char> = seq![];
    assert(text::trim(e) =~= e);
    assert forall|m: int| 0 <= m < n + 1 implies text::trim(#[trigger] y[m]) != h by {
        if m < n {
            assert(y[m] == ls[m]);
        } else {
            assert(y[m] == e);
        }
    }
    assert(y[n + 1] == h);
    lemma_find_section_at(y, section, 0, n + 1);
}

/// A blank line first in a section's body changes nothing of what is set.
pub(crate) proof fn lemma_body_blank_front(b: Seq<Seq<char>>, key: Seq<char>, value: Seq<char>)
    requires
        key.len() > 0,
    ensures
        set_in_body(seq![seq![]] + b, key, value) == seq![seq![]] + set_in_body(b, key, value),
{
    let e: Seq<char> = seq![];
    let a = seq![e];
    let x = a + b;
    assert(text::trim(e) =~= e);
    assert(x[0] == e);
    assert(!spec_is_header_line(e));
    assert(!spec_key_matches(e, key));
    lemma_end_shift(a, b, 0);
    assert(spec_section_end(x, 0) == spec_section_end(x, 1));
    lemma_section_end(b, 0);
    let eb = spec_section_end(b, 0);
    lemma_find_key_shift(a, b, key, 0, eb);
    assert(spec_find_key(x, key, 0, 1 + eb) == spec_find_key(x, key, 1, 1 + eb));
    lemma_find_key(b, key, 0, eb);
    match spec_find_key(b, key, 0, eb) {
        Some(j) => {
            assert(x[1 + j] == b[j]);
            assert(x.update(1 + j, text::leading_blanks(b[j]) + spec_assignment(key, value)) =~= a + b.update(
                j,
                text::leading_blanks(b[j]) + spec_assignment(key, value),
            ));
        },
        None => {
            assert(x.insert(1 + eb, spec_assignment(key, value)) =~= a + b.insert(eb, spec_assignment(key, value)));
        },
    }
}

/// The file with the header added, and the lines it reads back as, are
/// the same text whatever follows.
pub(crate) proof fn lemma_header_join(ls: Seq<Seq<char>>, section: Seq<char>, b: Seq<Seq<char>>)
    requires
        b.len() > 0,
    ensures
        text::join(with_header(ls, section) + b, text::nl()) == text::join(
            with_header_lines(ls, section) + (seq![seq![]] + b),
            text::nl(),
        ),
{
    let nl = text::nl();
    let h = spec_header(section);
    let e: Seq<char> = seq![];
    let x = with_header(ls, section);
    let y = with_header_lines(ls, section) + seq![e];
    text::lemma_join_concat(x, b, nl);
    text::lemma_join_concat(y, b, nl);
    assert(with_header_lines(ls, section) + (seq![e] + b) =~= y + b);
    let n = ls.len();
    assert(y.drop_last() =~= ls.push(e).push(h));
    assert(y.drop_last().drop_last() =~= ls.push(e));
    let pe = text::join(ls.push(e), nl);
    let pn = text::join(ls.push(seq!['\n'] + h + seq!['\n']), nl);
    if n == 0 {
        assert(ls.push(e) =~= seq![e]);
        assert(ls.push(seq!['\n'] + h + seq!['\n']) =~= seq![seq!['\n'] + h + seq!['\n']]);
        assert(pe == e);
        assert(pn == seq!['\n'] + h + seq!['\n']);
    } else {
        assert(ls.push(e).drop_last() =~= ls);
        assert(ls.push(seq!['\n'] + h + seq!['\n']).drop_last() =~= ls);
        assert(pe == text::join(ls, nl) + nl + e);
        assert(pn == text::join(ls, nl) + nl + (seq!['\n'] + h + seq!['\n']));
    }
    assert(text::join(ls.push(e).push(h), nl) == pe + nl + h);
    assert(text::join(y, nl) == pe + nl + h + nl + e);
    assert(text::join(x, nl) =~= text::join(y, nl));
}

// ---------------------------------------------------------------- exec

fn is_header_line(l: &Vec<char>) -> (r: bool)
    ensures
        r == spec_is_header_line(l@),
{
    let t = text::trimmed(l);
    let mut open: Vec<char> = Vec::new();
    open.push('[');
    let mut close: Vec<char> = Vec::new();
    close.push(']');
    assert(open@ == seq!['[']);
    assert(close@ == seq![']']);
    text::has_prefix(&t, &open) && text::has_suffix(&t, &close)
}

fn header(section: &Vec<char>) -> (r: Vec<char>)
    ensures
        r@ == spec_header(section@),
{
    let mut r: Vec<char> = Vec::new();
    r.push('[');
    text::append(&mut r, section);
    r.push(']');
    assert(r@ =~= spec_header(section@));
    r
}

/// Index of the line `[section]`.
pub fn find_section(ls: &Vec<Vec<char>>, section: &Vec<char>) -> (r: Option<usize>)
    ensures
        match r {
            Some(i) => spec_find_section(text::views(ls@), section@) == Some(i as int) && i < ls.len(),
            None => spec_find_section(text::views(ls@), section@) is None,
        },
{
    let h = header(section);
    let ghost v = text::views(ls@);
    let mut i: usize = 0;
    while i < ls.len()
        invariant
            i <= ls.len(),
            v == text::views(ls@),
            h@ == spec_header(section@),
            spec_find_section(v, section@) == spec_find_section_from(v, section@, i as int),
        decreases ls.len() - i,
    {
        let t = text::trimmed(&ls[i]);
        if text::same(&t, &h) {
            return Some(i);
        }
        i += 1;
    }
    None
}

fn section_end(ls: &Vec<Vec<char>>, j: usize) -> (r: usize)
    ensures
        r as int == spec_section_end(text::views(ls@), j as int),
        j <= ls.len() ==> j <= r <= ls.len(),
{
    let ghost v = text::views(ls@);
    let mut k: usize = j;
    while k < ls.len()
        invariant
            j <= k,
            v == text::views(ls@),
            spec_section_end(v, j as int) == spec_section_end(v, k as int),
            j <= ls.len() ==> k <= ls.len(),
        decreases ls.len() - k,
    {
        if is_header_line(&ls[k]) {
            return k;
        }
        k += 1;
    }
    if j > ls.len() {
        return ls.len();
    }
    k
}

pub fn key_matches(l: &Vec<char>, key: &Vec<char>) -> (r: bool)
    ensures
        r == spec_key_matches(l@, key@),
{
    let t = text::trimmed(l);
    let mut ke = key.clone();
    ke.push('=');
    let mut ks = key.clone();
    ks.push(' ');
    assert(ke@ =~= key@ + seq!['=']);
    assert(ks@ =~= key@ + seq![' ']);
    text::has_prefix(&t, &ke) || text::has_prefix(&t, &ks)
}

fn assignment(key: &Vec<char>, value: &Vec<char>) -> (r: Vec<char>)
    ensures
        r@ == spec_assignment(key@, value@),
{
    let mut r = key.clone();
    r.push('=');
    text::append(&mut r, value);
    assert(r@ =~= spec_assignment(key@, value@));
    r
}

/// Sets `key=value` in `section` (see the spec function `set_key`).
pub fn set_key(input: Vec<Vec<char>>, section: &Vec<char>, key: &Vec<char>, value: &Vec<char>) -> (r: Vec<Vec<char>>)
    ensures
        text::views(r@) == spec_set_key(text::views(input@), section@, key@, value@),
{
    let ghost v0 = text::views(input@);
    let mut ls = input;
    let idx: usize = match find_section(&ls, section) {
        Some(i) => {
            assert(i < ls.len());
            i
        },
        None => {
            let mut l: Vec<char> = Vec::new();
            l.push('\n');
            let h = header(section);
            text::append(&mut l, &h);
            l.push('\n');
            assert(l@ =~= seq!['\n'] + spec_header(section@) + seq!['\n']);
            let n = ls.len();
            ls.push(l);
            assert(text::views(ls@) =~= v0.push(seq!['\n'] + spec_header(section@) + seq!['\n']));
            assert(n < ls.len());
            n
        },
    };
    let ghost v1 = text::views(ls@);
    let ghost spec_ls1 = match spec_find_section(v0, section@) {
        Some(i) => v0,
        None => v0.push(seq!['\n'] + spec_header(section@) + seq!['\n']),
    };
    let ghost spec_idx = match spec_find_section(v0, section@) {
        Some(i) => i,
        None => v0.len() as int,
    };
    assert(spec_ls1 == v1);
    assert(spec_idx == idx);
    let end = section_end(&ls, idx + 1);
    let mut j: usize = idx + 1;
    let ghost result = spec_set_key(v0, section@, key@, value@);
    assert(result == match spec_find_key(v1, key@, idx + 1, end as int) {
        Some(jj) => v1.update(jj, text::leading_blanks(v1[jj]) + spec_assignment(key@, value@)),
        None => v1.insert(end as int, spec_assignment(key@, value@)),
    });
    while j < end
        invariant
            result == match spec_find_key(v1, key@, idx + 1, end as int) {
                Some(jj) => v1.update(jj, text::leading_blanks(v1[jj]) + spec_assignment(key@, value@)),
                None => v1.insert(end as int, spec_assignment(key@, value@)),
            },
            result == spec_set_key(v0, section@, key@, value@),
            v0 == text::views(input@),
            idx + 1 <= j <= end <= ls.len(),
            v1 == text::views(ls@),
            spec_find_key(v1, key@, idx + 1, end as int) == spec_find_key(v1, key@, j as int, end as int),
        decreases end - j,
    {
        if key_matches(&ls[j], key) {
            let b = text::blanks_of(&ls[j]);
            let a = assignment(key, value);
            let mut line = b;
            text::append(&mut line, &a);
            assert(spec_find_key(v1, key@, idx + 1, end as int) == Some(j as int));
            ls.set(j, line);
            assert(text::views(ls@) =~= v1.update(j as int, text::leading_blanks(v1[j as int]) + spec_assignment(key@, value@)));

            return ls;
        }
        j += 1;
    }
    let a = assignment(key, value);
    ls.insert(end, a);
    assert(text::views(ls@) =~= v1.insert(end as int, spec_assignment(key@, value@)));
    ls
}

/// The value of `key` in `section` (see the spec function `get_key`).
pub fn get_key(ls: &Vec<Vec<char>>, section: &Vec<char>, key: &Vec<char>) -> (r: Option<Vec<char>>)
    ensures
        match r {
            Some(v) => spec_get_key(text::views(ls@), section@, key@) == Some(v@),
            None => spec_get_key(text::views(ls@), section@, key@) is None,
        },
{
    let ghost v = text::views(ls@);
    let idx = match find_section(ls, section) {
        Some(i) => i,
        None => return None,
    };
    let mut ke = key.clone();
    ke.push('=');
    assert(ke@ =~= key@ + seq!['=']);
    let mut j: usize = idx + 1;
    while j < ls.len()
        invariant
            idx < j,
            v == text::views(ls@),
            ke@ == key@ + seq!['='],
            spec_get_key(v, section@, key@) == spec_scan_key(v, key@, j as int),
        decreases ls.len() - j,
    {
        if is_header_line(&ls[j]) {
            return None;
        }
        let t = text::trimmed(&ls[j]);
        if text::has_prefix(&t, &ke) {
            let rest = text::slice(&t, ke.len(), t.len());
            assert(rest@ =~= t@.skip(key@.len() + 1 as int));
            return Some(text::trimmed(&rest));
        }
        j += 1;
    }
    None
}

/// The value of `key` in `section` of the file `content`, or `default`.
pub fn value_or(content: &str, section: &str, key: &str, default: &str) -> (r: String)
    ensures
        r@ == spec_get_or(text::lines(content@), section@, key@, default@),
{
    let ls = text::lines_of(content);
    let s = text::chars_of(section);
    let k = text::chars_of(key);
    match get_key(&ls, &s, &k) {
        Some(v) => text::string_of(&v),
        None => default.to_owned(),
    }
}

/// The integer value of `key`, or `default`.
pub fn int_or(content: &str, section: &str, key: &str, default: i64) -> (r: i64)
    ensures
        r as int == spec_get_int(text::lines(content@), section@, key@, default as int),
{
    let ls = text::lines_of(content);
    let s = text::chars_of(section);
    let k = text::chars_of(key);
    match get_key(&ls, &s, &k) {
        Some(v) => match num::parse_i64(&v) {
            Some(n) => n,
            None => default,
        },
        None => default,
    }
}

/// The boolean value of `key`, or `default`.
pub fn bool_or(content: &str, section: &str, key: &str, default: bool) -> (r: bool)
    ensures
        r == spec_get_bool(text::lines(content@), section@, key@, default),
{
    let ls = text::lines_of(content);
    let s = text::chars_of(section);
    let k = text::chars_of(key);
    match get_key(&ls, &s, &k) {
        Some(v) => {
            let w = text::to_ascii_lower(&text::trimmed(&v));
            let t = text::chars_of("true");
            let y = text::chars_of("yes");
            let one = text::chars_of("1");
            let on = text::chars_of("on");
            text::same(&w, &t) || text::same(&w, &y) || text::same(&w, &one) || text::same(&w, &on)
        },
        None => default,
    }
}

/// `set_key` with string arguments.
pub fn assign(ls: Vec<Vec<char>>, section: &str, key: &str, value: &str) -> (r: Vec<Vec<char>>)
    ensures
        text::views(r@) == spec_set_key(text::views(ls@), section@, key@, value@),
{
    let s = text::chars_of(section);
    let k = text::chars_of(key);
    let v = text::chars_of(value);
    set_key(ls, &s, &k, &v)
}

/// `set_opt` with string arguments.
pub fn assign_opt(ls: Vec<Vec<char>>, section: &str, key: &str, value: Option<&str>) -> (r: Vec<Vec<char>>)
    ensures
        text::views(r@) == set_opt(text::views(ls@), section@, key@, text::opt_view(value)),
{
    match value {
        Some(v) => assign(ls, section, key, v),
        None => ls,
    }
}

/// `set_opt` with the decimal form of an optional integer.
pub fn assign_opt_int(ls: Vec<Vec<char>>, section: &str, key: &str, value: Option<i64>) -> (r: Vec<Vec<char>>)
    ensures
        text::views(r@) == set_opt(text::views(ls@), section@, key@, opt_dec(value)),
{
    match value {
        Some(n) => {
            let s = text::chars_of(section);
            let k = text::chars_of(key);
            let v = num::i64_to_chars(n);
            set_key(ls, &s, &k, &v)
        },
        None => ls,
    }
}

/// `set_opt` with the word of an optional boolean.
pub fn assign_opt_bool(ls: Vec<Vec<char>>, section: &str, key: &str, value: Option<bool>) -> (r: Vec<Vec<char>>)
    ensures
        text::views(r@) == set_opt(text::views(ls@), section@, key@, opt_bool(value)),
{
    match value {
        Some(b) => {
            let w = if b { "true" } else { "false" };
            assign(ls, section, key, w)
        },
        None => ls,
    }
}

} // verus!
