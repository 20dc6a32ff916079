//! The desktop settings (`~/.config/churros/settings.json`): a JSON document
//! read and written by dotted keys (`"theme.dark"`). The document is held as
//! the library's own `Json`; reading and writing the file stays outside.
use vstd::prelude::*;
use crate::text;

verus! {

// ---------------------------------------------------------------- model

/// A JSON value as the model sees it (numbers by their text).
pub enum JsonV {
    Null,
    Bool(bool),
    Num(Seq<char>),
    Str(Seq<char>),
    Arr(Seq<JsonV>),
    Obj(Seq<(Seq<char>, JsonV)>),
}

/// The value of the first member named `k`.
pub open spec fn lookup(m: Seq<(Seq<char>, JsonV)>, k: Seq<char>) -> Option<JsonV>
    decreases m.len(),
{
    if m.len() == 0 {
        None
    } else if m[0].0 == k {
        Some(m[0].1)
    } else {
        lookup(m.drop_first(), k)
    }
}

/// Index of the first member named `k`, or the length.
pub open spec fn member_index(m: Seq<(Seq<char>, JsonV)>, k: Seq<char>) -> nat
    decreases m.len(),
{
    if m.len() == 0 {
        0
    } else if m[0].0 == k {
        0
    } else {
        1 + member_index(m.drop_first(), k)
    }
}

/// The members with `k` set to `v`: the member replaced in place, or added.
pub open spec fn obj_insert(m: Seq<(Seq<char>, JsonV)>, k: Seq<char>, v: JsonV) -> Seq<(Seq<char>, JsonV)> {
    let i = member_index(m, k);
    if i < m.len() {
        m.update(i as int, (k, v))
    } else {
        m.push((k, v))
    }
}

/// The parts of a dotted key (`str::split('.')`).
pub open spec fn split_key(key: Seq<char>) -> Seq<Seq<char>>
    decreases key.len(),
{
    let i = text::index_of(key, '.');
    if i >= key.len() {
        seq![key]
    } else {
        proof {
            text::lemma_index_of_bound(key, '.');
        }
        seq![key.take(i as int)] + split_key(key.skip(i + 1 as int))
    }
}

/// The value at `parts`, through objects.
pub open spec fn get_path(v: JsonV, parts: Seq<Seq<char>>) -> Option<JsonV>
    decreases parts.len(),
{
    if parts.len() == 0 {
        Some(v)
    } else {
        match v {
            JsonV::Obj(m) => match lookup(m, parts[0]) {
                Some(c) => get_path(c, parts.drop_first()),
                None => None,
            },
            _ => None,
        }
    }
}

/// The members with the value at `parts` set; missing objects on the way are
/// created, and values on the way that are not objects are replaced by one.
pub open spec fn set_in(m: Seq<(Seq<char>, JsonV)>, parts: Seq<Seq<char>>, value: JsonV) -> Seq<(Seq<char>, JsonV)>
    decreases parts.len(),
{
    if parts.len() <= 1 {
        obj_insert(m, if parts.len() == 1 { parts[0] } else { seq![] }, value)
    } else {
        let child = match lookup(m, parts[0]) {
            Some(JsonV::Obj(cm)) => cm,
            _ => seq![],
        };
        obj_insert(m, parts[0], JsonV::Obj(set_in(child, parts.drop_first(), value)))
    }
}

/// `get(key, default)`: the value at the dotted key, or `default`.
pub open spec fn spec_get(data: JsonV, key: Seq<char>, default: JsonV) -> JsonV {
    match get_path(data, split_key(key)) {
        Some(x) => x,
        None => default,
    }
}

/// `get_string`: a string as it is, a boolean or a number as its text,
/// anything else (or nothing) the default.
pub open spec fn spec_get_string(data: JsonV, key: Seq<char>, default: Seq<char>) -> Seq<char> {
    match spec_get(data, key, JsonV::Str(default)) {
        JsonV::Str(s) => s,
        JsonV::Bool(b) => if b { "true"@ } else { "false"@ },
        JsonV::Num(n) => n,
        _ => default,
    }
}

/// `get_bool`: a boolean as it is, a string `1` or `true` (in any ASCII case)
/// as true and any other string as false, anything else the default.
pub open spec fn spec_get_bool(data: JsonV, key: Seq<char>, default: bool) -> bool {
    match spec_get(data, key, JsonV::Bool(default)) {
        JsonV::Bool(b) => b,
        JsonV::Str(s) => s == "1"@ || text::ascii_lower(s) == "true"@,
        _ => default,
    }
}

/// `set(key, value)`: the document with the value at the dotted key (a
/// document that is not an object is left as it is).
pub open spec fn spec_set(data: JsonV, key: Seq<char>, value: JsonV) -> JsonV {
    match data {
        JsonV::Obj(m) => JsonV::Obj(set_in(m, split_key(key), value)),
        _ => data,
    }
}

// ---------------------------------------------------------------- laws

pub proof fn lemma_member_index(m: Seq<(Seq<char>, JsonV)>, k: Seq<char>)
    ensures
        member_index(m, k) <= m.len(),
        member_index(m, k) < m.len() ==> m[member_index(m, k) as int].0 == k && lookup(m, k) == Some(m[member_index(m, k) as int].1),
        member_index(m, k) == m.len() ==> lookup(m, k) is None,
        forall|j: int| 0 <= j < member_index(m, k) ==> m[j].0 != k,
    decreases m.len(),
{
    if m.len() > 0 && m[0].0 != k {
        lemma_member_index(m.drop_first(), k);
        assert forall|j: int| 0 <= j < member_index(m, k) implies m[j].0 != k by {
            if j > 0 {
                assert(m[j] == m.drop_first()[j - 1]);
            }
        }
    }
}

proof fn lemma_lookup_first(m: Seq<(Seq<char>, JsonV)>, k: Seq<char>, i: int)
    requires
        0 <= i < m.len(),
        m[i].0 == k,
        forall|j: int| 0 <= j < i ==> m[j].0 != k,
    ensures
        lookup(m, k) == Some(m[i].1),
    decreases m.len(),
{
    if i > 0 {
        assert forall|j: int| 0 <= j < i - 1 implies m.drop_first()[j].0 != k by {
            assert(m.drop_first()[j] == m[j + 1]);
        }
        lemma_lookup_first(m.drop_first(), k, i - 1);
    }
}

proof fn lemma_lookup_absent(m: Seq<(Seq<char>, JsonV)>, k: Seq<char>)
    requires
        forall|j: int| 0 <= j < m.len() ==> m[j].0 != k,
    ensures
        lookup(m, k) is None,
    decreases m.len(),
{
    if m.len() > 0 {
        assert forall|j: int| 0 <= j < m.len() - 1 implies m.drop_first()[j].0 != k by {
            assert(m.drop_first()[j] == m[j + 1]);
        }
        lemma_lookup_absent(m.drop_first(), k);
    }
}

/// Reading the member just set gives its value.
pub proof fn lemma_lookup_insert_same(m: Seq<(Seq<char>, JsonV)>, k: Seq<char>, v: JsonV)
    ensures
        lookup(obj_insert(m, k, v), k) == Some(v),
{
    lemma_member_index(m, k);
    let i = member_index(m, k);
    let m2 = obj_insert(m, k, v);
    if i < m.len() {
        lemma_lookup_first(m2, k, i as int);
    } else {
        lemma_lookup_first(m2, k, m.len() as int);
    }
}

/// Setting a member leaves the others as they were.
pub proof fn lemma_lookup_insert_other(m: Seq<(Seq<char>, JsonV)>, k: Seq<char>, v: JsonV, k2: Seq<char>)
    requires
        k2 != k,
    ensures
        lookup(obj_insert(m, k, v), k2) == lookup(m, k2),
{
    lemma_member_index(m, k);
    lemma_member_index(m, k2);
    let m2 = obj_insert(m, k, v);
    let j = member_index(m, k2);
    if j < m.len() {
        assert(m2[j as int].0 == k2);
        assert forall|x: int| 0 <= x < j implies m2[x].0 != k2 by {
            if x < m.len() {
                assert(m2[x].0 == k || m2[x] == m[x]);
            }
        }
        lemma_lookup_first(m2, k2, j as int);
    } else {
        assert forall|x: int| 0 <= x < m2.len() implies m2[x].0 != k2 by {
            if x < m.len() {
                assert(m2[x].0 == k || m2[x] == m[x]);
            }
        }
        lemma_lookup_absent(m2, k2);
    }
}

proof fn lemma_split_key_nonempty(key: Seq<char>)
    ensures
        split_key(key).len() >= 1,
    decreases key.len(),
{
    let i = text::index_of(key, '.');
    text::lemma_index_of_bound(key, '.');
    if i < key.len() {
        lemma_split_key_nonempty(key.skip(i + 1 as int));
    }
}

proof fn lemma_get_set_in(m: Seq<(Seq<char>, JsonV)>, parts: Seq<Seq<char>>, value: JsonV)
    requires
        parts.len() >= 1,
    ensures
        get_path(JsonV::Obj(set_in(m, parts, value)), parts) == Some(value),
    decreases parts.len(),
{
    if parts.len() == 1 {
        lemma_lookup_insert_same(m, parts[0], value);
        assert(set_in(m, parts, value) == obj_insert(m, parts[0], value));
        assert(parts.drop_first().len() == 0);
        assert(get_path(value, parts.drop_first()) == Some(value));
    } else {
        let child = match lookup(m, parts[0]) {
            Some(JsonV::Obj(cm)) => cm,
            _ => seq![],
        };
        let inner = set_in(child, parts.drop_first(), value);
        assert(set_in(m, parts, value) == obj_insert(m, parts[0], JsonV::Obj(inner)));
        lemma_lookup_insert_same(m, parts[0], JsonV::Obj(inner));
        lemma_get_set_in(child, parts.drop_first(), value);
        assert(get_path(JsonV::Obj(inner), parts.drop_first()) == Some(value));
    }
}

/// What a setting reads back is what was last written to it: after
/// `set(key, value)` on an object document, `get(key, default)` is `value`.
pub proof fn law_get_after_set(data: JsonV, key: Seq<char>, value: JsonV, default: JsonV)
    requires
        data is Obj,
    ensures
        spec_get(spec_set(data, key, value), key, default) == value,
{
    lemma_split_key_nonempty(key);
    match data {
        JsonV::Obj(m) => {
            lemma_get_set_in(m, split_key(key), value);
        },
        _ => {},
    }
}

/// A switch reads back: after storing a boolean, `get_bool` gives it.
pub proof fn law_get_bool_after_set(data: JsonV, key: Seq<char>, value: bool, default: bool)
    requires
        data is Obj,
    ensures
        spec_get_bool(spec_set(data, key, JsonV::Bool(value)), key, default) == value,
{
    law_get_after_set(data, key, JsonV::Bool(value), JsonV::Bool(default));
}

/// A text reads back: after storing a string, `get_string` gives it.
pub proof fn law_get_string_after_set(data: JsonV, key: Seq<char>, value: Seq<char>, default: Seq<char>)
    requires
        data is Obj,
    ensures
        spec_get_string(spec_set(data, key, JsonV::Str(value)), key, default) == value,
{
    law_get_after_set(data, key, JsonV::Str(value), JsonV::Str(default));
}

/// Writing a setting leaves the settings of the other top-level sections as
/// they were.
pub proof fn law_set_keeps_other_sections(data: JsonV, key: Seq<char>, value: JsonV, other: Seq<char>, default: JsonV)
    requires
        data is Obj,
        split_key(other)[0] != split_key(key)[0],
    ensures
        spec_get(spec_set(data, key, value), other, default) == spec_get(data, other, default),
{
    lemma_split_key_nonempty(key);
    lemma_split_key_nonempty(other);
    let p = split_key(key);
    let q = split_key(other);
    match data {
        JsonV::Obj(m) => {
            let m2 = set_in(m, p, value);
            if p.len() == 1 {
                lemma_lookup_insert_other(m, p[0], value, q[0]);
            } else {
                let child = match lookup(m, p[0]) {
                    Some(JsonV::Obj(cm)) => cm,
                    _ => seq![],
                };
                lemma_lookup_insert_other(m, p[0], JsonV::Obj(set_in(child, p.drop_first(), value)), q[0]);
            }
            assert(lookup(m2, q[0]) == lookup(m, q[0]));
        },
        _ => {},
    }
}

// ---------------------------------------------------------------- the document

/// A JSON value of the settings document (a number is held as its text).
#[derive(Debug)]
pub enum Json {
    Null,
    Bool(bool),
    Number(String),
    Str(String),
    Array(Vec<Json>),
    Object(Vec<(String, Json)>),
}

pub open spec fn jv(j: Json) -> JsonV
    decreases j,
{
    match j {
        Json::Null => JsonV::Null,
        Json::Bool(b) => JsonV::Bool(b),
        Json::Number(n) => JsonV::Num(n@),
        Json::Str(s) => JsonV::Str(s@),
        Json::Array(v) => JsonV::Arr(jv_seq(v@)),
        Json::Object(m) => JsonV::Obj(jv_members(m@)),
    }
}

pub open spec fn jv_seq(s: Seq<Json>) -> Seq<JsonV>
    decreases s,
{
    if s.len() == 0 {
        seq![]
    } else {
        jv_seq(s.drop_last()).push(jv(s.last()))
    }
}

pub open spec fn jv_members(m: Seq<(String, Json)>) -> Seq<(Seq<char>, JsonV)>
    decreases m,
{
    if m.len() == 0 {
        seq![]
    } else {
        jv_members(m.drop_last()).push((m.last().0@, jv(m.last().1)))
    }
}

impl View for Json {
    type V = JsonV;

    open spec fn view(&self) -> JsonV {
        jv(*self)
    }
}

pub proof fn lemma_jv_members(m: Seq<(String, Json)>)
    ensures
        jv_members(m).len() == m.len(),
        forall|i: int| 0 <= i < m.len() ==> #[trigger] jv_members(m)[i] == (m[i].0@, jv(m[i].1)),
    decreases m.len(),
{
    if m.len() > 0 {
        lemma_jv_members(m.drop_last());
        assert forall|i: int| 0 <= i < m.len() implies #[trigger] jv_members(m)[i] == (m[i].0@, jv(m[i].1)) by {
            if i < m.len() - 1 {
                assert(m.drop_last()[i] == m[i]);
            }
        }
    }
}

// ---------------------------------------------------------------- exec

fn split_key_of(key: &Vec<char>) -> (r: Vec<Vec<char>>)
    ensures
        text::views(r@) == split_key(key@),
        r.len() >= 1,
{
    let mut out: Vec<Vec<char>> = Vec::new();
    let mut start: usize = 0;
    let mut i: usize = 0;
    assert(key@.skip(0) =~= key@);
    assert(text::views(out@) + split_key(key@.skip(0)) =~= split_key(key@));
    while i < key.len()
        invariant
            start <= i <= key.len(),
            forall|k: int| start <= k < i ==> key@[k] != '.',
            split_key(key@) == text::views(out@) + split_key(key@.skip(start as int)),
        decreases key.len() - i,
    {
        if key[i] == '.' {
            let ghost rest = key@.skip(start as int);
            proof {
                text::lemma_index_of_char(rest, '.', i - start);
                assert(rest.take(i - start) =~= key@.subrange(start as int, i as int));
                assert(rest.skip(i - start + 1) =~= key@.skip(i + 1));
            }
            let seg = text::slice(key, start, i);
            let ghost o0 = text::views(out@);
            out.push(seg);
            assert(text::views(out@) =~= o0.push(key@.subrange(start as int, i as int)));
            assert(o0 + (seq![key@.subrange(start as int, i as int)] + split_key(key@.skip(i + 1))) =~= text::views(out@)
                + split_key(key@.skip(i + 1)));
            start = i + 1;
        }
        i += 1;
    }
    let ghost rest = key@.skip(start as int);
    proof {
        text::lemma_index_of_char(rest, '.', rest.len() as int);
    }
    let seg = text::slice(key, start, key.len());
    assert(seg@ =~= rest);
    let ghost o0 = text::views(out@);
    out.push(seg);
    assert(text::views(out@) =~= o0 + seq![rest]);
    out
}

pub fn member_of(m: &Vec<(String, Json)>, k: &Vec<char>) -> (r: usize)
    ensures
        r as int == member_index(jv_members(m@), k@),
        r <= m.len(),
{
    proof {
        lemma_jv_members(m@);
    }
    let ghost mv = jv_members(m@);
    let mut i: usize = 0;
    assert(mv.skip(0) =~= mv);
    while i < m.len()
        invariant
            i <= m.len(),
            mv == jv_members(m@),
            mv.len() == m.len(),
            forall|j: int| 0 <= j < m.len() ==> #[trigger] mv[j] == (m@[j].0@, jv(m@[j].1)),
            member_index(mv, k@) == i + member_index(mv.skip(i as int), k@),
        decreases m.len() - i,
    {
        let name = text::chars_of(m[i].0.as_str());
        assert(mv.skip(i as int)[0] == mv[i as int]);
        if text::same(&name, k) {
            return i;
        }
        assert(mv.skip(i as int).drop_first() =~= mv.skip(i + 1));
        i += 1;
    }
    assert(mv.skip(i as int).len() == 0);
    i
}

fn get_ref<'a>(data: &'a Json, parts: &Vec<Vec<char>>) -> (r: Option<&'a Json>)
    ensures
        get_path(jv(*data), text::views(parts@)) == match r {
            Some(x) => Some(jv(*x)),
            None => None::<JsonV>,
        },
{
    let ghost pv = text::views(parts@);
    let mut cur: &Json = data;
    let mut i: usize = 0;
    assert(pv.skip(0) =~= pv);
    while i < parts.len()
        invariant
            i <= parts.len(),
            pv == text::views(parts@),
            get_path(jv(*data), pv) == get_path(jv(*cur), pv.skip(i as int)),
        decreases parts.len() - i,
    {
        assert(pv.skip(i as int)[0] == parts@[i as int]@);
        assert(pv.skip(i as int).drop_first() =~= pv.skip(i + 1));
        match cur {
            Json::Object(m) => {
                let j = member_of(m, &parts[i]);
                proof {
                    lemma_member_index(jv_members(m@), parts@[i as int]@);
                    lemma_jv_members(m@);
                }
                if j < m.len() {
                    cur = &m[j].1;
                } else {
                    return None;
                }
            },
            _ => {
                return None;
            },
        }
        i += 1;
    }
    assert(pv.skip(i as int).len() == 0);
    Some(cur)
}

/// The value at the dotted key, or `default` (`settings::get`).
pub fn get(data: Json, key: &str, default: Json) -> (r: Json)
    ensures
        r@ == spec_get(data@, key@, default@),
{
    let parts = split_key_of(&text::chars_of(key));
    let ghost pv = text::views(parts@);
    let mut cur: Json = data;
    let mut i: usize = 0;
    assert(pv.skip(0) =~= pv);
    while i < parts.len()
        invariant
            i <= parts.len(),
            pv == text::views(parts@),
            pv == split_key(key@),
            get_path(data@, pv) == get_path(cur@, pv.skip(i as int)),
        decreases parts.len() - i,
    {
        assert(pv.skip(i as int)[0] == parts@[i as int]@);
        assert(pv.skip(i as int).drop_first() =~= pv.skip(i + 1));
        match cur {
            Json::Object(m) => {
                let j = member_of(&m, &parts[i]);
                proof {
                    lemma_member_index(jv_members(m@), parts@[i as int]@);
                    lemma_jv_members(m@);
                }
                if j < m.len() {
                    let mut m2 = m;
                    let ghost mv = m2@;
                    let (_name, child) = m2.remove(j);
                    assert((_name, child) == mv[j as int]);
                    cur = child;
                } else {
                    return default;
                }
            },
            _ => {
                return default;
            },
        }
        i += 1;
    }
    assert(pv.skip(i as int).len() == 0);
    cur
}

/// The value at the dotted key as text (see `spec_get_string`).
pub fn get_string(data: &Json, key: &str, default: &str) -> (r: String)
    ensures
        r@ == spec_get_string(data@, key@, default@),
{
    let parts = split_key_of(&text::chars_of(key));
    match get_ref(data, &parts) {
        Some(Json::Str(s)) => s.clone(),
        Some(Json::Bool(b)) => if *b {
            "true".to_string()
        } else {
            "false".to_string()
        },
        Some(Json::Number(n)) => n.clone(),
        Some(_) => default.to_string(),
        None => default.to_string(),
    }
}

/// The value at the dotted key as a boolean (see `spec_get_bool`).
pub fn get_bool(data: &Json, key: &str, default: bool) -> (r: bool)
    ensures
        r == spec_get_bool(data@, key@, default),
{
    let parts = split_key_of(&text::chars_of(key));
    match get_ref(data, &parts) {
        Some(Json::Bool(b)) => *b,
        Some(Json::Str(s)) => {
            let v = text::chars_of(s.as_str());
            text::same(&v, &text::lit("1")) || text::same(&text::to_ascii_lower(&v), &text::lit("true"))
        },
        Some(_) => default,
        None => default,
    }
}

pub fn insert_member(m: Vec<(String, Json)>, k: &Vec<char>, value: Json) -> (r: Vec<(String, Json)>)
    ensures
        jv_members(r@) == obj_insert(jv_members(m@), k@, value@),
{
    let i = member_of(&m, k);
    proof {
        lemma_jv_members(m@);
        lemma_member_index(jv_members(m@), k@);
    }
    let ghost mv = jv_members(m@);
    let ghost vv = value@;
    let mut m2 = m;
    if i < m2.len() {
        m2.set(i, (text::string_of(k), value));
        proof {
            lemma_jv_members(m2@);
        }
        assert(jv_members(m2@) =~= mv.update(i as int, (k@, vv)));
    } else {
        m2.push((text::string_of(k), value));
        proof {
            lemma_jv_members(m2@);
        }
        assert(jv_members(m2@) =~= mv.push((k@, vv)));
    }
    m2
}

fn set_members(m: Vec<(String, Json)>, parts: &Vec<Vec<char>>, i: usize, value: Json) -> (r: Vec<(String, Json)>)
    requires
        i < parts.len(),
    ensures
        jv_members(r@) == set_in(jv_members(m@), text::views(parts@).skip(i as int), value@),
    decreases parts.len() - i,
{
    let ghost ps = text::views(parts@).skip(i as int);
    assert(ps[0] == parts@[i as int]@);
    if i + 1 >= parts.len() {
        assert(ps.len() == 1);
        return insert_member(m, &parts[i], value);
    }
    assert(ps.drop_first() =~= text::views(parts@).skip(i + 1));
    let j = member_of(&m, &parts[i]);
    proof {
        lemma_jv_members(m@);
        lemma_member_index(jv_members(m@), parts@[i as int]@);
    }
    let ghost mv = jv_members(m@);
    let mut m2 = m;
    let child: Vec<(String, Json)> = if j < m2.len() {
        let ghost before = m2@;
        let (k, c) = m2.remove(j);
        assert((k, c) == before[j as int]);
        let cm = match c {
            Json::Object(cm) => cm,
            _ => Vec::new(),
        };
        assert(lookup(mv, ps[0]) == Some(jv(c)));
        m2.insert(j, (k, Json::Null));
        cm
    } else {
        Vec::new()
    };
    proof {
        let expected = match lookup(mv, ps[0]) {
            Some(JsonV::Obj(cm)) => cm,
            _ => Seq::<(Seq<char>, JsonV)>::empty(),
        };
        assert(jv_members(child@) =~= expected) by {
            if j < mv.len() {
            } else {
                assert(jv_members(child@) =~= Seq::<(Seq<char>, JsonV)>::empty());
            }
        }
        lemma_jv_members(m2@);
        assert(jv_members(m2@).len() == mv.len());
    }
    let inner = set_members(child, parts, i + 1, value);
    let ghost mv2 = jv_members(m2@);
    let r = insert_member(m2, &parts[i], Json::Object(inner));
    proof {
        assert(member_index(mv2, ps[0]) == member_index(mv, ps[0])) by {
            lemma_member_index(mv2, ps[0]);
            assert forall|x: int| 0 <= x < mv.len() implies mv2[x].0 == mv[x].0 by {
                lemma_jv_members(m2@);
            }
            lemma_member_names(mv, mv2, ps[0]);
        }
        assert(obj_insert(mv2, ps[0], JsonV::Obj(jv_members(inner@))) =~= obj_insert(mv, ps[0], JsonV::Obj(jv_members(inner@))));
    }
    r
}

/// Members with the same names in the same order find a name at the same
/// index, and inserting there gives the same members.
proof fn lemma_member_names(a: Seq<(Seq<char>, JsonV)>, b: Seq<(Seq<char>, JsonV)>, k: Seq<char>)
    requires
        a.len() == b.len(),
        forall|x: int| 0 <= x < a.len() ==> b[x].0 == a[x].0,
    ensures
        member_index(a, k) == member_index(b, k),
    decreases a.len(),
{
    if a.len() > 0 && a[0].0 != k {
        assert forall|x: int| 0 <= x < a.len() - 1 implies b.drop_first()[x].0 == a.drop_first()[x].0 by {
            assert(b.drop_first()[x] == b[x + 1]);
            assert(a.drop_first()[x] == a[x + 1]);
        }
        lemma_member_names(a.drop_first(), b.drop_first(), k);
    }
}

/// The document with the value at the dotted key (see `spec_set`).
pub fn set(data: Json, key: &str, value: Json) -> (r: Json)
    ensures
        r@ == spec_set(data@, key@, value@),
{
    let parts = split_key_of(&text::chars_of(key));
    match data {
        Json::Object(m) => {
            assert(text::views(parts@).skip(0) =~= text::views(parts@));
            Json::Object(set_members(m, &parts, 0, value))
        },
        other => other,
    }
}

pub fn member(k: &str, v: Json) -> (r: (String, Json))
    ensures
        r.0@ == k@,
        r.1 == v,
{
    (k.to_string(), v)
}

/// The document of a first start.
pub open spec fn spec_defaults() -> JsonV {
    JsonV::Obj(seq![
        ("theme"@, JsonV::Obj(seq![("dark"@, JsonV::Bool(false)), ("dynamic_colors"@, JsonV::Bool(true))])),
        ("accent"@, JsonV::Obj(seq![("color"@, JsonV::Str("Orange"@))])),
        ("wallpaper"@, JsonV::Obj(seq![("path"@, JsonV::Str(seq![]))])),
        ("icons"@, JsonV::Obj(seq![("theme"@, JsonV::Str("Papirus"@))])),
        ("cursor"@, JsonV::Obj(seq![("theme"@, JsonV::Str("Bibata"@))])),
        ("fonts"@, JsonV::Obj(seq![("family"@, JsonV::Str("Inter"@)), ("scale"@, JsonV::Num("1.0"@))])),
    ])
}

pub fn with_member(m: Vec<(String, Json)>, k: &str, v: Json) -> (r: Vec<(String, Json)>)
    ensures
        jv_members(r@) == jv_members(m@).push((k@, v@)),
{
    let ghost m0 = m@;
    let mut m2 = m;
    let e = member(k, v);
    let ghost ev = e;
    m2.push(e);
    assert(m2@.drop_last() =~= m0);
    assert(m2@.last() == ev);
    m2
}

/// The document of a first start.
pub fn defaults() -> (r: Json)
    ensures
        r@ == spec_defaults(),
{
    let ghost e: Seq<(Seq<char>, JsonV)> = seq![];
    let empty: Vec<(String, Json)> = Vec::new();
    assert(jv_members(empty@) =~= e);
    let t1 = with_member(Vec::new(), "dark", Json::Bool(false));
    let t2 = with_member(t1, "dynamic_colors", Json::Bool(true));
    assert(jv_members(t2@) =~= seq![("dark"@, JsonV::Bool(false)), ("dynamic_colors"@, JsonV::Bool(true))]);
    let theme = Json::Object(t2);
    let accent = Json::Object(with_member(Vec::new(), "color", Json::Str("Orange".to_string())));
    let wallpaper = Json::Object(with_member(Vec::new(), "path", Json::Str(String::new())));
    let icons = Json::Object(with_member(Vec::new(), "theme", Json::Str("Papirus".to_string())));
    let cursor = Json::Object(with_member(Vec::new(), "theme", Json::Str("Bibata".to_string())));
    let f1 = with_member(Vec::new(), "family", Json::Str("Inter".to_string()));
    let f2 = with_member(f1, "scale", Json::Number("1.0".to_string()));
    assert(jv_members(f2@) =~= seq![("family"@, JsonV::Str("Inter"@)), ("scale"@, JsonV::Num("1.0"@))]);
    let fonts = Json::Object(f2);
    let m = with_member(Vec::new(), "theme", theme);
    let m = with_member(m, "accent", accent);
    let m = with_member(m, "wallpaper", wallpaper);
    let m = with_member(m, "icons", icons);
    let m = with_member(m, "cursor", cursor);
    let m = with_member(m, "fonts", fonts);
    let r = Json::Object(m);
    proof {
        let rm = jv_members(r->Object_0@);
        let dm = seq![
            ("theme"@, JsonV::Obj(seq![("dark"@, JsonV::Bool(false)), ("dynamic_colors"@, JsonV::Bool(true))])),
            ("accent"@, JsonV::Obj(seq![("color"@, JsonV::Str("Orange"@))])),
            ("wallpaper"@, JsonV::Obj(seq![("path"@, JsonV::Str(seq![]))])),
            ("icons"@, JsonV::Obj(seq![("theme"@, JsonV::Str("Papirus"@))])),
            ("cursor"@, JsonV::Obj(seq![("theme"@, JsonV::Str("Bibata"@))])),
            ("fonts"@, JsonV::Obj(seq![("family"@, JsonV::Str("Inter"@)), ("scale"@, JsonV::Num("1.0"@))])),
        ];
        assert(rm.len() == 6);
        assert(rm[0] == dm[0]);
        assert(rm[1].1 =~~= dm[1].1);
        assert(rm[1] == dm[1]);
        assert(rm[2].1 =~~= dm[2].1);
        assert(rm[2] == dm[2]);
        assert(rm[3].1 =~~= dm[3].1);
        assert(rm[3] == dm[3]);
        assert(rm[4].1 =~~= dm[4].1);
        assert(rm[4] == dm[4]);
        assert(rm[5] == dm[5]);
        assert(rm =~= dm);
        assert(spec_defaults() == JsonV::Obj(dm));
    }
    assert(r@ =~~= spec_defaults());
    r
}

/// The document to work on: the file's, when it was read and is a JSON
/// object; the defaults otherwise.
pub fn load(parsed: Option<Json>) -> (r: Json)
    ensures
        r@ == match parsed {
            Some(j) => if j@ is Obj { j@ } else { spec_defaults() },
            None => spec_defaults(),
        },
{
    match parsed {
        Some(Json::Object(m)) => Json::Object(m),
        _ => defaults(),
    }
}

/// What serde_json reads from a file's text, if the file was read.
pub open spec fn parsed_text(text: Option<Seq<char>>) -> Option<JsonV> {
    match text {
        Some(t) => crate::backend::jsonc::json_value(t),
        None => None,
    }
}

/// The file's text parsed by serde_json (`None` when it was not read or is
/// not JSON).
pub(crate) fn parse_text(text: Option<&str>) -> (r: Option<Json>)
    ensures
        match r {
            Some(j) => parsed_text(text::opt_view(text)) == Some(j@),
            None => parsed_text(text::opt_view(text)) is None,
        },
{
    match text {
        Some(t) => match crate::backend::jsonc::from_json(t) {
            Ok(v) => Some(v),
            Err(_) => None,
        },
        None => None,
    }
}

/// The document to work on from the settings file's text (`None` when it
/// could not be read): the JSON object it holds, the defaults otherwise.
pub fn load_text(text: Option<&str>) -> (r: Json)
    ensures
        r@ == match parsed_text(text::opt_view(text)) {
            Some(v) => if v is Obj { v } else { spec_defaults() },
            None => spec_defaults(),
        },
{
    load(parse_text(text))
}

// ---------------------------------------------------------------- JSON text

/// The compact text that serde_json writes for a value (`Value::to_string`),
/// the value first converted to serde_json's (a number by its text).
pub uninterp spec fn json_text(v: JsonV) -> Seq<char>;

/// The library's value as serde_json's, variant for variant (a number text
/// that serde_json does not read as a number is `null`); nothing is stated
/// of it here, the caller's contract names the result.
#[verifier::external_body]
fn serde_value(j: &Json) -> (r: serde_json::Value) {
    match j {
        Json::Null => serde_json::Value::Null,
        Json::Bool(b) => serde_json::Value::Bool(*b),
        Json::Number(t) => t.parse::<serde_json::Number>().map(serde_json::Value::Number).unwrap_or(serde_json::Value::Null),
        Json::Str(t) => serde_json::Value::String(t.clone()),
        Json::Array(a) => serde_json::Value::Array(a.iter().map(serde_value).collect()),
        Json::Object(m) => serde_json::Value::Object(m.iter().map(|(k, x)| (k.clone(), serde_value(x))).collect()),
    }
}

/// `Value::to_string` of the value converted to serde_json's: the contract
/// names the result (`json_text`), a function of the value alone.
#[verifier::external_body]
pub(crate) fn json_string(j: &Json) -> (r: String)
    ensures
        r@ == json_text(j@),
{
    serde_value(j).to_string()
}

/// The indented text that serde_json writes for a value
/// (`to_string_pretty`), the value first converted to serde_json's.
pub uninterp spec fn json_pretty_text(v: JsonV) -> Seq<char>;

/// `serde_json::to_string_pretty` of the value converted to serde_json's:
/// the contract names the result (`json_pretty_text`); serializing a
/// `Value` does not fail, so the error case is not reached.
#[verifier::external_body]
fn json_pretty(j: &Json) -> (r: String)
    ensures
        r@ == json_pretty_text(j@),
{
    serde_json::to_string_pretty(&serde_value(j)).unwrap_or_default()
}

/// The text a settings document is saved as: its JSON, indented.
pub fn document_text(j: &Json) -> (r: String)
    ensures
        r@ == json_pretty_text(j@),
{
    json_pretty(j)
}

// ---------------------------------------------------------------- merging

/// The members of `m` with each member of `u` set, in order.
pub open spec fn merge_members(m: Seq<(Seq<char>, JsonV)>, u: Seq<(Seq<char>, JsonV)>) -> Seq<(Seq<char>, JsonV)>
    decreases u.len(),
{
    if u.len() == 0 {
        m
    } else {
        merge_members(obj_insert(m, u[0].0, u[0].1), u.drop_first())
    }
}

/// The value that the last member of `u` named `k` holds.
pub open spec fn last_value(u: Seq<(Seq<char>, JsonV)>, k: Seq<char>) -> Option<JsonV>
    decreases u.len(),
{
    if u.len() == 0 {
        None
    } else {
        match last_value(u.drop_first(), k) {
            Some(v) => Some(v),
            None => if u[0].0 == k {
                Some(u[0].1)
            } else {
                None
            },
        }
    }
}

/// After a merge, a member reads as the last value `u` gives it, else as
/// in `m`.
pub proof fn lemma_lookup_merge(m: Seq<(Seq<char>, JsonV)>, u: Seq<(Seq<char>, JsonV)>, k: Seq<char>)
    ensures
        lookup(merge_members(m, u), k) == match last_value(u, k) {
            Some(v) => Some(v),
            None => lookup(m, k),
        },
    decreases u.len(),
{
    if u.len() > 0 {
        let m2 = obj_insert(m, u[0].0, u[0].1);
        lemma_lookup_merge(m2, u.drop_first(), k);
        if u[0].0 == k {
            lemma_lookup_insert_same(m, k, u[0].1);
        } else {
            lemma_lookup_insert_other(m, u[0].0, u[0].1, k);
        }
    }
}

/// The members of `m` with each member of `u` set, in order.
pub fn merge_of(m: Vec<(String, Json)>, u: &Vec<(String, Json)>) -> (r: Vec<(String, Json)>)
    ensures
        jv_members(r@) == merge_members(jv_members(m@), jv_members(u@)),
{
    proof {
        lemma_jv_members(u@);
    }
    let ghost uv = jv_members(u@);
    let mut acc = m;
    let mut i: usize = 0;
    assert(uv.skip(0) =~= uv);
    while i < u.len()
        invariant
            i <= u.len(),
            uv == jv_members(u@),
            uv.len() == u.len(),
            forall|j: int| 0 <= j < u.len() ==> #[trigger] uv[j] == (u@[j].0@, jv(u@[j].1)),
            merge_members(jv_members(m@), uv) == merge_members(jv_members(acc@), uv.skip(i as int)),
        decreases u.len() - i,
    {
        let k = text::chars_of(u[i].0.as_str());
        let v = copy_json(&u[i].1);
        assert(uv.skip(i as int)[0] == uv[i as int]);
        assert(uv.skip(i as int).drop_first() =~= uv.skip(i + 1));
        acc = insert_member(acc, &k, v);
        i += 1;
    }
    assert(uv.skip(i as int) =~= Seq::<(Seq<char>, JsonV)>::empty());
    acc
}

/// A copy of a JSON value.
pub fn copy_json(j: &Json) -> (r: Json)
    ensures
        r@ == j@,
    decreases j,
{
    match j {
        Json::Null => Json::Null,
        Json::Bool(b) => Json::Bool(*b),
        Json::Number(n) => Json::Number(text::string_of(&text::chars_of(n.as_str()))),
        Json::Str(t) => Json::Str(text::string_of(&text::chars_of(t.as_str()))),
        Json::Array(v) => {
            let mut out: Vec<Json> = Vec::new();
            let mut i: usize = 0;
            while i < v.len()
                invariant
                    i <= v.len(),
                    *j == Json::Array(*v),
                    jv_seq(out@) == jv_seq(v@.take(i as int)),
                decreases v.len() - i,
            {
                proof {
                    assert(decreases_to!(*j => (*j)->Array_0));
                    assert((*j)->Array_0 == *v);
                    assert(decreases_to!(*v => v@));
                    assert(decreases_to!(v@ => v@[i as int]));
                    assert(decreases_to!(*j => v@[i as int]));
                }
                let c = copy_json(&v[i]);
                let ghost o0 = out@;
                out.push(c);
                assert(out@.drop_last() =~= o0);
                assert(v@.take(i + 1).drop_last() =~= v@.take(i as int));
                i += 1;
            }
            assert(v@.take(v.len() as int) =~= v@);
            Json::Array(out)
        },
        Json::Object(m) => {
            let mut out: Vec<(String, Json)> = Vec::new();
            let mut i: usize = 0;
            while i < m.len()
                invariant
                    i <= m.len(),
                    *j == Json::Object(*m),
                    jv_members(out@) == jv_members(m@.take(i as int)),
                decreases m.len() - i,
            {
                proof {
                    assert(decreases_to!(*j => (*j)->Object_0));
                    assert((*j)->Object_0 == *m);
                    assert(decreases_to!(*m => m@));
                    assert(decreases_to!(m@ => m@[i as int]));
                    assert(decreases_to!(m@[i as int] => m@[i as int].1));
                    assert(decreases_to!(*j => m@[i as int].1));
                }
                let c = copy_json(&m[i].1);
                let name = text::string_of(&text::chars_of(m[i].0.as_str()));
                let ghost o0 = out@;
                out.push((name, c));
                assert(out@.drop_last() =~= o0);
                assert(m@.take(i + 1).drop_last() =~= m@.take(i as int));
                i += 1;
            }
            assert(m@.take(m.len() as int) =~= m@);
            Json::Object(out)
        },
    }
}

// ---------------------------------------------------------------- accessors

/// A member of a JSON object (none for another value).
pub open spec fn member_at(v: JsonV, k: Seq<char>) -> Option<JsonV> {
    match v {
        JsonV::Obj(m) => lookup(m, k),
        _ => None,
    }
}

pub open spec fn as_str(v: Option<JsonV>) -> Option<Seq<char>> {
    match v {
        Some(JsonV::Str(s)) => Some(s),
        _ => None,
    }
}

/// `Value::as_i64`: a number whose text is an integer in range.
pub open spec fn as_i64(v: Option<JsonV>) -> Option<int> {
    match v {
        Some(JsonV::Num(n)) => crate::num::i64_of(n),
        _ => None,
    }
}

/// `Value::as_f64`, the number by its text.
pub open spec fn as_number(v: Option<JsonV>) -> Option<Seq<char>> {
    match v {
        Some(JsonV::Num(n)) => Some(n),
        _ => None,
    }
}

pub open spec fn as_bool(v: Option<JsonV>) -> Option<bool> {
    match v {
        Some(JsonV::Bool(b)) => Some(b),
        _ => None,
    }
}

} // verus!
