//! JSON with comments (waybar's `config.jsonc`): `//` comments and trailing
//! commas outside strings are removed before the JSON parser reads it.
use vstd::prelude::*;
use crate::text;
use crate::services::settings::{Json, JsonV};

verus! {

/// serde_json's value.
#[verifier::external_type_specification]
#[verifier::external_body]
pub struct ExValue(serde_json::Value);

/// serde_json's parse error.
#[verifier::external_type_specification]
#[verifier::external_body]
pub struct ExError(serde_json::Error);

/// The text is not valid JSON once comments and trailing commas are removed.
#[derive(Debug, Clone, PartialEq, Eq)]
pub struct JsoncError(pub String);

// ---------------------------------------------------------------- model

/// The state of the comment stripper: the text kept so far, and whether it is
/// in a string, in a comment, and after a `\` in a string.
pub type StripState = (Seq<char>, bool, bool, bool);

/// One character through the comment stripper.
pub open spec fn strip_step(st: StripState, ch: char) -> StripState {
    let (out, in_string, in_comment, escape) = st;
    if in_comment {
        if ch == '\n' {
            (out.push('\n'), in_string, false, escape)
        } else {
            st
        }
    } else if in_string {
        let out2 = out.push(ch);
        if escape {
            (out2, in_string, in_comment, false)
        } else if ch == '\\' {
            (out2, in_string, in_comment, true)
        } else if ch == '"' {
            (out2, false, in_comment, escape)
        } else {
            (out2, in_string, in_comment, escape)
        }
    } else if ch == '/' && out.len() > 0 && out.last() == '/' {
        (out.drop_last(), in_string, true, escape)
    } else if ch == '"' {
        (out.push(ch), true, in_comment, escape)
    } else {
        (out.push(ch), in_string, in_comment, escape)
    }
}

/// The stripper's state after the characters of `s`.
pub open spec fn strip_state(s: Seq<char>) -> StripState
    decreases s.len(),
{
    if s.len() == 0 {
        (seq![], false, false, false)
    } else {
        strip_step(strip_state(s.drop_last()), s.last())
    }
}

/// `s` without its `//` comments: from a `//` outside a string to the end of
/// the line (the `'\n'` stays).
pub open spec fn spec_strip_line_comments(s: Seq<char>) -> Seq<char> {
    strip_state(s).0
}

/// A `//` outside a string starts at `i`: the stripper, having kept all
/// before, is out of a string at a `/` that follows a `/`.
pub open spec fn comment_at(s: Seq<char>, i: int) -> bool {
    0 < i < s.len() && s[i] == '/' && s[i - 1] == '/' && !strip_state(s.take(i)).1
}

proof fn lemma_count_push(x: Seq<char>, c: char, d: char)
    ensures
        text::count(x.push(c), d) == text::count(x, d) + if c == d { 1nat } else { 0nat },
{
    assert(x.push(c).drop_last() =~= x);
}

proof fn lemma_strip_newlines(s: Seq<char>)
    ensures
        text::count(strip_state(s).0, '\n') == text::count(s, '\n'),
    decreases s.len(),
{
    if s.len() > 0 {
        lemma_strip_newlines(s.drop_last());
        let (out, in_string, in_comment, escape) = strip_state(s.drop_last());
        let ch = s.last();
        lemma_count_push(out, ch, '\n');
        lemma_count_push(s.drop_last(), ch, '\n');
        assert(s.drop_last().push(ch) =~= s);
        lemma_count_push(out, '\n', '\n');
        if !in_comment && !in_string && ch == '/' && out.len() > 0 && out.last() == '/' {
            lemma_count_push(out.drop_last(), '/', '\n');
            assert(out.drop_last().push('/') =~= out);
        }
    }
}

/// Stripping comments keeps every line break.
pub proof fn law_strip_keeps_newlines(s: Seq<char>)
    ensures
        text::count(spec_strip_line_comments(s), '\n') == text::count(s, '\n'),
{
    lemma_strip_newlines(s);
}

proof fn lemma_strip_plain(s: Seq<char>, n: int)
    requires
        0 <= n <= s.len(),
        forall|i: int| 0 <= i < n ==> !comment_at(s, i),
    ensures
        strip_state(s.take(n)).0 == s.take(n),
        !strip_state(s.take(n)).2,
    decreases n,
{
    if n == 0 {
        assert(s.take(0) =~= Seq::<char>::empty());
    } else {
        lemma_strip_plain(s, n - 1);
        assert(s.take(n).drop_last() =~= s.take(n - 1));
        assert(s.take(n).last() == s[n - 1]);
        assert(!comment_at(s, n - 1));
        assert(s.take(n - 1).push(s[n - 1]) =~= s.take(n));
        if n - 1 > 0 {
            assert(s.take(n - 1).last() == s[n - 2]);
        }
    }
}

/// A text with no `//` outside its strings is left as it is.
pub proof fn law_strip_no_comment(s: Seq<char>)
    requires
        forall|i: int| 0 <= i < s.len() ==> !comment_at(s, i),
    ensures
        spec_strip_line_comments(s) == s,
{
    lemma_strip_plain(s, s.len() as int);
    assert(s.take(s.len() as int) =~= s);
}

pub open spec fn is_blank(c: char) -> bool {
    c == ' ' || c == '\t' || c == '\n' || c == '\r'
}

/// First index from `j` on whose character is not blank, or the length.
pub open spec fn next_nonblank(s: Seq<char>, j: int) -> int
    decreases s.len() - j,
{
    if j < 0 || j >= s.len() {
        s.len() as int
    } else if is_blank(s[j]) {
        next_nonblank(s, j + 1)
    } else {
        j
    }
}

/// Whether the character at `n` of `s` is inside a string, and after a `\`
/// there: the state after the characters before it.
pub open spec fn quote_state(s: Seq<char>, n: int) -> (bool, bool)
    decreases n,
{
    if n <= 0 || n > s.len() {
        (false, false)
    } else {
        let (q, esc) = quote_state(s, n - 1);
        let c = s[n - 1];
        if q {
            if esc {
                (true, false)
            } else if c == '\\' {
                (true, true)
            } else if c == '"' {
                (false, false)
            } else {
                (true, false)
            }
        } else if c == '"' {
            (true, false)
        } else {
            (false, false)
        }
    }
}

/// The character at `i` is a comma outside a string that only blanks
/// separate from a `}` or `]`.
pub open spec fn trailing_comma(s: Seq<char>, i: int) -> bool {
    let j = next_nonblank(s, i + 1);
    s[i] == ',' && !quote_state(s, i).0 && 0 <= j < s.len() && (s[j] == '}' || s[j] == ']')
}

/// The first `n` characters of `s` without trailing commas.
pub open spec fn without_commas(s: Seq<char>, n: int) -> Seq<char>
    decreases n,
{
    if n <= 0 || n > s.len() {
        seq![]
    } else if trailing_comma(s, n - 1) {
        without_commas(s, n - 1)
    } else {
        without_commas(s, n - 1).push(s[n - 1])
    }
}

/// `s` without trailing commas (`,}` is `}`, `,]` is `]`, outside strings).
pub open spec fn spec_remove_trailing_commas(s: Seq<char>) -> Seq<char> {
    without_commas(s, s.len() as int)
}

/// The text that the JSON parser reads.
pub open spec fn cleaned(s: Seq<char>) -> Seq<char> {
    spec_remove_trailing_commas(spec_strip_line_comments(s))
}

/// The value that serde_json reads from the text, as the library holds it
/// (`None` when the text is not JSON).
pub uninterp spec fn json_value(s: Seq<char>) -> Option<JsonV>;

// ---------------------------------------------------------------- exec

/// `serde_json::from_str::<Value>`, the value converted to the library's
/// `Json`: the contract names the result (`json_value`), a function of the
/// text alone.
#[verifier::external_body]
pub(crate) fn from_json(s: &str) -> (r: Result<Json, serde_json::Error>)
    ensures
        match r {
            Ok(v) => json_value(s@) == Some(v@),
            Err(_) => json_value(s@) is None,
        },
{
    serde_json::from_str::<serde_json::Value>(s).map(|v| json_of(&v))
}

/// A serde_json value as the library's `Json`, variant for variant (a number
/// by the text serde_json prints for it); nothing is stated of it here, the
/// caller's contract names the result.
#[verifier::external_body]
fn json_of(v: &serde_json::Value) -> (r: Json) {
    match v {
        serde_json::Value::Null => Json::Null,
        serde_json::Value::Bool(b) => Json::Bool(*b),
        serde_json::Value::Number(n) => Json::Number(n.to_string()),
        serde_json::Value::String(t) => Json::Str(t.clone()),
        serde_json::Value::Array(a) => Json::Array(a.iter().map(json_of).collect()),
        serde_json::Value::Object(m) => Json::Object(m.iter().map(|(k, x)| (k.clone(), json_of(x))).collect()),
    }
}

/// The message of a serde_json error (its `Display`); nothing is stated of it.
#[verifier::external_body]
fn error_message(e: &serde_json::Error) -> (r: String) {
    e.to_string()
}

/// Removes `//` comments that are not inside a string.
pub fn strip_line_comments(raw: &str) -> (r: String)
    ensures
        r@ == spec_strip_line_comments(raw@),
{
    let v = text::chars_of(raw);
    let mut out: Vec<char> = Vec::new();
    let mut in_string = false;
    let mut in_comment = false;
    let mut escape = false;
    let mut i: usize = 0;
    assert(v@.take(0) =~= Seq::<char>::empty());
    while i < v.len()
        invariant
            i <= v.len(),
            (out@, in_string, in_comment, escape) == strip_state(v@.take(i as int)),
        decreases v.len() - i,
    {
        let ch = v[i];
        assert(v@.take(i + 1).drop_last() =~= v@.take(i as int));
        if in_comment {
            if ch == '\n' {
                in_comment = false;
                out.push('\n');
            }
        } else if in_string {
            out.push(ch);
            if escape {
                escape = false;
            } else if ch == '\\' {
                escape = true;
            } else if ch == '"' {
                in_string = false;
            }
        } else if ch == '/' && out.len() > 0 && out[out.len() - 1] == '/' {
            out.pop();
            in_comment = true;
        } else {
            if ch == '"' {
                in_string = true;
            }
            out.push(ch);
        }
        i += 1;
    }
    assert(v@.take(i as int) =~= v@);
    text::string_of(&out)
}

/// Removes trailing commas outside strings: `,}` becomes `}` and `,]`
/// becomes `]`.
pub fn remove_trailing_commas(text: &str) -> (r: String)
    ensures
        r@ == spec_remove_trailing_commas(text@),
{
    let chars = text::chars_of(text);
    let mut out: Vec<char> = Vec::new();
    let mut in_string = false;
    let mut escape = false;
    let mut i: usize = 0;
    while i < chars.len()
        invariant
            i <= chars.len(),
            out@ == without_commas(chars@, i as int),
            (in_string, escape) == quote_state(chars@, i as int),
        decreases chars.len() - i,
    {
        let c = chars[i];
        let mut drop = false;
        if c == ',' && !in_string {
            let mut j: usize = i + 1;
            while j < chars.len() && (chars[j] == ' ' || chars[j] == '\t' || chars[j] == '\n' || chars[j] == '\r')
                invariant
                    i < j <= chars.len(),
                    next_nonblank(chars@, i + 1) == next_nonblank(chars@, j as int),
                decreases chars.len() - j,
            {
                j += 1;
            }
            if j < chars.len() && (chars[j] == '}' || chars[j] == ']') {
                drop = true;
            }
        }
        assert(drop == trailing_comma(chars@, i as int));
        if !drop {
            out.push(c);
        }
        if in_string {
            if escape {
                escape = false;
            } else if c == '\\' {
                escape = true;
            } else if c == '"' {
                in_string = false;
            }
        } else if c == '"' {
            in_string = true;
        }
        i += 1;
    }
    text::string_of(&out)
}

/// Parses JSONC: the value that serde_json reads once comments and trailing
/// commas are removed; a text that is not valid gives an error, never an
/// empty object.
pub fn parse(text: &str) -> (r: Result<Json, JsoncError>)
    ensures
        match r {
            Ok(v) => json_value(cleaned(text@)) == Some(v@),
            Err(_) => json_value(cleaned(text@)) is None,
        },
{
    let stripped = strip_line_comments(text);
    let c = remove_trailing_commas(stripped.as_str());
    match from_json(c.as_str()) {
        Ok(v) => Ok(v),
        Err(e) => Err(JsoncError(error_message(&e))),
    }
}

} // verus!
