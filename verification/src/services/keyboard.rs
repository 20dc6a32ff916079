//! Keyboard shortcuts: the `binds { }` block of niri's `config.kdl`, read and
//! edited line by line. The functions take the file's text; the editors
//! return the text to write back (`None` where nothing is written).
use vstd::prelude::*;
use crate::text;

verus! {

// ---------------------------------------------------------------- model

/// A key accepted as a shortcut: `Mod…`, `Print`, `Ctrl+Print`, `Alt+Print`
/// or `XF86…`.
pub open spec fn spec_valid_key(key: Seq<char>) -> bool {
    text::starts_with(key, "Mod"@) || key == "Print"@ || key == "Ctrl+Print"@ || key == "Alt+Print"@
        || text::starts_with(key, "XF86"@)
}

/// Index of the first `"` of `s` from `i` on that no `\` escapes (`escaped`:
/// the character at `i` is escaped).
pub open spec fn quote_end(s: Seq<char>, i: int, escaped: bool) -> Option<int>
    decreases s.len() - i,
{
    if i < 0 || i >= s.len() {
        None
    } else if escaped {
        quote_end(s, i + 1, false)
    } else if s[i] == '\\' {
        quote_end(s, i + 1, true)
    } else if s[i] == '"' {
        Some(i)
    } else {
        quote_end(s, i + 1, false)
    }
}

/// The text of `s` up to its closing quote, and what follows the quote; two
/// empty texts when there is no closing quote or it comes first.
pub open spec fn spec_split_quote(s: Seq<char>) -> (Seq<char>, Seq<char>) {
    match quote_end(s, 0, false) {
        Some(e) => if e == 0 {
            (seq![], seq![])
        } else {
            (s.take(e), s.skip(e + 1))
        },
        None => (seq![], seq![]),
    }
}

/// `s` with a leading `"` removed, if it has one.
pub open spec fn after_quote(s: Seq<char>) -> Option<Seq<char>> {
    if s.len() > 0 && s[0] == '"' {
        Some(s.drop_first())
    } else {
        None
    }
}

/// `(kind, command, args)` of a bind's action.
///
/// `spawn-sh "cmd"` gives `spawn-sh`; `spawn "cmd" ["args"]` (a command that
/// is not empty) gives `spawn`; anything else is a `builtin` action: its first
/// word and the other words joined by spaces.
pub open spec fn spec_parse_action(raw: Seq<char>) -> (Seq<char>, Seq<char>, Seq<char>) {
    let action = text::trim_end_char(text::trim(raw), ';');
    let sh = "spawn-sh"@;
    let sp = "spawn"@;
    let ws = text::words(action);
    let builtin = (
        "builtin"@,
        if ws.len() > 0 { ws[0] } else { seq![] },
        if ws.len() > 0 { text::join(ws.drop_first(), seq![' ']) } else { seq![] },
    );
    if text::starts_with(action, sh) && after_quote(text::trim_start(action.skip(sh.len() as int))) is Some {
        let q = after_quote(text::trim_start(action.skip(sh.len() as int))).unwrap();
        (sh, spec_split_quote(q).0, seq![])
    } else if text::starts_with(action, sp) && action.len() > sp.len() && text::is_ws(action[sp.len() as int])
        && after_quote(text::trim_start(action.skip(sp.len() as int))) is Some
        && spec_split_quote(after_quote(text::trim_start(action.skip(sp.len() as int))).unwrap()).0.len() > 0 {
        let q = after_quote(text::trim_start(action.skip(sp.len() as int))).unwrap();
        let (cmd, tail) = spec_split_quote(q);
        match after_quote(text::trim_start(tail)) {
            Some(q2) => (sp, cmd, spec_split_quote(q2).0),
            None => (sp, cmd, seq![]),
        }
    } else {
        builtin
    }
}

/// The escape of one character for a KDL string.
pub open spec fn escape_char(c: char) -> Seq<char> {
    if c == '\\' {
        seq!['\\', '\\']
    } else if c == '"' {
        seq!['\\', '"']
    } else {
        seq![c]
    }
}

/// `s` with `\` and `"` escaped by a `\`.
pub open spec fn escape(s: Seq<char>) -> Seq<char>
    decreases s.len(),
{
    if s.len() == 0 {
        seq![]
    } else {
        escape(s.drop_last()) + escape_char(s.last())
    }
}

/// The action of a bind: `spawn "cmd" ["args"]`, `spawn-sh "cmd"`, or the
/// command and its arguments as they are.
pub open spec fn spec_action_line(bind_type: Seq<char>, command: Seq<char>, args: Seq<char>) -> Seq<char> {
    if bind_type == "spawn"@ {
        if args.len() > 0 {
            "spawn \""@ + escape(command) + "\" \""@ + escape(args) + seq!['"']
        } else {
            "spawn \""@ + escape(command) + seq!['"']
        }
    } else if bind_type == "spawn-sh"@ {
        "spawn-sh \""@ + escape(command) + seq!['"']
    } else if args.len() > 0 {
        command + seq![' '] + args
    } else {
        command
    }
}

/// The trimmed line starts with `key`, followed by nothing, white space, `{`
/// or `(`.
pub open spec fn spec_line_matches_key(stripped: Seq<char>, key: Seq<char>) -> bool {
    text::starts_with(stripped, key) && {
        let rest = stripped.skip(key.len() as int);
        rest.len() == 0 || text::is_ws(rest[0]) || rest[0] == '{' || rest[0] == '('
    }
}

/// Index of the last `c` in `s`.
pub open spec fn last_index(s: Seq<char>, c: char) -> Option<int>
    decreases s.len(),
{
    if s.len() == 0 {
        None
    } else if s.last() == c {
        Some(s.len() - 1)
    } else {
        last_index(s.drop_last(), c)
    }
}

/// A word after the key that starts with `allow-when-locked`.
pub open spec fn any_locked(ws: Seq<Seq<char>>) -> bool {
    exists|j: int| 1 <= j < ws.len() && text::starts_with(#[trigger] ws[j], "allow-when-locked"@)
}

/// `(key, allow_when_locked, kind, command, args)` of a bind line
/// `Key [options] { action; }`, when its key is valid.
pub open spec fn spec_parse_bind_line(line: Seq<char>) -> Option<(Seq<char>, bool, Seq<char>, Seq<char>, Seq<char>)> {
    let s = text::trim(line);
    let open = text::index_of(s, '{');
    if open >= s.len() {
        None
    } else {
        match last_index(s, '}') {
            None => None,
            Some(close) => if close < open {
                None
            } else {
                let head = text::trim(s.take(open as int));
                let action = text::trim(s.subrange(open + 1 as int, close));
                let ws = text::words(head);
                if ws.len() == 0 || !spec_valid_key(ws[0]) {
                    None
                } else {
                    let (kind, command, args) = spec_parse_action(action);
                    Some((ws[0], any_locked(ws), kind, command, args))
                }
            },
        }
    }
}

// ---------------------------------------------------------------- laws

/// No `"` and no `\` in `s`.
pub open spec fn plain(s: Seq<char>) -> bool {
    forall|i: int| 0 <= i < s.len() ==> #[trigger] s[i] != '"' && s[i] != '\\'
}

proof fn lemma_escape_plain(s: Seq<char>)
    requires
        plain(s),
    ensures
        escape(s) == s,
    decreases s.len(),
{
    if s.len() > 0 {
        assert(plain(s.drop_last()));
        lemma_escape_plain(s.drop_last());
        assert(s.last() == s[s.len() - 1]);
        assert(escape_char(s.last()) =~= seq![s.last()]);
        assert(s.drop_last().push(s.last()) =~= s);
    }
}

proof fn lemma_quote_end_plain(s: Seq<char>, i: int, k: int)
    requires
        0 <= i <= k < s.len(),
        forall|m: int| i <= m < k ==> #[trigger] s[m] != '"' && s[m] != '\\',
        s[k] == '"',
    ensures
        quote_end(s, i, false) == Some(k),
    decreases k - i,
{
    if i < k {
        lemma_quote_end_plain(s, i + 1, k);
    }
}

/// The quoted text `x"rest` splits into `x` and `rest`.
proof fn lemma_split_plain(x: Seq<char>, rest: Seq<char>)
    requires
        plain(x),
        x.len() > 0,
    ensures
        spec_split_quote(x + seq!['"'] + rest) == (x, rest),
{
    let s = x + seq!['"'] + rest;
    assert forall|m: int| 0 <= m < x.len() implies #[trigger] s[m] != '"' && s[m] != '\\' by {
        assert(s[m] == x[m]);
    }
    lemma_quote_end_plain(s, 0, x.len() as int);
    assert(s.take(x.len() as int) =~= x);
    assert(s.skip(x.len() + 1 as int) =~= rest);
}

/// A `spawn` action written by `make_action_line` reads back as the same
/// command and arguments when they hold no `"` or `\` (those are escaped,
/// and the reader keeps the escapes) and the command is not empty.
pub proof fn law_spawn_action_roundtrip(command: Seq<char>, args: Seq<char>)
    requires
        command.len() > 0,
        plain(command),
        plain(args),
    ensures
        spec_parse_action(spec_action_line("spawn"@, command, args)) == ("spawn"@, command, args),
{
    reveal_strlit("spawn");
    reveal_strlit("spawn-sh");
    reveal_strlit("spawn \"");
    reveal_strlit("\" \"");
    lemma_escape_plain(command);
    lemma_escape_plain(args);
    let raw = spec_action_line("spawn"@, command, args);
    let tail = if args.len() > 0 { seq![' ', '"'] + args + seq!['"'] } else { seq![] };
    assert(raw =~= "spawn \""@ + command + seq!['"'] + tail);
    assert(raw[0] == 's');
    assert(!text::is_ws(raw[0]));
    assert(raw.last() == '"');
    assert(text::trim_start(raw) == raw);
    assert(text::trim_end(raw) == raw);
    assert(text::trim(raw) == raw);
    assert(text::trim_end_char(raw, ';') == raw);
    assert(!text::starts_with(raw, "spawn-sh"@)) by {
        assert(raw[5] == ' ');
        assert("spawn-sh"@[5] == '-');
        if text::starts_with(raw, "spawn-sh"@) {
            assert(raw.take(8)[5] == raw[5]);
        }
    }
    assert(raw.take(5) =~= "spawn"@);
    assert(text::is_ws(raw[5]));
    let after = raw.skip(5);
    let q = command + seq!['"'] + tail;
    assert(after =~= seq![' '] + (seq!['"'] + q));
    assert(forall|i: int| 0 <= i < seq![' '].len() ==> text::is_ws(#[trigger] seq![' '][i]));
    text::lemma_trim_start_after_ws(seq![' '], seq!['"'] + q);
    assert(text::trim_start(after) == seq!['"'] + q);
    assert((seq!['"'] + q).drop_first() =~= q);
    assert(after_quote(text::trim_start(after)) == Some(q));
    lemma_split_plain(command, tail);
    assert(spec_split_quote(q) == (command, tail));
    if args.len() > 0 {
        let q2 = args + seq!['"'] + Seq::<char>::empty();
        assert(tail =~= seq![' '] + (seq!['"'] + q2));
        text::lemma_trim_start_after_ws(seq![' '], seq!['"'] + q2);
        assert((seq!['"'] + q2).drop_first() =~= q2);
        lemma_split_plain(args, Seq::<char>::empty());
    } else {
        assert(text::trim_start(tail) =~= Seq::<char>::empty());
    }
}

/// Whether line `i` is inside a `binds` block, as the editor tracks it.
pub open spec fn in_binds_at(ls: Seq<Seq<char>>, i: int) -> bool
    decreases i,
{
    if i <= 0 {
        false
    } else {
        let t = text::trim(ls[i - 1]);
        if text::starts_with(t, "binds"@) {
            true
        } else if in_binds_at(ls, i - 1) && t == "}"@ {
            false
        } else {
            in_binds_at(ls, i - 1)
        }
    }
}

/// Line `i` is a bind of `key` inside a `binds` block.
pub open spec fn bind_of_key_at(ls: Seq<Seq<char>>, key: Seq<char>, i: int) -> bool {
    let t = text::trim(ls[i]);
    in_binds_at(ls, i) && !text::starts_with(t, "binds"@) && t != "}"@ && spec_line_matches_key(t, key)
}

proof fn lemma_edit_found(ls: Seq<Seq<char>>, i: int, done: bool, key: Seq<char>, new_line: Seq<char>, replace: bool)
    requires
        0 <= i <= ls.len(),
    ensures
        edit_from(ls, i, in_binds_at(ls, i), done, key, new_line, replace).1 == (done || exists|j: int|
            i <= j < ls.len() && #[trigger] bind_of_key_at(ls, key, j)),
    decreases ls.len() - i,
{
    if i < ls.len() {
        let t = text::trim(ls[i]);
        let b = in_binds_at(ls, i);
        assert(in_binds_at(ls, i + 1) == if text::starts_with(t, "binds"@) {
            true
        } else if b && t == "}"@ {
            false
        } else {
            b
        });
        lemma_edit_found(ls, i + 1, done, key, new_line, replace);
        lemma_edit_found(ls, i + 1, true, key, new_line, replace);
        if bind_of_key_at(ls, key, i) {
            assert(exists|j: int| i <= j < ls.len() && #[trigger] bind_of_key_at(ls, key, j));
        }
        assert((exists|j: int| i <= j < ls.len() && #[trigger] bind_of_key_at(ls, key, j)) == (bind_of_key_at(ls, key, i)
            || exists|j: int| i + 1 <= j < ls.len() && #[trigger] bind_of_key_at(ls, key, j)));
    }
}

/// Changing or removing the bind of a key writes something exactly when some
/// line inside a `binds` block is a bind of that key; otherwise the text is
/// left alone.
pub proof fn law_keybind_edit_needs_bind(content: Seq<char>, key: Seq<char>, action_type: Seq<char>, command: Seq<char>, args: Seq<char>)
    ensures
        spec_set_keybind(content, key, action_type, command, args) is Some <==> exists|j: int|
            0 <= j < text::lines(content).len() && #[trigger] bind_of_key_at(text::lines(content), key, j),
        spec_remove_keybind(content, key) is Some <==> exists|j: int|
            0 <= j < text::lines(content).len() && #[trigger] bind_of_key_at(text::lines(content), key, j),
{
    let ls = text::lines(content);
    let nl = bind_line(key, spec_action_line(action_type, command, args));
    lemma_edit_found(ls, 0, false, key, nl, true);
    lemma_edit_found(ls, 0, false, key, seq![], false);
}

/// A built-in action written by `make_action_line` reads back as the same
/// command, with its arguments as their words joined by one space, when the
/// command is one word that does not start with `spawn` and neither holds a
/// `;` (the arguments not ending with white space).
pub proof fn law_builtin_action_roundtrip(command: Seq<char>, args: Seq<char>)
    requires
        command.len() > 0,
        forall|i: int| 0 <= i < command.len() ==> !text::is_ws(#[trigger] command[i]) && command[i] != ';',
        !text::starts_with(command, "spawn"@),
        forall|i: int| 0 <= i < args.len() ==> #[trigger] args[i] != ';',
        args.len() == 0 || !text::is_ws(args.last()),
    ensures
        spec_parse_action(spec_action_line("builtin"@, command, args)) == ("builtin"@, command, text::join(
            text::words(args),
            seq![' '],
        )),
{
    reveal_strlit("spawn");
    reveal_strlit("spawn-sh");
    reveal_strlit("builtin");
    assert("builtin"@.len() != "spawn"@.len() && "builtin"@.len() != "spawn-sh"@.len());
    assert("builtin"@ != "spawn"@ && "builtin"@ != "spawn-sh"@);
    let raw = spec_action_line("builtin"@, command, args);
    let n = command.len() as int;
    if args.len() > 0 {
        assert(raw =~= command + (seq![' '] + args));
        assert(raw.last() == args.last());
    } else {
        assert(raw =~= command);
    }
    assert(raw[0] == command[0]);
    assert(text::trim_start(raw) == raw);
    assert(text::trim_end(raw) == raw);
    assert(text::trim(raw) == raw);
    assert(raw.last() != ';');
    assert(text::trim_end_char(raw, ';') == raw);
    // not a spawn action
    assert(!text::starts_with(raw, "spawn"@)) by {
        if text::starts_with(raw, "spawn"@) {
            if n >= 5 {
                assert(command.take(5) =~= raw.take(5));
            } else {
                assert(raw[n] == ' ');
                assert(raw.take(5)[n] == raw[n]);
            }
        }
    }
    assert(!text::starts_with(raw, "spawn-sh"@)) by {
        if text::starts_with(raw, "spawn-sh"@) {
            assert(raw.take(5) =~= raw.take(8).take(5));
            assert("spawn-sh"@.take(5) =~= "spawn"@);
        }
    }
    // its words
    assert forall|j: int| 0 <= j < n implies !text::is_ws(raw[j]) by {
        assert(raw[j] == command[j]);
    }
    text::lemma_first_ws_at(raw, n);
    assert(raw.take(n) =~= command);
    let ws = text::words(raw);
    if args.len() > 0 {
        let rest = seq![' '] + args;
        assert(raw.skip(n) =~= rest);
        assert(rest.drop_first() =~= args);
        assert(text::trim_start(rest) == text::trim_start(args));
        assert(text::words(rest) == text::words(args));
        assert(ws == seq![command] + text::words(args));
        assert(ws.drop_first() =~= text::words(args));
    } else {
        assert(raw.skip(n) =~= Seq::<char>::empty());
        assert(text::words(Seq::<char>::empty()) =~= Seq::<Seq<char>>::empty());
        assert(ws =~= seq![command]);
        assert(ws.drop_first() =~= Seq::<Seq<char>>::empty());
        assert(text::words(args) =~= Seq::<Seq<char>>::empty());
    }
}

/// A `spawn-sh` action written by `make_action_line` reads back as the same
/// command (and no arguments) when it holds no `"` or `\\`.
pub proof fn law_spawn_sh_action_roundtrip(command: Seq<char>)
    requires
        plain(command),
    ensures
        spec_parse_action(spec_action_line("spawn-sh"@, command, seq![])) == ("spawn-sh"@, command, Seq::<char>::empty()),
{
    reveal_strlit("spawn");
    reveal_strlit("spawn-sh");
    reveal_strlit("spawn-sh \"");
    lemma_escape_plain(command);
    assert("spawn-sh"@.len() != "spawn"@.len());
    assert("spawn-sh"@ != "spawn"@);
    let raw = spec_action_line("spawn-sh"@, command, seq![]);
    assert(raw =~= "spawn-sh \""@ + command + seq!['"']);
    assert(raw[0] == 's');
    assert(!text::is_ws(raw[0]));
    assert(raw.last() == '"');
    assert(text::trim_start(raw) == raw);
    assert(text::trim_end(raw) == raw);
    assert(text::trim(raw) == raw);
    assert(text::trim_end_char(raw, ';') == raw);
    assert(raw.take(8) =~= "spawn-sh"@);
    let after = raw.skip(8);
    let q = command + seq!['"'] + Seq::<char>::empty();
    assert(after =~= seq![' '] + (seq!['"'] + q));
    assert(forall|i: int| 0 <= i < seq![' '].len() ==> text::is_ws(#[trigger] seq![' '][i]));
    text::lemma_trim_start_after_ws(seq![' '], seq!['"'] + q);
    assert((seq!['"'] + q).drop_first() =~= q);
    assert(after_quote(text::trim_start(after)) == Some(q));
    if command.len() > 0 {
        lemma_split_plain(command, Seq::<char>::empty());
    } else {
        assert(q =~= seq!['"']);
        assert(quote_end(q, 0, false) == Some(0int));
        assert(command =~= Seq::<char>::empty());
    }
}

// ---------------------------------------------------------------- exec

/// Whether `key` may be a shortcut's key.
pub fn is_valid_key(key: &str) -> (r: bool)
    ensures
        r == spec_valid_key(key@),
{
    let k = text::chars_of(key);
    text::has_prefix(&k, &text::lit("Mod")) || text::same(&k, &text::lit("Print")) || text::same(
        &k,
        &text::lit("Ctrl+Print"),
    ) || text::same(&k, &text::lit("Alt+Print")) || text::has_prefix(&k, &text::lit("XF86"))
}

fn split_quote_of(s: &Vec<char>) -> (r: (Vec<char>, Vec<char>))
    ensures
        (r.0@, r.1@) == spec_split_quote(s@),
{
    let mut i: usize = 0;
    let mut escaped = false;
    while i < s.len()
        invariant
            i <= s.len(),
            quote_end(s@, 0, false) == quote_end(s@, i as int, escaped),
        decreases s.len() - i,
    {
        if escaped {
            escaped = false;
        } else if s[i] == '\\' {
            escaped = true;
        } else if s[i] == '"' {
            if i == 0 {
                return (Vec::new(), Vec::new());
            }
            let a = text::slice(s, 0, i);
            let b = text::slice(s, i + 1, s.len());
            assert(a@ =~= s@.take(i as int));
            assert(b@ =~= s@.skip(i + 1));
            return (a, b);
        }
        i += 1;
    }
    (Vec::new(), Vec::new())
}

/// The text up to the closing quote and what follows it (see
/// `spec_split_quote`; the opening quote is not part of `s`).
pub fn split_quote(s: &str) -> (r: (String, String))
    ensures
        (r.0@, r.1@) == spec_split_quote(s@),
{
    let v = text::chars_of(s);
    let (a, b) = split_quote_of(&v);
    (text::string_of(&a), text::string_of(&b))
}

fn after_quote_of(s: &Vec<char>) -> (r: Option<Vec<char>>)
    ensures
        match r {
            Some(v) => after_quote(s@) == Some(v@),
            None => after_quote(s@) is None,
        },
{
    if s.len() > 0 && s[0] == '"' {
        let v = text::slice(s, 1, s.len());
        assert(v@ =~= s@.drop_first());
        Some(v)
    } else {
        None
    }
}

fn rest_after(s: &Vec<char>, n: usize) -> (r: Vec<char>)
    requires
        n <= s.len(),
    ensures
        r@ == text::trim_start(s@.skip(n as int)),
{
    let a = text::slice(s, n, s.len());
    assert(a@ =~= s@.skip(n as int));
    text::trimmed_start(&a)
}

/// `(kind, command, args)` of an action (see `spec_parse_action`).
pub fn parse_action(raw: &Vec<char>) -> (r: (Vec<char>, Vec<char>, Vec<char>))
    ensures
        (r.0@, r.1@, r.2@) == spec_parse_action(raw@),
{
    let t = text::trimmed(raw);
    let action = text::cut_end_char(&t, ';');
    let sh = text::lit("spawn-sh");
    let sp = text::lit("spawn");
    if text::has_prefix(&action, &sh) {
        let rest = rest_after(&action, sh.len());
        match after_quote_of(&rest) {
            Some(q) => {
                let (cmd, _tail) = split_quote_of(&q);
                return (sh, cmd, Vec::new());
            },
            None => {},
        }
    }
    if text::has_prefix(&action, &sp) && action.len() > sp.len() && text::char_is_ws(action[sp.len()]) {
        let rest = rest_after(&action, sp.len());
        match after_quote_of(&rest) {
            Some(q) => {
                let (cmd, tail) = split_quote_of(&q);
                if cmd.len() > 0 {
                    let tt = text::trimmed_start(&tail);
                    match after_quote_of(&tt) {
                        Some(q2) => {
                            let (args, _t2) = split_quote_of(&q2);
                            return (sp, cmd, args);
                        },
                        None => {
                            return (sp, cmd, Vec::new());
                        },
                    }
                }
            },
            None => {},
        }
    }
    let ws = text::words_of(&action);
    let ghost wv = text::views(ws@);
    let func = if ws.len() > 0 {
        ws[0].clone()
    } else {
        Vec::new()
    };
    let mut others: Vec<Vec<char>> = Vec::new();
    if ws.len() > 0 {
        kdl_push(&mut others, &ws, 1);
        assert(text::views(others@) =~= wv.drop_first());
    }
    let mut sep: Vec<char> = Vec::new();
    sep.push(' ');
    assert(sep@ =~= seq![' ']);
    let args = text::join_with(&others, &sep);
    (text::lit("builtin"), func, args)
}

fn kdl_push(out: &mut Vec<Vec<char>>, v: &Vec<Vec<char>>, a: usize)
    requires
        a <= v.len(),
        old(out)@.len() == 0,
    ensures
        text::views(final(out)@) == text::views(v@).skip(a as int),
{
    crate::services::kdl::push_lines(out, v, a, v.len());
    assert(text::views(old(out)@) =~= Seq::<Seq<char>>::empty());
    assert(text::views(v@).subrange(a as int, v.len() as int) =~= text::views(v@).skip(a as int));
    assert(Seq::<Seq<char>>::empty() + text::views(v@).skip(a as int) =~= text::views(v@).skip(a as int));
}

/// `s` escaped for a KDL string.
pub fn kdl_escape(s: &Vec<char>) -> (r: Vec<char>)
    ensures
        r@ == escape(s@),
{
    let mut out: Vec<char> = Vec::new();
    let mut i: usize = 0;
    while i < s.len()
        invariant
            i <= s.len(),
            out@ == escape(s@.take(i as int)),
        decreases s.len() - i,
    {
        let c = s[i];
        if c == '\\' {
            out.push('\\');
            out.push('\\');
        } else if c == '"' {
            out.push('\\');
            out.push('"');
        } else {
            out.push(c);
        }
        assert(s@.take(i + 1).drop_last() =~= s@.take(i as int));
        i += 1;
        assert(out@ =~= escape(s@.take(i as int)));
    }
    assert(s@.take(i as int) =~= s@);
    out
}

fn action_line_of(bind_type: &Vec<char>, command: &Vec<char>, args: &Vec<char>) -> (r: Vec<char>)
    ensures
        r@ == spec_action_line(bind_type@, command@, args@),
{
    if text::same(bind_type, &text::lit("spawn")) {
        let mut out = text::lit("spawn \"");
        text::append(&mut out, &kdl_escape(command));
        if args.len() > 0 {
            text::append(&mut out, &text::lit("\" \""));
            text::append(&mut out, &kdl_escape(args));
        }
        out.push('"');
        out
    } else if text::same(bind_type, &text::lit("spawn-sh")) {
        let mut out = text::lit("spawn-sh \"");
        text::append(&mut out, &kdl_escape(command));
        out.push('"');
        out
    } else if args.len() > 0 {
        let mut out = command.clone();
        out.push(' ');
        text::append(&mut out, args);
        out
    } else {
        command.clone()
    }
}

/// The action text of a bind (see `spec_action_line`).
pub fn make_action_line(bind_type: &str, command: &str, args: &str) -> (r: String)
    ensures
        r@ == spec_action_line(bind_type@, command@, args@),
{
    let out = action_line_of(&text::chars_of(bind_type), &text::chars_of(command), &text::chars_of(args));
    text::string_of(&out)
}

/// Whether the trimmed line is the bind of `key`.
pub fn line_matches_key(stripped: &Vec<char>, key: &Vec<char>) -> (r: bool)
    ensures
        r == spec_line_matches_key(stripped@, key@),
{
    if !text::has_prefix(stripped, key) {
        return false;
    }
    let n = key.len();
    if n == stripped.len() {
        assert(stripped@.skip(n as int).len() == 0);
        return true;
    }
    let c = stripped[n];
    assert(stripped@.skip(n as int)[0] == c);
    text::char_is_ws(c) || c == '{' || c == '('
}

fn last_index_of(s: &Vec<char>, c: char) -> (r: Option<usize>)
    ensures
        match r {
            Some(i) => last_index(s@, c) == Some(i as int) && i < s.len() && s@[i as int] == c,
            None => last_index(s@, c) is None,
        },
{
    let mut j: usize = s.len();
    assert(s@.take(j as int) =~= s@);
    while j > 0
        invariant
            j <= s.len(),
            last_index(s@, c) == last_index(s@.take(j as int), c),
        decreases j,
    {
        if s[j - 1] == c {
            return Some(j - 1);
        }
        assert(s@.take(j as int).drop_last() =~= s@.take(j - 1));
        j -= 1;
    }
    None
}

/// A shortcut of `config.kdl`.
#[derive(Clone)]
pub struct Bind {
    pub key: String,
    pub allow_when_locked: bool,
    /// `spawn`, `spawn-sh` or `builtin`.
    pub kind: String,
    pub command: String,
    pub args: String,
}

impl View for Bind {
    type V = (Seq<char>, bool, Seq<char>, Seq<char>, Seq<char>);

    open spec fn view(&self) -> Self::V {
        (self.key@, self.allow_when_locked, self.kind@, self.command@, self.args@)
    }
}

fn locked_in(ws: &Vec<Vec<char>>) -> (r: bool)
    ensures
        r == any_locked(text::views(ws@)),
{
    let ghost wv = text::views(ws@);
    let p = text::lit("allow-when-locked");
    let mut j: usize = 1;
    while j < ws.len()
        invariant
            1 <= j,
            wv == text::views(ws@),
            p@ == "allow-when-locked"@,
            forall|k: int| 1 <= k < j && k < wv.len() ==> !text::starts_with(#[trigger] wv[k], "allow-when-locked"@),
        decreases ws.len() - j,
    {
        if text::has_prefix(&ws[j], &p) {
            assert(text::starts_with(wv[j as int], "allow-when-locked"@));
            return true;
        }
        j += 1;
    }
    false
}

/// The bind on a line (see `spec_parse_bind_line`).
pub fn parse_bind_line(line: &str) -> (r: Option<Bind>)
    ensures
        match r {
            Some(b) => spec_parse_bind_line(line@) == Some(b@),
            None => spec_parse_bind_line(line@) is None,
        },
{
    let l = text::chars_of(line);
    parse_bind_of(&l)
}

fn parse_bind_of(l: &Vec<char>) -> (r: Option<Bind>)
    ensures
        match r {
            Some(b) => spec_parse_bind_line(l@) == Some(b@),
            None => spec_parse_bind_line(l@) is None,
        },
{
    let s = text::trimmed(l);
    let mut open: usize = 0;
    while open < s.len() && s[open] != '{'
        invariant
            open <= s.len(),
            forall|k: int| 0 <= k < open ==> s@[k] != '{',
        decreases s.len() - open,
    {
        open += 1;
    }
    proof {
        text::lemma_index_of_char(s@, '{', open as int);
    }
    if open >= s.len() {
        return None;
    }
    let close = match last_index_of(&s, '}') {
        Some(c) => c,
        None => {
            return None;
        },
    };
    if close < open {
        return None;
    }
    assert(s@[open as int] == '{');
    let h = text::slice(&s, 0, open);
    assert(h@ =~= s@.take(open as int));
    let head = text::trimmed(&h);
    let a = text::slice(&s, open + 1, close);
    let action = text::trimmed(&a);
    let ws = text::words_of(&head);
    if ws.len() == 0 {
        return None;
    }
    let key = ws[0].clone();
    let ks = text::string_of(&key);
    if !is_valid_key(ks.as_str()) {
        return None;
    }
    let locked = locked_in(&ws);
    let (kind, command, args) = parse_action(&action);
    Some(Bind {
        key: ks,
        allow_when_locked: locked,
        kind: text::string_of(&kind),
        command: text::string_of(&command),
        args: text::string_of(&args),
    })
}

// ---------------------------------------------------------------- the binds block

/// A bind as the model sees it.
pub type BindView = (Seq<char>, bool, Seq<char>, Seq<char>, Seq<char>);

/// The binds of the lines from `i` on: the lines after one that starts with
/// `binds`, up to a line `}`.
pub open spec fn binds_from(ls: Seq<Seq<char>>, i: int, in_binds: bool) -> Seq<BindView>
    decreases ls.len() - i,
{
    if i < 0 || i >= ls.len() {
        seq![]
    } else {
        let t = text::trim(ls[i]);
        if text::starts_with(t, "binds"@) {
            binds_from(ls, i + 1, true)
        } else if in_binds && t == "}"@ {
            seq![]
        } else if !in_binds {
            binds_from(ls, i + 1, false)
        } else {
            match spec_parse_bind_line(t) {
                Some(b) => seq![b] + binds_from(ls, i + 1, true),
                None => binds_from(ls, i + 1, true),
            }
        }
    }
}

/// `key { action; }`.
pub open spec fn bind_line(key: Seq<char>, action: Seq<char>) -> Seq<char> {
    key + " { "@ + action + "; }"@
}

/// The text from line `i` on, each line ended by `'\n'`, with the first bind
/// of `key` in a `binds` block replaced by `new_line` (keeping its
/// indentation, `replace`) or left out; and whether that happened.
pub open spec fn edit_from(ls: Seq<Seq<char>>, i: int, in_binds: bool, done: bool, key: Seq<char>, new_line: Seq<char>, replace: bool) -> (Seq<char>, bool)
    decreases ls.len() - i,
{
    if i < 0 || i >= ls.len() {
        (seq![], done)
    } else {
        let l = ls[i];
        let t = text::trim(l);
        if text::starts_with(t, "binds"@) {
            let rest = edit_from(ls, i + 1, true, done, key, new_line, replace);
            (l + text::nl() + rest.0, rest.1)
        } else if in_binds && t == "}"@ {
            let rest = edit_from(ls, i + 1, false, done, key, new_line, replace);
            (l + text::nl() + rest.0, rest.1)
        } else if in_binds && !done && spec_line_matches_key(t, key) {
            let rest = edit_from(ls, i + 1, in_binds, true, key, new_line, replace);
            if replace {
                (text::leading_ws(l) + new_line + text::nl() + rest.0, rest.1)
            } else {
                rest
            }
        } else {
            let rest = edit_from(ls, i + 1, in_binds, done, key, new_line, replace);
            (l + text::nl() + rest.0, rest.1)
        }
    }
}

/// The text with the action of `key` replaced; `None` when there is no such
/// bind.
pub open spec fn spec_set_keybind(content: Seq<char>, key: Seq<char>, action_type: Seq<char>, command: Seq<char>, args: Seq<char>) -> Option<Seq<char>> {
    let nl = bind_line(key, spec_action_line(action_type, command, args));
    let r = edit_from(text::lines(content), 0, false, false, key, nl, true);
    if r.1 {
        Some(r.0)
    } else {
        None
    }
}

/// The text without the bind of `key`; `None` when there is no such bind.
pub open spec fn spec_remove_keybind(content: Seq<char>, key: Seq<char>) -> Option<Seq<char>> {
    let r = edit_from(text::lines(content), 0, false, false, key, seq![], false);
    if r.1 {
        Some(r.0)
    } else {
        None
    }
}

/// The line that closes the first `binds` block, from line `i` on.
pub open spec fn binds_close(ls: Seq<Seq<char>>, i: int, in_binds: bool) -> Option<int>
    decreases ls.len() - i,
{
    if i < 0 || i >= ls.len() {
        None
    } else {
        let t = text::trim(ls[i]);
        if text::starts_with(t, "binds"@) {
            binds_close(ls, i + 1, true)
        } else if in_binds && t == "}"@ {
            Some(i)
        } else {
            binds_close(ls, i + 1, in_binds)
        }
    }
}

/// The text with a bind added: before the line that closes the `binds`
/// block, or in a new `binds` block at the end; the lines joined by `'\n'`, with a final `'\n'`.
pub open spec fn spec_add_keybind(content: Seq<char>, key: Seq<char>, action_type: Seq<char>, command: Seq<char>, args: Seq<char>) -> Seq<char> {
    let ls = text::lines(content);
    let line = "    "@ + bind_line(key, spec_action_line(action_type, command, args));
    let out = match binds_close(ls, 0, false) {
        Some(p) => ls.insert(p, line),
        None => ls + seq![seq![], "binds {"@, line, "}"@],
    };
    text::join(out, text::nl()) + text::nl()
}

/// The views of a vector of binds.
pub open spec fn bind_views(v: Seq<Bind>) -> Seq<BindView> {
    v.map_values(|b: Bind| b@)
}

fn edit_binds(content: &str, key: &Vec<char>, new_line: &Vec<char>, replace: bool) -> (r: (Vec<char>, bool))
    ensures
        (r.0@, r.1) == edit_from(text::lines(content@), 0, false, false, key@, new_line@, replace),
{
    let ls = text::lines_of(content);
    let ghost lv = text::views(ls@);
    let binds = text::lit("binds");
    let close = text::lit("}");
    let mut out: Vec<char> = Vec::new();
    let mut in_binds = false;
    let mut done = false;
    let mut i: usize = 0;
    while i < ls.len()
        invariant
            i <= ls.len(),
            lv == text::views(ls@),
            lv == text::lines(content@),
            binds@ == "binds"@,
            close@ == "}"@,
            edit_from(lv, 0, false, false, key@, new_line@, replace).1 == edit_from(lv, i as int, in_binds, done, key@, new_line@, replace).1,
            edit_from(lv, 0, false, false, key@, new_line@, replace).0 == out@ + edit_from(lv, i as int, in_binds, done, key@, new_line@, replace).0,
        decreases ls.len() - i,
    {
        let ghost o0 = out@;
        let l = &ls[i];
        let t = text::trimmed(l);
        assert(t@ == text::trim(lv[i as int]));
        assert(l@ == lv[i as int]);
        if text::has_prefix(&t, &binds) {
            in_binds = true;
            text::append(&mut out, l);
            out.push('\n');
        } else if in_binds && text::same(&t, &close) {
            in_binds = false;
            text::append(&mut out, l);
            out.push('\n');
        } else if in_binds && !done && line_matches_key(&t, key) {
            done = true;
            if replace {
                let w = text::leading_ws_of(l);
                text::append(&mut out, &w);
                text::append(&mut out, new_line);
                out.push('\n');
            }
        } else {
            text::append(&mut out, l);
            out.push('\n');
        }
        proof {
            let rest = edit_from(lv, i + 1, in_binds, done, key@, new_line@, replace).0;
            assert(o0 + (out@.skip(o0.len() as int) + rest) =~= out@ + rest);
            assert(out@ =~= o0 + out@.skip(o0.len() as int));
        }
        i += 1;
    }
    proof {
        assert(out@ + Seq::<char>::empty() =~= out@);
    }
    (out, done)
}

fn bind_line_of(key: &str, action_type: &str, command: &str, args: &str) -> (r: Vec<char>)
    ensures
        r@ == bind_line(key@, spec_action_line(action_type@, command@, args@)),
{
    let mut nl = text::chars_of(key);
    text::append(&mut nl, &text::lit(" { "));
    let a = action_line_of(&text::chars_of(action_type), &text::chars_of(command), &text::chars_of(args));
    text::append(&mut nl, &a);
    text::append(&mut nl, &text::lit("; }"));
    nl
}

fn binds_close_of(ls: &Vec<Vec<char>>) -> (r: Option<usize>)
    ensures
        match r {
            Some(p) => binds_close(text::views(ls@), 0, false) == Some(p as int) && p < ls.len(),
            None => binds_close(text::views(ls@), 0, false) is None,
        },
{
    let ghost lv = text::views(ls@);
    let binds = text::lit("binds");
    let close = text::lit("}");
    let mut in_binds = false;
    let mut i: usize = 0;
    while i < ls.len()
        invariant
            i <= ls.len(),
            lv == text::views(ls@),
            binds@ == "binds"@,
            close@ == "}"@,
            binds_close(lv, 0, false) == binds_close(lv, i as int, in_binds),
        decreases ls.len() - i,
    {
        let t = text::trimmed(&ls[i]);
        assert(t@ == text::trim(lv[i as int]));
        if text::has_prefix(&t, &binds) {
            in_binds = true;
        } else if in_binds && text::same(&t, &close) {
            return Some(i);
        }
        i += 1;
    }
    None
}

/// niri's shortcuts.
pub struct KeyboardService;

impl KeyboardService {
    /// The binds of the `binds` block.
    pub fn get_keybinds(content: &str) -> (r: Vec<Bind>)
        ensures
            bind_views(r@) == binds_from(text::lines(content@), 0, false),
    {
        let ls = text::lines_of(content);
        let ghost lv = text::views(ls@);
        let binds = text::lit("binds");
        let close = text::lit("}");
        let mut out: Vec<Bind> = Vec::new();
        let mut in_binds = false;
        let mut i: usize = 0;
        assert(bind_views(out@) =~= Seq::<BindView>::empty());
        while i < ls.len()
            invariant
                i <= ls.len(),
                lv == text::views(ls@),
                lv == text::lines(content@),
                binds@ == "binds"@,
                close@ == "}"@,
                binds_from(lv, 0, false) == bind_views(out@) + binds_from(lv, i as int, in_binds),
            decreases ls.len() - i,
        {
            let t = text::trimmed(&ls[i]);
            assert(t@ == text::trim(lv[i as int]));
            if text::has_prefix(&t, &binds) {
                in_binds = true;
            } else if in_binds && text::same(&t, &close) {
                assert(bind_views(out@) + Seq::<BindView>::empty() =~= bind_views(out@));
                return out;
            } else if in_binds {
                match parse_bind_of(&t) {
                    Some(b) => {
                        let ghost o0 = bind_views(out@);
                        let ghost bv = b@;
                        out.push(b);
                        assert(bind_views(out@) =~= o0.push(bv));
                        assert(o0 + (seq![bv] + binds_from(lv, i + 1, true)) =~= o0.push(bv) + binds_from(lv, i + 1, true));
                    },
                    None => {},
                }
            }
            i += 1;
        }
        assert(bind_views(out@) + Seq::<BindView>::empty() =~= bind_views(out@));
        out
    }

    /// Replaces the action of `key`'s bind, keeping its indentation; `None`
    /// when the block has no such bind.
    pub fn set_keybind(content: &str, key: &str, action_type: &str, command: &str, args: &str) -> (r: Option<String>)
        ensures
            match r {
                Some(x) => spec_set_keybind(content@, key@, action_type@, command@, args@) == Some(x@),
                None => spec_set_keybind(content@, key@, action_type@, command@, args@) is None,
            },
    {
        let nl = bind_line_of(key, action_type, command, args);
        let k = text::chars_of(key);
        let (out, done) = edit_binds(content, &k, &nl, true);
        if done {
            Some(text::string_of(&out))
        } else {
            None
        }
    }

    /// Removes `key`'s bind; `None` when the block has no such bind.
    pub fn remove_keybind(content: &str, key: &str) -> (r: Option<String>)
        ensures
            match r {
                Some(x) => spec_remove_keybind(content@, key@) == Some(x@),
                None => spec_remove_keybind(content@, key@) is None,
            },
    {
        let k = text::chars_of(key);
        let empty: Vec<char> = Vec::new();
        let (out, done) = edit_binds(content, &k, &empty, false);
        if done {
            Some(text::string_of(&out))
        } else {
            None
        }
    }

    /// Adds a bind (see `spec_add_keybind`).
    pub fn add_keybind(content: &str, key: &str, action_type: &str, command: &str, args: &str) -> (r: String)
        ensures
            r@ == spec_add_keybind(content@, key@, action_type@, command@, args@),
    {
        let ls = text::lines_of(content);
        let ghost lv = text::views(ls@);
        assert(lv == text::lines(content@));
        let mut line = text::lit("    ");
        let bl = bind_line_of(key, action_type, command, args);
        text::append(&mut line, &bl);
        let pos = binds_close_of(&ls);
        let ghost ln = line@;
        let out = match pos {
            Some(p) => {
                let mut o = crate::services::kdl::prefix(&ls, ls.len());
                assert(lv.take(ls.len() as int) =~= lv);
                assert(text::views(o@).len() == o@.len());
                o.insert(p, line);
                assert(text::views(o@) =~= lv.insert(p as int, ln));
                o
            },
            None => {
                let mut o = crate::services::kdl::prefix(&ls, ls.len());
                assert(lv.take(ls.len() as int) =~= lv);
                o.push(Vec::new());
                o.push(text::lit("binds {"));
                o.push(line);
                o.push(text::lit("}"));
                assert(text::views(o@) =~= lv + seq![seq![], "binds {"@, ln, "}"@]);
                o
            },
        };
        let mut v = {
            let mut sep: Vec<char> = Vec::new();
            sep.push('\n');
            assert(sep@ =~= text::nl());
            text::join_with(&out, &sep)
        };
        v.push('\n');
        assert(v@ =~= spec_add_keybind(content@, key@, action_type@, command@, args@));
        text::string_of(&v)
    }
}

// ---------------------------------------------------------------- reading back an added bind

/// `binds_from` reads each line by its trim alone.
proof fn lemma_binds_from_strip(ls: Seq<Seq<char>>, i: int, in_binds: bool)
    requires
        0 <= i,
    ensures
        binds_from(ls.map_values(|l: Seq<char>| text::strip_cr(l)), i, in_binds) == binds_from(ls, i, in_binds),
    decreases ls.len() - i,
{
    let m = ls.map_values(|l: Seq<char>| text::strip_cr(l));
    if i < ls.len() {
        assert(m[i] == text::strip_cr(ls[i]));
        text::lemma_trim_strip_cr(ls[i]);
        lemma_binds_from_strip(ls, i + 1, true);
        lemma_binds_from_strip(ls, i + 1, false);
    }
}

/// The closing line found is at or after where the search starts.
proof fn lemma_binds_close_from(ls: Seq<Seq<char>>, i: int, in_binds: bool)
    ensures
        match binds_close(ls, i, in_binds) {
            Some(q) => i <= q,
            None => true,
        },
    decreases ls.len() - i,
{
    if 0 <= i < ls.len() {
        lemma_binds_close_from(ls, i + 1, true);
        lemma_binds_close_from(ls, i + 1, in_binds);
    }
}

/// The added line, placed before the closing line of the `binds` block, is
/// read as a bind.
proof fn lemma_found_before_close(
    ls: Seq<Seq<char>>,
    out: Seq<Seq<char>>,
    i: int,
    in_binds: bool,
    p: int,
    bind: BindView,
)
    requires
        0 <= i <= p < ls.len(),
        binds_close(ls, i, in_binds) == Some(p),
        out.len() > p,
        forall|k: int| 0 <= k < p ==> #[trigger] out[k] == ls[k],
        !text::starts_with(text::trim(out[p]), "binds"@),
        text::trim(out[p]) != "}"@,
        spec_parse_bind_line(text::trim(out[p])) == Some(bind),
    ensures
        binds_from(out, i, in_binds).contains(bind),
    decreases p - i,
{
    let t = text::trim(ls[i]);
    if i == p {
        lemma_binds_close_from(ls, i + 1, true);
        lemma_binds_close_from(ls, i + 1, in_binds);
        assert(in_binds);
        assert(binds_from(out, i, true) == seq![bind] + binds_from(out, i + 1, true));
        assert((seq![bind] + binds_from(out, i + 1, true))[0] == bind);
    } else {
        assert(out[i] == ls[i]);
        if text::starts_with(t, "binds"@) {
            lemma_found_before_close(ls, out, i + 1, true, p, bind);
        } else {
            lemma_found_before_close(ls, out, i + 1, in_binds, p, bind);
            if in_binds {
                match spec_parse_bind_line(t) {
                    Some(b) => {
                        let rest = binds_from(out, i + 1, true);
                        let j = choose|j: int| 0 <= j < rest.len() && rest[j] == bind;
                        assert((seq![b] + rest)[j + 1] == bind);
                    },
                    None => {},
                }
            }
        }
    }
}

/// The added line, in a new `binds` block after the lines, is read as a
/// bind when no `binds` block closed before.
proof fn lemma_found_in_new_block(ls: Seq<Seq<char>>, out: Seq<Seq<char>>, i: int, in_binds: bool, line: Seq<char>, bind: BindView)
    requires
        0 <= i <= ls.len(),
        binds_close(ls, i, in_binds) is None,
        out == ls + seq![seq![], "binds {"@, line, "}"@],
        !text::starts_with(text::trim(line), "binds"@),
        text::trim(line) != "}"@,
        spec_parse_bind_line(text::trim(line)) == Some(bind),
    ensures
        binds_from(out, i, in_binds).contains(bind),
    decreases ls.len() - i,
{
    reveal_strlit("binds {");
    reveal_strlit("binds");
    reveal_strlit("}");
    if i == ls.len() {
        let n = ls.len() as int;
        assert(out[n] == Seq::<char>::empty());
        assert(out[n + 1] == "binds {"@);
        assert(out[n + 2] == line);
        assert(text::trim(Seq::<char>::empty()) =~= Seq::<char>::empty());
        assert(!text::starts_with(Seq::<char>::empty(), "binds"@));
        assert(text::index_of(Seq::<char>::empty(), '{') == 0);
        let h = "binds {"@;
        assert(!text::is_ws(h[0]));
        assert(!text::is_ws(h.last()));
        assert(text::trim_start(h) == h);
        assert(text::trim_end(h) == h);
        assert(text::trim(h) == h);
        assert(text::starts_with(h, "binds"@)) by {
            assert(h.take(5) =~= "binds"@);
        }
        assert(binds_from(out, n + 2, true) == seq![bind] + binds_from(out, n + 3, true));
        assert((seq![bind] + binds_from(out, n + 3, true))[0] == bind);
        assert(binds_from(out, n + 1, true) == binds_from(out, n + 2, true));
        assert(binds_from(out, n + 1, false) == binds_from(out, n + 2, true));
    } else {
        let t = text::trim(ls[i]);
        assert(out[i] == ls[i]);
        if text::starts_with(t, "binds"@) {
            lemma_found_in_new_block(ls, out, i + 1, true, line, bind);
        } else {
            lemma_found_in_new_block(ls, out, i + 1, in_binds, line, bind);
            if in_binds {
                match spec_parse_bind_line(t) {
                    Some(b) => {
                        let rest = binds_from(out, i + 1, true);
                        let j = choose|j: int| 0 <= j < rest.len() && rest[j] == bind;
                        assert((seq![b] + rest)[j + 1] == bind);
                    },
                    None => {},
                }
            }
        }
    }
}

/// One word: not empty, no white space, no `{`.
pub open spec fn one_word(key: Seq<char>) -> bool {
    key.len() > 0 && forall|j: int| 0 <= j < key.len() ==> !text::is_ws(#[trigger] key[j]) && key[j] != '{'
}

/// The added line reads as a bind of `key`.
proof fn lemma_new_line(key: Seq<char>, action: Seq<char>)
    requires
        spec_valid_key(key),
        one_word(key),
    ensures
        text::trim("    "@ + bind_line(key, action)) == bind_line(key, action),
        !text::starts_with(bind_line(key, action), "binds"@),
        bind_line(key, action) != "}"@,
        spec_parse_bind_line(bind_line(key, action)) is Some,
        spec_parse_bind_line(bind_line(key, action)).unwrap().0 == key,
{
    reveal_strlit("    ");
    reveal_strlit(" { ");
    reveal_strlit("; }");
    reveal_strlit("binds");
    reveal_strlit("}");
    reveal_strlit("Mod");
    reveal_strlit("XF86");
    reveal_strlit("Print");
    reveal_strlit("Ctrl+Print");
    reveal_strlit("Alt+Print");
    let s = bind_line(key, action);
    let w = "    "@;
    assert forall|j: int| 0 <= j < w.len() implies text::is_ws(#[trigger] w[j]) by {}
    assert(!text::is_ws(s[0])) by {
        assert(s[0] == key[0]);
    }
    text::lemma_trim_start_after_ws(w, s);
    assert(s.last() == '}');
    assert(!text::is_ws(s.last()));
    assert(text::trim_end(s) == s);
    assert(text::trim("    "@ + s) == s);
    assert(text::trim_start(s) == s);
    assert(text::trim(s) == s);
    assert(!text::starts_with(s, "binds"@)) by {
        if text::starts_with(s, "binds"@) {
            assert(s[0] == key[0]);
            assert(s.take(5)[0] == 'b');
            assert(key[0] == 'b');
            assert(key[0] == 'M' || key[0] == 'P' || key[0] == 'C' || key[0] == 'A' || key[0] == 'X') by {
                if text::starts_with(key, "Mod"@) {
                    assert(key.take(3)[0] == key[0]);
                } else if text::starts_with(key, "XF86"@) {
                    assert(key.take(4)[0] == key[0]);
                }
            }
        }
    }
    assert(s.len() > 1);
    // the first `{` is the one after the key
    let open = key.len() + 1 as int;
    assert(s[open] == '{');
    assert forall|j: int| 0 <= j < open implies s[j] != '{' by {
        if j < key.len() {
            assert(s[j] == key[j]);
        }
    }
    text::lemma_index_of_char(s, '{', open);
    assert(last_index(s, '}') == Some(s.len() - 1));
    let head = s.take(open);
    assert(head =~= key + seq![' ']);
    // the head trims to the key, which is one word
    assert(text::is_ws(head.last()));
    text::lemma_trim_drop_ws_last(head);
    assert(head.drop_last() =~= key);
    assert(text::trim_start(key) == key);
    text::lemma_trim_end_shape(key);
    assert(!text::is_ws(key.last()));
    assert(text::trim_end(key) == key);
    assert(text::trim(head) == key);
    text::lemma_first_ws(key);
    assert(text::first_ws(key) == key.len()) by {
        if text::first_ws(key) < key.len() {
            assert(text::is_ws(key[text::first_ws(key) as int]));
        }
    }
    assert(key.take(key.len() as int) =~= key);
    assert(key.skip(key.len() as int) =~= Seq::<char>::empty());
    assert(text::words(key.skip(key.len() as int)) == Seq::<Seq<char>>::empty());
    assert(text::words(key) =~= seq![key]);
}

/// A bind that `add_keybind` writes, `get_keybinds` reads back: after a
/// bind of a valid key that is one word (no white space, no `{`) is added
/// with an action line that holds no line break, the binds read from the
/// new text include the added line's bind, whose key is `key`.
pub proof fn law_added_bind_is_listed(content: Seq<char>, key: Seq<char>, action_type: Seq<char>, command: Seq<char>, args: Seq<char>)
    requires
        spec_valid_key(key),
        one_word(key),
        forall|j: int| 0 <= j < spec_action_line(action_type, command, args).len() ==> #[trigger] spec_action_line(action_type, command, args)[j] != '\n',
    ensures
        ({
            let b = spec_parse_bind_line(bind_line(key, spec_action_line(action_type, command, args)));
            &&& b is Some
            &&& b.unwrap().0 == key
            &&& binds_from(text::lines(spec_add_keybind(content, key, action_type, command, args)), 0, false).contains(b.unwrap())
        }),
{
    reveal_strlit("    ");
    reveal_strlit(" { ");
    reveal_strlit("; }");
    reveal_strlit("binds {");
    reveal_strlit("}");
    let action = spec_action_line(action_type, command, args);
    let ls = text::lines(content);
    let line = "    "@ + bind_line(key, action);
    lemma_new_line(key, action);
    let bind = spec_parse_bind_line(bind_line(key, action)).unwrap();
    assert(spec_parse_bind_line(text::trim(line)) == Some(bind));
    text::lemma_lines_no_nl(content);
    assert forall|j: int| 0 <= j < line.len() implies #[trigger] line[j] != '\n' by {
        let s = bind_line(key, action);
        if j >= 4 {
            assert(line[j] == s[j - 4]);
            if j - 4 < key.len() {
                assert(s[j - 4] == key[j - 4]);
            } else if j - 4 >= key.len() + 3 && j - 4 < key.len() + 3 + action.len() {
                assert(s[j - 4] == action[j - 4 - key.len() - 3]);
            }
        }
    }
    lemma_binds_close_from(ls, 0, false);
    lemma_binds_close_bound(ls, 0, false);
    let out = match binds_close(ls, 0, false) {
        Some(p) => ls.insert(p, line),
        None => ls + seq![seq![], "binds {"@, line, "}"@],
    };
    assert(out.len() >= 1);
    assert forall|a: int, b: int| 0 <= a < out.len() && 0 <= b < out[a].len() implies #[trigger] out[a][b] != '\n' by {
        match binds_close(ls, 0, false) {
            Some(p) => {
                lemma_binds_close_from(ls, 0, false);
                if a < p {
                    assert(out[a] == ls[a]);
                } else if a == p {
                    assert(out[a] == line);
                } else {
                    assert(out[a] == ls[a - 1]);
                }
            },
            None => {
                if a < ls.len() {
                    assert(out[a] == ls[a]);
                } else if a == ls.len() + 1 {
                    assert(out[a] == "binds {"@);
                } else if a == ls.len() + 3 {
                    assert(out[a] == "}"@);
                }
            },
        }
    }
    text::lemma_lines_of_joined(out);
    assert(spec_add_keybind(content, key, action_type, command, args) == text::join(out, text::nl()) + text::nl());
    lemma_binds_from_strip(out, 0, false);
    match binds_close(ls, 0, false) {
        Some(p) => {
            lemma_binds_close_from(ls, 0, false);
            assert(p < ls.len()) by {
                lemma_binds_close_bound(ls, 0, false);
            }
            assert forall|k: int| 0 <= k < p implies #[trigger] out[k] == ls[k] by {}
            assert(out[p] == line);
            lemma_found_before_close(ls, out, 0, false, p, bind);
        },
        None => {
            lemma_found_in_new_block(ls, out, 0, false, line, bind);
        },
    }
}

proof fn lemma_binds_close_bound(ls: Seq<Seq<char>>, i: int, in_binds: bool)
    ensures
        match binds_close(ls, i, in_binds) {
            Some(q) => q < ls.len(),
            None => true,
        },
    decreases ls.len() - i,
{
    if 0 <= i < ls.len() {
        lemma_binds_close_bound(ls, i + 1, true);
        lemma_binds_close_bound(ls, i + 1, in_binds);
    }
}

} // verus!
