//! The lock screen (`~/.config/churros/lock_screen.json`): its settings,
//! the `swaylock` command they make, and the `swayidle` command that locks
//! after a timeout. Reading and writing the file, and running the commands,
//! stay outside.
use vstd::prelude::*;
use crate::text;
use crate::num;
use crate::services::settings::{self, Json, JsonV, member_at, as_str, as_i64, as_bool};

verus! {

// ---------------------------------------------------------------- model

/// The settings of a first start.
pub open spec fn spec_lock_defaults() -> JsonV {
    JsonV::Obj(seq![
        ("enabled"@, JsonV::Bool(false)),
        ("timeout_seconds"@, JsonV::Num("600"@)),
        ("indicator"@, JsonV::Str("auto"@)),
        ("wallpaper_path"@, JsonV::Str(seq![])),
        ("screenshot"@, JsonV::Bool(false)),
        ("fade_in"@, JsonV::Num("200"@)),
        ("grace"@, JsonV::Num("0"@)),
        ("font"@, JsonV::Str("JetBrainsMono Nerd Font"@)),
        ("font_size"@, JsonV::Num("24"@)),
        ("ring_color"@, JsonV::Str("7aa2f7ff"@)),
        ("inside_color"@, JsonV::Str("00000088"@)),
        ("key_hl_color"@, JsonV::Str("bb9af7ff"@)),
        ("bs_color"@, JsonV::Str("f7768eff"@)),
        ("separator_color"@, JsonV::Str("00000000"@)),
    ])
}

/// The settings: the defaults with the members of the file set over them
/// (the defaults alone when the file did not parse or is not an object).
pub open spec fn spec_read_data(parsed: Option<JsonV>) -> JsonV {
    match (spec_lock_defaults(), parsed) {
        (JsonV::Obj(d), Some(JsonV::Obj(u))) => JsonV::Obj(settings::merge_members(d, u)),
        (d, _) => d,
    }
}

/// The settings with the members of `updates` set (when both are objects).
pub open spec fn spec_set_all(data: JsonV, updates: JsonV) -> JsonV {
    match (data, updates) {
        (JsonV::Obj(m), JsonV::Obj(u)) => JsonV::Obj(settings::merge_members(m, u)),
        (d, _) => d,
    }
}

/// What `set_all` writes reads back: a setting that the updates name reads
/// as the (last) value they give it, any other as before.
pub proof fn law_get_after_set_all(data: JsonV, updates: Seq<(Seq<char>, JsonV)>, key: Seq<char>)
    requires
        data is Obj,
    ensures
        member_at(spec_set_all(data, JsonV::Obj(updates)), key) == match settings::last_value(updates, key) {
            Some(v) => Some(v),
            None => member_at(data, key),
        },
{
    match data {
        JsonV::Obj(m) => settings::lemma_lookup_merge(m, updates, key),
        _ => {},
    }
}

/// The file's settings win over the defaults: a setting of the file reads
/// as the (last) value the file gives it, any other as its default.
pub proof fn law_file_over_defaults(file: Seq<(Seq<char>, JsonV)>, key: Seq<char>)
    ensures
        member_at(spec_read_data(Some(JsonV::Obj(file))), key) == match settings::last_value(file, key) {
            Some(v) => Some(v),
            None => member_at(spec_lock_defaults(), key),
        },
{
    match spec_lock_defaults() {
        JsonV::Obj(d) => settings::lemma_lookup_merge(d, file, key),
        _ => {},
    }
}

/// A string member, or the empty text.
pub open spec fn str_or_empty(v: Option<JsonV>) -> Seq<char> {
    match as_str(v) {
        Some(s) => s,
        None => seq![],
    }
}

/// A colour argument: the flag and the colour without its leading `#`s,
/// when the colour is set.
pub open spec fn with_color(c: Seq<Seq<char>>, data: JsonV, key: Seq<char>, flag: Seq<char>) -> Seq<Seq<char>> {
    let v = str_or_empty(member_at(data, key));
    if v.len() > 0 {
        c.push(flag).push(text::trim_start_char(v, '#'))
    } else {
        c
    }
}

/// An integer argument, when the member is a non-zero integer.
pub open spec fn with_int(c: Seq<Seq<char>>, data: JsonV, key: Seq<char>, flag: Seq<char>) -> Seq<Seq<char>> {
    match as_i64(member_at(data, key)) {
        Some(v) => if v != 0 {
            c.push(flag).push(num::dec(v))
        } else {
            c
        },
        None => c,
    }
}

/// The `swaylock` command of the settings. The wallpaper is passed only
/// when it names a file (`wallpaper_is_file`, which the caller checks).
/// `none` hides the indicator; the other indicators are the default ring.
pub open spec fn swaylock_args(data: JsonV, wallpaper_is_file: bool) -> Seq<Seq<char>> {
    let indicator = match as_str(member_at(data, "indicator"@)) {
        Some(s) => s,
        None => "auto"@,
    };
    let c0 = seq!["swaylock"@];
    let c1 = if indicator == "none"@ { c0.push("-u"@) } else { c0 };
    let wp = str_or_empty(member_at(data, "wallpaper_path"@));
    let c2 = if wp.len() > 0 && wallpaper_is_file { c1.push("-i"@).push(wp) } else { c1 };
    let c3 = if as_bool(member_at(data, "screenshot"@)) == Some(true) { c2.push("-f"@) } else { c2 };
    let c4 = with_int(c3, data, "fade_in"@, "-F"@);
    let c5 = with_int(c4, data, "grace"@, "-g"@);
    let font = str_or_empty(member_at(data, "font"@));
    let size = match as_i64(member_at(data, "font_size"@)) {
        Some(v) => v,
        None => 24,
    };
    let c6 = if font.len() > 0 { c5.push("--font"@).push(font) } else { c5 };
    let c7 = if size != 0 { c6.push("--font-size"@).push(num::dec(size)) } else { c6 };
    let c8 = with_color(c7, data, "ring_color"@, "-r"@);
    let c9 = with_color(c8, data, "inside_color"@, "-s"@);
    let c10 = with_color(c9, data, "key_hl_color"@, "-k"@);
    let c11 = with_color(c10, data, "bs_color"@, "-b"@);
    with_color(c11, data, "separator_color"@, "-n"@)
}

/// A character that `sh` reads as itself.
pub open spec fn is_plain_char(c: char) -> bool {
    ('a' <= c <= 'z') || ('A' <= c <= 'Z') || ('0' <= c <= '9') || c == '/' || c == '.' || c == '_' || c == '-'
        || c == '+' || c == '@' || c == '%' || c == ':'
}

/// An argument as `sh -c` must see it, one word: as it is when it is not
/// empty and every character is plain, else in single quotes with each `'`
/// written `'\''` (the empty argument is `''`).
pub open spec fn sh_quoted(a: Seq<char>) -> Seq<char> {
    if a.len() > 0 && forall|i: int| 0 <= i < a.len() ==> is_plain_char(#[trigger] a[i]) {
        a
    } else {
        seq!['\''] + text::replace_all(a, seq!['\''], "'\\''"@) + seq!['\'']
    }
}

/// The word that `sh` reads from `s`, for the part of its grammar that
/// quoting uses: plain characters stand for themselves, `'...'` for what it
/// holds, `\c` outside quotes for `c`. `None` where `s` holds anything else
/// outside quotes (white space ends a word; other characters may be special)
/// or ends inside quotes.
pub open spec fn sh_read(s: Seq<char>, quoted: bool) -> Option<Seq<char>>
    decreases s.len(),
{
    if s.len() == 0 {
        if quoted {
            None
        } else {
            Some(seq![])
        }
    } else if s[0] == '\'' {
        sh_read(s.drop_first(), !quoted)
    } else if quoted || is_plain_char(s[0]) {
        match sh_read(s.drop_first(), quoted) {
            Some(w) => Some(seq![s[0]] + w),
            None => None,
        }
    } else if s[0] == '\\' && s.len() >= 2 {
        match sh_read(s.skip(2), false) {
            Some(w) => Some(seq![s[1]] + w),
            None => None,
        }
    } else {
        None
    }
}

/// The one word that `sh` reads from a non-empty `s`.
pub open spec fn sh_word(s: Seq<char>) -> Option<Seq<char>> {
    if s.len() > 0 {
        sh_read(s, false)
    } else {
        None
    }
}

/// Plain characters read as themselves.
proof fn lemma_sh_read_plain(a: Seq<char>)
    requires
        forall|i: int| 0 <= i < a.len() ==> is_plain_char(#[trigger] a[i]),
    ensures
        sh_read(a, false) == Some(a),
    decreases a.len(),
{
    if a.len() > 0 {
        assert(is_plain_char(a[0]));
        assert forall|i: int| 0 <= i < a.drop_first().len() implies is_plain_char(#[trigger] a.drop_first()[i]) by {
            assert(a.drop_first()[i] == a[i + 1]);
        }
        lemma_sh_read_plain(a.drop_first());
        assert(seq![a[0]] + a.drop_first() =~= a);
    }
}

/// Inside quotes, the text with each `'` written `'\''`, then the closing
/// `'`, reads as the text.
proof fn lemma_sh_read_quoted(a: Seq<char>)
    ensures
        sh_read(text::replace_all(a, seq!['\''], "'\\''"@) + seq!['\''], true) == Some(a),
    decreases a.len(),
{
    reveal_strlit("'\\''");
    let q = seq!['\''];
    let rep: Seq<char> = "'\\''"@;
    let r = text::replace_all(a, q, rep);
    let s = r + q;
    if a.len() == 0 {
        assert(r == a);
        assert(s =~= q);
        let e: Seq<char> = seq![];
        assert(q.drop_first() =~= e);
        assert(sh_read(e, false) == Some(e));
        assert(sh_read(q, true) == sh_read(q.drop_first(), false));
        assert(a =~= e);
    } else {
        let r2 = text::replace_all(a.drop_first(), q, rep);
        lemma_sh_read_quoted(a.drop_first());
        assert(a.skip(1) =~= a.drop_first());
        if a[0] == '\'' {
            assert(text::starts_with(a, q)) by {
                assert(a.take(1) =~= q);
            }
            assert(r == rep + r2);
            assert(s.drop_first() =~= seq!['\\', '\'', '\''] + r2 + q);
            assert(s.drop_first().skip(2) =~= seq!['\''] + r2 + q);
            assert(s.drop_first().skip(2).drop_first() =~= r2 + q);
            let d = s.drop_first();
            assert(sh_read(d.skip(2), false) == sh_read(d.skip(2).drop_first(), true));
            assert(sh_read(d.skip(2), false) == Some(a.drop_first()));
            assert(d[0] == '\\' && d[1] == '\'' && !is_plain_char(d[0]));
            assert(sh_read(d, false) == Some(seq![d[1]] + a.drop_first()));
            assert(sh_read(s, true) == sh_read(d, false));
            assert(seq!['\''] + a.drop_first() =~= a);
        } else {
            assert(!text::starts_with(a, q)) by {
                assert(a.take(1)[0] != q[0]);
            }
            assert(r == seq![a[0]] + r2);
            assert(s.drop_first() =~= r2 + q);
            assert(s[0] == a[0]);
            assert(sh_read(s, true) == Some(seq![a[0]] + a.drop_first()));
            assert(seq![a[0]] + a.drop_first() =~= a);
        }
    }
}

/// A quoted argument reads back: `sh` reads `sh_quoted(a)` as one word,
/// `a` itself, for every argument, the empty one included.
pub proof fn law_sh_quoted_reads_back(a: Seq<char>)
    ensures
        sh_word(sh_quoted(a)) == Some(a),
{
    if a.len() > 0 && forall|i: int| 0 <= i < a.len() ==> is_plain_char(#[trigger] a[i]) {
        lemma_sh_read_plain(a);
    } else {
        let q = seq!['\''];
        let inner = text::replace_all(a, q, "'\\''"@);
        lemma_sh_read_quoted(a);
        assert((q + inner + q).drop_first() =~= inner + q);
    }
}

/// The `swayidle` command that locks after the timeout: none unless the
/// lock is enabled and both programs are there.
pub open spec fn spec_idle_command(
    data: JsonV,
    wallpaper_is_file: bool,
    idle_available: bool,
    lock_available: bool,
) -> Option<Seq<Seq<char>>> {
    if as_bool(member_at(data, "enabled"@)) != Some(true) || !idle_available || !lock_available {
        None
    } else {
        let timeout = match as_i64(member_at(data, "timeout_seconds"@)) {
            Some(v) => v,
            None => 600,
        };
        let joined = text::join(swaylock_args(data, wallpaper_is_file).map_values(|a: Seq<char>| sh_quoted(a)), " "@);
        Some(seq!["swayidle"@, "-w"@, "timeout"@, num::dec(timeout), joined])
    }
}

// ---------------------------------------------------------------- exec

fn member_ref<'a>(e: &'a Json, k: &str) -> (r: Option<&'a Json>)
    ensures
        match r {
            Some(x) => member_at(e@, k@) == Some(x@),
            None => member_at(e@, k@) is None,
        },
{
    match e {
        Json::Object(m) => {
            let i = settings::member_of(m, &text::lit(k));
            proof {
                settings::lemma_jv_members(m@);
                settings::lemma_member_index(settings::jv_members(m@), k@);
            }
            if i < m.len() {
                Some(&m[i].1)
            } else {
                None
            }
        },
        _ => None,
    }
}

pub open spec fn opt_jv(o: Option<&Json>) -> Option<JsonV> {
    match o {
        Some(x) => Some(x@),
        None => None,
    }
}

fn str_of(v: Option<&Json>) -> (r: Vec<char>)
    ensures
        r@ == str_or_empty(opt_jv(v)),
{
    match v {
        Some(Json::Str(s)) => text::chars_of(s.as_str()),
        _ => Vec::new(),
    }
}

fn int_of(v: Option<&Json>) -> (r: Option<i64>)
    ensures
        match r {
            Some(x) => as_i64(opt_jv(v)) == Some(x as int),
            None => as_i64(opt_jv(v)) is None,
        },
{
    match v {
        Some(Json::Number(n)) => num::parse_i64(&text::chars_of(n.as_str())),
        _ => None,
    }
}

fn flag_of(v: Option<&Json>) -> (r: Option<bool>)
    ensures
        r == as_bool(opt_jv(v)),
{
    match v {
        Some(Json::Bool(b)) => Some(*b),
        _ => None,
    }
}

fn push_str(c: &mut Vec<String>, s: &str)
    ensures
        text::string_views(final(c)@) == text::string_views(old(c)@).push(s@),
{
    let ghost c0 = text::string_views(c@);
    c.push(s.to_string());
    assert(text::string_views(c@) =~= c0.push(s@));
}

fn push_chars(c: &mut Vec<String>, s: &Vec<char>)
    ensures
        text::string_views(final(c)@) == text::string_views(old(c)@).push(s@),
{
    let ghost c0 = text::string_views(c@);
    c.push(text::string_of(s));
    assert(text::string_views(c@) =~= c0.push(s@));
}

fn push_color(c: &mut Vec<String>, data: &Json, key: &str, flag: &str)
    ensures
        text::string_views(final(c)@) == with_color(text::string_views(old(c)@), data@, key@, flag@),
{
    let v = str_of(member_ref(data, key));
    if v.len() > 0 {
        push_str(c, flag);
        push_chars(c, &text::cut_start_char(&v, '#'));
    }
}

fn push_int(c: &mut Vec<String>, data: &Json, key: &str, flag: &str)
    ensures
        text::string_views(final(c)@) == with_int(text::string_views(old(c)@), data@, key@, flag@),
{
    match int_of(member_ref(data, key)) {
        Some(v) => if v != 0 {
            push_str(c, flag);
            push_chars(c, &num::i64_to_chars(v));
        },
        None => {},
    }
}

fn swaylock_of(data: &Json, wallpaper_is_file: bool) -> (r: Vec<String>)
    ensures
        text::string_views(r@) == swaylock_args(data@, wallpaper_is_file),
{
    let mut c: Vec<String> = Vec::new();
    push_str(&mut c, "swaylock");
    assert(text::string_views(c@) =~= seq!["swaylock"@]);
    let indicator = match member_ref(data, "indicator") {
        Some(Json::Str(s)) => text::chars_of(s.as_str()),
        _ => text::lit("auto"),
    };
    if text::same(&indicator, &text::lit("none")) {
        push_str(&mut c, "-u");
    }
    let wp = str_of(member_ref(data, "wallpaper_path"));
    if wp.len() > 0 && wallpaper_is_file {
        push_str(&mut c, "-i");
        push_chars(&mut c, &wp);
    }
    if flag_of(member_ref(data, "screenshot")) == Some(true) {
        push_str(&mut c, "-f");
    }
    push_int(&mut c, data, "fade_in", "-F");
    push_int(&mut c, data, "grace", "-g");
    let font = str_of(member_ref(data, "font"));
    let size: i64 = match int_of(member_ref(data, "font_size")) {
        Some(v) => v,
        None => 24,
    };
    if font.len() > 0 {
        push_str(&mut c, "--font");
        push_chars(&mut c, &font);
    }
    if size != 0 {
        push_str(&mut c, "--font-size");
        push_chars(&mut c, &num::i64_to_chars(size));
    }
    push_color(&mut c, data, "ring_color", "-r");
    push_color(&mut c, data, "inside_color", "-s");
    push_color(&mut c, data, "key_hl_color", "-k");
    push_color(&mut c, data, "bs_color", "-b");
    push_color(&mut c, data, "separator_color", "-n");
    c
}

fn plain(c: char) -> (r: bool)
    ensures
        r == is_plain_char(c),
{
    ('a' <= c && c <= 'z') || ('A' <= c && c <= 'Z') || ('0' <= c && c <= '9') || c == '/' || c == '.' || c == '_'
        || c == '-' || c == '+' || c == '@' || c == '%' || c == ':'
}

fn quote_of(a: &Vec<char>) -> (r: Vec<char>)
    ensures
        r@ == sh_quoted(a@),
{
    let mut i: usize = 0;
    while i < a.len()
        invariant
            i <= a.len(),
            forall|k: int| 0 <= k < i ==> is_plain_char(#[trigger] a@[k]),
        decreases a.len() - i,
    {
        if !plain(a[i]) {
            let mut q: Vec<char> = Vec::new();
            q.push('\'');
            let mut from: Vec<char> = Vec::new();
            from.push('\'');
            let body = text::replace_chars(a, &from, &text::lit("'\\''"));
            text::append(&mut q, &body);
            q.push('\'');
            assert(q@ =~= seq!['\''] + body@ + seq!['\'']);
            assert(!is_plain_char(a@[i as int]));
            return q;
        }
        i += 1;
    }
    if a.len() == 0 {
        let mut q: Vec<char> = Vec::new();
        q.push('\'');
        q.push('\'');
        proof {
            assert(text::replace_all(a@, seq!['\''], "'\\''"@) =~= Seq::<char>::empty());
            assert(q@ =~= seq!['\''] + Seq::<char>::empty() + seq!['\'']);
            assert(a@ =~= Seq::<char>::empty());
        }
        return q;
    }
    text::slice(a, 0, a.len())
}

/// The lock screen's services.
pub struct LockScreenService;

impl LockScreenService {
    /// The settings of a first start.
    pub fn defaults() -> (r: Json)
        ensures
            r@ == spec_lock_defaults(),
    {
        let mut m: Vec<(String, Json)> = Vec::new();
        assert(settings::jv_members(m@) =~= Seq::<(Seq<char>, JsonV)>::empty());
        m = settings::with_member(m, "enabled", Json::Bool(false));
        m = settings::with_member(m, "timeout_seconds", Json::Number("600".to_string()));
        m = settings::with_member(m, "indicator", Json::Str("auto".to_string()));
        m = settings::with_member(m, "wallpaper_path", Json::Str(String::new()));
        m = settings::with_member(m, "screenshot", Json::Bool(false));
        m = settings::with_member(m, "fade_in", Json::Number("200".to_string()));
        m = settings::with_member(m, "grace", Json::Number("0".to_string()));
        m = settings::with_member(m, "font", Json::Str("JetBrainsMono Nerd Font".to_string()));
        m = settings::with_member(m, "font_size", Json::Number("24".to_string()));
        m = settings::with_member(m, "ring_color", Json::Str("7aa2f7ff".to_string()));
        m = settings::with_member(m, "inside_color", Json::Str("00000088".to_string()));
        m = settings::with_member(m, "key_hl_color", Json::Str("bb9af7ff".to_string()));
        m = settings::with_member(m, "bs_color", Json::Str("f7768eff".to_string()));
        m = settings::with_member(m, "separator_color", Json::Str("00000000".to_string()));
        assert(settings::jv_members(m@) =~= match spec_lock_defaults() {
            JsonV::Obj(d) => d,
            _ => seq![],
        });
        Json::Object(m)
    }

    /// The settings, from the file's JSON (none when it could not be read
    /// or parsed): the defaults with the file's members set over them.
    pub fn read_data(parsed: Option<Json>) -> (r: Json)
        ensures
            r@ == spec_read_data(match parsed {
                Some(j) => Some(j@),
                None => None,
            }),
    {
        let d = Self::defaults();
        match (d, parsed) {
            (Json::Object(dm), Some(Json::Object(u))) => Json::Object(settings::merge_of(dm, &u)),
            (d, _) => d,
        }
    }

    /// The settings from the file's text (`None` when it could not be read):
    /// the defaults with the members of the JSON object it holds set over
    /// them.
    pub fn read_data_of(text: Option<&str>) -> (r: Json)
        ensures
            r@ == spec_read_data(settings::parsed_text(text::opt_view(text))),
    {
        Self::read_data(settings::parse_text(text))
    }

    /// A setting, or `default` when it is missing.
    pub fn get(data: &Json, key: &str, default: Json) -> (r: Json)
        ensures
            r@ == match member_at(data@, key@) {
                Some(v) => v,
                None => default@,
            },
    {
        match member_ref(data, key) {
            Some(v) => settings::copy_json(v),
            None => default,
        }
    }

    /// The settings with the members of `updates` set (when both are
    /// objects).
    pub fn set_all(data: Json, updates: &Json) -> (r: Json)
        ensures
            r@ == spec_set_all(data@, updates@),
    {
        match (data, updates) {
            (Json::Object(m), Json::Object(u)) => Json::Object(settings::merge_of(m, u)),
            (d, _) => d,
        }
    }

    /// Whether the lock is enabled.
    pub fn is_enabled(data: &Json) -> (r: bool)
        ensures
            r == (as_bool(member_at(data@, "enabled"@)) == Some(true)),
    {
        flag_of(member_ref(data, "enabled")) == Some(true)
    }

    /// The wallpaper to check for a file, when one is set.
    pub fn wallpaper_path(data: &Json) -> (r: Option<String>)
        ensures
            match r {
                Some(p) => p@ == str_or_empty(member_at(data@, "wallpaper_path"@)) && p@.len() > 0,
                None => str_or_empty(member_at(data@, "wallpaper_path"@)).len() == 0,
            },
    {
        let wp = str_of(member_ref(data, "wallpaper_path"));
        if wp.len() > 0 {
            Some(text::string_of(&wp))
        } else {
            None
        }
    }

    /// The `swaylock` command of the settings.
    pub fn build_swaylock_cmd(data: &Json, wallpaper_is_file: bool) -> (r: Vec<String>)
        ensures
            text::string_views(r@) == swaylock_args(data@, wallpaper_is_file),
    {
        swaylock_of(data, wallpaper_is_file)
    }

    /// An argument quoted for `sh -c`.
    pub fn sh_quote(arg: &str) -> (r: String)
        ensures
            r@ == sh_quoted(arg@),
    {
        text::string_of(&quote_of(&text::chars_of(arg)))
    }

    /// The preview: the `swaylock` command, when `swaylock` is there.
    pub fn preview(data: &Json, available: bool, wallpaper_is_file: bool) -> (r: Option<Vec<String>>)
        ensures
            match r {
                Some(c) => available && text::string_views(c@) == swaylock_args(data@, wallpaper_is_file),
                None => !available,
            },
    {
        if !available {
            return None;
        }
        Some(swaylock_of(data, wallpaper_is_file))
    }

    /// What applying the settings starts once `swayidle` is stopped: the
    /// `swayidle` command that locks after the timeout, or none.
    pub fn apply(data: &Json, wallpaper_is_file: bool, idle_available: bool, lock_available: bool) -> (r: Option<Vec<String>>)
        ensures
            match r {
                Some(c) => spec_idle_command(data@, wallpaper_is_file, idle_available, lock_available) == Some(text::string_views(c@)),
                None => spec_idle_command(data@, wallpaper_is_file, idle_available, lock_available) is None,
            },
    {
        if flag_of(member_ref(data, "enabled")) != Some(true) || !idle_available || !lock_available {
            return None;
        }
        let timeout: i64 = match int_of(member_ref(data, "timeout_seconds")) {
            Some(v) => v,
            None => 600,
        };
        let args = swaylock_of(data, wallpaper_is_file);
        let ghost av = text::string_views(args@);
        let mut quoted: Vec<Vec<char>> = Vec::new();
        let mut i: usize = 0;
        while i < args.len()
            invariant
                i <= args.len(),
                av == text::string_views(args@),
                text::views(quoted@) =~= av.take(i as int).map_values(|a: Seq<char>| sh_quoted(a)),
            decreases args.len() - i,
        {
            let q = quote_of(&text::chars_of(args[i].as_str()));
            let ghost q0 = text::views(quoted@);
            quoted.push(q);
            assert(text::views(quoted@) =~= q0.push(sh_quoted(av[i as int])));
            assert(av.take(i + 1).map_values(|a: Seq<char>| sh_quoted(a)) =~= av.take(i as int).map_values(
                |a: Seq<char>| sh_quoted(a),
            ).push(sh_quoted(av[i as int])));
            i += 1;
        }
        assert(av.take(args.len() as int) =~= av);
        let joined = text::join_with(&quoted, &text::lit(" "));
        let mut c: Vec<String> = Vec::new();
        push_str(&mut c, "swayidle");
        push_str(&mut c, "-w");
        push_str(&mut c, "timeout");
        push_chars(&mut c, &num::i64_to_chars(timeout));
        push_chars(&mut c, &joined);
        assert(text::string_views(c@) =~= seq!["swayidle"@, "-w"@, "timeout"@, num::dec(timeout as int), joined@]);
        Some(c)
    }
}

} // verus!
