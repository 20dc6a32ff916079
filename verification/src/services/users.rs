//! The user page: the account's entry in `/etc/passwd`, automatic login
//! with greetd or LightDM, and the greeter's wallpaper and greeting. The
//! files' texts come in; what is written and run goes out.
use vstd::prelude::*;
use crate::text;
use crate::num;

verus! {

// ---------------------------------------------------------------- passwd

/// Name, user id, group id, GECOS field and shell.
pub type PasswdView = (Seq<char>, Seq<char>, Seq<char>, Seq<char>, Seq<char>);

/// The first line of `/etc/passwd` from `i` on with seven fields or more
/// whose third is `uid`.
pub open spec fn passwd_from(ls: Seq<Seq<char>>, i: int, uid: Seq<char>) -> Option<PasswdView>
    decreases ls.len() - i,
{
    if i < 0 || i >= ls.len() {
        None
    } else {
        let f = text::split(ls[i], ':');
        if f.len() >= 7 && f[2] == uid {
            Some((f[0], f[2], f[3], f[4], f[6]))
        } else {
            passwd_from(ls, i + 1, uid)
        }
    }
}

pub type PasswdEntry = (String, String, String, String, String);

pub open spec fn entry_view(e: Option<PasswdEntry>) -> Option<PasswdView> {
    match e {
        Some(t) => Some((t.0@, t.1@, t.2@, t.3@, t.4@)),
        None => None,
    }
}

// ---------------------------------------------------------------- sections

/// The name of a `[section]` line (already trimmed).
pub open spec fn section_of(t: Seq<char>) -> Option<Seq<char>> {
    if t.len() >= 2 && t[0] == '[' && t[t.len() - 1] == ']' {
        Some(t.subrange(1, t.len() - 1))
    } else {
        None
    }
}

/// A value without the white space and the quotes around it.
pub open spec fn unquote(v: Seq<char>) -> Seq<char> {
    text::trim_char(text::trim_char(text::trim(v), '"'), '\'')
}

/// What follows the first `=` of a line.
pub open spec fn after_eq(t: Seq<char>) -> Seq<char> {
    t.skip(text::index_of(t, '=') + 1 as int)
}

pub open spec fn has_eq(t: Seq<char>) -> bool {
    text::index_of(t, '=') < t.len()
}

/// Whether greetd's configuration names a user in `[initial_session]`.
pub open spec fn greetd_from(ls: Seq<Seq<char>>, i: int, in_initial: bool) -> bool
    decreases ls.len() - i,
{
    if i < 0 || i >= ls.len() {
        false
    } else {
        let t = text::trim(ls[i]);
        match section_of(t) {
            Some(sec) => greetd_from(ls, i + 1, text::ascii_lower(sec) == "initial_session"@),
            None => if in_initial && text::starts_with(t, "user"@) && has_eq(t) && unquote(after_eq(t)).len() > 0 {
                true
            } else {
                greetd_from(ls, i + 1, in_initial)
            },
        }
    }
}

/// A line that sets `autologin-user` to a user (not empty, not `false`).
pub open spec fn is_autologin_line(t: Seq<char>, in_seat: bool) -> bool {
    &&& in_seat || !(t.len() > 0 && t[0] == '[')
    &&& text::starts_with(text::lowercase(t), "autologin-user"@)
    &&& has_eq(t)
    &&& text::ascii_lower(text::trim(text::before(t, '='))) == "autologin-user"@
    &&& text::trim(after_eq(t)).len() > 0
    &&& text::trim(after_eq(t)) != "false"@
}

/// Whether a LightDM configuration names a user to log in.
pub open spec fn ini_autologin_from(ls: Seq<Seq<char>>, i: int, in_seat: bool) -> bool
    decreases ls.len() - i,
{
    if i < 0 || i >= ls.len() {
        false
    } else {
        let t = text::trim(ls[i]);
        match section_of(t) {
            Some(sec) => ini_autologin_from(ls, i + 1, text::starts_with(text::lowercase(sec), "seat"@)),
            None => if is_autologin_line(t, in_seat) {
                true
            } else {
                ini_autologin_from(ls, i + 1, in_seat)
            },
        }
    }
}

pub open spec fn greetd_autologin(c: Option<Seq<char>>) -> bool {
    match c {
        Some(t) => greetd_from(text::lines(t), 0, false),
        None => false,
    }
}

pub open spec fn ini_autologin(c: Option<Seq<char>>) -> bool {
    match c {
        Some(t) => ini_autologin_from(text::lines(t), 0, false),
        None => false,
    }
}

// ---------------------------------------------------------------- greeter files

/// The first line from `i` on that sets `key` (a line starting with it
/// that has an `=`) to a value that is not empty once unquoted.
pub open spec fn toml_value_from(ls: Seq<Seq<char>>, i: int, key: Seq<char>) -> Option<Seq<char>>
    decreases ls.len() - i,
{
    if i < 0 || i >= ls.len() {
        None
    } else {
        let t = text::trim(ls[i]);
        if text::starts_with(t, key) && has_eq(t) && unquote(after_eq(t)).len() > 0 {
            Some(unquote(after_eq(t)))
        } else {
            toml_value_from(ls, i + 1, key)
        }
    }
}

/// A value of the greeter's file (its text, when it could be read), or
/// `default`.
pub open spec fn spec_toml_value(content: Option<Seq<char>>, key: Seq<char>, default: Seq<char>) -> Seq<char> {
    match content {
        Some(c) => match toml_value_from(text::lines(c), 0, key) {
            Some(v) => v,
            None => default,
        },
        None => default,
    }
}

/// A line that sets `key`.
pub open spec fn is_setting(l: Seq<char>, key: Seq<char>) -> bool {
    text::starts_with(text::trim(l), key) && has_eq(text::trim(l))
}

/// The file with every line that sets `key` replaced by `line`, or `block`
/// added at the end when there is none; a line break at the end.
pub open spec fn spec_toml_set(content: Seq<char>, key: Seq<char>, line: Seq<char>, block: Seq<char>) -> Seq<char> {
    let ls = text::lines(content);
    let l1 = ls.map_values(|l: Seq<char>| if is_setting(l, key) { line } else { l });
    let l2 = if exists|i: int| 0 <= i < ls.len() && is_setting(#[trigger] ls[i], key) { l1 } else { l1.push(block) };
    text::join(l2, text::nl()) + text::nl()
}

pub open spec fn quoted_setting(key: Seq<char>, v: Seq<char>) -> Seq<char> {
    key + " = \""@ + v + "\""@
}

pub open spec fn wallpaper_block(p: Seq<char>) -> Seq<char> {
    "[background]\n"@ + quoted_setting("path"@, p) + "\nfit = \"Cover\""@
}

pub open spec fn greeting_block(g: Seq<char>) -> Seq<char> {
    "[appearance]\n"@ + quoted_setting("greeting_msg"@, g)
}

pub open spec fn spec_set_wallpaper(existing: Option<Seq<char>>, p: Seq<char>) -> Seq<char> {
    let c = match existing {
        Some(c) => c,
        None => wallpaper_block(p) + "\n"@,
    };
    spec_toml_set(c, "path"@, quoted_setting("path"@, p), wallpaper_block(p))
}

pub open spec fn spec_set_greeting(existing: Option<Seq<char>>, g: Seq<char>) -> Seq<char> {
    let c = match existing {
        Some(c) => c,
        None => greeting_block(g) + "\n"@,
    };
    spec_toml_set(c, "greeting_msg"@, quoted_setting("greeting_msg"@, g), greeting_block(g))
}

// ---------------------------------------------------------------- automatic login

pub open spec fn greetd_base() -> Seq<char> {
    "[terminal]\nvt = 7\n\n[default_session]\ncommand = \"env WLR_NO_HARDWARE_CURSORS=1 XCURSOR_THEME=Adwaita XCURSOR_SIZE=24 cage -s -- regreet\"\nuser = \"greeter\"\n"@
}

/// greetd's configuration with a session that logs `user` in.
pub open spec fn greetd_with_user(session: Seq<char>, user: Seq<char>) -> Seq<char> {
    greetd_base() + "\n[initial_session]\ncommand = \""@ + session + "\"\nuser = \""@ + user + "\"\n"@
}

/// LightDM's file that logs `user` in.
pub open spec fn lightdm_with_user(user: Seq<char>, session: Seq<char>) -> Seq<char> {
    "[Seat:*]\nautologin-user="@ + user + "\nautologin-user-timeout=0\nautologin-session="@ + session + "\n"@
}

pub open spec fn greetd_config_path() -> Seq<char> {
    "/etc/greetd/config.toml"@
}

pub open spec fn lightdm_autologin_path() -> Seq<char> {
    "/etc/lightdm/lightdm.conf.d/autologin.conf"@
}

/// What switching automatic login does to the display manager's files.
#[derive(Debug, PartialEq, Eq)]
pub enum AutoLoginAction {
    /// Nothing to do: it already is so (success).
    Nothing,
    /// A file of the system to write as root.
    Write { path: String, content: String },
    /// A file of the system to remove as root.
    Remove { path: String },
}

pub open spec fn is_write(a: AutoLoginAction, path: Seq<char>, content: Seq<char>) -> bool {
    match a {
        AutoLoginAction::Write { path: p, content: c } => p@ == path && c@ == content,
        _ => false,
    }
}

/// The action for switching automatic login to `value`, when it is
/// `current`: greetd's file rewritten when greetd is there (`greetd`),
/// else LightDM's file written, or removed when it exists.
pub open spec fn spec_auto_login_action(
    current: bool,
    value: bool,
    user: Seq<char>,
    edition: Seq<char>,
    greetd: bool,
    lightdm_file: bool,
    a: AutoLoginAction,
) -> bool {
    let xfce = text::contains(edition, "xfce"@);
    if value == current {
        a == AutoLoginAction::Nothing
    } else if greetd {
        is_write(a, greetd_config_path(), if value {
            greetd_with_user(if xfce { "startxfce4"@ } else { "niri"@ }, user)
        } else {
            greetd_base()
        })
    } else if value {
        is_write(a, lightdm_autologin_path(), lightdm_with_user(user, if xfce { "xfce"@ } else { "niri"@ }))
    } else if lightdm_file {
        match a {
            AutoLoginAction::Remove { path: p } => p@ == lightdm_autologin_path(),
            _ => false,
        }
    } else {
        a == AutoLoginAction::Nothing
    }
}

// ---------------------------------------------------------------- exec

fn section_exec(t: &Vec<char>) -> (r: Option<Vec<char>>)
    ensures
        match r {
            Some(s) => section_of(t@) == Some(s@),
            None => section_of(t@) is None,
        },
{
    if t.len() >= 2 && t[0] == '[' && t[t.len() - 1] == ']' {
        Some(text::slice(t, 1, t.len() - 1))
    } else {
        None
    }
}

fn unquote_of(v: &Vec<char>) -> (r: Vec<char>)
    ensures
        r@ == unquote(v@),
{
    let a = text::trimmed(v);
    let b = text::cut_char(&a, '"');
    text::cut_char(&b, '\'')
}

fn eq_rest(t: &Vec<char>) -> (r: Option<Vec<char>>)
    ensures
        match r {
            Some(v) => has_eq(t@) && v@ == after_eq(t@),
            None => !has_eq(t@),
        },
{
    let k = text::find_char(t, '=');
    if k < t.len() {
        let v = text::slice(t, k + 1, t.len());
        assert(v@ =~= t@.skip(k + 1 as int));
        Some(v)
    } else {
        None
    }
}

fn greetd_check(content: &str) -> (r: bool)
    ensures
        r == greetd_from(text::lines(content@), 0, false),
{
    let ls = text::lines_of(content);
    let ghost lv = text::views(ls@);
    let mut in_initial = false;
    let mut i: usize = 0;
    while i < ls.len()
        invariant
            i <= ls.len(),
            lv == text::views(ls@),
            lv == text::lines(content@),
            greetd_from(lv, 0, false) == greetd_from(lv, i as int, in_initial),
        decreases ls.len() - i,
    {
        assert(ls@[i as int]@ == lv[i as int]);
        let t = text::trimmed(&ls[i]);
        match section_exec(&t) {
            Some(sec) => {
                in_initial = text::same(&text::to_ascii_lower(&sec), &text::lit("initial_session"));
            },
            None => {
                if in_initial && text::has_prefix(&t, &text::lit("user")) {
                    match eq_rest(&t) {
                        Some(v) => {
                            if unquote_of(&v).len() > 0 {
                                return true;
                            }
                        },
                        None => {},
                    }
                }
            },
        }
        i += 1;
    }
    false
}

fn lowered(v: &Vec<char>) -> (r: Vec<char>)
    ensures
        r@ == text::lowercase(v@),
{
    let s = text::string_of(v);
    let l = text::to_lower(s.as_str());
    text::chars_of(l.as_str())
}

fn autologin_line(t: &Vec<char>, in_seat: bool) -> (r: bool)
    ensures
        r == is_autologin_line(t@, in_seat),
{
    if !(in_seat || !(t.len() > 0 && t[0] == '[')) {
        return false;
    }
    if !text::has_prefix(&lowered(t), &text::lit("autologin-user")) {
        return false;
    }
    match eq_rest(t) {
        Some(v) => {
            let key = text::trimmed(&text::cut_before(t, '='));
            let val = text::trimmed(&v);
            text::same(&text::to_ascii_lower(&key), &text::lit("autologin-user")) && val.len() > 0 && !text::same(
                &val,
                &text::lit("false"),
            )
        },
        None => false,
    }
}

fn ini_check(content: &str) -> (r: bool)
    ensures
        r == ini_autologin_from(text::lines(content@), 0, false),
{
    let ls = text::lines_of(content);
    let ghost lv = text::views(ls@);
    let mut in_seat = false;
    let mut i: usize = 0;
    while i < ls.len()
        invariant
            i <= ls.len(),
            lv == text::views(ls@),
            lv == text::lines(content@),
            ini_autologin_from(lv, 0, false) == ini_autologin_from(lv, i as int, in_seat),
        decreases ls.len() - i,
    {
        assert(ls@[i as int]@ == lv[i as int]);
        let t = text::trimmed(&ls[i]);
        match section_exec(&t) {
            Some(sec) => {
                in_seat = text::has_prefix(&lowered(&sec), &text::lit("seat"));
            },
            None => {
                if autologin_line(&t, in_seat) {
                    return true;
                }
            },
        }
        i += 1;
    }
    false
}

fn toml_lookup(content: &str, key: &str) -> (r: Option<Vec<char>>)
    ensures
        match r {
            Some(v) => toml_value_from(text::lines(content@), 0, key@) == Some(v@),
            None => toml_value_from(text::lines(content@), 0, key@) is None,
        },
{
    let ls = text::lines_of(content);
    let ghost lv = text::views(ls@);
    let k = text::lit(key);
    let mut i: usize = 0;
    while i < ls.len()
        invariant
            i <= ls.len(),
            lv == text::views(ls@),
            lv == text::lines(content@),
            k@ == key@,
            toml_value_from(lv, 0, key@) == toml_value_from(lv, i as int, key@),
        decreases ls.len() - i,
    {
        assert(ls@[i as int]@ == lv[i as int]);
        let t = text::trimmed(&ls[i]);
        if text::has_prefix(&t, &k) {
            match eq_rest(&t) {
                Some(v) => {
                    let u = unquote_of(&v);
                    if u.len() > 0 {
                        return Some(u);
                    }
                },
                None => {},
            }
        }
        i += 1;
    }
    None
}

fn toml_set(content: &Vec<char>, key: &str, line: &Vec<char>, block: &Vec<char>) -> (r: Vec<char>)
    ensures
        r@ == spec_toml_set(content@, key@, line@, block@),
{
    let ls = text::split_lines(content);
    let ghost lv = text::views(ls@);
    let k = text::lit(key);
    let mut out: Vec<Vec<char>> = Vec::new();
    let mut seen = false;
    let mut i: usize = 0;
    let ghost f = |l: Seq<char>| if is_setting(l, key@) { line@ } else { l };
    while i < ls.len()
        invariant
            i <= ls.len(),
            lv == text::views(ls@),
            lv == text::lines(content@),
            k@ == key@,
            f == (|l: Seq<char>| if is_setting(l, key@) { line@ } else { l }),
            text::views(out@) =~= lv.take(i as int).map_values(f),
            seen == exists|j: int| 0 <= j < i && is_setting(#[trigger] lv[j], key@),
        decreases ls.len() - i,
    {
        assert(ls@[i as int]@ == lv[i as int]);
        let t = text::trimmed(&ls[i]);
        let hit = text::has_prefix(&t, &k) && text::find_char(&t, '=') < t.len();
        assert(hit == is_setting(lv[i as int], key@));
        let ghost o0 = text::views(out@);
        if hit {
            let x = text::slice(line, 0, line.len());
            assert(x@ =~= line@);
            out.push(x);
            seen = true;
        } else {
            let x = text::slice(&ls[i], 0, ls[i].len());
            assert(x@ =~= lv[i as int]);
            out.push(x);
        }
        proof {
            assert(text::views(out@) =~= o0.push(f(lv[i as int])));
            assert(lv.take(i + 1).map_values(f) =~= lv.take(i as int).map_values(f).push(f(lv[i as int])));
            if !hit && seen {
                let j = choose|j: int| 0 <= j < i + 1 && is_setting(#[trigger] lv[j], key@);
                assert(j < i);
            }
        }
        i += 1;
    }
    assert(lv.take(ls.len() as int) =~= lv);
    let ghost l1 = text::views(out@);
    if !seen {
        let x = text::slice(block, 0, block.len());
        assert(x@ =~= block@);
        out.push(x);
        assert(text::views(out@) =~= l1.push(block@));
    }
    let mut sep: Vec<char> = Vec::new();
    sep.push('\n');
    assert(sep@ == text::nl());
    let mut r = text::join_with(&out, &sep);
    r.push('\n');
    assert(r@ =~= text::join(text::views(out@), text::nl()) + text::nl());
    r
}

fn quoted_setting_of(key: &str, v: &str) -> (r: Vec<char>)
    ensures
        r@ == quoted_setting(key@, v@),
{
    let mut out = text::lit(key);
    text::append(&mut out, &text::lit(" = \""));
    text::append(&mut out, &text::chars_of(v));
    text::append(&mut out, &text::lit("\""));
    out
}

/// The user page's services.
pub struct UsersService;

impl UsersService {
    /// The entry of `/etc/passwd` (its text) for a user id.
    pub fn passwd_entry(content: &str, uid: u32) -> (r: Option<PasswdEntry>)
        ensures
            entry_view(r) == passwd_from(text::lines(content@), 0, num::dec(uid as int)),
    {
        let ls = text::lines_of(content);
        let ghost lv = text::views(ls@);
        let u = num::nat_to_digits(uid as u64);
        let mut i: usize = 0;
        while i < ls.len()
            invariant
                i <= ls.len(),
                lv == text::views(ls@),
                lv == text::lines(content@),
                u@ == num::dec(uid as int),
                passwd_from(lv, 0, u@) == passwd_from(lv, i as int, u@),
            decreases ls.len() - i,
        {
            assert(ls@[i as int]@ == lv[i as int]);
            let f = text::split_char(&ls[i], ':');
            if f.len() >= 7 && text::same(&f[2], &u) {
                proof {
                    assert(f@[0]@ == text::views(f@)[0]);
                    assert(f@[2]@ == text::views(f@)[2]);
                    assert(f@[3]@ == text::views(f@)[3]);
                    assert(f@[4]@ == text::views(f@)[4]);
                    assert(f@[6]@ == text::views(f@)[6]);
                }
                return Some((
                    text::string_of(&f[0]),
                    text::string_of(&f[2]),
                    text::string_of(&f[3]),
                    text::string_of(&f[4]),
                    text::string_of(&f[6]),
                ));
            }
            i += 1;
        }
        None
    }

    /// The user name: `USER` when it is set, else the name of the entry,
    /// else `Desconocido`.
    pub fn username(env_user: Option<&str>, entry: &Option<PasswdEntry>) -> (r: String)
        ensures
            r@ == match text::opt_view(env_user) {
                Some(u) => u,
                None => match entry_view(*entry) {
                    Some(e) => e.0,
                    None => "Desconocido"@,
                },
            },
    {
        match env_user {
            Some(u) => u.to_string(),
            None => match entry {
                Some(e) => text::string_of(&text::chars_of(e.0.as_str())),
                None => "Desconocido".to_string(),
            },
        }
    }

    /// The full name: the first comma-separated part of the GECOS field,
    /// trimmed, when it is not empty; else the user name.
    pub fn full_name(entry: &Option<PasswdEntry>, username: &str) -> (r: String)
        ensures
            r@ == match entry_view(*entry) {
                Some(e) => if text::trim(text::split(e.3, ',')[0]).len() > 0 {
                    text::trim(text::split(e.3, ',')[0])
                } else {
                    username@
                },
                None => username@,
            },
    {
        match entry {
            Some(e) => {
                let parts = text::split_char(&text::chars_of(e.3.as_str()), ',');
                assert(parts@[0]@ == text::views(parts@)[0]);
                let name = text::trimmed(&parts[0]);
                if name.len() > 0 {
                    text::string_of(&name)
                } else {
                    username.to_string()
                }
            },
            None => username.to_string(),
        }
    }

    /// The login shell, or `Desconocido`.
    pub fn shell(entry: &Option<PasswdEntry>) -> (r: String)
        ensures
            r@ == match entry_view(*entry) {
                Some(e) => e.4,
                None => "Desconocido"@,
            },
    {
        match entry {
            Some(e) => text::string_of(&text::chars_of(e.4.as_str())),
            None => "Desconocido".to_string(),
        }
    }

    /// The user id as text.
    pub fn uid(uid: u32) -> (r: String)
        ensures
            r@ == num::dec(uid as int),
    {
        text::string_of(&num::nat_to_digits(uid as u64))
    }

    /// The group id from `id -g` (what it printed, none when it failed):
    /// trimmed, or `0` when empty.
    pub fn gid(out: Option<&str>) -> (r: String)
        ensures
            r@ == match text::opt_view(out) {
                Some(o) => if text::trim(o).len() > 0 {
                    text::trim(o)
                } else {
                    "0"@
                },
                None => "0"@,
            },
    {
        match out {
            Some(o) => {
                let t = text::trimmed(&text::chars_of(o));
                if t.len() > 0 {
                    text::string_of(&t)
                } else {
                    "0".to_string()
                }
            },
            None => "0".to_string(),
        }
    }

    /// The host name from `/proc/sys/kernel/hostname` (its text, when it
    /// could be read), trimmed, or `Desconocido`.
    pub fn hostname(content: Option<&str>) -> (r: String)
        ensures
            r@ == match text::opt_view(content) {
                Some(c) => text::trim(c),
                None => "Desconocido"@,
            },
    {
        match content {
            Some(c) => text::string_of(&text::trimmed(&text::chars_of(c))),
            None => "Desconocido".to_string(),
        }
    }

    /// Whether automatic login is on: greetd's configuration when greetd's
    /// file exists, else either LightDM file (the texts of the files that
    /// could be read).
    pub fn auto_login(greetd_exists: bool, greetd: Option<&str>, lightdm_autologin: Option<&str>, lightdm_main: Option<&str>) -> (r: bool)
        ensures
            r == if greetd_exists {
                greetd_autologin(text::opt_view(greetd))
            } else {
                ini_autologin(text::opt_view(lightdm_autologin)) || ini_autologin(text::opt_view(lightdm_main))
            },
    {
        if greetd_exists {
            match greetd {
                Some(c) => greetd_check(c),
                None => false,
            }
        } else {
            let a = match lightdm_autologin {
                Some(c) => ini_check(c),
                None => false,
            };
            a || match lightdm_main {
                Some(c) => ini_check(c),
                None => false,
            }
        }
    }

    /// What switching automatic login to `value` does, when it is
    /// `current`: `edition` names the desktop edition, `greetd` whether
    /// greetd is installed or configured, `lightdm_file` whether LightDM's
    /// automatic login file exists.
    pub fn set_auto_login(
        current: bool,
        value: bool,
        user: &str,
        edition: &str,
        greetd: bool,
        lightdm_file: bool,
    ) -> (r: AutoLoginAction)
        ensures
            spec_auto_login_action(current, value, user@, edition@, greetd, lightdm_file, r),
    {
        if value == current {
            return AutoLoginAction::Nothing;
        }
        let xfce = text::has(&text::chars_of(edition), &text::lit("xfce"));
        if greetd {
            let mut c = text::lit("[terminal]\nvt = 7\n\n[default_session]\ncommand = \"env WLR_NO_HARDWARE_CURSORS=1 XCURSOR_THEME=Adwaita XCURSOR_SIZE=24 cage -s -- regreet\"\nuser = \"greeter\"\n");
            if value {
                text::append(&mut c, &text::lit("\n[initial_session]\ncommand = \""));
                text::append(&mut c, &text::lit(if xfce { "startxfce4" } else { "niri" }));
                text::append(&mut c, &text::lit("\"\nuser = \""));
                text::append(&mut c, &text::chars_of(user));
                text::append(&mut c, &text::lit("\"\n"));
            }
            return AutoLoginAction::Write { path: "/etc/greetd/config.toml".to_string(), content: text::string_of(&c) };
        }
        if value {
            let mut c = text::lit("[Seat:*]\nautologin-user=");
            text::append(&mut c, &text::chars_of(user));
            text::append(&mut c, &text::lit("\nautologin-user-timeout=0\nautologin-session="));
            text::append(&mut c, &text::lit(if xfce { "xfce" } else { "niri" }));
            text::append(&mut c, &text::lit("\n"));
            AutoLoginAction::Write {
                path: "/etc/lightdm/lightdm.conf.d/autologin.conf".to_string(),
                content: text::string_of(&c),
            }
        } else if lightdm_file {
            AutoLoginAction::Remove { path: "/etc/lightdm/lightdm.conf.d/autologin.conf".to_string() }
        } else {
            AutoLoginAction::Nothing
        }
    }

    /// The greeter's wallpaper from its file (the text, when it could be
    /// read), or the default one.
    pub fn regreet_wallpaper(content: Option<&str>) -> (r: String)
        ensures
            r@ == spec_toml_value(text::opt_view(content), "path"@, "/usr/share/churros/wallpapers/default.png"@),
    {
        match content {
            Some(c) => match toml_lookup(c, "path") {
                Some(v) => text::string_of(&v),
                None => "/usr/share/churros/wallpapers/default.png".to_string(),
            },
            None => "/usr/share/churros/wallpapers/default.png".to_string(),
        }
    }

    /// The greeter's file with the wallpaper set (from a new file when it
    /// could not be read).
    pub fn set_regreet_wallpaper(existing: Option<&str>, wallpaper_path: &str) -> (r: String)
        ensures
            r@ == spec_set_wallpaper(text::opt_view(existing), wallpaper_path@),
    {
        let line = quoted_setting_of("path", wallpaper_path);
        let mut block = text::lit("[background]\n");
        text::append(&mut block, &line);
        text::append(&mut block, &text::lit("\nfit = \"Cover\""));
        assert(block@ =~= wallpaper_block(wallpaper_path@));
        let c = match existing {
            Some(c) => text::chars_of(c),
            None => {
                let mut n = text::slice(&block, 0, block.len());
                text::append(&mut n, &text::lit("\n"));
                assert(n@ =~= wallpaper_block(wallpaper_path@) + "\n"@);
                n
            },
        };
        text::string_of(&toml_set(&c, "path", &line, &block))
    }

    /// The greeter's greeting from its file, or the default one.
    pub fn regreet_greeting(content: Option<&str>) -> (r: String)
        ensures
            r@ == spec_toml_value(text::opt_view(content), "greeting_msg"@, "Bienvenido a ChurrOS"@),
    {
        match content {
            Some(c) => match toml_lookup(c, "greeting_msg") {
                Some(v) => text::string_of(&v),
                None => "Bienvenido a ChurrOS".to_string(),
            },
            None => "Bienvenido a ChurrOS".to_string(),
        }
    }

    /// The greeter's file with the greeting set.
    pub fn set_regreet_greeting(existing: Option<&str>, greeting: &str) -> (r: String)
        ensures
            r@ == spec_set_greeting(text::opt_view(existing), greeting@),
    {
        let line = quoted_setting_of("greeting_msg", greeting);
        let mut block = text::lit("[appearance]\n");
        text::append(&mut block, &line);
        assert(block@ =~= greeting_block(greeting@));
        let c = match existing {
            Some(c) => text::chars_of(c),
            None => {
                let mut n = text::slice(&block, 0, block.len());
                text::append(&mut n, &text::lit("\n"));
                assert(n@ =~= greeting_block(greeting@) + "\n"@);
                n
            },
        };
        text::string_of(&toml_set(&c, "greeting_msg", &line, &block))
    }

    /// The commands that install a file of the system from a temporary
    /// copy: the directory made, then the file installed with mode 644; as
    /// root directly, else through `churros-pkexec`.
    pub fn write_root_file_commands(target: &str, dir: &str, tmp: &str, is_root: bool) -> (r: (Vec<String>, Vec<String>))
        ensures
            text::string_views(r.0@) == (if is_root { seq![] } else { seq!["churros-pkexec"@] }) + seq!["mkdir"@, "-p"@, dir@],
            text::string_views(r.1@) == (if is_root { seq![] } else { seq!["churros-pkexec"@] }) + seq![
                "install"@,
                "-m"@,
                "644"@,
                tmp@,
                target@,
            ],
    {
        let mut a: Vec<String> = Vec::new();
        let mut b: Vec<String> = Vec::new();
        if !is_root {
            a.push("churros-pkexec".to_string());
            b.push("churros-pkexec".to_string());
        }
        let ghost a0 = text::string_views(a@);
        let ghost b0 = text::string_views(b@);
        a.push("mkdir".to_string());
        a.push("-p".to_string());
        a.push(dir.to_string());
        b.push("install".to_string());
        b.push("-m".to_string());
        b.push("644".to_string());
        b.push(tmp.to_string());
        b.push(target.to_string());
        assert(text::string_views(a@) =~= a0 + seq!["mkdir"@, "-p"@, dir@]);
        assert(text::string_views(b@) =~= b0 + seq!["install"@, "-m"@, "644"@, tmp@, target@]);
        (a, b)
    }

    /// The command that removes a file of the system.
    pub fn remove_root_file_command(path: &str, is_root: bool) -> (r: Vec<String>)
        ensures
            text::string_views(r@) == (if is_root { seq![] } else { seq!["churros-pkexec"@] }) + seq!["rm"@, "-f"@, path@],
    {
        let mut a: Vec<String> = Vec::new();
        if !is_root {
            a.push("churros-pkexec".to_string());
        }
        let ghost a0 = text::string_views(a@);
        a.push("rm".to_string());
        a.push("-f".to_string());
        a.push(path.to_string());
        assert(text::string_views(a@) =~= a0 + seq!["rm"@, "-f"@, path@]);
        a
    }
}

} // verus!
