//! Power: the battery through `upower`, the profiles through
//! `powerprofilesctl`, the timeouts and the lid action through `gsettings`.
//! A reader takes its command's output as the command runner gives it
//! (trimmed; empty when the command failed); a setter returns the command.
use vstd::prelude::*;
use crate::text;
use crate::num;

verus! {

// ---------------------------------------------------------------- model

/// The first line of `upower -e` that ends with `battery`, trimmed.
pub open spec fn battery_from(ls: Seq<Seq<char>>, i: int) -> Option<Seq<char>>
    decreases ls.len() - i,
{
    if i < 0 || i >= ls.len() {
        None
    } else if text::ends_with(text::trim(ls[i]), "battery"@) {
        Some(text::trim(ls[i]))
    } else {
        battery_from(ls, i + 1)
    }
}

pub open spec fn spec_battery_device(out: Seq<char>) -> Option<Seq<char>> {
    battery_from(text::lines(out), 0)
}

/// The value after the first `:` of the first line holding `label`, trimmed.
pub open spec fn labelled_from(ls: Seq<Seq<char>>, label: Seq<char>, i: int) -> Option<Seq<char>>
    decreases ls.len() - i,
{
    if i < 0 || i >= ls.len() {
        None
    } else if text::contains(ls[i], label) && text::index_of(ls[i], ':') < ls[i].len() {
        Some(text::trim(ls[i].skip(text::index_of(ls[i], ':') + 1 as int)))
    } else {
        labelled_from(ls, label, i + 1)
    }
}

/// The battery's state from `upower -i DEVICE` (`None`: no battery).
pub open spec fn spec_battery_state(info: Option<Seq<char>>) -> Seq<char> {
    match info {
        None => "Desconocido"@,
        Some(o) => match labelled_from(text::lines(o), "state"@, 0) {
            Some(v) => v,
            None => "Desconocido"@,
        },
    }
}

/// The text of the battery's percentage from `upower -i DEVICE`, without `%`.
pub open spec fn spec_percentage_text(info: Seq<char>) -> Option<Seq<char>> {
    match labelled_from(text::lines(info), "percentage"@, 0) {
        Some(v) => Some(text::trim_end_char(v, '%')),
        None => None,
    }
}

pub open spec fn is_profile(s: Seq<char>) -> bool {
    s == "performance"@ || s == "balanced"@ || s == "power-saver"@
}

/// The active profile, `balanced` when unknown.
pub open spec fn spec_power_profile(out: Seq<char>) -> Seq<char> {
    if is_profile(out) {
        out
    } else {
        "balanced"@
    }
}

/// A line of `powerprofilesctl list` as a profile name: trimmed, without the
/// `*` that marks the active profile and without the final `:`.
pub open spec fn profile_name(l: Seq<char>) -> Seq<char> {
    text::trim(text::trim_end_char(text::trim(text::trim_start_char(text::trim(l), '*')), ':'))
}

/// The profiles listed, each once, in order.
pub open spec fn profiles_upto(ls: Seq<Seq<char>>, n: int) -> Seq<Seq<char>>
    decreases n,
{
    if n <= 0 || n > ls.len() {
        seq![]
    } else {
        let p = profiles_upto(ls, n - 1);
        let t = profile_name(ls[n - 1]);
        if is_profile(t) && !p.contains(t) {
            p.push(t)
        } else {
            p
        }
    }
}

/// The profiles of `powerprofilesctl list`; `balanced` alone when none.
pub open spec fn spec_profiles(out: Seq<char>) -> Seq<Seq<char>> {
    let p = profiles_upto(text::lines(out), text::lines(out).len() as int);
    if p.len() == 0 {
        seq!["balanced"@]
    } else {
        p
    }
}

/// A timeout from `gsettings get`: `uint32 N`, or plain digits; else the
/// default.
pub open spec fn spec_timeout(out: Seq<char>, default: int) -> int {
    let from_uint = if text::starts_with(out, "uint32"@) {
        num::i64_of(text::trim(out.skip(6)))
    } else {
        None
    };
    match from_uint {
        Some(n) => n,
        None => if out.len() > 0 && num::all_digits(out) {
            match num::i64_of(out) {
                Some(n) => n,
                None => default,
            }
        } else {
            default
        },
    }
}

pub open spec fn is_lid_action(s: Seq<char>) -> bool {
    s == "suspend"@ || s == "hibernate"@ || s == "nothing"@ || s == "blank"@ || s == "logout"@
        || s == "shutdown"@
}

/// `s` without the quotes (`'` or `"`) round it.
pub open spec fn unquote(s: Seq<char>) -> Seq<char>
    decreases s.len(),
{
    if s.len() > 0 && (s[0] == '\'' || s[0] == '"') {
        unquote(s.drop_first())
    } else {
        unquote_end(s)
    }
}

pub open spec fn unquote_end(s: Seq<char>) -> Seq<char>
    decreases s.len(),
{
    if s.len() > 0 && (s.last() == '\'' || s.last() == '"') {
        unquote_end(s.drop_last())
    } else {
        s
    }
}

/// The lid action, `suspend` when unknown.
pub open spec fn spec_lid_action(out: Seq<char>) -> Seq<char> {
    let v = unquote(text::trim(out));
    if is_lid_action(v) {
        v
    } else {
        "suspend"@
    }
}

/// A word in single quotes, as `gsettings` prints it on a line, reads as the
/// word.
proof fn lemma_quoted_word(a: Seq<char>)
    requires
        a.len() > 0,
        a[0] != '\'' && a[0] != '"',
        a.last() != '\'' && a.last() != '"',
    ensures
        unquote(text::trim(seq!['\''] + a + seq!['\'', '\n'])) == a,
{
    let q = seq!['\''];
    let v = q + a + q;
    let out = q + a + seq!['\'', '\n'];
    assert(out[0] == '\'');
    assert(text::trim_start(out) == out);
    assert(out.drop_last() =~= v);
    assert(text::trim_end(v) == v);
    assert(text::trim_end(out) == v);
    assert(v.drop_first() =~= a + q);
    assert((a + q).drop_last() =~= a);
    assert((a + q)[0] == a[0]);
    assert(unquote_end(a) == a);
    assert(unquote_end(a + q) == a);
    assert(unquote(a + q) == a);
}

/// The lid action reads back: each action that can be set (`suspend`,
/// `hibernate`, `nothing`, `blank`, `logout`, `shutdown`), as `gsettings`
/// prints it (`'a'` and a line break), reads as itself.
pub proof fn law_lid_action_reads_back(a: Seq<char>)
    requires
        a == "suspend"@ || a == "hibernate"@ || a == "nothing"@ || a == "blank"@ || a == "logout"@ || a
            == "shutdown"@,
    ensures
        spec_lid_action(seq!['\''] + a + seq!['\'', '\n']) == a,
{
    reveal_strlit("suspend");
    reveal_strlit("hibernate");
    reveal_strlit("nothing");
    reveal_strlit("blank");
    reveal_strlit("logout");
    reveal_strlit("shutdown");
    lemma_quoted_word(a);
}

/// Whatever `gsettings` prints, the lid action read is one of the actions
/// that can be set.
pub proof fn law_lid_action_known(out: Seq<char>)
    ensures
        ({
            let a = spec_lid_action(out);
            a == "suspend"@ || a == "hibernate"@ || a == "nothing"@ || a == "blank"@ || a == "logout"@ || a
                == "shutdown"@
        }),
{
}

// ---------------------------------------------------------------- exec

fn battery_of(out: &str) -> (r: Option<Vec<char>>)
    ensures
        match r {
            Some(d) => spec_battery_device(out@) == Some(d@),
            None => spec_battery_device(out@) is None,
        },
{
    let ls = text::lines_of(out);
    let ghost lv = text::views(ls@);
    let suffix = text::lit("battery");
    let mut i: usize = 0;
    while i < ls.len()
        invariant
            i <= ls.len(),
            lv == text::views(ls@),
            lv == text::lines(out@),
            suffix@ == "battery"@,
            battery_from(lv, 0) == battery_from(lv, i as int),
        decreases ls.len() - i,
    {
        let t = text::trimmed(&ls[i]);
        assert(t@ == text::trim(lv[i as int]));
        if text::has_suffix(&t, &suffix) {
            return Some(t);
        }
        i += 1;
    }
    None
}

fn labelled(out: &str, label: &str) -> (r: Option<Vec<char>>)
    ensures
        match r {
            Some(v) => labelled_from(text::lines(out@), label@, 0) == Some(v@),
            None => labelled_from(text::lines(out@), label@, 0) is None,
        },
{
    let ls = text::lines_of(out);
    let ghost lv = text::views(ls@);
    let lb = text::lit(label);
    let mut i: usize = 0;
    while i < ls.len()
        invariant
            i <= ls.len(),
            lv == text::views(ls@),
            lv == text::lines(out@),
            lb@ == label@,
            labelled_from(lv, label@, 0) == labelled_from(lv, label@, i as int),
        decreases ls.len() - i,
    {
        assert(ls@[i as int]@ == lv[i as int]);
        if text::has(&ls[i], &lb) {
            match crate::backend::wifi::after_first_of(&ls[i], ':') {
                Some((_a, b)) => {
                    return Some(text::trimmed(&b));
                },
                None => {},
            }
        }
        i += 1;
    }
    None
}

fn string_list(parts: &[&str]) -> (r: Vec<String>)
    ensures
        text::string_views(r@) == parts@.map_values(|s: &str| s@),
{
    text::strings_of(parts)
}

/// The machine's power settings.
pub struct PowerService;

impl PowerService {
    /// The battery device of `upower -e`.
    pub fn battery_device(out: &str) -> (r: Option<String>)
        ensures
            match r {
                Some(d) => spec_battery_device(out@) == Some(d@),
                None => spec_battery_device(out@) is None,
            },
    {
        match battery_of(out) {
            Some(d) => Some(text::string_of(&d)),
            None => None,
        }
    }

    /// Whether `upower -e` lists a battery.
    pub fn battery_present(out: &str) -> (r: bool)
        ensures
            r == spec_battery_device(out@) is Some,
    {
        battery_of(out).is_some()
    }

    /// The text of the charge percentage of `upower -i DEVICE`.
    pub fn percentage_text(info: &str) -> (r: Option<String>)
        ensures
            match r {
                Some(v) => spec_percentage_text(info@) == Some(v@),
                None => spec_percentage_text(info@) is None,
            },
    {
        match labelled(info, "percentage") {
            Some(v) => Some(text::string_of(&text::cut_end_char(&v, '%'))),
            None => None,
        }
    }

    /// The battery's state from `upower -i DEVICE` (`None`: no battery).
    pub fn battery_state(info: Option<&str>) -> (r: String)
        ensures
            r@ == spec_battery_state(crate::backend::bluetooth::opt_view(info)),
    {
        match info {
            None => "Desconocido".to_string(),
            Some(o) => match labelled(o, "state") {
                Some(v) => text::string_of(&v),
                None => "Desconocido".to_string(),
            },
        }
    }

    /// The active profile of `powerprofilesctl get`.
    pub fn power_profile(out: &str) -> (r: String)
        ensures
            r@ == spec_power_profile(out@),
    {
        let v = text::chars_of(out);
        if text::same(&v, &text::lit("performance")) || text::same(&v, &text::lit("balanced")) || text::same(
            &v,
            &text::lit("power-saver"),
        ) {
            out.to_string()
        } else {
            "balanced".to_string()
        }
    }

    /// The profiles of `powerprofilesctl list`.
    pub fn power_profiles_available(out: &str) -> (r: Vec<String>)
        ensures
            text::string_views(r@) == spec_profiles(out@),
    {
        let ls = text::lines_of(out);
        let ghost lv = text::views(ls@);
        let mut ps: Vec<Vec<char>> = Vec::new();
        let mut i: usize = 0;
        assert(text::views(ps@) =~= Seq::<Seq<char>>::empty());
        while i < ls.len()
            invariant
                i <= ls.len(),
                lv == text::views(ls@),
                lv == text::lines(out@),
                text::views(ps@) == profiles_upto(lv, i as int),
            decreases ls.len() - i,
        {
            let t = text::trimmed(&text::cut_end_char(&text::trimmed(&text::cut_start_char(&text::trimmed(&ls[i]), '*')), ':'));
            assert(ls@[i as int]@ == lv[i as int]);
            let known = text::same(&t, &text::lit("performance")) || text::same(&t, &text::lit("balanced"))
                || text::same(&t, &text::lit("power-saver"));
            if known && !crate::backend::wifi::in_list(&t, &ps) {
                let ghost p0 = text::views(ps@);
                let ghost tv = t@;
                ps.push(t);
                assert(text::views(ps@) =~= p0.push(tv));
            }
            i += 1;
        }
        let mut r: Vec<String> = Vec::new();
        if ps.len() == 0 {
            r.push("balanced".to_string());
            assert(text::string_views(r@) =~= seq!["balanced"@]);
            return r;
        }
        let mut j: usize = 0;
        while j < ps.len()
            invariant
                j <= ps.len(),
                text::string_views(r@) == text::views(ps@).take(j as int),
            decreases ps.len() - j,
        {
            let ghost r0 = text::string_views(r@);
            r.push(text::string_of(&ps[j]));
            assert(text::string_views(r@) =~= r0.push(ps@[j as int]@));
            j += 1;
            assert(text::views(ps@).take(j as int) =~= r0.push(ps@[j - 1]@));
        }
        assert(text::views(ps@).take(j as int) =~= text::views(ps@));
        r
    }

    fn timeout(out: &str, default: i64) -> (r: i64)
        ensures
            r == spec_timeout(out@, default as int),
    {
        let v = text::chars_of(out);
        let u = text::lit("uint32");
        proof {
            reveal_strlit("uint32");
        }
        if text::has_prefix(&v, &u) {
            let rest = text::slice(&v, 6, v.len());
            assert(rest@ =~= out@.skip(6));
            match num::parse_i64(&text::trimmed(&rest)) {
                Some(n) => {
                    return n;
                },
                None => {},
            }
        }
        let mut all = v.len() > 0;
        let mut i: usize = 0;
        while i < v.len()
            invariant
                i <= v.len(),
                all == (v@.len() > 0 && forall|k: int| 0 <= k < i ==> num::digit(#[trigger] v@[k])),
            decreases v.len() - i,
        {
            if !num::is_digit(v[i]) {
                all = false;
            }
            i += 1;
        }
        assert(all == (v@.len() > 0 && num::all_digits(v@)));
        if all {
            match num::parse_i64(&v) {
                Some(n) => n,
                None => default,
            }
        } else {
            default
        }
    }

    /// The screen timeout (seconds) from `gsettings get
    /// org.gnome.desktop.session idle-delay`; 300 by default.
    pub fn screen_timeout(out: &str) -> (r: i64)
        ensures
            r == spec_timeout(out@, 300),
    {
        Self::timeout(out, 300)
    }

    /// The sleep timeout (seconds) from `gsettings get
    /// org.gnome.settings-daemon.plugins.power sleep-inactive-ac-timeout`; 900
    /// by default.
    pub fn sleep_timeout(out: &str) -> (r: i64)
        ensures
            r == spec_timeout(out@, 900),
    {
        Self::timeout(out, 900)
    }

    /// The lid action from `gsettings get … lid-close-ac-action`.
    pub fn lid_close_action(out: &str) -> (r: String)
        ensures
            r@ == spec_lid_action(out@),
    {
        let t = text::trimmed(&text::chars_of(out));
        let mut i: usize = 0;
        assert(t@.skip(0) =~= t@);
        while i < t.len() && (t[i] == '\'' || t[i] == '"')
            invariant
                i <= t.len(),
                unquote(t@) == unquote(t@.skip(i as int)),
            decreases t.len() - i,
        {
            assert(t@.skip(i as int).drop_first() =~= t@.skip(i + 1));
            i += 1;
        }
        let mut j: usize = t.len();
        assert(t@.subrange(i as int, j as int) =~= t@.skip(i as int));
        assert(unquote(t@.skip(i as int)) == unquote_end(t@.skip(i as int))) by {
            if i < t.len() {
                assert(t@.skip(i as int)[0] == t@[i as int]);
            }
        }
        while j > i && (t[j - 1] == '\'' || t[j - 1] == '"')
            invariant
                i <= j <= t.len(),
                unquote(t@) == unquote_end(t@.subrange(i as int, j as int)),
            decreases j,
        {
            assert(t@.subrange(i as int, j as int).drop_last() =~= t@.subrange(i as int, j - 1));
            j -= 1;
        }
        let v = text::slice(&t, i, j);
        let known = text::same(&v, &text::lit("suspend")) || text::same(&v, &text::lit("hibernate")) || text::same(
            &v,
            &text::lit("nothing"),
        ) || text::same(&v, &text::lit("blank")) || text::same(&v, &text::lit("logout")) || text::same(
            &v,
            &text::lit("shutdown"),
        );
        if known {
            text::string_of(&v)
        } else {
            "suspend".to_string()
        }
    }

    /// Whether the power saver profile is active.
    pub fn power_saver_enabled(out: &str) -> (r: bool)
        ensures
            r == (spec_power_profile(out@) == "power-saver"@),
    {
        let p = Self::power_profile(out);
        text::same(&text::chars_of(p.as_str()), &text::lit("power-saver"))
    }

    /// The command that selects a profile.
    pub fn set_power_profile(profile: &str) -> (r: Vec<String>)
        ensures
            text::string_views(r@) == seq!["powerprofilesctl"@, "set"@, profile@],
    {
        let r = string_list(&["powerprofilesctl", "set", profile]);
        assert(["powerprofilesctl", "set", profile]@.map_values(|s: &str| s@) =~= seq!["powerprofilesctl"@, "set"@, profile@]);
        r
    }

    /// The command that sets the screen timeout.
    pub fn set_screen_timeout(seconds: i64) -> (r: Vec<String>)
        ensures
            text::string_views(r@) == seq!["gsettings"@, "set"@, "org.gnome.desktop.session"@, "idle-delay"@,
                num::dec(seconds as int)],
    {
        let s = text::string_of(&num::i64_to_chars(seconds));
        let sv: &str = s.as_str();
        let r = string_list(&["gsettings", "set", "org.gnome.desktop.session", "idle-delay", sv]);
        assert(["gsettings", "set", "org.gnome.desktop.session", "idle-delay", sv]@.map_values(|s: &str| s@) =~= seq!["gsettings"@, "set"@, "org.gnome.desktop.session"@, "idle-delay"@,
                num::dec(seconds as int)]);
        r
    }

    /// The command that sets the sleep timeout.
    pub fn set_sleep_timeout(seconds: i64) -> (r: Vec<String>)
        ensures
            text::string_views(r@) == seq!["gsettings"@, "set"@, "org.gnome.settings-daemon.plugins.power"@,
                "sleep-inactive-ac-timeout"@, num::dec(seconds as int)],
    {
        let s = text::string_of(&num::i64_to_chars(seconds));
        let sv: &str = s.as_str();
        let r = string_list(&["gsettings", "set", "org.gnome.settings-daemon.plugins.power", "sleep-inactive-ac-timeout", sv]);
        assert(["gsettings", "set", "org.gnome.settings-daemon.plugins.power", "sleep-inactive-ac-timeout", sv]@.map_values(|s: &str| s@) =~= seq!["gsettings"@, "set"@, "org.gnome.settings-daemon.plugins.power"@,
                "sleep-inactive-ac-timeout"@, num::dec(seconds as int)]);
        r
    }

    /// The command that sets the lid action.
    pub fn set_lid_close_action(action: &str) -> (r: Vec<String>)
        ensures
            text::string_views(r@) == seq!["gsettings"@, "set"@, "org.gnome.settings-daemon.plugins.power"@,
                "lid-close-ac-action"@, action@],
    {
        let r = string_list(&["gsettings", "set", "org.gnome.settings-daemon.plugins.power", "lid-close-ac-action", action]);
        assert(["gsettings", "set", "org.gnome.settings-daemon.plugins.power", "lid-close-ac-action", action]@.map_values(|s: &str| s@) =~= seq!["gsettings"@, "set"@, "org.gnome.settings-daemon.plugins.power"@,
                "lid-close-ac-action"@, action@]);
        r
    }
}

} // verus!
