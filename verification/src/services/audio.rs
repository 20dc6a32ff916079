//! The sound page: devices and mute state from `wpctl`, and the commands
//! that change them. A reader takes its command's output (empty when the
//! command failed).
use vstd::prelude::*;
use crate::text;
use crate::num;

verus! {

// ---------------------------------------------------------------- model

/// A character of the tree that `wpctl status` draws, or a blank.
pub open spec fn is_margin(c: char) -> bool {
    c == '│' || c == '├' || c == '└' || c == '─' || c == ' ' || c == '\t'
}

pub open spec fn trim_margin(s: Seq<char>) -> Seq<char>
    decreases s.len(),
{
    if s.len() > 0 && is_margin(s[0]) {
        trim_margin(s.drop_first())
    } else {
        s
    }
}

/// The ASCII digits that start `s`.
pub open spec fn leading_digits(s: Seq<char>) -> Seq<char>
    decreases s.len(),
{
    if s.len() > 0 && num::digit(s[0]) {
        seq![s[0]] + leading_digits(s.drop_first())
    } else {
        seq![]
    }
}

/// The device of a line `[*] ID. NAME [vol: …]` (`None` when it is not one).
pub open spec fn device_of(line: Seq<char>) -> Option<(int, Seq<char>, bool)> {
    let t = trim_margin(line);
    let is_default = t.len() > 0 && t[0] == '*';
    let rest = if is_default { text::trim_start(t.drop_first()) } else { text::trim_start(t) };
    let digits = leading_digits(rest);
    let after = rest.skip(digits.len() as int);
    if digits.len() == 0 || !(after.len() > 0 && after[0] == '.') {
        None
    } else {
        let after_dot = after.drop_first();
        if !(after_dot.len() > 0 && text::is_ws(after_dot[0])) {
            None
        } else {
            let n0 = text::trim_start(after_dot);
            let n1 = match text::find(n0, " [vol:"@) {
                Some(k) => n0.take(k),
                None => n0,
            };
            let name = text::trim_end(n1);
            if name.len() == 0 {
                None
            } else {
                let id = match num::u32_of(digits) {
                    Some(v) => v,
                    None => 0,
                };
                Some((id, name, is_default))
            }
        }
    }
}

/// The devices listed after the first line that holds `section`, up to a
/// line that holds nothing but the tree's margin and white space.
pub open spec fn section_devices(ls: Seq<Seq<char>>, i: int, inside: bool, section: Seq<char>) -> Seq<(int, Seq<char>, bool)>
    decreases ls.len() - i,
{
    if i < 0 || i >= ls.len() {
        seq![]
    } else if text::contains(ls[i], section) {
        section_devices(ls, i + 1, true, section)
    } else if !inside {
        section_devices(ls, i + 1, inside, section)
    } else if text::trim(trim_margin(ls[i])).len() == 0 {
        seq![]
    } else {
        match device_of(ls[i]) {
            Some(d) => seq![d] + section_devices(ls, i + 1, inside, section),
            None => section_devices(ls, i + 1, inside, section),
        }
    }
}

pub open spec fn spec_devices(out: Seq<char>, section: Seq<char>) -> Seq<(int, Seq<char>, bool)> {
    section_devices(text::lines(out), 0, false, section)
}

// ---------------------------------------------------------------- exec

/// A sound device of the page.
#[derive(Debug)]
pub struct AudioDevice {
    pub id: u32,
    pub name: String,
    pub default: bool,
}

impl View for AudioDevice {
    type V = (int, Seq<char>, bool);

    open spec fn view(&self) -> Self::V {
        (self.id as int, self.name@, self.default)
    }
}

pub open spec fn device_views(v: Seq<AudioDevice>) -> Seq<(int, Seq<char>, bool)> {
    v.map_values(|d: AudioDevice| d@)
}

fn trim_margin_of(s: &Vec<char>) -> (r: Vec<char>)
    ensures
        r@ == trim_margin(s@),
{
    let mut i: usize = 0;
    assert(s@.skip(0) =~= s@);
    while i < s.len() && (s[i] == '│' || s[i] == '├' || s[i] == '└' || s[i] == '─' || s[i] == ' ' || s[i] == '\t')
        invariant
            i <= s.len(),
            trim_margin(s@) == trim_margin(s@.skip(i as int)),
        decreases s.len() - i,
    {
        assert(s@.skip(i as int).drop_first() =~= s@.skip(i + 1));
        i += 1;
    }
    let r = text::slice(s, i, s.len());
    assert(r@ =~= s@.skip(i as int));
    r
}

fn digits_of(s: &Vec<char>) -> (r: usize)
    ensures
        r <= s.len(),
        r as int == leading_digits(s@).len(),
        s@.take(r as int) == leading_digits(s@),
{
    let mut i: usize = 0;
    assert(s@.skip(0) =~= s@);
    assert(s@.take(0) + leading_digits(s@) =~= leading_digits(s@));
    while i < s.len() && num::is_digit(s[i])
        invariant
            i <= s.len(),
            leading_digits(s@) == s@.take(i as int) + leading_digits(s@.skip(i as int)),
        decreases s.len() - i,
    {
        proof {
            let r = s@.skip(i as int);
            assert(r.drop_first() =~= s@.skip(i + 1));
            assert(s@.take(i + 1) =~= s@.take(i as int) + seq![r[0]]);
        }
        i += 1;
    }
    assert(leading_digits(s@.skip(i as int)) =~= Seq::<char>::empty()) by {
        if i < s.len() {
            assert(s@.skip(i as int)[0] == s@[i as int]);
        }
    }
    assert(leading_digits(s@) =~= s@.take(i as int));
    i
}

fn device_from(line: &Vec<char>) -> (r: Option<AudioDevice>)
    ensures
        match r {
            Some(d) => device_of(line@) == Some(d@),
            None => device_of(line@) is None,
        },
{
    let t = trim_margin_of(line);
    let is_default = t.len() > 0 && t[0] == '*';
    let rest = if is_default {
        let x = text::slice(&t, 1, t.len());
        assert(x@ =~= t@.drop_first());
        text::trimmed_start(&x)
    } else {
        text::trimmed_start(&t)
    };
    let n = digits_of(&rest);
    let after = text::slice(&rest, n, rest.len());
    assert(after@ =~= rest@.skip(n as int));
    if n == 0 || !(after.len() > 0 && after[0] == '.') {
        return None;
    }
    let after_dot = text::slice(&after, 1, after.len());
    assert(after_dot@ =~= after@.drop_first());
    if !(after_dot.len() > 0 && text::char_is_ws(after_dot[0])) {
        return None;
    }
    let n0 = text::trimmed_start(&after_dot);
    let vol = text::lit(" [vol:");
    let n1 = match text::search(&n0, &vol) {
        Some(k) => {
            proof {
                text::lemma_find_from_occurs(n0@, vol@, 0);
            }
            let x = text::slice(&n0, 0, k);
            assert(x@ =~= n0@.take(k as int));
            x
        },
        None => n0,
    };
    let name = text::cut_end_ws(&n1);
    if name.len() == 0 {
        return None;
    }
    let ds = text::slice(&rest, 0, n);
    let id: u32 = match num::parse_u32(&ds) {
        Some(v) => v,
        None => 0,
    };
    Some(AudioDevice { id, name: text::string_of(&name), default: is_default })
}

fn devices(out: &str, section: &str) -> (r: Vec<AudioDevice>)
    ensures
        device_views(r@) == spec_devices(out@, section@),
{
    let ls = text::lines_of(out);
    let ghost lv = text::views(ls@);
    let sec = text::lit(section);
    let mut ds: Vec<AudioDevice> = Vec::new();
    let mut inside = false;
    let mut i: usize = 0;
    assert(device_views(ds@) =~= Seq::<(int, Seq<char>, bool)>::empty());
    while i < ls.len()
        invariant
            i <= ls.len(),
            lv == text::views(ls@),
            lv == text::lines(out@),
            sec@ == section@,
            spec_devices(out@, section@) == device_views(ds@) + section_devices(lv, i as int, inside, section@),
        decreases ls.len() - i,
    {
        assert(ls@[i as int]@ == lv[i as int]);
        let ghost d0 = device_views(ds@);
        if text::has(&ls[i], &sec) {
            inside = true;
        } else if !inside {
        } else if text::trimmed(&trim_margin_of(&ls[i])).len() == 0 {
            assert(d0 + Seq::<(int, Seq<char>, bool)>::empty() =~= d0);
            return ds;
        } else {
            match device_from(&ls[i]) {
                Some(d) => {
                    let ghost dv = d@;
                    ds.push(d);
                    assert(device_views(ds@) =~= d0.push(dv));
                    assert(d0 + (seq![dv] + section_devices(lv, i + 1, inside, section@)) =~= d0.push(dv)
                        + section_devices(lv, i + 1, inside, section@));
                },
                None => {},
            }
        }
        i += 1;
    }
    assert(device_views(ds@) + Seq::<(int, Seq<char>, bool)>::empty() =~= device_views(ds@));
    ds
}

fn command4(a: &str, b: &str, c: &str, d: Vec<char>) -> (r: Vec<String>)
    ensures
        text::string_views(r@) == seq![a@, b@, c@, d@],
{
    let mut r: Vec<String> = Vec::new();
    r.push(a.to_string());
    r.push(b.to_string());
    r.push(c.to_string());
    r.push(text::string_of(&d));
    assert(text::string_views(r@) =~= seq![a@, b@, c@, d@]);
    r
}

/// The sound page's services.
pub struct AudioService;

impl AudioService {
    /// The outputs of `wpctl status`.
    pub fn outputs(out: &str) -> (r: Vec<AudioDevice>)
        ensures
            device_views(r@) == spec_devices(out@, "Sinks"@),
    {
        devices(out, "Sinks")
    }

    /// The inputs of `wpctl status`.
    pub fn inputs(out: &str) -> (r: Vec<AudioDevice>)
        ensures
            device_views(r@) == spec_devices(out@, "Sources"@),
    {
        devices(out, "Sources")
    }

    /// Whether `wpctl get-volume @DEFAULT_AUDIO_SINK@` says `MUTED`.
    pub fn output_muted(out: &str) -> (r: bool)
        ensures
            r == text::contains(out@, "MUTED"@),
    {
        text::has(&text::chars_of(out), &text::lit("MUTED"))
    }

    /// Whether `wpctl get-volume @DEFAULT_AUDIO_SOURCE@` says `MUTED`.
    pub fn input_muted(out: &str) -> (r: bool)
        ensures
            r == text::contains(out@, "MUTED"@),
    {
        text::has(&text::chars_of(out), &text::lit("MUTED"))
    }

    /// The command that mutes or unmutes the output.
    pub fn set_output_mute(muted: bool) -> (r: Vec<String>)
        ensures
            text::string_views(r@) == seq!["wpctl"@, "set-mute"@, "@DEFAULT_AUDIO_SINK@"@, if muted { "1"@ } else { "0"@ }],
    {
        command4("wpctl", "set-mute", "@DEFAULT_AUDIO_SINK@", text::lit(if muted { "1" } else { "0" }))
    }

    /// The command that mutes or unmutes the input.
    pub fn set_input_mute(muted: bool) -> (r: Vec<String>)
        ensures
            text::string_views(r@) == seq!["wpctl"@, "set-mute"@, "@DEFAULT_AUDIO_SOURCE@"@, if muted { "1"@ } else { "0"@ }],
    {
        command4("wpctl", "set-mute", "@DEFAULT_AUDIO_SOURCE@", text::lit(if muted { "1" } else { "0" }))
    }

    /// The command that makes a device the default output.
    pub fn set_output(device: &AudioDevice) -> (r: Vec<String>)
        ensures
            text::string_views(r@) == seq!["wpctl"@, "set-default"@, num::dec(device.id as int)],
    {
        let mut r: Vec<String> = Vec::new();
        r.push("wpctl".to_string());
        r.push("set-default".to_string());
        r.push(text::string_of(&num::i64_to_chars(device.id as i64)));
        assert(text::string_views(r@) =~= seq!["wpctl"@, "set-default"@, num::dec(device.id as int)]);
        r
    }

    /// The command that makes a device the default input.
    pub fn set_input(device: &AudioDevice) -> (r: Vec<String>)
        ensures
            text::string_views(r@) == seq!["wpctl"@, "set-default"@, num::dec(device.id as int)],
    {
        Self::set_output(device)
    }
}

} // verus!
