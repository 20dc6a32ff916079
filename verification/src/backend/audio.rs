//! Audio through `wpctl`: the commands to run and the reading of their
//! output (an output is `None` when its command could not be run).
use vstd::prelude::*;
use crate::text;
use crate::num;
use crate::backend::bluetooth::opt_view;

verus! {

// ---------------------------------------------------------------- model

/// A character of the tree that modern `wpctl status` draws.
pub open spec fn is_tree(c: char) -> bool {
    c == '│' || c == '├' || c == '└' || c == '─' || c == ' '
}

/// `s` without the tree characters that start it.
pub open spec fn trim_tree(s: Seq<char>) -> Seq<char>
    decreases s.len(),
{
    if s.len() > 0 && is_tree(s[0]) {
        trim_tree(s.drop_first())
    } else {
        s
    }
}

/// A device as the model sees it: id, name, default.
pub type DeviceView = (int, Seq<char>, bool);

/// The device of an entry `[*] ID. NAME [vol: …]`.
pub open spec fn audio_entry(t: Seq<char>) -> Option<DeviceView> {
    let body = trim_tree(t);
    if body.len() == 0 {
        None
    } else {
        let is_default = body[0] == '*';
        let b2 = if is_default { text::trim_start(body.drop_first()) } else { body };
        match text::find(b2, ". "@) {
            None => None,
            Some(k) => match num::u32_of(text::trim(b2.take(k))) {
                None => None,
                Some(id) => Some((id, text::trim(text::before(text::trim(b2.skip(k + 2)), '[')), is_default)),
            },
        }
    }
}

/// The devices of the section `target` (`Sinks:` or `Sources:`) of `wpctl
/// status`, from line `i` on.
pub open spec fn devices_from(ls: Seq<Seq<char>>, i: int, in_section: bool, target: Seq<char>) -> Seq<DeviceView>
    decreases ls.len() - i,
{
    if i < 0 || i >= ls.len() {
        seq![]
    } else {
        let t = text::trim(ls[i]);
        if text::ends_with(t, seq![':']) {
            if text::ends_with(t, target) {
                devices_from(ls, i + 1, true, target)
            } else if in_section {
                seq![]
            } else {
                devices_from(ls, i + 1, in_section, target)
            }
        } else if !in_section || t.len() == 0 {
            devices_from(ls, i + 1, in_section, target)
        } else {
            match audio_entry(t) {
                Some(d) => seq![d] + devices_from(ls, i + 1, in_section, target),
                None => devices_from(ls, i + 1, in_section, target),
            }
        }
    }
}

pub open spec fn spec_devices(out: Option<Seq<char>>, target: Seq<char>) -> Seq<DeviceView> {
    match out {
        Some(o) => devices_from(text::lines(o), 0, false, target),
        None => seq![],
    }
}

/// `wpctl get-volume` reported the target muted.
pub open spec fn spec_muted(out: Option<Seq<char>>) -> bool {
    match out {
        Some(o) => text::contains(text::trim(o), "MUTED"@),
        None => false,
    }
}

pub open spec fn sink() -> Seq<char> {
    "@DEFAULT_AUDIO_SINK@"@
}

pub open spec fn source() -> Seq<char> {
    "@DEFAULT_AUDIO_SOURCE@"@
}

/// `wpctl set-volume TARGET N%`.
pub open spec fn volume_command(target: Seq<char>, value: int) -> Seq<Seq<char>> {
    seq!["wpctl"@, "set-volume"@, target, num::dec(value) + seq!['%']]
}

/// `wpctl set-mute TARGET 1|0`.
pub open spec fn mute_command(target: Seq<char>, muted: bool) -> Seq<Seq<char>> {
    seq!["wpctl"@, "set-mute"@, target, if muted { "1"@ } else { "0"@ }]
}

// ---------------------------------------------------------------- exec

/// An audio device of `wpctl status`.
#[derive(Debug)]
pub struct AudioDevice {
    pub id: u32,
    pub name: String,
    pub default: bool,
}

impl View for AudioDevice {
    type V = DeviceView;

    open spec fn view(&self) -> DeviceView {
        (self.id as int, self.name@, self.default)
    }
}

pub open spec fn device_views(v: Seq<AudioDevice>) -> Seq<DeviceView> {
    v.map_values(|d: AudioDevice| d@)
}

fn trim_tree_of(s: &Vec<char>) -> (r: Vec<char>)
    ensures
        r@ == trim_tree(s@),
{
    let mut i: usize = 0;
    assert(s@.skip(0) =~= s@);
    while i < s.len() && (s[i] == '│' || s[i] == '├' || s[i] == '└' || s[i] == '─' || s[i] == ' ')
        invariant
            i <= s.len(),
            trim_tree(s@) == trim_tree(s@.skip(i as int)),
        decreases s.len() - i,
    {
        assert(s@.skip(i as int).drop_first() =~= s@.skip(i + 1));
        i += 1;
    }
    let r = text::slice(s, i, s.len());
    assert(r@ =~= s@.skip(i as int));
    r
}

fn entry_of(t: &Vec<char>) -> (r: Option<AudioDevice>)
    ensures
        match r {
            Some(d) => audio_entry(t@) == Some(d@),
            None => audio_entry(t@) is None,
        },
{
    let body = trim_tree_of(t);
    if body.len() == 0 {
        return None;
    }
    let is_default = body[0] == '*';
    let b2 = if is_default {
        let x = text::slice(&body, 1, body.len());
        assert(x@ =~= body@.drop_first());
        text::trimmed_start(&x)
    } else {
        body
    };
    let sep = text::lit(". ");
    proof {
        reveal_strlit(". ");
    }
    let k = match text::search(&b2, &sep) {
        Some(k) => k,
        None => {
            return None;
        },
    };
    proof {
        text::lemma_find_from_occurs(b2@, sep@, 0);
        assert(text::occurs_at(b2@, sep@, k as int));
    }
    assert(k + 2 <= b2.len());
    let ids = text::slice(&b2, 0, k);
    assert(ids@ =~= b2@.take(k as int));
    let id = match num::parse_u32(&text::trimmed(&ids)) {
        Some(v) => v,
        None => {
            return None;
        },
    };
    let rest = text::slice(&b2, k + 2, b2.len());
    assert(rest@ =~= b2@.skip(k + 2));
    let name = text::trimmed(&text::cut_before(&text::trimmed(&rest), '['));
    Some(AudioDevice { id, name: text::string_of(&name), default: is_default })
}

fn list_devices(out: Option<&str>, target: &str) -> (r: Vec<AudioDevice>)
    ensures
        device_views(r@) == spec_devices(opt_view(out), target@),
{
    let mut ds: Vec<AudioDevice> = Vec::new();
    assert(device_views(ds@) =~= Seq::<DeviceView>::empty());
    let o = match out {
        Some(o) => o,
        None => {
            return ds;
        },
    };
    let ls = text::lines_of(o);
    let ghost lv = text::views(ls@);
    let tg = text::lit(target);
    let mut colon: Vec<char> = Vec::new();
    colon.push(':');
    assert(colon@ =~= seq![':']);
    let mut in_section = false;
    let mut i: usize = 0;
    while i < ls.len()
        invariant
            i <= ls.len(),
            lv == text::views(ls@),
            lv == text::lines(o@),
            tg@ == target@,
            colon@ == seq![':'],
            opt_view(out) == Some(o@),
            spec_devices(Some(o@), target@) == device_views(ds@) + devices_from(lv, i as int, in_section, target@),
        decreases ls.len() - i,
    {
        let t = text::trimmed(&ls[i]);
        assert(t@ == text::trim(lv[i as int]));
        let ghost d0 = device_views(ds@);
        if text::has_suffix(&t, &colon) {
            if text::has_suffix(&t, &tg) {
                in_section = true;
            } else if in_section {
                assert(d0 + Seq::<DeviceView>::empty() =~= d0);
                return ds;
            }
        } else if in_section && t.len() > 0 {
            match entry_of(&t) {
                Some(d) => {
                    let ghost dv = d@;
                    ds.push(d);
                    assert(device_views(ds@) =~= d0.push(dv));
                    assert(d0 + (seq![dv] + devices_from(lv, i + 1, in_section, target@)) =~= d0.push(dv)
                        + devices_from(lv, i + 1, in_section, target@));
                },
                None => {},
            }
        }
        i += 1;
    }
    assert(device_views(ds@) + Seq::<DeviceView>::empty() =~= device_views(ds@));
    ds
}

/// The sinks of `wpctl status`.
pub fn list_sinks(out: Option<&str>) -> (r: Vec<AudioDevice>)
    ensures
        device_views(r@) == spec_devices(opt_view(out), "Sinks:"@),
{
    list_devices(out, "Sinks:")
}

/// The sources of `wpctl status`.
pub fn list_sources(out: Option<&str>) -> (r: Vec<AudioDevice>)
    ensures
        device_views(r@) == spec_devices(opt_view(out), "Sources:"@),
{
    list_devices(out, "Sources:")
}

/// Whether `wpctl get-volume @DEFAULT_AUDIO_SINK@` reports the output muted.
pub fn is_muted(out: Option<&str>) -> (r: bool)
    ensures
        r == spec_muted(opt_view(out)),
{
    match out {
        Some(o) => text::has(&text::trimmed(&text::chars_of(o)), &text::lit("MUTED")),
        None => false,
    }
}

/// Whether `wpctl get-volume @DEFAULT_AUDIO_SOURCE@` reports the input muted.
pub fn is_input_muted(out: Option<&str>) -> (r: bool)
    ensures
        r == spec_muted(opt_view(out)),
{
    is_muted(out)
}

fn command4(a: &str, b: &str, c: &str, d: Vec<char>) -> (r: Vec<String>)
    ensures
        text::string_views(r@) == seq![a@, b@, c@, d@],
{
    let mut r: Vec<String> = Vec::new();
    r.push(a.to_string());
    r.push(b.to_string());
    r.push(c.to_string());
    r.push(text::string_of(&d));
    assert(text::string_views(r@) =~= seq![a@, b@, c@, d@]);
    r
}

fn percent(value: u8) -> (r: Vec<char>)
    ensures
        r@ == num::dec(value as int) + seq!['%'],
{
    let mut v = num::i64_to_chars(value as i64);
    v.push('%');
    v
}

/// The command that sets the output volume (percent).
pub fn set_volume(value: u8) -> (r: Vec<String>)
    ensures
        text::string_views(r@) == volume_command(sink(), value as int),
{
    command4("wpctl", "set-volume", "@DEFAULT_AUDIO_SINK@", percent(value))
}

/// The command that sets the input volume (percent).
pub fn set_input_volume(value: u8) -> (r: Vec<String>)
    ensures
        text::string_views(r@) == volume_command(source(), value as int),
{
    command4("wpctl", "set-volume", "@DEFAULT_AUDIO_SOURCE@", percent(value))
}

/// The command that mutes or unmutes the output.
pub fn set_mute(muted: bool) -> (r: Vec<String>)
    ensures
        text::string_views(r@) == mute_command(sink(), muted),
{
    command4("wpctl", "set-mute", "@DEFAULT_AUDIO_SINK@", text::lit(if muted { "1" } else { "0" }))
}

/// The command that mutes or unmutes the input.
pub fn set_input_mute(muted: bool) -> (r: Vec<String>)
    ensures
        text::string_views(r@) == mute_command(source(), muted),
{
    command4("wpctl", "set-mute", "@DEFAULT_AUDIO_SOURCE@", text::lit(if muted { "1" } else { "0" }))
}

/// The command that makes a node the default output.
pub fn set_default_sink(node_id: u32) -> (r: Vec<String>)
    ensures
        text::string_views(r@) == seq!["wpctl"@, "set-default"@, num::dec(node_id as int)],
{
    let mut r: Vec<String> = Vec::new();
    r.push("wpctl".to_string());
    r.push("set-default".to_string());
    r.push(text::string_of(&num::i64_to_chars(node_id as i64)));
    assert(text::string_views(r@) =~= seq!["wpctl"@, "set-default"@, num::dec(node_id as int)]);
    r
}

} // verus!
