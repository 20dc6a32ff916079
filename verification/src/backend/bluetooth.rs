//! Bluetooth through `bluetoothctl` and `rfkill`: the commands to run and
//! the reading of their output. `has_ctl` tells whether `bluetoothctl` is on
//! the `PATH`; an output is `None` when its command could not be run.
use vstd::prelude::*;
use crate::text;
use crate::backend::wifi;

verus! {

// ---------------------------------------------------------------- model

/// The first line of `out` that holds `label`.
pub open spec fn line_with(ls: Seq<Seq<char>>, label: Seq<char>, i: int) -> Option<Seq<char>>
    decreases ls.len() - i,
{
    if i < 0 || i >= ls.len() {
        None
    } else if text::contains(ls[i], label) {
        Some(ls[i])
    } else {
        line_with(ls, label, i + 1)
    }
}

/// The value after the first `:` of the first line holding `label` is `yes`
/// (in any case).
pub open spec fn flag_yes(out: Seq<char>, label: Seq<char>) -> bool {
    match line_with(text::lines(out), label, 0) {
        Some(l) => {
            let v = match wifi::after_first(l, ':') {
                Some(x) => x,
                None => seq![],
            };
            text::ascii_lower(text::trim(v)) == "yes"@
        },
        None => false,
    }
}

pub open spec fn opt_view(o: Option<&str>) -> Option<Seq<char>> {
    match o {
        Some(s) => Some(s@),
        None => None,
    }
}

/// A controller exists: without `bluetoothctl`, `/sys/class/bluetooth`
/// decides; otherwise `bluetoothctl show` ran and did not say
/// `No default controller`.
pub open spec fn spec_available(has_ctl: bool, sys_dir: bool, show: Option<Seq<char>>) -> bool {
    if !has_ctl {
        sys_dir
    } else {
        match show {
            Some(out) => !text::contains(out, "No default controller"@),
            None => false,
        }
    }
}

/// The controller is powered.
pub open spec fn spec_is_enabled(has_ctl: bool, show: Option<Seq<char>>) -> bool {
    has_ctl && match show {
        Some(out) => flag_yes(out, "Powered:"@),
        None => false,
    }
}

/// `rfkill` says the radio is blocked.
pub open spec fn spec_is_blocked(has_rfkill: bool, has_ctl: bool, out: Option<Seq<char>>) -> bool {
    has_rfkill && has_ctl && match out {
        Some(o) => text::contains(o, "Soft blocked: yes"@) || text::contains(o, "Hard blocked: yes"@),
        None => false,
    }
}

/// `bluetoothctl info` says the device is connected.
pub open spec fn spec_is_connected(info: Option<Seq<char>>) -> bool {
    match info {
        Some(o) => flag_yes(o, "Connected:"@),
        None => false,
    }
}

/// The address and name of a line `Device ADDR KIND NAME`.
pub open spec fn device_entry(line: Seq<char>) -> Option<(Seq<char>, Seq<char>)> {
    let t = text::trim(line);
    if text::starts_with(t, "Device "@) {
        let rest = t.skip(7);
        let k1 = text::index_of(rest, ' ');
        if k1 < rest.len() {
            let r2 = rest.skip(k1 + 1 as int);
            let k2 = text::index_of(r2, ' ');
            if k2 < r2.len() {
                Some((rest.take(k1 as int), r2.skip(k2 + 1 as int)))
            } else {
                None
            }
        } else {
            None
        }
    } else {
        None
    }
}

/// The devices of the first `n` lines of `bluetoothctl devices`.
pub open spec fn entries_upto(ls: Seq<Seq<char>>, n: int) -> Seq<(Seq<char>, Seq<char>)>
    decreases n,
{
    if n <= 0 || n > ls.len() {
        seq![]
    } else {
        match device_entry(ls[n - 1]) {
            Some(e) => entries_upto(ls, n - 1).push(e),
            None => entries_upto(ls, n - 1),
        }
    }
}

pub open spec fn entries(out: Seq<char>) -> Seq<(Seq<char>, Seq<char>)> {
    entries_upto(text::lines(out), text::lines(out).len() as int)
}

/// The `i`th device, connected as the `i`th `info` output says.
pub open spec fn device_at(es: Seq<(Seq<char>, Seq<char>)>, infos: Seq<Option<Seq<char>>>, i: int) -> (Seq<char>, Seq<char>, bool) {
    (es[i].0, es[i].1, spec_is_connected(if i < infos.len() { infos[i] } else { None }))
}

/// The devices, each connected as its `bluetoothctl info` output says (the
/// `i`th output for the `i`th device; missing ones say no).
pub open spec fn spec_list_devices(has_ctl: bool, out: Option<Seq<char>>, infos: Seq<Option<Seq<char>>>) -> Seq<(Seq<char>, Seq<char>, bool)> {
    if !has_ctl {
        seq![]
    } else {
        match out {
            None => seq![],
            Some(o) => {
                let es = entries(o);
                Seq::new(es.len(), |i: int| device_at(es, infos, i))
            },
        }
    }
}

/// The name of a line `Device ADDR NAME`, trimmed, when not empty.
pub open spec fn connected_name(line: Seq<char>) -> Option<Seq<char>> {
    let t = text::trim(line);
    if text::starts_with(t, "Device "@) {
        let rest = t.skip(7);
        let k = text::index_of(rest, ' ');
        if k < rest.len() && text::trim(rest.skip(k + 1 as int)).len() > 0 {
            Some(text::trim(rest.skip(k + 1 as int)))
        } else {
            None
        }
    } else {
        None
    }
}

pub open spec fn first_name(ls: Seq<Seq<char>>, i: int) -> Option<Seq<char>>
    decreases ls.len() - i,
{
    if i < 0 || i >= ls.len() {
        None
    } else {
        match connected_name(ls[i]) {
            Some(n) => Some(n),
            None => first_name(ls, i + 1),
        }
    }
}

/// The first named device of `bluetoothctl devices Connected`.
pub open spec fn spec_connected_device(has_ctl: bool, out: Option<Seq<char>>) -> Option<Seq<char>> {
    if !has_ctl {
        None
    } else {
        match out {
            Some(o) => first_name(text::lines(o), 0),
            None => None,
        }
    }
}

/// A `bluetoothctl` command, run only when the tool is there.
pub open spec fn ctl_command(has_ctl: bool, args: Seq<Seq<char>>) -> Option<Seq<Seq<char>>> {
    if has_ctl {
        Some(seq!["bluetoothctl"@] + args)
    } else {
        None
    }
}

pub open spec fn cmd_view(o: Option<Vec<String>>) -> Option<Seq<Seq<char>>> {
    match o {
        Some(v) => Some(text::string_views(v@)),
        None => None,
    }
}

// ---------------------------------------------------------------- exec

/// A Bluetooth device.
#[derive(Debug)]
pub struct BtDevice {
    pub address: String,
    pub name: String,
    pub connected: bool,
}

impl View for BtDevice {
    type V = (Seq<char>, Seq<char>, bool);

    open spec fn view(&self) -> Self::V {
        (self.address@, self.name@, self.connected)
    }
}

fn line_with_of(ls: &Vec<Vec<char>>, label: &Vec<char>) -> (r: Option<usize>)
    ensures
        match r {
            Some(i) => i < ls.len() && line_with(text::views(ls@), label@, 0) == Some(ls@[i as int]@),
            None => line_with(text::views(ls@), label@, 0) is None,
        },
{
    let ghost lv = text::views(ls@);
    let mut i: usize = 0;
    while i < ls.len()
        invariant
            i <= ls.len(),
            lv == text::views(ls@),
            line_with(lv, label@, 0) == line_with(lv, label@, i as int),
        decreases ls.len() - i,
    {
        assert(ls@[i as int]@ == lv[i as int]);
        if text::has(&ls[i], label) {
            return Some(i);
        }
        i += 1;
    }
    None
}

fn flag_yes_of(out: &str, label: &str) -> (r: bool)
    ensures
        r == flag_yes(out@, label@),
{
    let ls = text::lines_of(out);
    let lb = text::lit(label);
    match line_with_of(&ls, &lb) {
        Some(i) => {
            let l = &ls[i];
            let mut k: usize = 0;
            while k < l.len() && l[k] != ':'
                invariant
                    k <= l.len(),
                    forall|j: int| 0 <= j < k ==> l@[j] != ':',
                decreases l.len() - k,
            {
                k += 1;
            }
            proof {
                text::lemma_index_of_char(l@, ':', k as int);
            }
            let v = if k < l.len() {
                let x = text::slice(l, k + 1, l.len());
                assert(x@ =~= l@.skip(k + 1));
                x
            } else {
                Vec::new()
            };
            let t = text::trimmed(&v);
            let low = text::to_ascii_lower(&t);
            text::same(&low, &text::lit("yes"))
        },
        None => false,
    }
}

/// Whether a controller exists.
pub fn available(has_ctl: bool, sys_dir: bool, show: Option<&str>) -> (r: bool)
    ensures
        r == spec_available(has_ctl, sys_dir, opt_view(show)),
{
    if !has_ctl {
        return sys_dir;
    }
    match show {
        Some(out) => !text::has(&text::chars_of(out), &text::lit("No default controller")),
        None => false,
    }
}

/// Whether the controller is powered.
pub fn is_enabled(has_ctl: bool, show: Option<&str>) -> (r: bool)
    ensures
        r == spec_is_enabled(has_ctl, opt_view(show)),
{
    if !has_ctl {
        return false;
    }
    match show {
        Some(out) => flag_yes_of(out, "Powered:"),
        None => false,
    }
}

/// Whether `rfkill list bluetooth` reports a block.
pub fn is_blocked(has_rfkill: bool, has_ctl: bool, out: Option<&str>) -> (r: bool)
    ensures
        r == spec_is_blocked(has_rfkill, has_ctl, opt_view(out)),
{
    if !has_rfkill || !has_ctl {
        return false;
    }
    match out {
        Some(o) => {
            let v = text::chars_of(o);
            text::has(&v, &text::lit("Soft blocked: yes")) || text::has(&v, &text::lit("Hard blocked: yes"))
        },
        None => false,
    }
}

/// Whether `bluetoothctl info ADDR` reports a connection.
pub fn is_connected(info: Option<&str>) -> (r: bool)
    ensures
        r == spec_is_connected(opt_view(info)),
{
    match info {
        Some(o) => flag_yes_of(o, "Connected:"),
        None => false,
    }
}

fn ctl(has_ctl: bool, args: &[&str]) -> (r: Option<Vec<String>>)
    ensures
        cmd_view(r) == ctl_command(has_ctl, args@.map_values(|s: &str| s@)),
{
    if !has_ctl {
        return None;
    }
    let mut cmd: Vec<String> = Vec::new();
    cmd.push("bluetoothctl".to_string());
    let ghost c0 = text::string_views(cmd@);
    assert(c0 =~= seq!["bluetoothctl"@]);
    let mut i: usize = 0;
    while i < args.len()
        invariant
            i <= args.len(),
            text::string_views(cmd@) == seq!["bluetoothctl"@] + args@.map_values(|s: &str| s@).take(i as int),
        decreases args.len() - i,
    {
        let s: &str = args[i];
        assert(s == args@[i as int]);
        let ghost c1 = text::string_views(cmd@);
        cmd.push(s.to_string());
        assert(text::string_views(cmd@) =~= c1.push(s@));
        i += 1;
        assert(args@.map_values(|s: &str| s@).take(i as int) =~= args@.map_values(|s: &str| s@).take(i - 1).push(args@[i - 1]@));
    }
    assert(args@.map_values(|s: &str| s@).take(i as int) =~= args@.map_values(|s: &str| s@));
    Some(cmd)
}

/// The command that powers the controller on.
pub fn enable(has_ctl: bool) -> (r: Option<Vec<String>>)
    ensures
        cmd_view(r) == ctl_command(has_ctl, seq!["power"@, "on"@]),
{
    let r = ctl(has_ctl, &["power", "on"]);
    assert(["power", "on"]@.map_values(|s: &str| s@) =~= seq!["power"@, "on"@]);
    r
}

/// The command that powers the controller off.
pub fn disable(has_ctl: bool) -> (r: Option<Vec<String>>)
    ensures
        cmd_view(r) == ctl_command(has_ctl, seq!["power"@, "off"@]),
{
    let r = ctl(has_ctl, &["power", "off"]);
    assert(["power", "off"]@.map_values(|s: &str| s@) =~= seq!["power"@, "off"@]);
    r
}

/// The command that scans for ten seconds.
pub fn scan_start(has_ctl: bool) -> (r: Option<Vec<String>>)
    ensures
        cmd_view(r) == ctl_command(has_ctl, seq!["--timeout"@, "10"@, "scan"@, "on"@]),
{
    let r = ctl(has_ctl, &["--timeout", "10", "scan", "on"]);
    assert(["--timeout", "10", "scan", "on"]@.map_values(|s: &str| s@) =~= seq!["--timeout"@, "10"@, "scan"@, "on"@]);
    r
}

/// The command that stops the scan.
pub fn scan_stop(has_ctl: bool) -> (r: Option<Vec<String>>)
    ensures
        cmd_view(r) == ctl_command(has_ctl, seq!["scan"@, "off"@]),
{
    let r = ctl(has_ctl, &["scan", "off"]);
    assert(["scan", "off"]@.map_values(|s: &str| s@) =~= seq!["scan"@, "off"@]);
    r
}

/// The command that connects to a device.
pub fn connect(has_ctl: bool, address: &str) -> (r: Option<Vec<String>>)
    ensures
        cmd_view(r) == ctl_command(has_ctl, seq!["connect"@, address@]),
{
    let r = ctl(has_ctl, &["connect", address]);
    assert(["connect", address]@.map_values(|s: &str| s@) =~= seq!["connect"@, address@]);
    r
}

/// The command that disconnects a device.
pub fn disconnect(has_ctl: bool, address: &str) -> (r: Option<Vec<String>>)
    ensures
        cmd_view(r) == ctl_command(has_ctl, seq!["disconnect"@, address@]),
{
    let r = ctl(has_ctl, &["disconnect", address]);
    assert(["disconnect", address]@.map_values(|s: &str| s@) =~= seq!["disconnect"@, address@]);
    r
}

/// The command that pairs a device.
pub fn pair(has_ctl: bool, address: &str) -> (r: Option<Vec<String>>)
    ensures
        cmd_view(r) == ctl_command(has_ctl, seq!["pair"@, address@]),
{
    let r = ctl(has_ctl, &["pair", address]);
    assert(["pair", address]@.map_values(|s: &str| s@) =~= seq!["pair"@, address@]);
    r
}

/// The command that removes a device.
pub fn remove(has_ctl: bool, address: &str) -> (r: Option<Vec<String>>)
    ensures
        cmd_view(r) == ctl_command(has_ctl, seq!["remove"@, address@]),
{
    let r = ctl(has_ctl, &["remove", address]);
    assert(["remove", address]@.map_values(|s: &str| s@) =~= seq!["remove"@, address@]);
    r
}

fn space_split(s: &Vec<char>) -> (r: Option<(Vec<char>, Vec<char>)>)
    ensures
        match r {
            Some((a, b)) => text::index_of(s@, ' ') < s@.len() && a@ == s@.take(text::index_of(s@, ' ') as int)
                && b@ == s@.skip(text::index_of(s@, ' ') + 1 as int),
            None => text::index_of(s@, ' ') >= s@.len(),
        },
{
    let mut i: usize = 0;
    while i < s.len() && s[i] != ' '
        invariant
            i <= s.len(),
            forall|k: int| 0 <= k < i ==> s@[k] != ' ',
        decreases s.len() - i,
    {
        i += 1;
    }
    proof {
        text::lemma_index_of_char(s@, ' ', i as int);
    }
    if i >= s.len() {
        return None;
    }
    let a = text::slice(s, 0, i);
    let b = text::slice(s, i + 1, s.len());
    assert(a@ =~= s@.take(i as int));
    assert(b@ =~= s@.skip(i + 1));
    Some((a, b))
}

fn device_rest(line: &Vec<char>) -> (r: Option<Vec<char>>)
    ensures
        match r {
            Some(rest) => text::starts_with(text::trim(line@), "Device "@) && rest@ == text::trim(line@).skip(7),
            None => !text::starts_with(text::trim(line@), "Device "@),
        },
{
    let t = text::trimmed(line);
    let p = text::lit("Device ");
    proof {
        reveal_strlit("Device ");
    }
    if !text::has_prefix(&t, &p) {
        return None;
    }
    let rest = text::slice(&t, 7, t.len());
    assert(rest@ =~= t@.skip(7));
    Some(rest)
}

fn device_entry_of(line: &Vec<char>) -> (r: Option<(Vec<char>, Vec<char>)>)
    ensures
        match r {
            Some((a, n)) => device_entry(line@) == Some((a@, n@)),
            None => device_entry(line@) is None,
        },
{
    let rest = match device_rest(line) {
        Some(r) => r,
        None => {
            return None;
        },
    };
    match space_split(&rest) {
        Some((addr, r2)) => match space_split(&r2) {
            Some((_kind, name)) => Some((addr, name)),
            None => None,
        },
        None => None,
    }
}

fn entries_of(out: &str) -> (r: Vec<(Vec<char>, Vec<char>)>)
    ensures
        r@.map_values(|e: (Vec<char>, Vec<char>)| (e.0@, e.1@)) == entries(out@),
{
    let ls = text::lines_of(out);
    let ghost lv = text::views(ls@);
    let mut es: Vec<(Vec<char>, Vec<char>)> = Vec::new();
    let mut i: usize = 0;
    while i < ls.len()
        invariant
            i <= ls.len(),
            lv == text::views(ls@),
            lv == text::lines(out@),
            es@.map_values(|e: (Vec<char>, Vec<char>)| (e.0@, e.1@)) == entries_upto(lv, i as int),
        decreases ls.len() - i,
    {
        assert(ls@[i as int]@ == lv[i as int]);
        match device_entry_of(&ls[i]) {
            Some(e) => {
                let ghost e0 = es@.map_values(|e: (Vec<char>, Vec<char>)| (e.0@, e.1@));
                let ghost ev = (e.0@, e.1@);
                es.push(e);
                assert(es@.map_values(|e: (Vec<char>, Vec<char>)| (e.0@, e.1@)) =~= e0.push(ev));
            },
            None => {},
        }
        i += 1;
    }
    es
}

/// The addresses of the devices of `bluetoothctl devices`, in order (the
/// devices whose `info` `list_devices` wants).
pub fn device_addresses(out: &str) -> (r: Vec<String>)
    ensures
        text::string_views(r@) == entries(out@).map_values(|e: (Seq<char>, Seq<char>)| e.0),
{
    let es = entries_of(out);
    let mut r: Vec<String> = Vec::new();
    let mut i: usize = 0;
    while i < es.len()
        invariant
            i <= es.len(),
            es@.map_values(|e: (Vec<char>, Vec<char>)| (e.0@, e.1@)) == entries(out@),
            text::string_views(r@) == entries(out@).map_values(|e: (Seq<char>, Seq<char>)| e.0).take(i as int),
        decreases es.len() - i,
    {
        let ghost r0 = text::string_views(r@);
        r.push(text::string_of(&es[i].0));
        assert(text::string_views(r@) =~= r0.push(es@[i as int].0@));
        i += 1;
        assert(entries(out@).map_values(|e: (Seq<char>, Seq<char>)| e.0).take(i as int) =~= r0.push(es@[i - 1].0@));
    }
    assert(entries(out@).map_values(|e: (Seq<char>, Seq<char>)| e.0).take(i as int) =~= entries(out@).map_values(|e: (Seq<char>, Seq<char>)| e.0));
    r
}

pub open spec fn info_views(v: Seq<Option<String>>) -> Seq<Option<Seq<char>>> {
    v.map_values(|o: Option<String>| match o {
        Some(s) => Some(s@),
        None => None,
    })
}

/// The devices of `bluetoothctl devices`, with the outputs of `bluetoothctl
/// info` for their addresses in the same order.
pub fn list_devices(has_ctl: bool, out: Option<&str>, infos: &Vec<Option<String>>) -> (r: Vec<BtDevice>)
    ensures
        r@.map_values(|d: BtDevice| d@) == spec_list_devices(has_ctl, opt_view(out), info_views(infos@)),
{
    let mut ds: Vec<BtDevice> = Vec::new();
    assert(ds@.map_values(|d: BtDevice| d@) =~= Seq::<(Seq<char>, Seq<char>, bool)>::empty());
    if !has_ctl {
        return ds;
    }
    let o = match out {
        Some(o) => o,
        None => {
            return ds;
        },
    };
    let es = entries_of(o);
    let ghost ev = entries(o@);
    let ghost iv = info_views(infos@);
    let mut i: usize = 0;
    while i < es.len()
        invariant
            i <= es.len(),
            es@.map_values(|e: (Vec<char>, Vec<char>)| (e.0@, e.1@)) == ev,
            ev == entries(o@),
            iv == info_views(infos@),
            ds@.map_values(|d: BtDevice| d@) == spec_list_devices(true, Some(o@), iv).take(i as int),
            spec_list_devices(true, Some(o@), iv).len() == ev.len(),
        decreases es.len() - i,
    {
        let c = if i < infos.len() {
            match &infos[i] {
                Some(s) => {
                    assert(iv[i as int] == Some(s@));
                    is_connected(Some(s.as_str()))
                },
                None => {
                    assert(iv[i as int] is None);
                    false
                },
            }
        } else {
            false
        };
        assert(c == spec_is_connected(if (i as int) < iv.len() { iv[i as int] } else { None }));
        assert(ev[i as int] == (es@[i as int].0@, es@[i as int].1@));
        let ghost d0 = ds@.map_values(|d: BtDevice| d@);
        let d = BtDevice { address: text::string_of(&es[i].0), name: text::string_of(&es[i].1), connected: c };
        let ghost dv = d@;
        assert(iv.len() == infos@.len());
        assert(ev.len() == es@.len());
        assert(dv == device_at(ev, iv, i as int));
        assert(dv == spec_list_devices(true, Some(o@), iv)[i as int]);
        ds.push(d);
        assert(ds@.map_values(|d: BtDevice| d@) =~= d0.push(dv));
        i += 1;
        assert(spec_list_devices(true, Some(o@), iv).take(i as int) =~= d0.push(dv));
    }
    assert(spec_list_devices(true, Some(o@), iv).take(i as int) =~= spec_list_devices(true, Some(o@), iv));
    ds
}

/// The name of the connected device.
pub fn connected_device(has_ctl: bool, out: Option<&str>) -> (r: Option<String>)
    ensures
        match r {
            Some(n) => spec_connected_device(has_ctl, opt_view(out)) == Some(n@),
            None => spec_connected_device(has_ctl, opt_view(out)) is None,
        },
{
    if !has_ctl {
        return None;
    }
    let o = match out {
        Some(o) => o,
        None => {
            return None;
        },
    };
    let ls = text::lines_of(o);
    let ghost lv = text::views(ls@);
    let mut i: usize = 0;
    while i < ls.len()
        invariant
            i <= ls.len(),
            lv == text::views(ls@),
            lv == text::lines(o@),
            has_ctl,
            opt_view(out) == Some(o@),
            first_name(lv, 0) == first_name(lv, i as int),
        decreases ls.len() - i,
    {
        assert(ls@[i as int]@ == lv[i as int]);
        match device_rest(&ls[i]) {
            Some(rest) => match space_split(&rest) {
                Some((_a, name)) => {
                    let t = text::trimmed(&name);
                    if t.len() > 0 {
                        assert(connected_name(lv[i as int]) == Some(t@));
                        return Some(text::string_of(&t));
                    }
                },
                None => {},
            },
            None => {},
        }
        i += 1;
    }
    None
}

} // verus!
