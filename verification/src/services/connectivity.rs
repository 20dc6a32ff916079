//! Connectivity page: Wi-Fi through NetworkManager and Bluetooth through
//! `bluetoothctl`. A reader takes its command's output as the runner gives it
//! (trimmed; `None` when the command failed or timed out); an action returns
//! its command.
use vstd::prelude::*;
use crate::text;
use crate::num;
use crate::backend::wifi;
use crate::backend::bluetooth::opt_view;

verus! {

// ---------------------------------------------------------------- model

/// The service is running: the tool is there and `systemctl is-active`
/// printed `active`.
pub open spec fn spec_running(has_tool: bool, out: Option<Seq<char>>) -> bool {
    has_tool && out == Some("active"@)
}

/// Some line holds `wifi`.
pub open spec fn spec_wifi_available(nm_running: bool, out: Option<Seq<char>>) -> bool {
    nm_running && match out {
        Some(o) => some_line_holds(text::lines(o), "wifi"@),
        None => false,
    }
}

/// Some line holds `w`.
pub open spec fn some_line_holds(ls: Seq<Seq<char>>, w: Seq<char>) -> bool {
    exists|i: int| 0 <= i < ls.len() && text::contains(#[trigger] ls[i], w)
}

/// `nmcli radio wifi` printed `enabled` (in any ASCII case).
pub open spec fn spec_wifi_enabled(available: bool, out: Option<Seq<char>>) -> bool {
    available && match out {
        Some(o) => text::ascii_lower(o) == "enabled"@,
        None => false,
    }
}

/// The SSID of the first `ACTIVE:SSID` line whose ACTIVE is `yes`.
pub open spec fn active_ssid(ls: Seq<Seq<char>>, i: int) -> Option<Seq<char>>
    decreases ls.len() - i,
{
    if i < 0 || i >= ls.len() {
        None
    } else {
        let l = ls[i];
        let k = text::index_of(l, ':');
        let active = l.take(k as int);
        let ssid = if k < l.len() { l.skip(k + 1 as int) } else { seq![] };
        if active == "yes"@ {
            Some(ssid)
        } else {
            active_ssid(ls, i + 1)
        }
    }
}

pub open spec fn spec_current_network(available: bool, out: Option<Seq<char>>) -> Option<Seq<char>> {
    if !available {
        None
    } else {
        match out {
            Some(o) => active_ssid(text::lines(o), 0),
            None => None,
        }
    }
}

/// A signal: its integer when it is digits after optional `-`s, else 0.
pub open spec fn spec_signal(s: Seq<char>) -> int {
    let d = text::trim_start_char(s, '-');
    if d.len() > 0 && num::all_digits(d) {
        match num::i64_of(s) {
            Some(v) => v,
            None => 0,
        }
    } else {
        0
    }
}

/// The network of a line `ACTIVE:SSID:SIGNAL:SECURITY`.
pub open spec fn info_of(line: Seq<char>, saved: Seq<Seq<char>>) -> wifi::NetView {
    let f = wifi::spec_parse_escaped(line);
    let ssid = wifi::field(f, 1);
    let shown = if ssid.len() == 0 { "Hidden Network"@ } else { ssid };
    (shown, spec_signal(wifi::field(f, 2)), wifi::field(f, 3), wifi::field(f, 0) == "yes"@, saved.contains(shown))
}

pub open spec fn infos_upto(ls: Seq<Seq<char>>, n: int, saved: Seq<Seq<char>>) -> Seq<wifi::NetView>
    decreases n,
{
    if n <= 0 || n > ls.len() {
        seq![]
    } else if ls[n - 1].len() == 0 {
        infos_upto(ls, n - 1, saved)
    } else {
        infos_upto(ls, n - 1, saved).push(info_of(ls[n - 1], saved))
    }
}

/// The names of the saved Wi-Fi connections among the first `n` lines of
/// `nmcli --escape yes -t -f NAME,TYPE connection show`.
pub open spec fn saved_names_upto(ls: Seq<Seq<char>>, n: int) -> Seq<Seq<char>>
    decreases n,
{
    if n <= 0 || n > ls.len() {
        seq![]
    } else {
        let f = wifi::spec_parse_escaped(ls[n - 1]);
        if f.len() >= 2 && f[1] == "802-11-wireless"@ {
            saved_names_upto(ls, n - 1).push(f[0])
        } else {
            saved_names_upto(ls, n - 1)
        }
    }
}

pub open spec fn spec_saved(code: int, out: Seq<char>) -> Seq<Seq<char>> {
    if code != 0 {
        seq![]
    } else {
        saved_names_upto(text::lines(out), text::lines(out).len() as int)
    }
}

/// The networks of the list: none when the list failed; else each SSID once,
/// connected first, then saved, then by signal.
pub open spec fn spec_networks(code: int, out: Seq<char>, saved: Seq<Seq<char>>) -> Seq<wifi::NetView> {
    if code != 0 {
        seq![]
    } else {
        let ls = text::lines(out);
        let ns = infos_upto(ls, ls.len() as int, saved);
        wifi::sorted(wifi::dedup_upto(ns, ns.len() as int))
    }
}

/// The network page lists each network once, connected networks first, then
/// saved ones, then by signal.
pub proof fn law_networks_once_in_order(code: int, out: Seq<char>, saved: Seq<Seq<char>>)
    ensures
        wifi::distinct_ssids(spec_networks(code, out, saved)),
        wifi::in_order(spec_networks(code, out, saved)),
{
    if code == 0 {
        let ls = text::lines(out);
        wifi::law_network_list(infos_upto(ls, ls.len() as int, saved));
    }
}

proof fn lemma_infos_upto(ls: Seq<Seq<char>>, n: int, saved: Seq<Seq<char>>)
    requires
        0 <= n <= ls.len(),
    ensures
        forall|m: int| 0 <= m < n && ls[m].len() > 0 ==> exists|k: int|
            0 <= k < infos_upto(ls, n, saved).len() && infos_upto(ls, n, saved)[k] == info_of(#[trigger] ls[m], saved),
        forall|k: int| 0 <= k < infos_upto(ls, n, saved).len() ==> exists|m: int|
            0 <= m < n && ls[m].len() > 0 && #[trigger] infos_upto(ls, n, saved)[k] == info_of(ls[m], saved),
    decreases n,
{
    if n > 0 {
        lemma_infos_upto(ls, n - 1, saved);
        let p = infos_upto(ls, n - 1, saved);
        let q = infos_upto(ls, n, saved);
        if ls[n - 1].len() > 0 {
            assert(q == p.push(info_of(ls[n - 1], saved)));
            assert forall|m: int| 0 <= m < n && ls[m].len() > 0 implies exists|k: int|
                0 <= k < q.len() && q[k] == info_of(#[trigger] ls[m], saved) by {
                if m < n - 1 {
                    let k = choose|k: int| 0 <= k < p.len() && p[k] == info_of(ls[m], saved);
                    assert(q[k] == p[k]);
                } else {
                    assert(q[p.len() as int] == info_of(ls[m], saved));
                }
            }
            assert forall|k: int| 0 <= k < q.len() implies exists|m: int|
                0 <= m < n && ls[m].len() > 0 && #[trigger] q[k] == info_of(ls[m], saved) by {
                if k < p.len() {
                    assert(q[k] == p[k]);
                } else {
                    assert(q[k] == info_of(ls[n - 1], saved));
                }
            }
        }
    }
}

/// The networks listed are those of the list's non-empty lines (an empty
/// SSID shown as `Hidden Network`), each SSID once: every listed network is
/// the first one read with its SSID, each read from a non-empty line, and
/// the SSID of every non-empty line is listed.
pub proof fn law_networks_are_the_lines(out: Seq<char>, saved: Seq<Seq<char>>)
    ensures
        ({
            let ls = text::lines(out);
            let ns = infos_upto(ls, ls.len() as int, saved);
            let r = spec_networks(0, out, saved);
            &&& forall|i: int| 0 <= i < r.len() ==> wifi::first_of_ssid(ns, #[trigger] r[i])
            &&& forall|k: int| 0 <= k < ns.len() ==> exists|m: int|
                0 <= m < ls.len() && ls[m].len() > 0 && #[trigger] ns[k] == info_of(ls[m], saved)
            &&& forall|m: int| 0 <= m < ls.len() && ls[m].len() > 0 ==> wifi::has_ssid(r, info_of(#[trigger] ls[m], saved).0)
        }),
{
    let ls = text::lines(out);
    let ns = infos_upto(ls, ls.len() as int, saved);
    let r = spec_networks(0, out, saved);
    lemma_infos_upto(ls, ls.len() as int, saved);
    wifi::law_network_list_members(ns);
    assert forall|m: int| 0 <= m < ls.len() && ls[m].len() > 0 implies wifi::has_ssid(r, info_of(#[trigger] ls[m], saved).0) by {
        let k = choose|k: int| 0 <= k < ns.len() && ns[k] == info_of(ls[m], saved);
        assert(wifi::has_ssid(r, ns[k].0));
    }
}

/// The adapter is there: the service runs and `bluetoothctl list` printed
/// something.
pub open spec fn spec_bt_available(bt_running: bool, out: Option<Seq<char>>) -> bool {
    bt_running && match out {
        Some(o) => o.len() > 0,
        None => false,
    }
}

/// The value of the first trimmed line that starts with `Powered:`.
pub open spec fn powered_from(ls: Seq<Seq<char>>, i: int) -> Option<Seq<char>>
    decreases ls.len() - i,
{
    if i < 0 || i >= ls.len() {
        None
    } else if text::starts_with(text::trim(ls[i]), "Powered:"@) {
        Some(text::trim(text::trim(ls[i]).skip(8)))
    } else {
        powered_from(ls, i + 1)
    }
}

pub open spec fn spec_bt_enabled(available: bool, out: Option<Seq<char>>) -> bool {
    available && match out {
        Some(o) => match powered_from(text::lines(o), 0) {
            Some(v) => text::ascii_lower(v) == "yes"@,
            None => false,
        },
        None => false,
    }
}

/// The devices of `bluetoothctl devices`: lines that start with `Device`,
/// their second word and the other words joined by spaces.
pub open spec fn bt_devices_upto(ls: Seq<Seq<char>>, n: int) -> Seq<(Seq<char>, Seq<char>)>
    decreases n,
{
    if n <= 0 || n > ls.len() {
        seq![]
    } else {
        let l = ls[n - 1];
        let ws = text::words(l);
        if text::starts_with(l, "Device"@) && ws.len() >= 2 && ws[1].len() > 0 {
            bt_devices_upto(ls, n - 1).push((ws[1], text::join(ws.skip(2), seq![' '])))
        } else {
            bt_devices_upto(ls, n - 1)
        }
    }
}

pub open spec fn spec_bt_devices(available: bool, out: Option<Seq<char>>) -> Seq<(Seq<char>, Seq<char>)> {
    if !available {
        seq![]
    } else {
        match out {
            Some(o) => bt_devices_upto(text::lines(o), text::lines(o).len() as int),
            None => seq![],
        }
    }
}

// ---------------------------------------------------------------- types

/// A Wi-Fi network of the page.
#[derive(Debug)]
pub struct NetworkInfo {
    pub ssid: String,
    pub signal: i64,
    pub security: String,
    pub connected: bool,
    pub saved: bool,
}

impl View for NetworkInfo {
    type V = wifi::NetView;

    open spec fn view(&self) -> wifi::NetView {
        (self.ssid@, self.signal as int, self.security@, self.connected, self.saved)
    }
}

pub open spec fn info_views(v: Seq<NetworkInfo>) -> Seq<wifi::NetView> {
    v.map_values(|n: NetworkInfo| n@)
}

/// A Bluetooth device of the page.
#[derive(Debug)]
pub struct BluetoothDevice {
    pub mac: String,
    pub name: String,
}

impl View for BluetoothDevice {
    type V = (Seq<char>, Seq<char>);

    open spec fn view(&self) -> Self::V {
        (self.mac@, self.name@)
    }
}

// ---------------------------------------------------------------- exec

fn is_active(out: Option<&str>) -> (r: bool)
    ensures
        r == (opt_view(out) == Some("active"@)),
{
    match out {
        Some(o) => text::same(&text::chars_of(o), &text::lit("active")),
        None => false,
    }
}

fn signal_of(s: &Vec<char>) -> (r: i64)
    ensures
        r == spec_signal(s@),
{
    let d = text::cut_start_char(s, '-');
    let mut all = d.len() > 0;
    let mut i: usize = 0;
    while i < d.len()
        invariant
            i <= d.len(),
            all == (d@.len() > 0 && forall|k: int| 0 <= k < i ==> num::digit(#[trigger] d@[k])),
        decreases d.len() - i,
    {
        if !num::is_digit(d[i]) {
            all = false;
        }
        i += 1;
    }
    assert(all == (d@.len() > 0 && num::all_digits(d@)));
    if all {
        match num::parse_i64(s) {
            Some(v) => v,
            None => 0,
        }
    } else {
        0
    }
}

fn info_from(line: &Vec<char>, saved: &Vec<Vec<char>>) -> (r: NetworkInfo)
    ensures
        r@ == info_of(line@, text::views(saved@)),
{
    let f = wifi::fields_of(line);
    let ssid = wifi::field_of(&f, 1);
    let shown = if ssid.len() == 0 {
        text::lit("Hidden Network")
    } else {
        ssid
    };
    let is_saved = wifi::in_list(&shown, saved);
    let signal = signal_of(&wifi::field_of(&f, 2));
    let security = wifi::field_of(&f, 3);
    let connected = text::same(&wifi::field_of(&f, 0), &text::lit("yes"));
    NetworkInfo {
        ssid: text::string_of(&shown),
        signal,
        security: text::string_of(&security),
        connected,
        saved: is_saved,
    }
}

fn goes_after_info(a: &NetworkInfo, b: &NetworkInfo) -> (r: bool)
    ensures
        r == wifi::goes_after(a@, b@),
{
    (!a.connected && b.connected) || (a.connected == b.connected && ((!a.saved && b.saved) || (a.saved == b.saved
        && a.signal < b.signal)))
}

fn dedup_infos(input: Vec<NetworkInfo>) -> (r: Vec<NetworkInfo>)
    ensures
        info_views(r@) == wifi::dedup_upto(info_views(input@), input@.len() as int),
{
    let ghost o = info_views(input@);
    let n = input.len();
    let mut rest = input;
    let mut out: Vec<NetworkInfo> = Vec::new();
    let mut seen: Vec<Vec<char>> = Vec::new();
    let mut k: usize = 0;
    assert(o.skip(0) =~= o);
    assert(info_views(out@) =~= Seq::<wifi::NetView>::empty());
    assert(text::views(seen@) =~= Seq::<Seq<char>>::empty());
    while rest.len() > 0
        invariant
            k + rest.len() == n,
            o.len() == n,
            info_views(rest@) == o.skip(k as int),
            info_views(out@) == wifi::dedup_upto(o, k as int),
            text::views(seen@) == wifi::ssids(o.take(k as int)),
        decreases rest.len(),
    {
        let ghost r0 = info_views(rest@);
        let ghost rv = rest@;
        let x = rest.remove(0);
        assert(x == rv[0]);
        assert(r0[0] == rv[0]@);
        assert(net_eq(x@, o[k as int])) by {
            assert(r0[0] == o[k as int]);
        }
        assert(info_views(rest@) =~= r0.drop_first());
        let sid = text::chars_of(x.ssid.as_str());
        let dup = wifi::in_list(&sid, &seen);
        let ghost s0 = text::views(seen@);
        seen.push(sid);
        assert(o.take(k + 1) =~= o.take(k as int).push(o[k as int]));
        assert(wifi::ssids(o.take(k + 1)) =~= s0.push(o[k as int].0));
        assert(text::views(seen@) =~= s0.push(o[k as int].0));
        if !dup {
            let ghost u0 = info_views(out@);
            out.push(x);
            assert(info_views(out@) =~= u0.push(o[k as int]));
        }
        k += 1;
        assert(o.skip(k as int) =~= r0.drop_first());
    }
    out
}

pub open spec fn net_eq(a: wifi::NetView, b: wifi::NetView) -> bool {
    a == b
}

fn sort_infos(input: Vec<NetworkInfo>) -> (r: Vec<NetworkInfo>)
    ensures
        info_views(r@) == wifi::sorted(info_views(input@)),
{
    let ghost o = info_views(input@);
    let n = input.len();
    let mut rest = input;
    let mut out: Vec<NetworkInfo> = Vec::new();
    let mut k: usize = 0;
    assert(o.skip(0) =~= o);
    assert(info_views(out@) =~= Seq::<wifi::NetView>::empty());
    assert(o.take(0) =~= Seq::<wifi::NetView>::empty());
    while rest.len() > 0
        invariant
            k + rest.len() == n,
            o.len() == n,
            info_views(rest@) == o.skip(k as int),
            info_views(out@) == wifi::sorted(o.take(k as int)),
        decreases rest.len(),
    {
        let ghost r0 = info_views(rest@);
        let ghost rv = rest@;
        let x = rest.remove(0);
        assert(x == rv[0]);
        assert(r0[0] == rv[0]@);
        assert(r0[0] == o[k as int]);
        assert(info_views(rest@) =~= r0.drop_first());
        let ghost t = info_views(out@);
        let mut p: usize = 0;
        while p < out.len() && !goes_after_info(&out[p], &x)
            invariant
                p <= out.len(),
                t == info_views(out@),
                wifi::insert_pos(t, x@, 0) == wifi::insert_pos(t, x@, p as int),
            decreases out.len() - p,
        {
            p += 1;
        }
        assert(wifi::insert_pos(t, x@, p as int) == p as int) by {
            if p < out.len() {
                assert(t[p as int] == out@[p as int]@);
            }
        }
        let ghost xv = x@;
        out.insert(p, x);
        assert(info_views(out@) =~= t.insert(p as int, xv));
        assert(o.take(k + 1).drop_last() =~= o.take(k as int));
        assert(o.take(k + 1).last() == xv);
        k += 1;
        assert(o.skip(k as int) =~= r0.drop_first());
    }
    assert(o.take(k as int) =~= o);
    out
}

fn cmd(parts: &[&str]) -> (r: Vec<String>)
    ensures
        text::string_views(r@) == parts@.map_values(|s: &str| s@),
{
    text::strings_of(parts)
}

/// The network page's services.
pub struct ConnectivityService;

impl ConnectivityService {
    /// Whether NetworkManager runs (`nmcli` is there and `systemctl
    /// is-active NetworkManager` printed `active`).
    pub fn nm_running(has_nmcli: bool, out: Option<&str>) -> (r: bool)
        ensures
            r == spec_running(has_nmcli, opt_view(out)),
    {
        has_nmcli && is_active(out)
    }

    /// Whether the Bluetooth service runs.
    pub fn bt_running(has_ctl: bool, out: Option<&str>) -> (r: bool)
        ensures
            r == spec_running(has_ctl, opt_view(out)),
    {
        has_ctl && is_active(out)
    }

    /// Whether there is a Wi-Fi device (`nmcli -t -f TYPE device`).
    pub fn wifi_available(nm_running: bool, out: Option<&str>) -> (r: bool)
        ensures
            r == spec_wifi_available(nm_running, opt_view(out)),
    {
        if !nm_running {
            return false;
        }
        let o = match out {
            Some(o) => o,
            None => {
                return false;
            },
        };
        let ls = text::lines_of(o);
        let ghost lv = text::views(ls@);
        let w = text::lit("wifi");
        let mut i: usize = 0;
        while i < ls.len()
            invariant
                i <= ls.len(),
                lv == text::views(ls@),
                lv == text::lines(o@),
                w@ == "wifi"@,
                nm_running,
                opt_view(out) == Some(o@),
                forall|k: int| 0 <= k < i ==> !text::contains(#[trigger] lv[k], "wifi"@),
            decreases ls.len() - i,
        {
            assert(ls@[i as int]@ == lv[i as int]);
            if text::has(&ls[i], &w) {
                assert(text::contains(lv[i as int], "wifi"@));
                assert(some_line_holds(lv, "wifi"@));
                return true;
            }
            i += 1;
        }
        false
    }

    /// Whether the Wi-Fi radio is on (`nmcli radio wifi`).
    pub fn wifi_enabled(available: bool, out: Option<&str>) -> (r: bool)
        ensures
            r == spec_wifi_enabled(available, opt_view(out)),
    {
        if !available {
            return false;
        }
        match out {
            Some(o) => text::same(&text::to_ascii_lower(&text::chars_of(o)), &text::lit("enabled")),
            None => false,
        }
    }

    /// The command that turns the Wi-Fi radio on or off.
    pub fn set_wifi(enabled: bool) -> (r: Vec<String>)
        ensures
            text::string_views(r@) == seq!["nmcli"@, "radio"@, "wifi"@, if enabled { "on"@ } else { "off"@ }],
    {
        let w = if enabled { "on" } else { "off" };
        let r = cmd(&["nmcli", "radio", "wifi", w]);
        assert(["nmcli", "radio", "wifi", w]@.map_values(|s: &str| s@) =~= seq!["nmcli"@, "radio"@, "wifi"@, w@]);
        r
    }

    /// The command that rescans the Wi-Fi networks.
    pub fn rescan_wifi() -> (r: Vec<String>)
        ensures
            text::string_views(r@) == seq!["nmcli"@, "device"@, "wifi"@, "rescan"@],
    {
        let r = cmd(&["nmcli", "device", "wifi", "rescan"]);
        assert(["nmcli", "device", "wifi", "rescan"]@.map_values(|s: &str| s@) =~= seq!["nmcli"@, "device"@, "wifi"@, "rescan"@]);
        r
    }

    /// The SSID of the active network (`nmcli -t -f ACTIVE,SSID device wifi`).
    pub fn current_network(available: bool, out: Option<&str>) -> (r: Option<String>)
        ensures
            match r {
                Some(s) => spec_current_network(available, opt_view(out)) == Some(s@),
                None => spec_current_network(available, opt_view(out)) is None,
            },
    {
        if !available {
            return None;
        }
        let o = match out {
            Some(o) => o,
            None => {
                return None;
            },
        };
        let ls = text::lines_of(o);
        let ghost lv = text::views(ls@);
        let yes = text::lit("yes");
        let mut i: usize = 0;
        while i < ls.len()
            invariant
                i <= ls.len(),
                lv == text::views(ls@),
                lv == text::lines(o@),
                yes@ == "yes"@,
                available,
                opt_view(out) == Some(o@),
                active_ssid(lv, 0) == active_ssid(lv, i as int),
            decreases ls.len() - i,
        {
            assert(ls@[i as int]@ == lv[i as int]);
            let l = &ls[i];
            let (active, ssid) = match wifi::after_first_of(l, ':') {
                Some((a, b)) => (a, b),
                None => {
                    proof {
                        text::lemma_index_of_bound(l@, ':');
                    }
                    let a = l.clone();
                    assert(l@.take(text::index_of(l@, ':') as int) =~= l@);
                    (a, Vec::new())
                },
            };
            if text::same(&active, &yes) {
                return Some(text::string_of(&ssid));
            }
            i += 1;
        }
        None
    }

    /// The saved Wi-Fi connections.
    pub fn saved_networks(code: i32, out: &str) -> (r: Vec<String>)
        ensures
            text::string_views(r@) == spec_saved(code as int, out@),
    {
        let mut r: Vec<String> = Vec::new();
        assert(text::string_views(r@) =~= Seq::<Seq<char>>::empty());
        if code != 0 {
            return r;
        }
        let ls = text::lines_of(out);
        let ghost lv = text::views(ls@);
        let kind = text::lit("802-11-wireless");
        let mut i: usize = 0;
        while i < ls.len()
            invariant
                i <= ls.len(),
                lv == text::views(ls@),
                lv == text::lines(out@),
                kind@ == "802-11-wireless"@,
                text::string_views(r@) == saved_names_upto(lv, i as int),
            decreases ls.len() - i,
        {
            assert(ls@[i as int]@ == lv[i as int]);
            let f = wifi::fields_of(&ls[i]);
            if f.len() >= 2 && text::same(&f[1], &kind) {
                let ghost r0 = text::string_views(r@);
                r.push(text::string_of(&f[0]));
                assert(text::string_views(r@) =~= r0.push(f@[0]@));
            }
            i += 1;
        }
        r
    }

    /// The networks of `nmcli --escape yes -t -f ACTIVE,SSID,SIGNAL,SECURITY
    /// device wifi list --rescan no`, with the saved connections' names.
    pub fn wifi_networks_full(code: i32, out: &str, saved: &Vec<String>) -> (r: Vec<NetworkInfo>)
        ensures
            info_views(r@) == spec_networks(code as int, out@, text::string_views(saved@)),
    {
        if code != 0 {
            let r: Vec<NetworkInfo> = Vec::new();
            assert(info_views(r@) =~= Seq::<wifi::NetView>::empty());
            return r;
        }
        let sv = wifi::char_vecs(saved);
        let ls = text::lines_of(out);
        let ghost lv = text::views(ls@);
        let ghost svv = text::string_views(saved@);
        let mut nets: Vec<NetworkInfo> = Vec::new();
        let mut i: usize = 0;
        assert(info_views(nets@) =~= Seq::<wifi::NetView>::empty());
        while i < ls.len()
            invariant
                i <= ls.len(),
                lv == text::views(ls@),
                text::views(sv@) == svv,
                info_views(nets@) == infos_upto(lv, i as int, svv),
            decreases ls.len() - i,
        {
            assert(ls@[i as int]@ == lv[i as int]);
            if ls[i].len() > 0 {
                let net = info_from(&ls[i], &sv);
                let ghost n0 = info_views(nets@);
                let ghost nv = net@;
                nets.push(net);
                assert(info_views(nets@) =~= n0.push(nv));
            }
            i += 1;
        }
        let d = dedup_infos(nets);
        sort_infos(d)
    }

    /// The command that connects to a network (its outcome is read by
    /// `backend::wifi::connect_error`).
    pub fn wifi_connect(ssid: &str, password: Option<&str>) -> (r: Vec<String>)
        ensures
            text::string_views(r@) == wifi::with_password(seq!["nmcli"@, "device"@, "wifi"@, "connect"@, ssid@], wifi::opt_str(password)),
    {
        wifi::connect(ssid, password)
    }

    /// The command that disconnects the Wi-Fi device.
    pub fn wifi_disconnect(code: i32, out: &str) -> (r: Option<Vec<String>>)
        ensures
            match r {
                Some(c) => wifi::spec_disconnect(code as int, out@) == Some(text::string_views(c@)),
                None => wifi::spec_disconnect(code as int, out@) is None,
            },
    {
        wifi::disconnect(code, out)
    }

    /// The command that forgets a saved network.
    pub fn wifi_forget(ssid: &str) -> (r: Vec<String>)
        ensures
            text::string_views(r@) == seq!["nmcli"@, "connection"@, "delete"@, ssid@],
    {
        wifi::forget(ssid)
    }

    /// Whether there is a Bluetooth adapter (`bluetoothctl list`).
    pub fn bluetooth_available(bt_running: bool, out: Option<&str>) -> (r: bool)
        ensures
            r == spec_bt_available(bt_running, opt_view(out)),
    {
        bt_running && match out {
            Some(o) => text::chars_of(o).len() > 0,
            None => false,
        }
    }

    /// Whether the adapter is powered (`bluetoothctl show`).
    pub fn bluetooth_enabled(available: bool, out: Option<&str>) -> (r: bool)
        ensures
            r == spec_bt_enabled(available, opt_view(out)),
    {
        if !available {
            return false;
        }
        let o = match out {
            Some(o) => o,
            None => {
                return false;
            },
        };
        let ls = text::lines_of(o);
        let ghost lv = text::views(ls@);
        let p = text::lit("Powered:");
        proof {
            reveal_strlit("Powered:");
        }
        let mut i: usize = 0;
        while i < ls.len()
            invariant
                i <= ls.len(),
                lv == text::views(ls@),
                lv == text::lines(o@),
                p@ == "Powered:"@,
                p@.len() == 8,
                available,
                opt_view(out) == Some(o@),
                powered_from(lv, 0) == powered_from(lv, i as int),
            decreases ls.len() - i,
        {
            let t = text::trimmed(&ls[i]);
            assert(t@ == text::trim(lv[i as int]));
            if text::has_prefix(&t, &p) {
                let rest = text::slice(&t, 8, t.len());
                assert(rest@ =~= t@.skip(8));
                let v = text::trimmed(&rest);
                return text::same(&text::to_ascii_lower(&v), &text::lit("yes"));
            }
            i += 1;
        }
        false
    }

    /// The command that powers the adapter on or off, when there is one.
    pub fn set_bluetooth(available: bool, enabled: bool) -> (r: Option<Vec<String>>)
        ensures
            match r {
                Some(c) => available && text::string_views(c@) == seq!["bluetoothctl"@, "power"@, if enabled { "on"@ } else { "off"@ }],
                None => !available,
            },
    {
        if !available {
            return None;
        }
        let w = if enabled { "on" } else { "off" };
        let r = cmd(&["bluetoothctl", "power", w]);
        assert(["bluetoothctl", "power", w]@.map_values(|s: &str| s@) =~= seq!["bluetoothctl"@, "power"@, w@]);
        Some(r)
    }

    /// The known devices (`bluetoothctl devices`).
    pub fn bluetooth_devices(available: bool, out: Option<&str>) -> (r: Vec<BluetoothDevice>)
        ensures
            r@.map_values(|d: BluetoothDevice| d@) == spec_bt_devices(available, opt_view(out)),
    {
        let mut ds: Vec<BluetoothDevice> = Vec::new();
        assert(ds@.map_values(|d: BluetoothDevice| d@) =~= Seq::<(Seq<char>, Seq<char>)>::empty());
        if !available {
            return ds;
        }
        let o = match out {
            Some(o) => o,
            None => {
                return ds;
            },
        };
        let ls = text::lines_of(o);
        let ghost lv = text::views(ls@);
        let dev = text::lit("Device");
        let mut sp: Vec<char> = Vec::new();
        sp.push(' ');
        assert(sp@ =~= seq![' ']);
        let mut i: usize = 0;
        while i < ls.len()
            invariant
                i <= ls.len(),
                lv == text::views(ls@),
                lv == text::lines(o@),
                dev@ == "Device"@,
                sp@ == seq![' '],
                ds@.map_values(|d: BluetoothDevice| d@) == bt_devices_upto(lv, i as int),
            decreases ls.len() - i,
        {
            assert(ls@[i as int]@ == lv[i as int]);
            if text::has_prefix(&ls[i], &dev) {
                let ws = text::words_of(&ls[i]);
                if ws.len() >= 2 && ws[1].len() > 0 {
                    let mut rest: Vec<Vec<char>> = Vec::new();
                    let ghost r0 = text::views(rest@);
                    assert(r0 =~= Seq::<Seq<char>>::empty());
                    crate::services::kdl::push_lines(&mut rest, &ws, 2, ws.len());
                    assert(text::views(rest@) =~= text::views(ws@).skip(2));
                    let name = text::join_with(&rest, &sp);
                    let ghost d0 = ds@.map_values(|d: BluetoothDevice| d@);
                    let d = BluetoothDevice { mac: text::string_of(&ws[1]), name: text::string_of(&name) };
                    let ghost dv = d@;
                    ds.push(d);
                    assert(ds@.map_values(|d: BluetoothDevice| d@) =~= d0.push(dv));
                }
            }
            i += 1;
        }
        ds
    }
}

} // verus!
