//! Wi-Fi through `nmcli`: the commands to run and the reading of their
//! output. A function that reads takes the exit code and the output of its
//! command; a function that acts returns the command line to run.
use vstd::prelude::*;
use crate::text;
use crate::num;

verus! {

// ---------------------------------------------------------------- model

/// The text after the first `c`, if there is one.
pub open spec fn after_first(s: Seq<char>, c: char) -> Option<Seq<char>> {
    let k = text::index_of(s, c);
    if k < s.len() {
        Some(s.skip(k + 1 as int))
    } else {
        None
    }
}

/// Some line of `nmcli -t -f DEVICE,TYPE device` has the type `wifi`.
pub open spec fn spec_available(code: int, out: Seq<char>) -> bool {
    code == 0 && exists|i: int| 0 <= i < text::lines(out).len() && after_first(#[trigger] text::lines(out)[i], ':') == Some("wifi"@)
}

/// `nmcli radio wifi` said `enabled` (in any case).
pub open spec fn spec_enabled(code: int, out: Seq<char>) -> bool {
    code == 0 && text::ascii_lower(text::trim(out)) == "enabled"@
}

/// The state of the field splitter: the fields done, the current one, and
/// whether the next character is escaped.
pub type FieldState = (Seq<Seq<char>>, Seq<char>, bool);

pub open spec fn field_step(st: FieldState, ch: char) -> FieldState {
    let (fields, current, escape) = st;
    if escape {
        (fields, current.push(ch), false)
    } else if ch == '\\' {
        (fields, current, true)
    } else if ch == ':' {
        (fields.push(current), seq![], false)
    } else {
        (fields, current.push(ch), escape)
    }
}

pub open spec fn field_state(s: Seq<char>) -> FieldState
    decreases s.len(),
{
    if s.len() == 0 {
        (seq![], seq![], false)
    } else {
        field_step(field_state(s.drop_last()), s.last())
    }
}

/// The `:`-separated fields of a line of `nmcli --escape yes -t`, a `\`
/// escaping the next character.
pub open spec fn spec_parse_escaped(line: Seq<char>) -> Seq<Seq<char>> {
    let st = field_state(line);
    st.0.push(st.1)
}

/// `\:` made `:`.
pub open spec fn unescape(s: Seq<char>) -> Seq<char> {
    text::replace_all(s, "\\:"@, ":"@)
}

/// The names of the saved Wi-Fi connections (`NAME:TYPE` lines of type
/// `802-11-wireless`) among the first `n` lines.
pub open spec fn saved_upto(ls: Seq<Seq<char>>, n: int) -> Seq<Seq<char>>
    decreases n,
{
    if n <= 0 || n > ls.len() {
        seq![]
    } else {
        let l = ls[n - 1];
        let k = text::index_of(l, ':');
        if k < l.len() && l.skip(k + 1 as int) == "802-11-wireless"@ {
            saved_upto(ls, n - 1).push(l.take(k as int))
        } else {
            saved_upto(ls, n - 1)
        }
    }
}

/// The saved Wi-Fi connections; none when the command failed.
pub open spec fn spec_saved_networks(code: int, out: Seq<char>) -> Seq<Seq<char>> {
    if code != 0 {
        seq![]
    } else {
        saved_upto(text::lines(out), text::lines(out).len() as int)
    }
}

/// A network as the model sees it: SSID, signal, security, connected, saved.
pub type NetView = (Seq<char>, int, Seq<char>, bool, bool);

/// The field `i`, empty when there are fewer fields.
pub open spec fn field(f: Seq<Seq<char>>, i: int) -> Seq<char> {
    if 0 <= i < f.len() {
        f[i]
    } else {
        seq![]
    }
}

/// The network that a line `ACTIVE:SSID:SIGNAL:SECURITY` describes; an empty
/// SSID is shown as `Hidden Network`, an unreadable signal as 0.
pub open spec fn network_of(line: Seq<char>, saved: Seq<Seq<char>>) -> NetView {
    let f = spec_parse_escaped(line);
    let ssid = unescape(field(f, 1));
    let signal = match num::u8_of(text::trim_start_char(field(f, 2), '-')) {
        Some(v) => v,
        None => 0,
    };
    (
        if ssid.len() == 0 { "Hidden Network"@ } else { ssid },
        signal,
        unescape(field(f, 3)),
        field(f, 0) == "yes"@,
        saved.contains(ssid),
    )
}

/// The networks of the first `n` lines (empty lines passed over).
pub open spec fn networks_upto(ls: Seq<Seq<char>>, n: int, saved: Seq<Seq<char>>) -> Seq<NetView>
    decreases n,
{
    if n <= 0 || n > ls.len() {
        seq![]
    } else if ls[n - 1].len() == 0 {
        networks_upto(ls, n - 1, saved)
    } else {
        networks_upto(ls, n - 1, saved).push(network_of(ls[n - 1], saved))
    }
}

/// The SSID of the last connected network.
pub open spec fn last_connected(ns: Seq<NetView>) -> Option<Seq<char>>
    decreases ns.len(),
{
    if ns.len() == 0 {
        None
    } else if ns.last().3 {
        Some(ns.last().0)
    } else {
        last_connected(ns.drop_last())
    }
}

pub open spec fn ssids(ns: Seq<NetView>) -> Seq<Seq<char>> {
    ns.map_values(|n: NetView| n.0)
}

/// The first `n` networks without those whose SSID came before.
pub open spec fn dedup_upto(ns: Seq<NetView>, n: int) -> Seq<NetView>
    decreases n,
{
    if n <= 0 || n > ns.len() {
        seq![]
    } else if ssids(ns.take(n - 1)).contains(ns[n - 1].0) {
        dedup_upto(ns, n - 1)
    } else {
        dedup_upto(ns, n - 1).push(ns[n - 1])
    }
}

/// `a` comes after `b`: connected first, then saved, then the stronger
/// signal.
pub open spec fn goes_after(a: NetView, b: NetView) -> bool {
    (!a.3 && b.3) || (a.3 == b.3 && ((!a.4 && b.4) || (a.4 == b.4 && a.1 < b.1)))
}

/// Where a stable sort puts `x` among the sorted `t`: before the first
/// network that goes after it.
pub open spec fn insert_pos(t: Seq<NetView>, x: NetView, i: int) -> int
    decreases t.len() - i,
{
    if i < 0 || i >= t.len() {
        t.len() as int
    } else if goes_after(t[i], x) {
        i
    } else {
        insert_pos(t, x, i + 1)
    }
}

/// The networks in order (a stable sort).
pub open spec fn sorted(ns: Seq<NetView>) -> Seq<NetView>
    decreases ns.len(),
{
    if ns.len() == 0 {
        seq![]
    } else {
        let t = sorted(ns.drop_last());
        t.insert(insert_pos(t, ns.last(), 0), ns.last())
    }
}

/// No two networks share an SSID.
pub open spec fn distinct_ssids(ns: Seq<NetView>) -> bool {
    forall|i: int, j: int| 0 <= i < j < ns.len() ==> #[trigger] ns[i].0 != #[trigger] ns[j].0
}

/// No network comes before one that it goes after.
pub open spec fn in_order(ns: Seq<NetView>) -> bool {
    forall|i: int, j: int| 0 <= i < j < ns.len() ==> !goes_after(#[trigger] ns[i], #[trigger] ns[j])
}

proof fn lemma_insert_pos(t: Seq<NetView>, x: NetView, i: int)
    requires
        0 <= i <= t.len(),
    ensures
        i <= insert_pos(t, x, i) <= t.len(),
        forall|k: int| i <= k < insert_pos(t, x, i) ==> !goes_after(#[trigger] t[k], x),
        insert_pos(t, x, i) < t.len() ==> goes_after(t[insert_pos(t, x, i)], x),
    decreases t.len() - i,
{
    if i < t.len() && !goes_after(t[i], x) {
        lemma_insert_pos(t, x, i + 1);
    }
}

/// The stable sort keeps the length and the networks, and puts them in
/// order.
proof fn lemma_sorted(ns: Seq<NetView>)
    ensures
        sorted(ns).len() == ns.len(),
        in_order(sorted(ns)),
        forall|k: int| 0 <= k < ns.len() ==> ns.contains(#[trigger] sorted(ns)[k]),
        distinct_ssids(ns) ==> distinct_ssids(sorted(ns)),
    decreases ns.len(),
{
    if ns.len() > 0 {
        let d = ns.drop_last();
        let x = ns.last();
        lemma_sorted(d);
        let t = sorted(d);
        lemma_insert_pos(t, x, 0);
        let p = insert_pos(t, x, 0);
        let r = t.insert(p, x);
        assert(r == sorted(ns));
        assert forall|k: int| 0 <= k < ns.len() implies ns.contains(#[trigger] r[k]) by {
            if k < p {
                assert(r[k] == t[k]);
                assert(d.contains(t[k]));
                let m = choose|m: int| 0 <= m < d.len() && d[m] == t[k];
                assert(ns[m] == t[k]);
            } else if k == p {
                assert(ns[ns.len() - 1] == x);
            } else {
                assert(r[k] == t[k - 1]);
                assert(d.contains(t[k - 1]));
                let m = choose|m: int| 0 <= m < d.len() && d[m] == t[k - 1];
                assert(ns[m] == t[k - 1]);
            }
        }
        assert forall|i: int, j: int| 0 <= i < j < r.len() implies !goes_after(#[trigger] r[i], #[trigger] r[j]) by {
            if j < p {
                assert(r[i] == t[i] && r[j] == t[j]);
            } else if j == p {
                assert(r[i] == t[i]);
            } else if i < p {
                assert(r[i] == t[i] && r[j] == t[j - 1]);
            } else if i == p {
                assert(r[j] == t[j - 1]);
                assert(goes_after(t[p], x));
                if j - 1 > p {
                    assert(!goes_after(t[p], t[j - 1]));
                }
            } else {
                assert(r[i] == t[i - 1] && r[j] == t[j - 1]);
            }
        }
        if distinct_ssids(ns) {
            assert(distinct_ssids(d)) by {
                assert forall|i: int, j: int| 0 <= i < j < d.len() implies #[trigger] d[i].0 != #[trigger] d[j].0 by {
                    assert(d[i] == ns[i] && d[j] == ns[j]);
                }
            }
            assert forall|k: int| 0 <= k < t.len() implies #[trigger] t[k].0 != x.0 by {
                assert(d.contains(t[k]));
                let m = choose|m: int| 0 <= m < d.len() && d[m] == t[k];
                assert(ns[m] == t[k]);
                assert(ns[ns.len() - 1] == x);
            }
            assert forall|i: int, j: int| 0 <= i < j < r.len() implies #[trigger] r[i].0 != #[trigger] r[j].0 by {
                if j < p {
                    assert(r[i] == t[i] && r[j] == t[j]);
                } else if j == p {
                    assert(r[i] == t[i]);
                } else if i < p {
                    assert(r[i] == t[i] && r[j] == t[j - 1]);
                } else if i == p {
                    assert(r[j] == t[j - 1]);
                } else {
                    assert(r[i] == t[i - 1] && r[j] == t[j - 1]);
                }
            }
        }
    }
}

/// Deduplication keeps the first network of each SSID: no SSID twice, and
/// each one kept comes from the first `n`.
proof fn lemma_dedup(ns: Seq<NetView>, n: int)
    requires
        0 <= n <= ns.len(),
    ensures
        distinct_ssids(dedup_upto(ns, n)),
        forall|k: int| 0 <= k < dedup_upto(ns, n).len() ==> ssids(ns.take(n)).contains(#[trigger] dedup_upto(ns, n)[k].0),
    decreases n,
{
    if n > 0 {
        lemma_dedup(ns, n - 1);
        let d = dedup_upto(ns, n - 1);
        let s0 = ssids(ns.take(n - 1));
        let s1 = ssids(ns.take(n));
        assert forall|y: Seq<char>| s0.contains(y) implies s1.contains(y) by {
            let m = choose|m: int| 0 <= m < s0.len() && s0[m] == y;
            assert(s1[m] == y);
        }
        if !s0.contains(ns[n - 1].0) {
            let r = d.push(ns[n - 1]);
            assert(r == dedup_upto(ns, n));
            assert(s1[n - 1] == ns[n - 1].0);
            assert forall|k: int| 0 <= k < r.len() implies s1.contains(#[trigger] r[k].0) by {
                if k < d.len() {
                    assert(r[k] == d[k]);
                    assert(s0.contains(d[k].0));
                }
            }
            assert forall|i: int, j: int| 0 <= i < j < r.len() implies #[trigger] r[i].0 != #[trigger] r[j].0 by {
                if j < d.len() {
                    assert(r[i] == d[i] && r[j] == d[j]);
                } else {
                    assert(r[i] == d[i]);
                    assert(s0.contains(d[i].0));
                }
            }
        }
    }
}

/// `x` is the first network of `ns` with its SSID.
pub open spec fn first_of_ssid(ns: Seq<NetView>, x: NetView) -> bool {
    exists|k: int| 0 <= k < ns.len() && #[trigger] ns[k] == x && !ssids(ns.take(k)).contains(x.0)
}

/// Some network of `r` has the SSID `y`.
pub open spec fn has_ssid(r: Seq<NetView>, y: Seq<char>) -> bool {
    exists|i: int| 0 <= i < r.len() && #[trigger] r[i].0 == y
}

proof fn lemma_dedup_members(ns: Seq<NetView>, n: int)
    requires
        0 <= n <= ns.len(),
    ensures
        forall|i: int| 0 <= i < dedup_upto(ns, n).len() ==> first_of_ssid(ns, #[trigger] dedup_upto(ns, n)[i]),
        forall|k: int| 0 <= k < n ==> has_ssid(dedup_upto(ns, n), #[trigger] ns[k].0),
    decreases n,
{
    if n > 0 {
        lemma_dedup_members(ns, n - 1);
        let d = dedup_upto(ns, n - 1);
        let r = dedup_upto(ns, n);
        let x = ns[n - 1];
        let s0 = ssids(ns.take(n - 1));
        if s0.contains(x.0) {
            assert(r == d);
            let m = choose|m: int| 0 <= m < s0.len() && s0[m] == x.0;
            assert(ns[m].0 == x.0);
            assert(has_ssid(d, ns[m].0));
        } else {
            assert(r == d.push(x));
            assert(ns.take(n - 1) =~= ns.take(n - 1));
            assert(first_of_ssid(ns, x)) by {
                assert(ns[n - 1] == x);
            }
            assert forall|i: int| 0 <= i < r.len() implies first_of_ssid(ns, #[trigger] r[i]) by {
                if i < d.len() {
                    assert(r[i] == d[i]);
                }
            }
            assert forall|k: int| 0 <= k < n implies has_ssid(r, #[trigger] ns[k].0) by {
                if k < n - 1 {
                    let i = choose|i: int| 0 <= i < d.len() && #[trigger] d[i].0 == ns[k].0;
                    assert(r[i] == d[i]);
                } else {
                    assert(r[d.len() as int] == x);
                }
            }
        }
    }
}

proof fn lemma_sorted_keeps(ns: Seq<NetView>)
    ensures
        forall|k: int| 0 <= k < ns.len() ==> sorted(ns).contains(#[trigger] ns[k]),
    decreases ns.len(),
{
    if ns.len() > 0 {
        let d = ns.drop_last();
        let x = ns.last();
        lemma_sorted_keeps(d);
        let t = sorted(d);
        lemma_insert_pos(t, x, 0);
        let p = insert_pos(t, x, 0);
        let r = t.insert(p, x);
        assert(r == sorted(ns));
        assert forall|k: int| 0 <= k < ns.len() implies r.contains(#[trigger] ns[k]) by {
            if k == ns.len() - 1 {
                assert(r[p] == x);
            } else {
                assert(ns[k] == d[k]);
                assert(t.contains(d[k]));
                let m = choose|m: int| 0 <= m < t.len() && t[m] == d[k];
                if m < p {
                    assert(r[m] == t[m]);
                } else {
                    assert(r[m + 1] == t[m]);
                }
            }
        }
    }
}

/// The networks listed are those read, each SSID once: every network listed
/// is the first one read with its SSID, and every SSID read is listed.
pub proof fn law_network_list_members(ns: Seq<NetView>)
    ensures
        forall|i: int| 0 <= i < sorted(dedup_upto(ns, ns.len() as int)).len() ==> first_of_ssid(
            ns,
            #[trigger] sorted(dedup_upto(ns, ns.len() as int))[i],
        ),
        forall|k: int| 0 <= k < ns.len() ==> has_ssid(sorted(dedup_upto(ns, ns.len() as int)), #[trigger] ns[k].0),
{
    let d = dedup_upto(ns, ns.len() as int);
    let r = sorted(d);
    lemma_dedup_members(ns, ns.len() as int);
    lemma_sorted(d);
    lemma_sorted_keeps(d);
    assert forall|i: int| 0 <= i < r.len() implies first_of_ssid(ns, #[trigger] r[i]) by {
        let m = choose|m: int| 0 <= m < d.len() && d[m] == r[i];
        assert(first_of_ssid(ns, d[m]));
    }
    assert forall|k: int| 0 <= k < ns.len() implies has_ssid(r, #[trigger] ns[k].0) by {
        let i = choose|i: int| 0 <= i < d.len() && #[trigger] d[i].0 == ns[k].0;
        assert(r.contains(d[i]));
        let j = choose|j: int| 0 <= j < r.len() && r[j] == d[i];
        assert(r[j].0 == ns[k].0);
    }
}

/// The list of networks, from whatever lines it was read: each SSID once,
/// and in order (connected first, then saved, then the stronger signal).
pub proof fn law_network_list(ns: Seq<NetView>)
    ensures
        distinct_ssids(sorted(dedup_upto(ns, ns.len() as int))),
        in_order(sorted(dedup_upto(ns, ns.len() as int))),
{
    lemma_dedup(ns, ns.len() as int);
    lemma_sorted(dedup_upto(ns, ns.len() as int));
}

/// The Wi-Fi state as the model sees it.
pub type InfoView = (bool, bool, Option<Seq<char>>, Seq<NetView>);

/// The Wi-Fi state from the radio's state, the network list and the saved
/// connections: nothing is listed unless the radio is there and on and the
/// list command succeeded; a network is listed once, connected first, then
/// saved, then by signal.
pub open spec fn spec_get(available: bool, enabled: bool, list_code: int, list_out: Seq<char>, saved: Seq<Seq<char>>) -> InfoView {
    if !available || !enabled || list_code != 0 {
        (available, enabled, None, seq![])
    } else {
        let ls = text::lines(list_out);
        let ns = networks_upto(ls, ls.len() as int, saved);
        (available, enabled, last_connected(ns), sorted(dedup_upto(ns, ns.len() as int)))
    }
}

/// The Wi-Fi state lists each network once, connected networks first, then
/// saved ones, then by signal.
pub proof fn law_get_lists_once_in_order(available: bool, enabled: bool, list_code: int, list_out: Seq<char>, saved: Seq<Seq<char>>)
    ensures
        distinct_ssids(spec_get(available, enabled, list_code, list_out, saved).3),
        in_order(spec_get(available, enabled, list_code, list_out, saved).3),
{
    if available && enabled && list_code == 0 {
        let ls = text::lines(list_out);
        law_network_list(networks_upto(ls, ls.len() as int, saved));
    }
}

/// The outcome of a connection attempt from the exit code and the error
/// output.
pub open spec fn spec_connect_error(code: int, err: Seq<char>) -> (bool, Seq<char>) {
    let e = text::ascii_lower(err);
    if code == 0 {
        (true, seq![])
    } else if text::contains(e, "secrets were required"@) {
        (false, "Password required."@)
    } else if text::contains(e, "invalid"@) {
        (false, "Incorrect password."@)
    } else if text::contains(e, "activation"@) {
        (false, "Unable to connect."@)
    } else {
        (false, "Unknown error."@)
    }
}

/// The Wi-Fi device: the first `DEVICE:TYPE` line of type `wifi`.
pub open spec fn wifi_device_upto(ls: Seq<Seq<char>>, i: int) -> Option<Seq<char>>
    decreases ls.len() - i,
{
    if i < 0 || i >= ls.len() {
        None
    } else {
        let l = ls[i];
        let k = text::index_of(l, ':');
        if k < l.len() && l.skip(k + 1 as int) == "wifi"@ {
            Some(l.take(k as int))
        } else {
            wifi_device_upto(ls, i + 1)
        }
    }
}

/// The command that disconnects the Wi-Fi device, if the device list has one.
pub open spec fn spec_disconnect(code: int, out: Seq<char>) -> Option<Seq<Seq<char>>> {
    if code != 0 {
        None
    } else {
        match wifi_device_upto(text::lines(out), 0) {
            Some(d) => Some(seq!["nmcli"@, "device"@, "disconnect"@, d]),
            None => None,
        }
    }
}

pub open spec fn opt_str(o: Option<&str>) -> Option<Seq<char>> {
    match o {
        Some(s) => Some(s@),
        None => None,
    }
}

/// `cmd`, followed by `password P` when there is a password.
pub open spec fn with_password(cmd: Seq<Seq<char>>, password: Option<Seq<char>>) -> Seq<Seq<char>> {
    match password {
        Some(p) => cmd + seq!["password"@, p],
        None => cmd,
    }
}

// ---------------------------------------------------------------- types

/// A Wi-Fi network of the list.
#[derive(Debug)]
pub struct Network {
    pub ssid: String,
    pub signal: u8,
    pub security: String,
    pub connected: bool,
    pub saved: bool,
}

impl View for Network {
    type V = NetView;

    open spec fn view(&self) -> NetView {
        (self.ssid@, self.signal as int, self.security@, self.connected, self.saved)
    }
}

pub open spec fn net_views(v: Seq<Network>) -> Seq<NetView> {
    v.map_values(|n: Network| n@)
}

/// The Wi-Fi state.
#[derive(Debug)]
pub struct WifiInfo {
    pub available: bool,
    pub enabled: bool,
    pub connected: Option<String>,
    pub networks: Vec<Network>,
}

impl View for WifiInfo {
    type V = InfoView;

    open spec fn view(&self) -> InfoView {
        (
            self.available,
            self.enabled,
            match self.connected {
                Some(s) => Some(s@),
                None => None,
            },
            net_views(self.networks@),
        )
    }
}

impl Default for WifiInfo {
    fn default() -> (r: WifiInfo)
        ensures
            r@ == (false, false, None::<Seq<char>>, Seq::<NetView>::empty()),
    {
        let r = WifiInfo { available: false, enabled: false, connected: None, networks: Vec::new() };
        assert(net_views(r.networks@) =~= Seq::<NetView>::empty());
        r
    }
}

/// The link of the connected network.
#[derive(Debug, Default)]
pub struct ActiveWifiInfo {
    pub connected: bool,
    pub ssid: String,
    pub signal: u8,
    pub speed: String,
    pub device: String,
}

/// Bytes received and sent by an interface.
#[derive(Debug, Clone, Copy, Default)]
pub struct NetThroughput {
    pub rx_bytes: u64,
    pub tx_bytes: u64,
}

// ---------------------------------------------------------------- exec

pub fn after_first_of(s: &Vec<char>, c: char) -> (r: Option<(Vec<char>, Vec<char>)>)
    ensures
        match r {
            Some((a, b)) => text::index_of(s@, c) < s@.len() && a@ == s@.take(text::index_of(s@, c) as int)
                && b@ == s@.skip(text::index_of(s@, c) + 1 as int),
            None => text::index_of(s@, c) >= s@.len(),
        },
{
    let mut i: usize = 0;
    while i < s.len() && s[i] != c
        invariant
            i <= s.len(),
            forall|k: int| 0 <= k < i ==> s@[k] != c,
        decreases s.len() - i,
    {
        i += 1;
    }
    proof {
        text::lemma_index_of_char(s@, c, i as int);
    }
    if i >= s.len() {
        return None;
    }
    let a = text::slice(s, 0, i);
    let b = text::slice(s, i + 1, s.len());
    assert(a@ =~= s@.take(i as int));
    assert(b@ =~= s@.skip(i + 1));
    Some((a, b))
}

/// Whether the device list has a Wi-Fi device.
pub fn available(code: i32, out: &str) -> (r: bool)
    ensures
        r == spec_available(code as int, out@),
{
    if code != 0 {
        return false;
    }
    let ls = text::lines_of(out);
    let ghost lv = text::views(ls@);
    let wifi = text::lit("wifi");
    let mut i: usize = 0;
    while i < ls.len()
        invariant
            i <= ls.len(),
            lv == text::views(ls@),
            lv == text::lines(out@),
            wifi@ == "wifi"@,
            code == 0,
            forall|k: int| 0 <= k < i ==> after_first(#[trigger] lv[k], ':') != Some("wifi"@),
        decreases ls.len() - i,
    {
        assert(ls@[i as int]@ == lv[i as int]);
        match after_first_of(&ls[i], ':') {
            Some((_a, b)) => {
                if text::same(&b, &wifi) {
                    assert(after_first(text::lines(out@)[i as int], ':') == Some("wifi"@));
                    return true;
                }
            },
            None => {},
        }
        i += 1;
    }
    false
}

/// Whether the radio is on.
pub fn enabled(code: i32, out: &str) -> (r: bool)
    ensures
        r == spec_enabled(code as int, out@),
{
    let v = text::chars_of(out);
    let t = text::trimmed(&v);
    let l = text::to_ascii_lower(&t);
    code == 0 && text::same(&l, &text::lit("enabled"))
}

/// The command that rescans the networks.
pub fn scan() -> (r: Vec<String>)
    ensures
        text::string_views(r@) == seq!["nmcli"@, "device"@, "wifi"@, "rescan"@],
{
    let r = text::strings_of(&["nmcli", "device", "wifi", "rescan"]);
    assert(["nmcli", "device", "wifi", "rescan"]@.map_values(|s: &str| s@) =~= seq!["nmcli"@, "device"@, "wifi"@, "rescan"@]);
    r
}

pub fn fields_of(line: &Vec<char>) -> (r: Vec<Vec<char>>)
    ensures
        text::views(r@) == spec_parse_escaped(line@),
{
    let mut fields: Vec<Vec<char>> = Vec::new();
    let mut current: Vec<char> = Vec::new();
    let mut escape = false;
    let mut i: usize = 0;
    assert(line@.take(0) =~= Seq::<char>::empty());
    assert(text::views(fields@) =~= Seq::<Seq<char>>::empty());
    while i < line.len()
        invariant
            i <= line.len(),
            (text::views(fields@), current@, escape) == field_state(line@.take(i as int)),
        decreases line.len() - i,
    {
        let ch = line[i];
        assert(line@.take(i + 1).drop_last() =~= line@.take(i as int));
        if escape {
            current.push(ch);
            escape = false;
        } else if ch == '\\' {
            escape = true;
        } else if ch == ':' {
            let ghost f0 = text::views(fields@);
            let ghost c0 = current@;
            fields.push(current);
            current = Vec::new();
            assert(text::views(fields@) =~= f0.push(c0));
        } else {
            current.push(ch);
        }
        i += 1;
    }
    assert(line@.take(i as int) =~= line@);
    let ghost f0 = text::views(fields@);
    let ghost c0 = current@;
    fields.push(current);
    assert(text::views(fields@) =~= f0.push(c0));
    fields
}

/// The `:`-separated fields of a line, a `\` escaping the next character.
pub fn parse_escaped(line: &str) -> (r: Vec<String>)
    ensures
        text::string_views(r@) == spec_parse_escaped(line@),
{
    let v = text::chars_of(line);
    let f = fields_of(&v);
    let mut r: Vec<String> = Vec::new();
    let mut i: usize = 0;
    while i < f.len()
        invariant
            i <= f.len(),
            text::string_views(r@) == text::views(f@).take(i as int),
        decreases f.len() - i,
    {
        let ghost r0 = text::string_views(r@);
        let s = text::string_of(&f[i]);
        r.push(s);
        assert(text::string_views(r@) =~= r0.push(f@[i as int]@));
        i += 1;
        assert(text::views(f@).take(i as int) =~= text::views(f@).take(i - 1).push(f@[i - 1]@));
    }
    assert(text::views(f@).take(i as int) =~= text::views(f@));
    r
}

/// The saved Wi-Fi connections from `nmcli -t -f NAME,TYPE connection show`.
pub fn saved_networks(code: i32, out: &str) -> (r: Vec<String>)
    ensures
        text::string_views(r@) == spec_saved_networks(code as int, out@),
{
    let mut saved: Vec<String> = Vec::new();
    assert(text::string_views(saved@) =~= Seq::<Seq<char>>::empty());
    if code != 0 {
        return saved;
    }
    let ls = text::lines_of(out);
    let ghost lv = text::views(ls@);
    let kind = text::lit("802-11-wireless");
    let mut i: usize = 0;
    while i < ls.len()
        invariant
            i <= ls.len(),
            lv == text::views(ls@),
            lv == text::lines(out@),
            kind@ == "802-11-wireless"@,
            text::string_views(saved@) == saved_upto(lv, i as int),
        decreases ls.len() - i,
    {
        assert(ls@[i as int]@ == lv[i as int]);
        match after_first_of(&ls[i], ':') {
            Some((a, b)) => {
                if text::same(&b, &kind) {
                    let ghost s0 = text::string_views(saved@);
                    saved.push(text::string_of(&a));
                    assert(text::string_views(saved@) =~= s0.push(a@));
                }
            },
            None => {},
        }
        i += 1;
    }
    saved
}

pub fn field_of(f: &Vec<Vec<char>>, i: usize) -> (r: Vec<char>)
    ensures
        r@ == field(text::views(f@), i as int),
{
    if i < f.len() {
        f[i].clone()
    } else {
        Vec::new()
    }
}

fn network_from(line: &Vec<char>, saved: &Vec<Vec<char>>) -> (r: Network)
    ensures
        r@ == network_of(line@, text::views(saved@)),
{
    let f = fields_of(line);
    let ssid = text::replace_chars(&field_of(&f, 1), &text::lit("\\:"), &text::lit(":"));
    let sig = text::cut_start_char(&field_of(&f, 2), '-');
    let signal: u8 = match num::parse_u8(&sig) {
        Some(v) => v,
        None => 0,
    };
    let security = text::replace_chars(&field_of(&f, 3), &text::lit("\\:"), &text::lit(":"));
    let active = field_of(&f, 0);
    let connected = text::same(&active, &text::lit("yes"));
    let is_saved = in_list(&ssid, saved);
    let shown = if ssid.len() == 0 {
        text::lit("Hidden Network")
    } else {
        ssid
    };
    Network {
        ssid: text::string_of(&shown),
        signal,
        security: text::string_of(&security),
        connected,
        saved: is_saved,
    }
}

pub fn in_list(a: &Vec<char>, words: &Vec<Vec<char>>) -> (r: bool)
    ensures
        r == text::views(words@).contains(a@),
{
    let ghost wv = text::views(words@);
    let mut j: usize = 0;
    while j < words.len()
        invariant
            j <= words.len(),
            wv == text::views(words@),
            forall|k: int| 0 <= k < j ==> wv[k] != a@,
        decreases words.len() - j,
    {
        if text::same(&words[j], a) {
            assert(wv[j as int] == a@);
            return true;
        }
        j += 1;
    }
    false
}

fn goes_after_exec(a: &Network, b: &Network) -> (r: bool)
    ensures
        r == goes_after(a@, b@),
{
    (!a.connected && b.connected) || (a.connected == b.connected && ((!a.saved && b.saved) || (a.saved == b.saved
        && a.signal < b.signal)))
}

pub fn char_vecs(v: &Vec<String>) -> (r: Vec<Vec<char>>)
    ensures
        text::views(r@) == text::string_views(v@),
{
    let mut r: Vec<Vec<char>> = Vec::new();
    let mut i: usize = 0;
    while i < v.len()
        invariant
            i <= v.len(),
            text::views(r@) == text::string_views(v@).take(i as int),
        decreases v.len() - i,
    {
        let ghost r0 = text::views(r@);
        let c = text::chars_of(v[i].as_str());
        r.push(c);
        assert(text::views(r@) =~= r0.push(v@[i as int]@));
        i += 1;
        assert(text::string_views(v@).take(i as int) =~= text::string_views(v@).take(i - 1).push(v@[i - 1]@));
    }
    assert(text::string_views(v@).take(i as int) =~= text::string_views(v@));
    r
}

/// The networks of the list, each SSID once (the first one).
fn dedup_networks(input: Vec<Network>) -> (r: Vec<Network>)
    ensures
        net_views(r@) == dedup_upto(net_views(input@), input@.len() as int),
{
    let ghost o = net_views(input@);
    let n = input.len();
    let mut rest = input;
    let mut out: Vec<Network> = Vec::new();
    let mut seen: Vec<Vec<char>> = Vec::new();
    let mut k: usize = 0;
    assert(o.skip(0) =~= o);
    assert(net_views(out@) =~= Seq::<NetView>::empty());
    assert(text::views(seen@) =~= Seq::<Seq<char>>::empty());
    while rest.len() > 0
        invariant
            k + rest.len() == n,
            o.len() == n,
            net_views(rest@) == o.skip(k as int),
            net_views(out@) == dedup_upto(o, k as int),
            text::views(seen@) == ssids(o.take(k as int)),
        decreases rest.len(),
    {
        let ghost r0 = net_views(rest@);
        let ghost rv = rest@;
        let x = rest.remove(0);
        assert(x == rv[0]);
        assert(r0[0] == rv[0]@);
        assert(r0[0] == o[k as int]);
        assert(net_views(rest@) =~= r0.drop_first());
        assert(x@ == o[k as int]);
        let sid = text::chars_of(x.ssid.as_str());
        let dup = in_list(&sid, &seen);
        let ghost s0 = text::views(seen@);
        seen.push(sid);
        assert(o.take(k + 1) =~= o.take(k as int).push(o[k as int]));
        assert(ssids(o.take(k + 1)) =~= s0.push(o[k as int].0));
        assert(text::views(seen@) =~= s0.push(o[k as int].0));
        if !dup {
            let ghost u0 = net_views(out@);
            out.push(x);
            assert(net_views(out@) =~= u0.push(o[k as int]));
        }
        k += 1;
        assert(o.skip(k as int) =~= r0.drop_first());
    }
    out
}

/// The networks sorted stably: connected, then saved, then by signal.
fn sort_networks(input: Vec<Network>) -> (r: Vec<Network>)
    ensures
        net_views(r@) == sorted(net_views(input@)),
{
    let ghost o = net_views(input@);
    let n = input.len();
    let mut rest = input;
    let mut out: Vec<Network> = Vec::new();
    let mut k: usize = 0;
    assert(o.skip(0) =~= o);
    assert(net_views(out@) =~= Seq::<NetView>::empty());
    assert(o.take(0) =~= Seq::<NetView>::empty());
    while rest.len() > 0
        invariant
            k + rest.len() == n,
            o.len() == n,
            net_views(rest@) == o.skip(k as int),
            net_views(out@) == sorted(o.take(k as int)),
        decreases rest.len(),
    {
        let ghost r0 = net_views(rest@);
        let ghost rv = rest@;
        let x = rest.remove(0);
        assert(x == rv[0]);
        assert(r0[0] == rv[0]@);
        assert(r0[0] == o[k as int]);
        assert(net_views(rest@) =~= r0.drop_first());
        assert(x@ == o[k as int]);
        let ghost t = net_views(out@);
        let mut p: usize = 0;
        while p < out.len() && !goes_after_exec(&out[p], &x)
            invariant
                p <= out.len(),
                t == net_views(out@),
                insert_pos(t, x@, 0) == insert_pos(t, x@, p as int),
            decreases out.len() - p,
        {
            p += 1;
        }
        assert(insert_pos(t, x@, p as int) == p as int) by {
            if p < out.len() {
                assert(t[p as int] == out@[p as int]@);
            }
        }
        let ghost xv = x@;
        out.insert(p, x);
        assert(net_views(out@) =~= t.insert(p as int, xv));
        assert(o.take(k + 1).drop_last() =~= o.take(k as int));
        assert(o.take(k + 1).last() == xv);
        k += 1;
        assert(o.skip(k as int) =~= r0.drop_first());
    }
    assert(o.take(k as int) =~= o);
    out
}

/// The Wi-Fi state (see `spec_get`).
pub fn get(available: bool, enabled: bool, list_code: i32, list_out: &str, saved: &Vec<String>) -> (r: WifiInfo)
    ensures
        r@ == spec_get(available, enabled, list_code as int, list_out@, text::string_views(saved@)),
{
    if !available || !enabled || list_code != 0 {
        let mut d = WifiInfo::default();
        d.available = available;
        d.enabled = enabled;
        return d;
    }
    let sv = char_vecs(saved);
    let ls = text::lines_of(list_out);
    let ghost lv = text::views(ls@);
    let ghost svv = text::string_views(saved@);
    let mut nets: Vec<Network> = Vec::new();
    let mut connected: Option<String> = None;
    let mut i: usize = 0;
    assert(net_views(nets@) =~= Seq::<NetView>::empty());
    while i < ls.len()
        invariant
            i <= ls.len(),
            lv == text::views(ls@),
            text::views(sv@) == svv,
            net_views(nets@) == networks_upto(lv, i as int, svv),
            match connected {
                Some(c) => last_connected(net_views(nets@)) == Some(c@),
                None => last_connected(net_views(nets@)) is None,
            },
        decreases ls.len() - i,
    {
        assert(ls@[i as int]@ == lv[i as int]);
        if ls[i].len() > 0 {
            let net = network_from(&ls[i], &sv);
            if net.connected {
                connected = Some(net.ssid.clone());
            }
            let ghost n0 = net_views(nets@);
            let ghost nv = net@;
            nets.push(net);
            assert(net_views(nets@) =~= n0.push(nv));
            assert(n0.push(nv).drop_last() =~= n0);
            assert(n0.push(nv).last() == nv);
        }
        i += 1;
    }
    let ghost all = net_views(nets@);
    let d = dedup_networks(nets);
    let s = sort_networks(d);
    WifiInfo { available, enabled, connected, networks: s }
}

/// The outcome of a connection attempt.
pub fn connect_error(code: i32, err: &str) -> (r: (bool, String))
    ensures
        (r.0, r.1@) == spec_connect_error(code as int, err@),
{
    if code == 0 {
        return (true, String::new());
    }
    let e = text::to_ascii_lower(&text::chars_of(err));
    if text::has(&e, &text::lit("secrets were required")) {
        (false, "Password required.".to_string())
    } else if text::has(&e, &text::lit("invalid")) {
        (false, "Incorrect password.".to_string())
    } else if text::has(&e, &text::lit("activation")) {
        (false, "Unable to connect.".to_string())
    } else {
        (false, "Unknown error.".to_string())
    }
}

fn push_password(cmd: &mut Vec<String>, password: Option<&str>)
    ensures
        text::string_views(final(cmd)@) == with_password(text::string_views(old(cmd)@), opt_str(password)),
{
    match password {
        Some(pw) => {
            let ghost c0 = text::string_views(cmd@);
            cmd.push("password".to_string());
            cmd.push(pw.to_string());
            assert(text::string_views(cmd@) =~= c0 + seq!["password"@, pw@]);
        },
        None => {},
    }
}

/// The command that connects to `ssid`.
pub fn connect(ssid: &str, password: Option<&str>) -> (r: Vec<String>)
    ensures
        text::string_views(r@) == with_password(seq!["nmcli"@, "device"@, "wifi"@, "connect"@, ssid@], opt_str(password)),
{
    let mut cmd = text::strings_of(&["nmcli", "device", "wifi", "connect", ssid]);
    assert(["nmcli", "device", "wifi", "connect", ssid]@.map_values(|s: &str| s@) =~= seq!["nmcli"@, "device"@, "wifi"@, "connect"@, ssid@]);
    push_password(&mut cmd, password);
    cmd
}

/// The two commands that join a hidden network: the profile to create, then
/// the connection to bring up.
pub fn connect_hidden(ssid: &str, password: Option<&str>) -> (r: (Vec<String>, Vec<String>))
    ensures
        text::string_views(r.0@) == seq!["nmcli"@, "connection"@, "add"@, "type"@, "wifi"@, "ifname"@, "wlan0"@,
            "con-name"@, ssid@, "ssid"@, ssid@, "hidden"@, "yes"@],
        text::string_views(r.1@) == with_password(seq!["nmcli"@, "connection"@, "up"@, ssid@], opt_str(password)),
{
    let add = text::strings_of(&["nmcli", "connection", "add", "type", "wifi", "ifname", "wlan0", "con-name", ssid, "ssid", ssid, "hidden", "yes"]);
    assert(["nmcli", "connection", "add", "type", "wifi", "ifname", "wlan0", "con-name", ssid, "ssid", ssid, "hidden", "yes"]@.map_values(|s: &str| s@) =~= seq!["nmcli"@, "connection"@, "add"@, "type"@, "wifi"@, "ifname"@, "wlan0"@,
            "con-name"@, ssid@, "ssid"@, ssid@, "hidden"@, "yes"@]);
    let mut up = text::strings_of(&["nmcli", "connection", "up", ssid]);
    assert(["nmcli", "connection", "up", ssid]@.map_values(|s: &str| s@) =~= seq!["nmcli"@, "connection"@, "up"@, ssid@]);
    push_password(&mut up, password);
    (add, up)
}

/// The outcome of joining a hidden network: the profile's creation failed,
/// or the connection's outcome.
pub fn hidden_outcome(add_code: i32, up_code: i32, up_err: &str) -> (r: (bool, String))
    ensures
        (r.0, r.1@) == if add_code != 0 {
            (false, "Failed to create hidden profile."@)
        } else {
            spec_connect_error(up_code as int, up_err@)
        },
{
    if add_code != 0 {
        return (false, "Failed to create hidden profile.".to_string());
    }
    connect_error(up_code, up_err)
}

/// The command that disconnects the Wi-Fi device of the device list.
pub fn disconnect(code: i32, out: &str) -> (r: Option<Vec<String>>)
    ensures
        match r {
            Some(c) => spec_disconnect(code as int, out@) == Some(text::string_views(c@)),
            None => spec_disconnect(code as int, out@) is None,
        },
{
    if code != 0 {
        return None;
    }
    let ls = text::lines_of(out);
    let ghost lv = text::views(ls@);
    let wifi = text::lit("wifi");
    let mut i: usize = 0;
    while i < ls.len()
        invariant
            i <= ls.len(),
            lv == text::views(ls@),
            lv == text::lines(out@),
            wifi@ == "wifi"@,
            code == 0,
            wifi_device_upto(lv, 0) == wifi_device_upto(lv, i as int),
        decreases ls.len() - i,
    {
        assert(ls@[i as int]@ == lv[i as int]);
        match after_first_of(&ls[i], ':') {
            Some((a, b)) => {
                if text::same(&b, &wifi) {
                    assert(wifi_device_upto(lv, i as int) == Some(a@));
                    let d = text::string_of(&a);
                    let mut cmd = text::strings_of(&["nmcli", "device", "disconnect"]);
                    assert(["nmcli", "device", "disconnect"]@.map_values(|s: &str| s@) =~= seq!["nmcli"@, "device"@, "disconnect"@]);
                    let ghost c0 = text::string_views(cmd@);
                    let ghost dv = d@;
                    cmd.push(d);
                    assert(text::string_views(cmd@) =~= c0.push(dv));
                    return Some(cmd);
                }
            },
            None => {},
        }
        i += 1;
    }
    None
}

/// The command that deletes the saved connection `ssid`.
pub fn forget(ssid: &str) -> (r: Vec<String>)
    ensures
        text::string_views(r@) == seq!["nmcli"@, "connection"@, "delete"@, ssid@],
{
    let r = text::strings_of(&["nmcli", "connection", "delete", ssid]);
    assert(["nmcli", "connection", "delete", ssid]@.map_values(|s: &str| s@) =~= seq!["nmcli"@, "connection"@, "delete"@, ssid@]);
    r
}

/// The command that turns the radio on.
pub fn enable() -> (r: Vec<String>)
    ensures
        text::string_views(r@) == seq!["nmcli"@, "radio"@, "wifi"@, "on"@],
{
    let r = text::strings_of(&["nmcli", "radio", "wifi", "on"]);
    assert(["nmcli", "radio", "wifi", "on"]@.map_values(|s: &str| s@) =~= seq!["nmcli"@, "radio"@, "wifi"@, "on"@]);
    r
}

/// The command that turns the radio off.
pub fn disable() -> (r: Vec<String>)
    ensures
        text::string_views(r@) == seq!["nmcli"@, "radio"@, "wifi"@, "off"@],
{
    let r = text::strings_of(&["nmcli", "radio", "wifi", "off"]);
    assert(["nmcli", "radio", "wifi", "off"]@.map_values(|s: &str| s@) =~= seq!["nmcli"@, "radio"@, "wifi"@, "off"@]);
    r
}

/// The command that flips the radio, given whether it is on.
pub fn toggle(enabled: bool) -> (r: Vec<String>)
    ensures
        text::string_views(r@) == seq!["nmcli"@, "radio"@, "wifi"@, if enabled { "off"@ } else { "on"@ }],
{
    if enabled {
        disable()
    } else {
        enable()
    }
}

// ---------------------------------------------------------------- the connected link

/// The model of the connected link: connected, name, signal in percent,
/// bit rate and device.
pub type ActiveView = (bool, Seq<char>, int, Seq<char>, Seq<char>);

impl View for ActiveWifiInfo {
    type V = ActiveView;

    open spec fn view(&self) -> ActiveView {
        (self.connected, self.ssid@, self.signal as int, self.speed@, self.device@)
    }
}

/// The signal in percent for a level in dBm: none at -100 dBm and below,
/// full from -50 dBm on, and two points per dBm between.
pub open spec fn dbm_percent(dbm: int) -> int {
    if dbm <= -100 {
        0
    } else if dbm >= -50 {
        100
    } else {
        2 * (dbm + 100)
    }
}

/// `s.parse::<i32>().ok()`.
pub open spec fn i32_of(s: Seq<char>) -> Option<int> {
    match num::parse_int(s) {
        Some(v) => if i32::MIN <= v <= i32::MAX {
            Some(v)
        } else {
            None
        },
        None => None,
    }
}

/// The first two words after `bitrate:`, joined by a space.
pub open spec fn bitrate_of(line: Seq<char>) -> Option<Seq<char>> {
    match text::find(line, "bitrate:"@) {
        Some(k) => {
            let ws = text::words(text::trim(line.skip(k + 8)));
            if ws.len() >= 2 {
                Some(ws[0] + " "@ + ws[1])
            } else {
                None
            }
        },
        None => None,
    }
}

/// Name, signal and bit rate read so far from `iw dev DEVICE link`.
pub type LinkState = (Seq<char>, int, Seq<char>);

/// What one line of the link report changes: `SSID: ` gives the name,
/// `signal: ` a level in dBm, and a `bitrate:` line the rate (the first one
/// seen, or the one for sending).
pub open spec fn link_step(st: LinkState, raw: Seq<char>) -> LinkState {
    let line = text::trim(raw);
    if text::starts_with(line, "SSID: "@) {
        (line.skip(6), st.1, st.2)
    } else if text::starts_with(line, "signal: "@) {
        let ws = text::words(line.skip(8));
        if ws.len() > 0 && i32_of(ws[0]) is Some {
            (st.0, dbm_percent(i32_of(ws[0]).unwrap()), st.2)
        } else {
            st
        }
    } else if text::contains(line, "bitrate:"@) && (st.2.len() == 0 || text::starts_with(line, "tx bitrate:"@)) {
        match bitrate_of(line) {
            Some(b) => (st.0, st.1, b),
            None => st,
        }
    } else {
        st
    }
}

pub open spec fn link_state(ls: Seq<Seq<char>>, n: int) -> LinkState
    decreases n,
{
    if n <= 0 {
        (seq![], 0, seq![])
    } else {
        link_step(link_state(ls, n - 1), ls[n - 1])
    }
}

/// The link that `iw dev DEVICE link` reports: none unless it exited with
/// 0, does not say `Not connected`, says `SSID:` and names a network.
pub open spec fn spec_iw_active(code: int, out: Seq<char>, device: Seq<char>) -> Option<ActiveView> {
    if code == 0 && !text::contains(out, "Not connected"@) && text::contains(out, "SSID:"@) {
        let st = link_state(text::lines(out), text::lines(out).len() as int);
        if st.0.len() > 0 {
            Some((true, st.0, st.1, st.2, device))
        } else {
            None
        }
    } else {
        None
    }
}

/// A line of `nmcli -t -f IN-USE,SSID,SIGNAL,RATE,DEVICE device wifi list`
/// for the network in use.
pub open spec fn in_use(l: Seq<char>) -> bool {
    text::starts_with(l, "*"@) || text::starts_with(l, "sí:"@) || text::starts_with(l, "yes:"@)
}

/// The first line from `i` on for the network in use.
pub open spec fn in_use_line(ls: Seq<Seq<char>>, i: int) -> Option<Seq<char>>
    decreases ls.len() - i,
{
    if i < 0 || i >= ls.len() {
        None
    } else if in_use(ls[i]) {
        Some(ls[i])
    } else {
        in_use_line(ls, i + 1)
    }
}

/// The link of such a line; the device field, when the line has none, is
/// `device`.
pub open spec fn active_of(line: Seq<char>, device: Seq<char>) -> ActiveView {
    let f = spec_parse_escaped(line);
    (
        true,
        unescape(field(f, 1)),
        match num::u8_of(field(f, 2)) {
            Some(v) => v,
            None => 0,
        },
        unescape(field(f, 3)),
        if f.len() > 4 {
            f[4]
        } else {
            device
        },
    )
}

/// The link from the network list: that of its first line in use.
pub open spec fn spec_nmcli_active(code: int, out: Seq<char>, device: Seq<char>) -> Option<ActiveView> {
    if code != 0 {
        None
    } else {
        match in_use_line(text::lines(out), 0) {
            Some(l) => Some(active_of(l, device)),
            None => None,
        }
    }
}

/// A line of `/proc/net/dev` for `device`: its name before the first `:`.
pub open spec fn iface_match(l: Seq<char>, device: Seq<char>) -> bool {
    text::index_of(l, ':') < l.len() && text::trim(l.take(text::index_of(l, ':') as int)) == device
}

pub open spec fn iface_line(ls: Seq<Seq<char>>, device: Seq<char>, i: int) -> Option<Seq<char>>
    decreases ls.len() - i,
{
    if i < 0 || i >= ls.len() {
        None
    } else if iface_match(ls[i], device) {
        Some(ls[i])
    } else {
        iface_line(ls, device, i + 1)
    }
}

/// The bytes received and sent by `device`: the first and ninth counters
/// of its first line, each a `u64`.
pub open spec fn spec_interface_bytes(content: Seq<char>, device: Seq<char>) -> Option<(int, int)> {
    match iface_line(text::lines(content), device, 0) {
        Some(l) => {
            let ws = text::words(l.skip(text::index_of(l, ':') + 1 as int));
            if ws.len() > 8 && num::u64_of(ws[0]) is Some && num::u64_of(ws[8]) is Some {
                Some((num::u64_of(ws[0]).unwrap(), num::u64_of(ws[8]).unwrap()))
            } else {
                None
            }
        },
        None => None,
    }
}

fn parse_i32(s: &Vec<char>) -> (r: Option<i32>)
    ensures
        match r {
            Some(v) => i32_of(s@) == Some(v as int),
            None => i32_of(s@) is None,
        },
{
    match num::parse_i64(s) {
        Some(v) => if -2147483648 <= v && v <= 2147483647 {
            Some(v as i32)
        } else {
            None
        },
        None => None,
    }
}

/// The signal in percent for a level in dBm.
pub fn signal_percent(dbm: i32) -> (r: u8)
    ensures
        r as int == dbm_percent(dbm as int),
{
    if dbm <= -100 {
        0
    } else if dbm >= -50 {
        100
    } else {
        (2 * (dbm + 100)) as u8
    }
}

fn bitrate_in(line: &Vec<char>) -> (r: Option<Vec<char>>)
    ensures
        match r {
            Some(b) => bitrate_of(line@) == Some(b@),
            None => bitrate_of(line@) is None,
        },
{
    let key = text::lit("bitrate:");
    proof {
        reveal_strlit("bitrate:");
    }
    match text::search(line, &key) {
        Some(k) => {
            proof {
                text::lemma_find_from_occurs(line@, key@, 0);
                assert(key@.len() == 8);
                assert(text::occurs_at(line@, key@, k as int));
            }
            let n = line.len();
            let rest = text::trimmed(&text::slice(line, k + 8, n));
            assert(line@.subrange(k + 8, line@.len() as int) =~= line@.skip(k + 8));
            let ws = text::words_of(&rest);
            if ws.len() >= 2 {
                let mut b = ws[0].clone();
                b.push(' ');
                text::append(&mut b, &ws[1]);
                proof {
                    reveal_strlit(" ");
                }
                assert(b@ =~= ws@[0]@ + " "@ + ws@[1]@);
                Some(b)
            } else {
                None
            }
        },
        None => None,
    }
}

/// The link that `iw dev DEVICE link` reports, from its exit code and
/// output, for the device asked about.
pub fn iw_active(code: i32, out: &str, device: &str) -> (r: Option<ActiveWifiInfo>)
    ensures
        match r {
            Some(a) => spec_iw_active(code as int, out@, device@) == Some(a@),
            None => spec_iw_active(code as int, out@, device@) is None,
        },
{
    let v = text::chars_of(out);
    if code != 0 || text::has(&v, &text::lit("Not connected")) || !text::has(&v, &text::lit("SSID:")) {
        return None;
    }
    let ls = text::lines_of(out);
    let ghost lv = text::views(ls@);
    let p_ssid = text::lit("SSID: ");
    let p_sig = text::lit("signal: ");
    let p_rate = text::lit("bitrate:");
    let p_tx = text::lit("tx bitrate:");
    proof {
        reveal_strlit("SSID: ");
        reveal_strlit("signal: ");
    }
    let mut ssid: Vec<char> = Vec::new();
    let mut signal: u8 = 0;
    let mut speed: Vec<char> = Vec::new();
    let mut i: usize = 0;
    while i < ls.len()
        invariant
            i <= ls.len(),
            lv == text::views(ls@),
            lv == text::lines(out@),
            p_ssid@ == "SSID: "@,
            p_sig@ == "signal: "@,
            p_rate@ == "bitrate:"@,
            p_tx@ == "tx bitrate:"@,
            p_ssid@.len() == 6,
            p_sig@.len() == 8,
            (ssid@, signal as int, speed@) == link_state(lv, i as int),
        decreases ls.len() - i,
    {
        assert(ls@[i as int]@ == lv[i as int]);
        let line = text::trimmed(&ls[i]);
        if text::has_prefix(&line, &p_ssid) {
            ssid = text::slice(&line, 6, line.len());
            assert(ssid@ =~= line@.skip(6));
        } else if text::has_prefix(&line, &p_sig) {
            let rest = text::slice(&line, 8, line.len());
            assert(rest@ =~= line@.skip(8));
            let ws = text::words_of(&rest);
            if ws.len() > 0 {
                assert(ws@[0]@ == text::words(line@.skip(8))[0]);
                match parse_i32(&ws[0]) {
                    Some(d) => {
                        signal = signal_percent(d);
                    },
                    None => {},
                }
            }
        } else if text::has(&line, &p_rate) && (speed.len() == 0 || text::has_prefix(&line, &p_tx)) {
            match bitrate_in(&line) {
                Some(b) => {
                    speed = b;
                },
                None => {},
            }
        }
        i += 1;
    }
    if ssid.len() == 0 {
        return None;
    }
    Some(
        ActiveWifiInfo {
            connected: true,
            ssid: text::string_of(&ssid),
            signal,
            speed: text::string_of(&speed),
            device: device.to_string(),
        },
    )
}

fn in_use_exec(l: &Vec<char>) -> (r: bool)
    ensures
        r == in_use(l@),
{
    text::has_prefix(l, &text::lit("*")) || text::has_prefix(l, &text::lit("sí:")) || text::has_prefix(
        l,
        &text::lit("yes:"),
    )
}

fn active_from(line: &Vec<char>, device: &str) -> (r: ActiveWifiInfo)
    ensures
        r@ == active_of(line@, device@),
{
    let f = fields_of(line);
    let ssid = text::replace_chars(&field_of(&f, 1), &text::lit("\\:"), &text::lit(":"));
    let signal: u8 = match num::parse_u8(&field_of(&f, 2)) {
        Some(v) => v,
        None => 0,
    };
    let speed = text::replace_chars(&field_of(&f, 3), &text::lit("\\:"), &text::lit(":"));
    let dev = if f.len() > 4 {
        text::string_of(&f[4])
    } else {
        device.to_string()
    };
    ActiveWifiInfo {
        connected: true,
        ssid: text::string_of(&ssid),
        signal,
        speed: text::string_of(&speed),
        device: dev,
    }
}

/// The link from the network list in the terse form, for the device asked
/// about when its line names none.
pub fn nmcli_active(code: i32, out: &str, device: &str) -> (r: Option<ActiveWifiInfo>)
    ensures
        match r {
            Some(a) => spec_nmcli_active(code as int, out@, device@) == Some(a@),
            None => spec_nmcli_active(code as int, out@, device@) is None,
        },
{
    if code != 0 {
        return None;
    }
    let ls = text::lines_of(out);
    let ghost lv = text::views(ls@);
    let mut i: usize = 0;
    while i < ls.len()
        invariant
            i <= ls.len(),
            lv == text::views(ls@),
            lv == text::lines(out@),
            code == 0,
            in_use_line(lv, 0) == in_use_line(lv, i as int),
        decreases ls.len() - i,
    {
        assert(ls@[i as int]@ == lv[i as int]);
        if in_use_exec(&ls[i]) {
            return Some(active_from(&ls[i], device));
        }
        i += 1;
    }
    None
}

/// The bytes received and sent by `device`, from the text of
/// `/proc/net/dev`.
pub fn interface_bytes(content: &str, device: &str) -> (r: Option<NetThroughput>)
    ensures
        match r {
            Some(t) => spec_interface_bytes(content@, device@) == Some((t.rx_bytes as int, t.tx_bytes as int)),
            None => spec_interface_bytes(content@, device@) is None,
        },
{
    let ls = text::lines_of(content);
    let ghost lv = text::views(ls@);
    let dev = text::chars_of(device);
    let mut i: usize = 0;
    while i < ls.len()
        invariant
            i <= ls.len(),
            lv == text::views(ls@),
            lv == text::lines(content@),
            dev@ == device@,
            iface_line(lv, device@, 0) == iface_line(lv, device@, i as int),
        decreases ls.len() - i,
    {
        assert(ls@[i as int]@ == lv[i as int]);
        match after_first_of(&ls[i], ':') {
            Some((name, stats)) => {
                if text::same(&text::trimmed(&name), &dev) {
                    let ws = text::words_of(&stats);
                    if ws.len() > 8 {
                        match (num::parse_u64(&ws[0]), num::parse_u64(&ws[8])) {
                            (Some(rx), Some(tx)) => {
                                return Some(NetThroughput { rx_bytes: rx, tx_bytes: tx });
                            },
                            _ => {
                                return None;
                            },
                        }
                    }
                    return None;
                }
            },
            None => {},
        }
        i += 1;
    }
    None
}

} // verus!
