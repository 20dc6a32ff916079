//! Ethernet through `nmcli` and `ip`: the reading of their output and the
//! commands to run.
use vstd::prelude::*;
use crate::text;
use crate::num;

verus! {

// ---------------------------------------------------------------- model

/// The first four `:`-separated fields of a line (`str::splitn(4, ':')`),
/// missing ones empty.
pub open spec fn fields4(s: Seq<char>) -> (Seq<char>, Seq<char>, Seq<char>, Seq<char>) {
    let k0 = text::index_of(s, ':');
    if k0 >= s.len() {
        (s, seq![], seq![], seq![])
    } else {
        let r1 = s.skip(k0 + 1 as int);
        let k1 = text::index_of(r1, ':');
        if k1 >= r1.len() {
            (s.take(k0 as int), r1, seq![], seq![])
        } else {
            let r2 = r1.skip(k1 + 1 as int);
            let k2 = text::index_of(r2, ':');
            if k2 >= r2.len() {
                (s.take(k0 as int), r1.take(k1 as int), r2, seq![])
            } else {
                (s.take(k0 as int), r1.take(k1 as int), r2.take(k2 as int), r2.skip(k2 + 1 as int))
            }
        }
    }
}

/// The first line from `i` on whose type is `ethernet`.
pub open spec fn ethernet_line(ls: Seq<Seq<char>>, i: int) -> Option<Seq<char>>
    decreases ls.len() - i,
{
    if i < 0 || i >= ls.len() {
        None
    } else if fields4(ls[i]).1 == "ethernet"@ {
        Some(ls[i])
    } else {
        ethernet_line(ls, i + 1)
    }
}

/// The model of the Ethernet state: available, device, connected,
/// connection, speed, address.
pub type EthView = (bool, Option<Seq<char>>, bool, Seq<char>, Option<int>, Option<Seq<char>>);

/// The state that `nmcli -t -f DEVICE,TYPE,STATE,CONNECTION device` gives:
/// its first Ethernet device (the speed and address are read apart).
pub open spec fn spec_get(code: int, out: Seq<char>) -> EthView {
    if code != 0 {
        (false, None, false, seq![], None, None)
    } else {
        match ethernet_line(text::lines(out), 0) {
            None => (false, None, false, seq![], None, None),
            Some(l) => {
                let f = fields4(l);
                (true, Some(f.0), f.2 == "connected"@, f.3, None, None)
            },
        }
    }
}

/// The four fields of `device:type:state:connection`, where the first three
/// hold no `:` (the connection may).
proof fn lemma_fields4(dev: Seq<char>, ty: Seq<char>, state: Seq<char>, conn: Seq<char>)
    requires
        forall|i: int| 0 <= i < dev.len() ==> #[trigger] dev[i] != ':',
        forall|i: int| 0 <= i < ty.len() ==> #[trigger] ty[i] != ':',
        forall|i: int| 0 <= i < state.len() ==> #[trigger] state[i] != ':',
    ensures
        fields4(dev + seq![':'] + ty + seq![':'] + state + seq![':'] + conn) == (dev, ty, state, conn),
{
    let l = dev + seq![':'] + ty + seq![':'] + state + seq![':'] + conn;
    text::lemma_index_of_char(l, ':', dev.len() as int);
    let r1 = l.skip(dev.len() + 1 as int);
    assert(r1 =~= ty + seq![':'] + state + seq![':'] + conn);
    text::lemma_index_of_char(r1, ':', ty.len() as int);
    let r2 = r1.skip(ty.len() + 1 as int);
    assert(r2 =~= state + seq![':'] + conn);
    text::lemma_index_of_char(r2, ':', state.len() as int);
    assert(l.take(dev.len() as int) =~= dev);
    assert(r1.take(ty.len() as int) =~= ty);
    assert(r2.take(state.len() as int) =~= state);
    assert(r2.skip(state.len() + 1 as int) =~= conn);
}

/// nmcli's line for an Ethernet device, the first line of its output, gives
/// the state: available, under the device's name, connected exactly when
/// the STATE field is `connected` (so `disconnected` or `unavailable` is
/// not), and the connection of the last field.
pub proof fn law_ethernet_line_read(out: Seq<char>, dev: Seq<char>, state: Seq<char>, conn: Seq<char>)
    requires
        text::lines(out).len() > 0,
        text::lines(out)[0] == dev + ":ethernet:"@ + state + ":"@ + conn,
        forall|i: int| 0 <= i < dev.len() ==> #[trigger] dev[i] != ':',
        forall|i: int| 0 <= i < state.len() ==> #[trigger] state[i] != ':',
    ensures
        spec_get(0, out) == (true, Some(dev), state == "connected"@, conn, None::<int>, None::<Seq<char>>),
{
    reveal_strlit(":ethernet:");
    reveal_strlit("ethernet");
    reveal_strlit(":");
    let ty: Seq<char> = "ethernet"@;
    assert(dev + ":ethernet:"@ + state + ":"@ + conn =~= dev + seq![':'] + ty + seq![':'] + state + seq![':'] + conn);
    assert forall|i: int| 0 <= i < ty.len() implies #[trigger] ty[i] != ':' by {}
    lemma_fields4(dev, ty, state, conn);
}

/// When nmcli fails, no Ethernet device is available or connected.
pub proof fn law_ethernet_failed_run(code: int, out: Seq<char>)
    requires
        code != 0,
    ensures
        !spec_get(code, out).0,
        spec_get(code, out).1 is None,
        !spec_get(code, out).2,
{
}

/// The first line of `ip -4 addr show` that starts with `inet`, trimmed.
pub open spec fn inet_line(ls: Seq<Seq<char>>, i: int) -> Option<Seq<char>>
    decreases ls.len() - i,
{
    if i < 0 || i >= ls.len() {
        None
    } else if text::starts_with(text::trim(ls[i]), "inet"@) {
        Some(text::trim(ls[i]))
    } else {
        inet_line(ls, i + 1)
    }
}

/// The address (second word) of the first `inet` line.
pub open spec fn spec_ip(code: int, out: Seq<char>) -> Option<Seq<char>> {
    if code != 0 {
        None
    } else {
        match inet_line(text::lines(out), 0) {
            Some(l) => if text::words(l).len() > 1 {
                Some(text::words(l)[1])
            } else {
                None
            },
            None => None,
        }
    }
}

// ---------------------------------------------------------------- exec

/// The Ethernet state.
#[derive(Debug)]
pub struct EthernetInfo {
    pub available: bool,
    pub device: Option<String>,
    pub connected: bool,
    pub connection: String,
    pub speed: Option<u32>,
    pub ip: Option<String>,
}

pub open spec fn opt_string(o: Option<String>) -> Option<Seq<char>> {
    match o {
        Some(s) => Some(s@),
        None => None,
    }
}

impl View for EthernetInfo {
    type V = EthView;

    open spec fn view(&self) -> EthView {
        (
            self.available,
            opt_string(self.device),
            self.connected,
            self.connection@,
            match self.speed {
                Some(v) => Some(v as int),
                None => None,
            },
            opt_string(self.ip),
        )
    }
}

impl Default for EthernetInfo {
    fn default() -> (r: EthernetInfo)
        ensures
            r@ == (false, None::<Seq<char>>, false, Seq::<char>::empty(), None::<int>, None::<Seq<char>>),
    {
        EthernetInfo { available: false, device: None, connected: false, connection: String::new(), speed: None, ip: None }
    }
}

fn split_colon(s: &Vec<char>) -> (r: (Vec<char>, Option<Vec<char>>))
    ensures
        text::index_of(s@, ':') >= s@.len() ==> r.0@ == s@ && r.1 is None,
        text::index_of(s@, ':') < s@.len() ==> r.0@ == s@.take(text::index_of(s@, ':') as int)
            && r.1 is Some && r.1.unwrap()@ == s@.skip(text::index_of(s@, ':') + 1 as int),
{
    match crate::backend::wifi::after_first_of(s, ':') {
        Some((a, b)) => (a, Some(b)),
        None => (s.clone(), None),
    }
}

fn fields4_of(s: &Vec<char>) -> (r: (Vec<char>, Vec<char>, Vec<char>, Vec<char>))
    ensures
        (r.0@, r.1@, r.2@, r.3@) == fields4(s@),
{
    let (a, r1) = split_colon(s);
    match r1 {
        None => (a, Vec::new(), Vec::new(), Vec::new()),
        Some(r1) => {
            let (b, r2) = split_colon(&r1);
            match r2 {
                None => (a, b, Vec::new(), Vec::new()),
                Some(r2) => {
                    let (c, r3) = split_colon(&r2);
                    match r3 {
                        None => (a, b, c, Vec::new()),
                        Some(d) => (a, b, c, d),
                    }
                },
            }
        },
    }
}

/// The Ethernet state from the device list (see `spec_get`).
pub fn get(code: i32, out: &str) -> (r: EthernetInfo)
    ensures
        r@ == spec_get(code as int, out@),
{
    if code != 0 {
        return EthernetInfo::default();
    }
    let ls = text::lines_of(out);
    let ghost lv = text::views(ls@);
    let eth = text::lit("ethernet");
    let mut i: usize = 0;
    while i < ls.len()
        invariant
            i <= ls.len(),
            lv == text::views(ls@),
            lv == text::lines(out@),
            eth@ == "ethernet"@,
            code == 0,
            ethernet_line(lv, 0) == ethernet_line(lv, i as int),
        decreases ls.len() - i,
    {
        assert(ls@[i as int]@ == lv[i as int]);
        let (d, t, st, c) = fields4_of(&ls[i]);
        if text::same(&t, &eth) {
            let connected = text::same(&st, &text::lit("connected"));
            return EthernetInfo {
                available: true,
                device: Some(text::string_of(&d)),
                connected,
                connection: text::string_of(&c),
                speed: None,
                ip: None,
            };
        }
        i += 1;
    }
    EthernetInfo::default()
}

/// The IPv4 address from `ip -4 addr show DEVICE`.
pub fn ip(code: i32, out: &str) -> (r: Option<String>)
    ensures
        opt_string(r) == spec_ip(code as int, out@),
{
    if code != 0 {
        return None;
    }
    let ls = text::lines_of(out);
    let ghost lv = text::views(ls@);
    let inet = text::lit("inet");
    let mut i: usize = 0;
    while i < ls.len()
        invariant
            i <= ls.len(),
            lv == text::views(ls@),
            lv == text::lines(out@),
            inet@ == "inet"@,
            code == 0,
            inet_line(lv, 0) == inet_line(lv, i as int),
        decreases ls.len() - i,
    {
        let t = text::trimmed(&ls[i]);
        assert(t@ == text::trim(lv[i as int]));
        if text::has_prefix(&t, &inet) {
            let ws = text::words_of(&t);
            if ws.len() > 1 {
                return Some(text::string_of(&ws[1]));
            } else {
                return None;
            }
        }
        i += 1;
    }
    None
}

/// The link speed from `/sys/class/net/DEVICE/speed`.
pub fn speed(text: &str) -> (r: Option<u32>)
    ensures
        match r {
            Some(v) => num::u32_of(text::trim(text@)) == Some(v as int),
            None => num::u32_of(text::trim(text@)) is None,
        },
{
    num::parse_u32(&text::trimmed(&text::chars_of(text)))
}

fn device_command(info: &EthernetInfo, verb: &str) -> (r: Option<Vec<String>>)
    ensures
        match r {
            Some(c) => info@.1 is Some && text::string_views(c@) == seq!["nmcli"@, "device"@, verb@, info@.1.unwrap()],
            None => info@.1 is None,
        },
{
    match &info.device {
        Some(d) => {
            let mut c: Vec<String> = Vec::new();
            c.push("nmcli".to_string());
            c.push("device".to_string());
            c.push(verb.to_string());
            c.push(d.clone());
            assert(text::string_views(c@) =~= seq!["nmcli"@, "device"@, verb@, d@]);
            Some(c)
        },
        None => None,
    }
}

/// The command that disconnects the Ethernet device, if there is one.
pub fn disconnect(info: &EthernetInfo) -> (r: Option<Vec<String>>)
    ensures
        match r {
            Some(c) => info@.1 is Some && text::string_views(c@) == seq!["nmcli"@, "device"@, "disconnect"@, info@.1.unwrap()],
            None => info@.1 is None,
        },
{
    device_command(info, "disconnect")
}

/// The command that connects the Ethernet device, if there is one.
pub fn connect(info: &EthernetInfo) -> (r: Option<Vec<String>>)
    ensures
        match r {
            Some(c) => info@.1 is Some && text::string_views(c@) == seq!["nmcli"@, "device"@, "connect"@, info@.1.unwrap()],
            None => info@.1 is None,
        },
{
    device_command(info, "connect")
}

} // verus!
