//! The display page: monitors and their modes as the compositor reports
//! them, and the commands that change them.
//!
//! A refresh rate or a scale is held by its text (a number that
//! `str::parse::<f64>` accepts); turning it into a float is left to the
//! caller.
use vstd::prelude::*;
use crate::text;
use crate::num;
use crate::services::settings::{self, Json, JsonV, member_at, as_str, as_i64, as_number, as_bool};

verus! {

// ---------------------------------------------------------------- parsing

/// `u8::is_ascii_whitespace` on a character.
pub open spec fn is_ascii_ws(c: char) -> bool {
    c == ' ' || c == '\t' || c == '\n' || c == '\x0C' || c == '\r'
}

pub open spec fn is_rate_char(c: char) -> bool {
    num::digit(c) || c == '.'
}

/// The first index from `i` on that holds a digit (or the length).
pub open spec fn seek_digit(s: Seq<char>, i: int) -> int
    decreases s.len() - i,
{
    if i < 0 || i >= s.len() || num::digit(s[i]) {
        i
    } else {
        seek_digit(s, i + 1)
    }
}

/// The end of the digits that start at `i`.
pub open spec fn digit_end(s: Seq<char>, i: int) -> int
    decreases s.len() - i,
{
    if i < 0 || i >= s.len() || !num::digit(s[i]) {
        i
    } else {
        digit_end(s, i + 1)
    }
}

/// The end of the ASCII white space that starts at `i`.
pub open spec fn ws_end(s: Seq<char>, i: int) -> int
    decreases s.len() - i,
{
    if i < 0 || i >= s.len() || !is_ascii_ws(s[i]) {
        i
    } else {
        ws_end(s, i + 1)
    }
}

/// The end of the digits and dots that start at `i`.
pub open spec fn rate_end(s: Seq<char>, i: int) -> int
    decreases s.len() - i,
{
    if i < 0 || i >= s.len() || !is_rate_char(s[i]) {
        i
    } else {
        rate_end(s, i + 1)
    }
}

/// `WIDTHxHEIGHT @ RATE` somewhere in a line (the first digits start it,
/// white space around `@` is optional): the two integers and the text of
/// the rate, when each of them reads as a number.
pub open spec fn parse_wxh_at(s: Seq<char>) -> Option<(int, int, Seq<char>)> {
    let i0 = seek_digit(s, 0);
    let i1 = digit_end(s, i0);
    if i1 == i0 || i1 >= s.len() || s[i1] != 'x' {
        None
    } else {
        let i2 = i1 + 1;
        let i3 = digit_end(s, i2);
        let i4 = ws_end(s, i3);
        if i3 == i2 || i4 >= s.len() || s[i4] != '@' {
            None
        } else {
            let i5 = ws_end(s, i4 + 1);
            let i6 = rate_end(s, i5);
            let r = s.subrange(i5, i6);
            if i6 == i5 || !num::is_float_text(r) {
                None
            } else {
                match (num::i64_of(s.subrange(i0, i1)), num::i64_of(s.subrange(i2, i3))) {
                    (Some(w), Some(h)) => Some((w, h, r)),
                    _ => None,
                }
            }
        }
    }
}

/// Index of the last `c` in `s`, or -1.
pub open spec fn last_index(s: Seq<char>, c: char) -> int
    decreases s.len(),
{
    if s.len() == 0 {
        -1
    } else if s.last() == c {
        s.len() - 1
    } else {
        last_index(s.drop_last(), c)
    }
}

/// The text inside the last pair of parentheses of a line.
pub open spec fn between_parens(s: Seq<char>) -> Option<Seq<char>> {
    let a = last_index(s, '(');
    let b = last_index(s, ')');
    if a < 0 || b < 0 || b < a {
        None
    } else {
        Some(s.subrange(a + 1, b))
    }
}

/// The text after the first `"` of a line, up to the next one.
pub open spec fn second_quoted(s: Seq<char>) -> Option<Seq<char>> {
    let a = text::index_of(s, '"');
    if a >= s.len() {
        None
    } else {
        Some(text::before(s.skip(a + 1 as int), '"'))
    }
}

/// The label of a transform.
pub open spec fn rotation_label(t: Seq<char>) -> Seq<char> {
    if t == "90"@ {
        "90°"@
    } else if t == "180"@ {
        "180°"@
    } else if t == "270"@ {
        "270°"@
    } else if t == "flipped"@ {
        "Volteado"@
    } else if t == "flipped-90"@ {
        "Volteado 90°"@
    } else if t == "flipped-180"@ {
        "Volteado 180°"@
    } else if t == "flipped-270"@ {
        "Volteado 270°"@
    } else {
        "Normal"@
    }
}

/// A rotation's label names the angle of its transform: `N°` for the plain
/// rotation `N`, `Volteado N°` for the flipped one.
pub proof fn law_rotation_label_angle(n: Seq<char>)
    requires
        n == "90"@ || n == "180"@ || n == "270"@,
    ensures
        rotation_label(n) == n + "°"@,
        rotation_label("flipped-"@ + n) == "Volteado "@ + n + "°"@,
{
    reveal_strlit("90");
    reveal_strlit("180");
    reveal_strlit("270");
    reveal_strlit("°");
    reveal_strlit("90°");
    reveal_strlit("180°");
    reveal_strlit("270°");
    reveal_strlit("flipped-");
    reveal_strlit("flipped");
    reveal_strlit("flipped-90");
    reveal_strlit("flipped-180");
    reveal_strlit("flipped-270");
    reveal_strlit("Volteado ");
    reveal_strlit("Volteado 90°");
    reveal_strlit("Volteado 180°");
    reveal_strlit("Volteado 270°");
    assert(n + "°"@ =~= (if n == "90"@ { "90°"@ } else if n == "180"@ { "180°"@ } else { "270°"@ }));
    assert("flipped-"@ + n =~= (if n == "90"@ {
        "flipped-90"@
    } else if n == "180"@ {
        "flipped-180"@
    } else {
        "flipped-270"@
    }));
    assert("Volteado "@ + n + "°"@ =~= (if n == "90"@ {
        "Volteado 90°"@
    } else if n == "180"@ {
        "Volteado 180°"@
    } else {
        "Volteado 270°"@
    }));
    reveal_strlit("normal");
    reveal_strlit("Volteado");
    reveal_strlit("Normal");
    assert("normal"@.len() == 6 && "90"@.len() == 2 && "180"@.len() == 3 && "270"@.len() == 3);
    assert("flipped"@.len() == 7 && "flipped-90"@.len() == 10 && "flipped-180"@.len() == 11 && "flipped-270"@.len() == 11);
    assert("180"@[0] != "270"@[0] && "flipped-180"@[8] != "flipped-270"@[8]);
    assert("Normal"@.len() == 6 && "90°"@.len() == 3 && "180°"@.len() == 4 && "270°"@.len() == 4);
    assert("Volteado"@.len() == 8 && "Volteado 90°"@.len() == 12 && "Volteado 180°"@.len() == 13 && "Volteado 270°"@.len() == 13);
    assert("180°"@[0] != "270°"@[0] && "Volteado 180°"@[9] != "Volteado 270°"@[9]);
    assert("flipped-"@ + n != "90"@ && "flipped-"@ + n != "180"@ && "flipped-"@ + n != "270"@);
    assert("flipped-"@ + n != "flipped"@);
}

/// Different transforms get different labels.
pub proof fn law_rotation_labels_differ(a: Seq<char>, b: Seq<char>)
    requires
        a == "normal"@ || a == "90"@ || a == "180"@ || a == "270"@ || a == "flipped"@ || a == "flipped-90"@ || a
            == "flipped-180"@ || a == "flipped-270"@,
        b == "normal"@ || b == "90"@ || b == "180"@ || b == "270"@ || b == "flipped"@ || b == "flipped-90"@ || b
            == "flipped-180"@ || b == "flipped-270"@,
        a != b,
    ensures
        rotation_label(a) != rotation_label(b),
{
    reveal_strlit("normal");
    reveal_strlit("90");
    reveal_strlit("180");
    reveal_strlit("270");
    reveal_strlit("flipped");
    reveal_strlit("flipped-90");
    reveal_strlit("flipped-180");
    reveal_strlit("flipped-270");
    reveal_strlit("Normal");
    reveal_strlit("90°");
    reveal_strlit("180°");
    reveal_strlit("270°");
    reveal_strlit("Volteado");
    reveal_strlit("Volteado 90°");
    reveal_strlit("Volteado 180°");
    reveal_strlit("Volteado 270°");
    assert("normal"@.len() == 6 && "90"@.len() == 2 && "180"@.len() == 3 && "270"@.len() == 3);
    assert("flipped"@.len() == 7 && "flipped-90"@.len() == 10 && "flipped-180"@.len() == 11 && "flipped-270"@.len() == 11);
    assert("180"@[0] != "270"@[0] && "flipped-180"@[8] != "flipped-270"@[8]);
    assert("Normal"@.len() == 6 && "90°"@.len() == 3 && "180°"@.len() == 4 && "270°"@.len() == 4);
    assert("Volteado"@.len() == 8 && "Volteado 90°"@.len() == 12 && "Volteado 180°"@.len() == 13 && "Volteado 270°"@.len() == 13);
    assert("180°"@[0] != "270°"@[0] && "Volteado 180°"@[9] != "Volteado 270°"@[9]);
    assert(rotation_label("normal"@) == "Normal"@);
    assert(rotation_label("90"@) == "90°"@);
    assert(rotation_label("180"@) == "180°"@);
    assert(rotation_label("270"@) == "270°"@);
    assert(rotation_label("flipped"@) == "Volteado"@);
    assert(rotation_label("flipped-90"@) == "Volteado 90°"@);
    assert(rotation_label("flipped-180"@) == "Volteado 180°"@);
    assert(rotation_label("flipped-270"@) == "Volteado 270°"@);
}

fn seek_digit_of(s: &Vec<char>, i: usize) -> (r: usize)
    requires
        i <= s.len(),
    ensures
        r as int == seek_digit(s@, i as int),
        i <= r <= s.len(),
{
    let mut j: usize = i;
    while j < s.len() && !num::is_digit(s[j])
        invariant
            i <= j <= s.len(),
            seek_digit(s@, i as int) == seek_digit(s@, j as int),
        decreases s.len() - j,
    {
        j += 1;
    }
    j
}

fn digit_end_of(s: &Vec<char>, i: usize) -> (r: usize)
    requires
        i <= s.len(),
    ensures
        r as int == digit_end(s@, i as int),
        i <= r <= s.len(),
{
    let mut j: usize = i;
    while j < s.len() && num::is_digit(s[j])
        invariant
            i <= j <= s.len(),
            digit_end(s@, i as int) == digit_end(s@, j as int),
        decreases s.len() - j,
    {
        j += 1;
    }
    j
}

fn ascii_ws(c: char) -> (r: bool)
    ensures
        r == is_ascii_ws(c),
{
    c == ' ' || c == '\t' || c == '\n' || c == '\x0C' || c == '\r'
}

fn ws_end_of(s: &Vec<char>, i: usize) -> (r: usize)
    requires
        i <= s.len(),
    ensures
        r as int == ws_end(s@, i as int),
        i <= r <= s.len(),
{
    let mut j: usize = i;
    while j < s.len() && ascii_ws(s[j])
        invariant
            i <= j <= s.len(),
            ws_end(s@, i as int) == ws_end(s@, j as int),
        decreases s.len() - j,
    {
        j += 1;
    }
    j
}

fn rate_end_of(s: &Vec<char>, i: usize) -> (r: usize)
    requires
        i <= s.len(),
    ensures
        r as int == rate_end(s@, i as int),
        i <= r <= s.len(),
{
    let mut j: usize = i;
    while j < s.len() && (num::is_digit(s[j]) || s[j] == '.')
        invariant
            i <= j <= s.len(),
            rate_end(s@, i as int) == rate_end(s@, j as int),
        decreases s.len() - j,
    {
        j += 1;
    }
    j
}

/// `WIDTHxHEIGHT @ RATE` in a line.
fn wxh_at(s: &Vec<char>) -> (r: Option<(i64, i64, Vec<char>)>)
    ensures
        match r {
            Some((w, h, t)) => parse_wxh_at(s@) == Some((w as int, h as int, t@)),
            None => parse_wxh_at(s@) is None,
        },
{
    let i0 = seek_digit_of(s, 0);
    let i1 = digit_end_of(s, i0);
    if i1 == i0 || i1 >= s.len() || s[i1] != 'x' {
        return None;
    }
    let i2 = i1 + 1;
    let i3 = digit_end_of(s, i2);
    let i4 = ws_end_of(s, i3);
    if i3 == i2 || i4 >= s.len() || s[i4] != '@' {
        return None;
    }
    let i5 = ws_end_of(s, i4 + 1);
    let i6 = rate_end_of(s, i5);
    let r = text::slice(s, i5, i6);
    if i6 == i5 || !num::float_text(&r) {
        return None;
    }
    let w = num::parse_i64(&text::slice(s, i0, i1));
    let h = num::parse_i64(&text::slice(s, i2, i3));
    match (w, h) {
        (Some(a), Some(b)) => Some((a, b, r)),
        _ => None,
    }
}

pub fn last_index_of(s: &Vec<char>, c: char) -> (r: Option<usize>)
    ensures
        match r {
            Some(i) => last_index(s@, c) == i as int && i < s.len() && s@[i as int] == c,
            None => last_index(s@, c) == -1,
        },
{
    let mut j: usize = s.len();
    assert(s@.take(j as int) =~= s@);
    while j > 0 && s[j - 1] != c
        invariant
            j <= s.len(),
            last_index(s@, c) == last_index(s@.take(j as int), c),
        decreases j,
    {
        assert(s@.take(j as int).drop_last() =~= s@.take(j - 1));
        j -= 1;
    }
    if j == 0 {
        assert(s@.take(0) =~= Seq::<char>::empty());
        None
    } else {
        assert(s@.take(j as int).last() == s@[j - 1]);
        Some(j - 1)
    }
}

fn parens_of(s: &Vec<char>) -> (r: Option<Vec<char>>)
    ensures
        match r {
            Some(t) => between_parens(s@) == Some(t@),
            None => between_parens(s@) is None,
        },
{
    let a = last_index_of(s, '(');
    let b = last_index_of(s, ')');
    match (a, b) {
        (Some(x), Some(y)) => if y < x {
            None
        } else {
            Some(text::slice(s, x + 1, y))
        },
        _ => None,
    }
}

fn quoted_of(s: &Vec<char>) -> (r: Option<Vec<char>>)
    ensures
        match r {
            Some(t) => second_quoted(s@) == Some(t@),
            None => second_quoted(s@) is None,
        },
{
    let a = text::find_char(s, '"');
    if a >= s.len() {
        return None;
    }
    let rest = text::slice(s, a + 1, s.len());
    assert(rest@ =~= s@.skip(a + 1 as int));
    Some(text::cut_before(&rest, '"'))
}

fn rotation_of(t: &Vec<char>) -> (r: String)
    ensures
        r@ == rotation_label(t@),
{
    if text::same(t, &text::lit("90")) {
        "90°".to_string()
    } else if text::same(t, &text::lit("180")) {
        "180°".to_string()
    } else if text::same(t, &text::lit("270")) {
        "270°".to_string()
    } else if text::same(t, &text::lit("flipped")) {
        "Volteado".to_string()
    } else if text::same(t, &text::lit("flipped-90")) {
        "Volteado 90°".to_string()
    } else if text::same(t, &text::lit("flipped-180")) {
        "Volteado 180°".to_string()
    } else if text::same(t, &text::lit("flipped-270")) {
        "Volteado 270°".to_string()
    } else {
        "Normal".to_string()
    }
}

// ---------------------------------------------------------------- monitors

/// A video mode as the model sees it.
pub struct ModeV {
    pub width: int,
    pub height: int,
    pub refresh: Seq<char>,
    pub current: bool,
    pub preferred: bool,
}

/// A monitor as the model sees it.
pub struct MonitorV {
    pub name: Seq<char>,
    pub description: Seq<char>,
    pub width: int,
    pub height: int,
    pub refresh: Seq<char>,
    pub scale: Seq<char>,
    pub transform: Seq<char>,
    pub focused: bool,
    pub modes: Seq<ModeV>,
    pub vrr: bool,
}

/// A video mode (`refresh` is the text of the rate).
#[derive(Clone, Debug)]
pub struct DisplayMode {
    pub width: i64,
    pub height: i64,
    pub refresh: String,
    pub current: bool,
    pub preferred: bool,
}

impl View for DisplayMode {
    type V = ModeV;

    open spec fn view(&self) -> ModeV {
        ModeV {
            width: self.width as int,
            height: self.height as int,
            refresh: self.refresh@,
            current: self.current,
            preferred: self.preferred,
        }
    }
}

pub open spec fn mode_views(v: Seq<DisplayMode>) -> Seq<ModeV> {
    v.map_values(|m: DisplayMode| m@)
}

/// A monitor (`refresh` and `scale` are the text of the numbers).
#[derive(Clone, Debug)]
pub struct Monitor {
    pub name: String,
    pub description: String,
    pub width: i64,
    pub height: i64,
    pub refresh: String,
    pub scale: String,
    pub transform: String,
    pub focused: bool,
    pub modes: Vec<DisplayMode>,
    pub vrr: bool,
}

impl View for Monitor {
    type V = MonitorV;

    open spec fn view(&self) -> MonitorV {
        MonitorV {
            name: self.name@,
            description: self.description@,
            width: self.width as int,
            height: self.height as int,
            refresh: self.refresh@,
            scale: self.scale@,
            transform: self.transform@,
            focused: self.focused,
            modes: mode_views(self.modes@),
            vrr: self.vrr,
        }
    }
}

pub open spec fn monitor_views(v: Seq<Monitor>) -> Seq<MonitorV> {
    v.map_values(|m: Monitor| m@)
}

impl Monitor {
    /// The label of the monitor's transform (`Normal` for one it does not
    /// know).
    pub fn rotation(&self) -> (r: String)
        ensures
            r@ == rotation_label(self.transform@),
    {
        rotation_of(&text::chars_of(self.transform.as_str()))
    }
}

/// The monitor that an `Output "description" (name)` line starts.
pub open spec fn new_monitor(line: Seq<char>) -> MonitorV {
    MonitorV {
        name: match between_parens(line) {
            Some(n) => n,
            None => seq![],
        },
        description: match second_quoted(line) {
            Some(d) => d,
            None => seq![],
        },
        width: 0,
        height: 0,
        refresh: "60.0"@,
        scale: "1.0"@,
        transform: "normal"@,
        focused: true,
        modes: seq![],
        vrr: false,
    }
}

/// The text after the first `:` of a line, trimmed.
pub open spec fn value_after_colon(line: Seq<char>) -> Seq<char> {
    text::trim(line.skip(text::index_of(line, ':') + 1 as int))
}

pub type NiriState = (Seq<MonitorV>, Option<MonitorV>, Seq<ModeV>);

/// What a line of `niri msg outputs` does to the monitors read so far, the
/// monitor being read, and its modes.
pub open spec fn niri_step(st: NiriState, raw: Seq<char>) -> NiriState {
    let line = text::trim_end(raw);
    let ms = st.0;
    let cur = st.1;
    let modes = st.2;
    if text::starts_with(line, "Output"@) {
        match cur {
            Some(m) => (ms.push(MonitorV { modes: modes, ..m }), Some(new_monitor(line)), seq![]),
            None => (ms, Some(new_monitor(line)), modes),
        }
    } else {
        match cur {
            None => st,
            Some(m) => if text::contains(line, "Current mode:"@) {
                match parse_wxh_at(line) {
                    Some(p) => (ms, Some(MonitorV { width: p.0, height: p.1, refresh: p.2, ..m }), modes),
                    None => st,
                }
            } else if text::contains(line, "Scale:"@) {
                let v = value_after_colon(line);
                if text::index_of(line, ':') < line.len() && num::is_float_text(v) {
                    (ms, Some(MonitorV { scale: v, ..m }), modes)
                } else {
                    st
                }
            } else if text::contains(line, "Transform:"@) {
                if text::index_of(line, ':') < line.len() {
                    (ms, Some(MonitorV { transform: value_after_colon(line), ..m }), modes)
                } else {
                    st
                }
            } else if text::contains(line, "Variable refresh rate:"@) {
                (ms, Some(MonitorV {
                    vrr: text::contains(line, "supported"@) && !text::contains(line, "not supported"@),
                    ..m
                }), modes)
            } else {
                match parse_wxh_at(text::trim(line)) {
                    Some(p) => (ms, cur, modes.push(ModeV {
                        width: p.0,
                        height: p.1,
                        refresh: p.2,
                        current: text::contains(line, "current"@),
                        preferred: text::contains(line, "preferred"@),
                    })),
                    None => st,
                }
            }
        }
    }
}

pub open spec fn niri_fold(ls: Seq<Seq<char>>, i: int, st: NiriState) -> NiriState
    decreases ls.len() - i,
{
    if i < 0 || i >= ls.len() {
        st
    } else {
        niri_fold(ls, i + 1, niri_step(st, ls[i]))
    }
}

/// The monitors of `niri msg outputs`, each with the mode lines that follow
/// it.
pub open spec fn spec_niri_monitors(out: Seq<char>) -> Seq<MonitorV> {
    let st = niri_fold(text::lines(out), 0, (seq![], None, seq![]));
    match st.1 {
        Some(m) => st.0.push(MonitorV { modes: st.2, ..m }),
        None => st.0,
    }
}

fn new_monitor_of(line: &Vec<char>) -> (r: Monitor)
    ensures
        r@ == new_monitor(line@),
{
    let name = match parens_of(line) {
        Some(n) => text::string_of(&n),
        None => String::new(),
    };
    let description = match quoted_of(line) {
        Some(d) => text::string_of(&d),
        None => String::new(),
    };
    let r = Monitor {
        name,
        description,
        width: 0,
        height: 0,
        refresh: "60.0".to_string(),
        scale: "1.0".to_string(),
        transform: "normal".to_string(),
        focused: true,
        modes: Vec::new(),
        vrr: false,
    };
    assert(mode_views(r.modes@) =~= Seq::<ModeV>::empty());
    r
}

fn colon_value(line: &Vec<char>) -> (r: Option<Vec<char>>)
    ensures
        match r {
            Some(v) => text::index_of(line@, ':') < line@.len() && v@ == value_after_colon(line@),
            None => text::index_of(line@, ':') >= line@.len(),
        },
{
    let k = text::find_char(line, ':');
    if k >= line.len() {
        return None;
    }
    let rest = text::slice(line, k + 1, line.len());
    assert(rest@ =~= line@.skip(k + 1 as int));
    Some(text::trimmed(&rest))
}

fn has_lit(s: &Vec<char>, p: &str) -> (r: bool)
    ensures
        r == text::contains(s@, p@),
{
    text::has(s, &text::lit(p))
}

/// The monitors of `niri msg outputs` (its output).
pub fn niri_monitors(out: &str) -> (r: Vec<Monitor>)
    ensures
        monitor_views(r@) == spec_niri_monitors(out@),
{
    let ls = text::lines_of(out);
    let ghost lv = text::views(ls@);
    let mut ms: Vec<Monitor> = Vec::new();
    let mut has_cur = false;
    let mut cur = new_monitor_of(&Vec::new());
    let mut modes: Vec<DisplayMode> = Vec::new();
    let ghost init: NiriState = (seq![], None, seq![]);
    assert(monitor_views(ms@) =~= Seq::<MonitorV>::empty());
    assert(mode_views(modes@) =~= Seq::<ModeV>::empty());
    let mut i: usize = 0;
    while i < ls.len()
        invariant
            i <= ls.len(),
            lv == text::views(ls@),
            lv == text::lines(out@),
            niri_fold(lv, 0, init) == niri_fold(lv, i as int, (monitor_views(ms@), if has_cur {
                Some(cur@)
            } else {
                None
            }, mode_views(modes@))),
        decreases ls.len() - i,
    {
        assert(ls@[i as int]@ == lv[i as int]);
        let line = text::cut_end_ws(&ls[i]);
        let ghost st: NiriState = (monitor_views(ms@), if has_cur { Some(cur@) } else { None }, mode_views(modes@));
        let ghost next = niri_step(st, lv[i as int]);
        if text::has_prefix(&line, &text::lit("Output")) {
            if has_cur {
                let ghost mv = mode_views(modes@);
                let ghost c0 = cur@;
                let mut taken: Vec<DisplayMode> = Vec::new();
                std::mem::swap(&mut taken, &mut modes);
                cur.modes = taken;
                let ghost cv = cur@;
                assert(cv == MonitorV { modes: mv, ..c0 });
                let ghost m0 = monitor_views(ms@);
                ms.push(cur);
                assert(monitor_views(ms@) =~= m0.push(cv));
                assert(mode_views(modes@) =~= Seq::<ModeV>::empty());
            }
            cur = new_monitor_of(&line);
            has_cur = true;
        } else if has_cur {
            if has_lit(&line, "Current mode:") {
                match wxh_at(&line) {
                    Some((w, h, r)) => {
                        cur.width = w;
                        cur.height = h;
                        cur.refresh = text::string_of(&r);
                    },
                    None => {},
                }
            } else if has_lit(&line, "Scale:") {
                match colon_value(&line) {
                    Some(v) => if num::float_text(&v) {
                        cur.scale = text::string_of(&v);
                    },
                    None => {},
                }
            } else if has_lit(&line, "Transform:") {
                match colon_value(&line) {
                    Some(v) => {
                        cur.transform = text::string_of(&v);
                    },
                    None => {},
                }
            } else if has_lit(&line, "Variable refresh rate:") {
                cur.vrr = has_lit(&line, "supported") && !has_lit(&line, "not supported");
            } else {
                let t = text::trimmed(&line);
                match wxh_at(&t) {
                    Some((w, h, r)) => {
                        let m = DisplayMode {
                            width: w,
                            height: h,
                            refresh: text::string_of(&r),
                            current: has_lit(&line, "current"),
                            preferred: has_lit(&line, "preferred"),
                        };
                        let ghost mv0 = mode_views(modes@);
                        let ghost dv = m@;
                        modes.push(m);
                        assert(mode_views(modes@) =~= mv0.push(dv));
                    },
                    None => {},
                }
            }
        }
        assert((monitor_views(ms@), if has_cur { Some(cur@) } else { None }, mode_views(modes@)) == next);
        i += 1;
    }
    if has_cur {
        let ghost mv = mode_views(modes@);
        let ghost c0 = cur@;
        cur.modes = modes;
        let ghost m0 = monitor_views(ms@);
        let ghost cv = cur@;
        assert(cv == MonitorV { modes: mv, ..c0 });
        ms.push(cur);
        assert(monitor_views(ms@) =~= m0.push(cv));
    }
    ms
}

// ---------------------------------------------------------------- Hyprland

/// A monitor of `hyprctl monitors -j`, with its current mode as its one
/// mode.
pub open spec fn hypr_monitor(e: JsonV) -> MonitorV {
    let name = match as_str(member_at(e, "name"@)) {
        Some(s) => s,
        None => seq![],
    };
    let width = match as_i64(member_at(e, "width"@)) {
        Some(w) => w,
        None => 0,
    };
    let height = match as_i64(member_at(e, "height"@)) {
        Some(h) => h,
        None => 0,
    };
    let refresh = match as_number(member_at(e, "refreshRate"@)) {
        Some(t) => t,
        None => "60.0"@,
    };
    MonitorV {
        name: name,
        description: match as_str(member_at(e, "description"@)) {
            Some(s) => s,
            None => name,
        },
        width: width,
        height: height,
        refresh: refresh,
        scale: match as_number(member_at(e, "scale"@)) {
            Some(t) => t,
            None => "1.0"@,
        },
        transform: match member_at(e, "transform"@) {
            Some(v) => settings::json_text(v),
            None => "0"@,
        },
        focused: match as_bool(member_at(e, "focused"@)) {
            Some(b) => b,
            None => false,
        },
        modes: seq![ModeV { width: width, height: height, refresh: refresh, current: true, preferred: true }],
        vrr: match as_bool(member_at(e, "vrr"@)) {
            Some(b) => b,
            None => false,
        },
    }
}

/// The monitors of `hyprctl monitors -j` (none unless it is an array).
pub open spec fn spec_hyprland_monitors(parsed: Option<JsonV>) -> Seq<MonitorV> {
    match parsed {
        Some(JsonV::Arr(items)) => items.map_values(|e: JsonV| hypr_monitor(e)),
        _ => seq![],
    }
}

fn member_of<'a>(e: &'a Json, k: &str) -> (r: Option<&'a Json>)
    ensures
        match r {
            Some(x) => member_at(e@, k@) == Some(x@),
            None => member_at(e@, k@) is None,
        },
{
    match e {
        Json::Object(m) => {
            let i = settings::member_of(m, &text::lit(k));
            proof {
                settings::lemma_jv_members(m@);
                settings::lemma_member_index(settings::jv_members(m@), k@);
            }
            if i < m.len() {
                Some(&m[i].1)
            } else {
                None
            }
        },
        _ => None,
    }
}

pub open spec fn opt_jv(o: Option<&Json>) -> Option<JsonV> {
    match o {
        Some(x) => Some(x@),
        None => None,
    }
}

fn str_or(v: Option<&Json>, d: &Vec<char>) -> (r: Vec<char>)
    ensures
        r@ == match as_str(opt_jv(v)) {
            Some(s) => s,
            None => d@,
        },
{
    match v {
        Some(Json::Str(s)) => text::chars_of(s.as_str()),
        _ => text::slice(d, 0, d.len()),
    }
}

fn int_or_zero(v: Option<&Json>) -> (r: i64)
    ensures
        r as int == match as_i64(opt_jv(v)) {
            Some(x) => x,
            None => 0,
        },
{
    match v {
        Some(Json::Number(n)) => match num::parse_i64(&text::chars_of(n.as_str())) {
            Some(x) => x,
            None => 0,
        },
        _ => 0,
    }
}

fn number_or(v: Option<&Json>, d: &str) -> (r: Vec<char>)
    ensures
        r@ == match as_number(opt_jv(v)) {
            Some(t) => t,
            None => d@,
        },
{
    match v {
        Some(Json::Number(n)) => text::chars_of(n.as_str()),
        _ => text::lit(d),
    }
}

fn flag_or_false(v: Option<&Json>) -> (r: bool)
    ensures
        r == match as_bool(opt_jv(v)) {
            Some(b) => b,
            None => false,
        },
{
    match v {
        Some(Json::Bool(b)) => *b,
        _ => false,
    }
}

fn hypr_monitor_of(e: &Json) -> (r: Monitor)
    ensures
        r@ == hypr_monitor(e@),
{
    let name = str_or(member_of(e, "name"), &Vec::new());
    proof {
        assert(Seq::<char>::empty() =~= seq![]);
    }
    let description = str_or(member_of(e, "description"), &name);
    let width = int_or_zero(member_of(e, "width"));
    let height = int_or_zero(member_of(e, "height"));
    let refresh = number_or(member_of(e, "refreshRate"), "60.0");
    let scale = number_or(member_of(e, "scale"), "1.0");
    let transform = match member_of(e, "transform") {
        Some(v) => settings::json_string(v),
        None => "0".to_string(),
    };
    let focused = flag_or_false(member_of(e, "focused"));
    let vrr = flag_or_false(member_of(e, "vrr"));
    let mode = DisplayMode { width, height, refresh: text::string_of(&refresh), current: true, preferred: true };
    let mut modes: Vec<DisplayMode> = Vec::new();
    modes.push(mode);
    let r = Monitor {
        name: text::string_of(&name),
        description: text::string_of(&description),
        width,
        height,
        refresh: text::string_of(&refresh),
        scale: text::string_of(&scale),
        transform,
        focused,
        modes,
        vrr,
    };
    assert(mode_views(r.modes@) =~= seq![ModeV { width: width as int, height: height as int, refresh: refresh@, current: true, preferred: true }]);
    r
}

/// The monitors of `hyprctl monitors -j`, from its output.
pub fn hyprland_monitors_of(out: &str) -> (r: Vec<Monitor>)
    ensures
        monitor_views(r@) == spec_hyprland_monitors(crate::backend::jsonc::json_value(out@)),
{
    let parsed = settings::parse_text(Some(out));
    assert(text::opt_view(Some(out)) == Some(out@));
    hyprland_monitors(parsed)
}

/// The monitors of `hyprctl monitors -j`, its output as JSON (none when it
/// did not parse).
pub fn hyprland_monitors(parsed: Option<Json>) -> (r: Vec<Monitor>)
    ensures
        monitor_views(r@) == spec_hyprland_monitors(match parsed {
            Some(j) => Some(j@),
            None => None,
        }),
{
    let mut out: Vec<Monitor> = Vec::new();
    match parsed {
        Some(Json::Array(items)) => {
            let ghost iv = settings::jv_seq(items@);
            proof {
                lemma_jv_seq(items@);
            }
            let mut i: usize = 0;
            while i < items.len()
                invariant
                    i <= items.len(),
                    iv == settings::jv_seq(items@),
                    iv.len() == items.len(),
                    forall|k: int| 0 <= k < items.len() ==> #[trigger] iv[k] == items@[k]@,
                    monitor_views(out@) =~= iv.take(i as int).map_values(|e: JsonV| hypr_monitor(e)),
                decreases items.len() - i,
            {
                let m = hypr_monitor_of(&items[i]);
                let ghost o0 = monitor_views(out@);
                let ghost mv = m@;
                out.push(m);
                assert(monitor_views(out@) =~= o0.push(mv));
                assert(iv.take(i + 1).map_values(|e: JsonV| hypr_monitor(e)) =~= iv.take(i as int).map_values(
                    |e: JsonV| hypr_monitor(e),
                ).push(hypr_monitor(iv[i as int])));
                i += 1;
            }
            assert(iv.take(items.len() as int) =~= iv);
            out
        },
        _ => {
            assert(monitor_views(out@) =~= Seq::<MonitorV>::empty());
            out
        },
    }
}

proof fn lemma_jv_seq(s: Seq<Json>)
    ensures
        settings::jv_seq(s).len() == s.len(),
        forall|i: int| 0 <= i < s.len() ==> #[trigger] settings::jv_seq(s)[i] == s[i]@,
    decreases s.len(),
{
    if s.len() > 0 {
        lemma_jv_seq(s.drop_last());
        assert forall|i: int| 0 <= i < s.len() implies #[trigger] settings::jv_seq(s)[i] == s[i]@ by {
            if i < s.len() - 1 {
                assert(s.drop_last()[i] == s[i]);
            }
        }
    }
}

// ---------------------------------------------------------------- service

/// Which compositor the page talks to.
#[derive(Clone, Copy, Debug, PartialEq, Eq, Structural)]
pub enum DisplayBackend {
    Niri,
    Hyprland,
}

/// The display page's services.
#[derive(Clone, Copy, Debug)]
pub struct DisplayService {
    pub backend: DisplayBackend,
}

/// The first focused monitor.
pub open spec fn first_focused(ms: Seq<MonitorV>) -> Option<MonitorV>
    decreases ms.len(),
{
    if ms.len() == 0 {
        None
    } else if ms[0].focused {
        Some(ms[0])
    } else {
        first_focused(ms.drop_first())
    }
}

/// The command that names a monitor to `niri msg output`.
pub open spec fn niri_output(name: Seq<char>, what: Seq<char>, value: Seq<char>) -> Seq<Seq<char>> {
    seq!["niri"@, "msg"@, "output"@, name, what, value]
}

/// The command that sets a Hyprland monitor keyword.
pub open spec fn hypr_monitor_cmd(arg: Seq<char>) -> Seq<Seq<char>> {
    seq!["hyprctl"@, "keyword"@, "monitor"@, arg]
}

fn cmd6(a: &str, b: &str, c: &str, d: &str, e: &str, f: &str) -> (r: Vec<String>)
    ensures
        text::string_views(r@) == seq![a@, b@, c@, d@, e@, f@],
{
    let r = text::strings_of(&[a, b, c, d, e, f]);
    assert([a, b, c, d, e, f]@.map_values(|s: &str| s@) =~= seq![a@, b@, c@, d@, e@, f@]);
    r
}

fn hypr_cmd(arg: Vec<char>) -> (r: Vec<String>)
    ensures
        text::string_views(r@) == hypr_monitor_cmd(arg@),
{
    let mut r = text::strings_of(&["hyprctl", "keyword", "monitor"]);
    assert(["hyprctl", "keyword", "monitor"]@.map_values(|s: &str| s@) =~= seq!["hyprctl"@, "keyword"@, "monitor"@]);
    let ghost r0 = text::string_views(r@);
    r.push(text::string_of(&arg));
    assert(text::string_views(r@) =~= r0.push(arg@));
    r
}

impl DisplayService {
    /// The backend for a desktop name already in lower case: niri when it
    /// says so, Hyprland otherwise.
    pub fn for_lowered(lowered: &str) -> (r: Self)
        ensures
            r.backend == (if text::contains(lowered@, "niri"@) {
                DisplayBackend::Niri
            } else {
                DisplayBackend::Hyprland
            }),
    {
        if text::has(&text::chars_of(lowered), &text::lit("niri")) {
            DisplayService { backend: DisplayBackend::Niri }
        } else {
            DisplayService { backend: DisplayBackend::Hyprland }
        }
    }

    /// The backend for the desktop name (`XDG_CURRENT_DESKTOP` and the
    /// like), which is taken in lower case.
    pub fn from_desktop(desktop: &str) -> (r: Self)
        ensures
            r.backend == (if text::contains(text::lowercase(desktop@), "niri"@) {
                DisplayBackend::Niri
            } else {
                DisplayBackend::Hyprland
            }),
    {
        let l = text::to_lower(desktop);
        Self::for_lowered(l.as_str())
    }

    /// Whether the resolution can be chosen (niri only).
    pub fn supports_resolution(&self) -> (r: bool)
        ensures
            r == (self.backend == DisplayBackend::Niri),
    {
        match self.backend {
            DisplayBackend::Niri => true,
            DisplayBackend::Hyprland => false,
        }
    }

    /// Whether variable refresh can be switched (niri only).
    pub fn supports_vrr(&self) -> (r: bool)
        ensures
            r == (self.backend == DisplayBackend::Niri),
    {
        self.supports_resolution()
    }

    /// The current monitor among `monitors` (those the backend reports):
    /// the first one for niri, the first focused one for Hyprland.
    pub fn current_monitor(&self, monitors: Vec<Monitor>) -> (r: Option<Monitor>)
        ensures
            match r {
                Some(m) => Some(m@) == (if self.backend == DisplayBackend::Niri {
                    if monitors.len() > 0 { Some(monitor_views(monitors@)[0]) } else { None }
                } else {
                    first_focused(monitor_views(monitors@))
                }),
                None => (if self.backend == DisplayBackend::Niri {
                    monitors.len() == 0
                } else {
                    first_focused(monitor_views(monitors@)) is None
                }),
            },
    {
        let ghost mv = monitor_views(monitors@);
        let mut ms = monitors;
        match self.backend {
            DisplayBackend::Niri => {
                if ms.len() > 0 {
                    Some(ms.remove(0))
                } else {
                    None
                }
            },
            DisplayBackend::Hyprland => {
                let mut i: usize = 0;
                assert(mv.skip(0) =~= mv);
                while i < ms.len()
                    invariant
                        i <= ms.len(),
                        self.backend == DisplayBackend::Hyprland,
                        mv == monitor_views(ms@),
                        mv == monitor_views(monitors@),
                        first_focused(mv) == first_focused(mv.skip(i as int)),
                    decreases ms.len() - i,
                {
                    assert(mv.skip(i as int)[0] == mv[i as int]);
                    if ms[i].focused {
                        let ghost mi = mv[i as int];
                        let m = ms.remove(i);
                        assert(m@ == mi);
                        return Some(m);
                    }
                    assert(mv.skip(i as int).drop_first() =~= mv.skip(i + 1));
                    i += 1;
                }
                None
            },
        }
    }

    /// The command that sets a monitor's mode (`mode` is its
    /// `WIDTHxHEIGHT@RATE` text): niri only.
    pub fn set_resolution(&self, monitor: &Monitor, mode: &str) -> (r: Option<Vec<String>>)
        ensures
            match r {
                Some(c) => self.backend == DisplayBackend::Niri && text::string_views(c@) == niri_output(monitor.name@, "mode"@, mode@),
                None => self.backend == DisplayBackend::Hyprland,
            },
    {
        match self.backend {
            DisplayBackend::Niri => Some(cmd6("niri", "msg", "output", monitor.name.as_str(), "mode", mode)),
            DisplayBackend::Hyprland => None,
        }
    }

    /// The command that sets a monitor's scale (`scale` is the number's
    /// text).
    pub fn set_scale(&self, monitor: &Monitor, scale: &str) -> (r: Vec<String>)
        ensures
            text::string_views(r@) == (if self.backend == DisplayBackend::Niri {
                niri_output(monitor.name@, "scale"@, scale@)
            } else {
                hypr_monitor_cmd(monitor.name@ + ",preferred,"@ + scale@)
            }),
    {
        match self.backend {
            DisplayBackend::Niri => cmd6("niri", "msg", "output", monitor.name.as_str(), "scale", scale),
            DisplayBackend::Hyprland => {
                let mut arg = text::chars_of(monitor.name.as_str());
                text::append(&mut arg, &text::lit(",preferred,"));
                text::append(&mut arg, &text::chars_of(scale));
                hypr_cmd(arg)
            },
        }
    }

    /// The command that sets a monitor's transform.
    pub fn set_rotation(&self, monitor: &Monitor, rotation: &str) -> (r: Vec<String>)
        ensures
            text::string_views(r@) == (if self.backend == DisplayBackend::Niri {
                niri_output(monitor.name@, "transform"@, rotation@)
            } else {
                hypr_monitor_cmd(monitor.name@ + ",preferred,auto,"@ + rotation@)
            }),
    {
        match self.backend {
            DisplayBackend::Niri => cmd6("niri", "msg", "output", monitor.name.as_str(), "transform", rotation),
            DisplayBackend::Hyprland => {
                let mut arg = text::chars_of(monitor.name.as_str());
                text::append(&mut arg, &text::lit(",preferred,auto,"));
                text::append(&mut arg, &text::chars_of(rotation));
                hypr_cmd(arg)
            },
        }
    }

    /// The command that switches variable refresh: niri only.
    pub fn set_vrr(&self, monitor: &Monitor, enabled: bool) -> (r: Option<Vec<String>>)
        ensures
            match r {
                Some(c) => self.backend == DisplayBackend::Niri && text::string_views(c@) == niri_output(
                    monitor.name@,
                    "vrr"@,
                    if enabled { "on"@ } else { "off"@ },
                ),
                None => self.backend == DisplayBackend::Hyprland,
            },
    {
        match self.backend {
            DisplayBackend::Niri => Some(
                cmd6("niri", "msg", "output", monitor.name.as_str(), "vrr", if enabled { "on" } else { "off" }),
            ),
            DisplayBackend::Hyprland => None,
        }
    }

    /// The command that sets the brightness: in percent for niri; for
    /// Hyprland in the device's own units, `raw` (none when the device's
    /// maximum could not be read, and then nothing is run).
    pub fn set_brightness(&self, percent: i64, raw: Option<i64>) -> (r: Option<Vec<String>>)
        ensures
            match r {
                Some(c) => if self.backend == DisplayBackend::Niri {
                    text::string_views(c@) == seq!["brightnessctl"@, "set"@, num::dec(percent as int) + "%"@]
                } else {
                    raw is Some && text::string_views(c@) == seq!["brightnessctl"@, "set"@, num::dec(raw->0 as int)]
                },
                None => self.backend == DisplayBackend::Hyprland && raw is None,
            },
    {
        let value = match self.backend {
            DisplayBackend::Niri => {
                let mut v = num::i64_to_chars(percent);
                v.push('%');
                proof {
                    reveal_strlit("%");
                    assert(v@ =~= num::dec(percent as int) + "%"@);
                }
                v
            },
            DisplayBackend::Hyprland => match raw {
                Some(n) => num::i64_to_chars(n),
                None => {
                    return None;
                },
            },
        };
        let mut r = text::strings_of(&["brightnessctl", "set"]);
        assert(["brightnessctl", "set"]@.map_values(|s: &str| s@) =~= seq!["brightnessctl"@, "set"@]);
        let ghost r0 = text::string_views(r@);
        r.push(text::string_of(&value));
        assert(text::string_views(r@) =~= r0.push(value@));
        Some(r)
    }
}

} // verus!
