//! niri's configuration (`~/.config/niri/config.kdl`): animations, client-side
//! decorations, gaps, border, focus ring, blur, the performance mode and the
//! keyboard layout. Each function takes the file's text (empty when it cannot
//! be read); a setter returns the text to write back, or `None` where nothing
//! is to be written.
use vstd::prelude::*;
use crate::text;
use crate::num;
use crate::services::kdl;
use crate::services::settings::{self, Json, JsonV};
use crate::services::window_rules::{first_quoted, second_word, quoted_of, second_of};

verus! {

// ---------------------------------------------------------------- model

/// First line in `[a, b)` whose trimmed text is `w`.
pub open spec fn find_trim(ls: Seq<Seq<char>>, a: int, b: int, w: Seq<char>) -> Option<int>
    decreases b - a,
{
    if a < 0 || a >= b || a >= ls.len() {
        None
    } else if text::trim(ls[a]) == w {
        Some(a)
    } else {
        find_trim(ls, a + 1, b, w)
    }
}

/// The first line `off` or `on` in `[a, b)`, as `false` or `true`.
pub open spec fn switch_in(ls: Seq<Seq<char>>, a: int, b: int) -> Option<bool>
    decreases b - a,
{
    if a < 0 || a >= b || a >= ls.len() {
        None
    } else if text::trim(ls[a]) == "off"@ {
        Some(false)
    } else if text::trim(ls[a]) == "on"@ {
        Some(true)
    } else {
        switch_in(ls, a + 1, b)
    }
}

/// First line in `[a, b)` that is not blank, or `b`.
pub open spec fn first_nonblank(ls: Seq<Seq<char>>, a: int, b: int) -> int
    decreases b - a,
{
    if a < 0 || a >= b || a >= ls.len() {
        b
    } else if text::trim(ls[a]).len() > 0 {
        a
    } else {
        first_nonblank(ls, a + 1, b)
    }
}

/// The lines of `[a, b)` that are neither blank nor `off`.
pub open spec fn kept(ls: Seq<Seq<char>>, a: int, b: int) -> Seq<Seq<char>>
    decreases b - a,
{
    if a < 0 || a >= b || b > ls.len() {
        seq![]
    } else {
        let t = text::trim(ls[b - 1]);
        let k = kept(ls, a, b - 1);
        if t.len() > 0 && t != "off"@ {
            k.push(ls[b - 1])
        } else {
            k
        }
    }
}

/// The lines without those of `[s, e]`.
pub open spec fn without(ls: Seq<Seq<char>>, s: int, e: int) -> Seq<Seq<char>> {
    ls.take(s) + ls.skip(e + 1)
}

/// The lines joined by `'\n'`.
pub open spec fn joined(ls: Seq<Seq<char>>) -> Seq<char> {
    text::join(ls, text::nl())
}

pub open spec fn path1(a: Seq<char>) -> Seq<Seq<char>> {
    seq![a]
}

pub open spec fn path2(a: Seq<char>, b: Seq<char>) -> Seq<Seq<char>> {
    seq![a, b]
}

/// `text` with a `'\n'` added unless it ends with one.
pub open spec fn ended(c: Seq<char>) -> Seq<char> {
    if c.len() > 0 && c.last() == '\n' {
        c
    } else {
        c.push('\n')
    }
}

/// Whether animations are on: the first `off` or `on` line of the
/// `animations` block; on without the block or such a line.
pub open spec fn spec_animations(content: Seq<char>) -> bool {
    let ls = text::lines(content);
    match kdl::top_block(ls, "animations"@) {
        None => true,
        Some((s, e)) => match switch_in(ls, s + 1, e) {
            Some(b) => b,
            None => true,
        },
    }
}

/// The text after animations are set `on`.
///
/// Off: without the block, `animations {\n    off\n}\n` is appended; a block
/// without an `off` line gets `    off` before its first non-blank line.
/// On: `off` and blank lines leave the block's lines after its first; when
/// nothing is left (a block on one line), the block goes.
pub open spec fn spec_set_animations(content: Seq<char>, on: bool) -> Option<Seq<char>> {
    let ls = text::lines(content);
    match kdl::top_block(ls, "animations"@) {
        None => if on {
            None
        } else {
            Some(ended(content) + "animations {\n    off\n}\n"@)
        },
        Some((s, e)) => if !on {
            if find_trim(ls, s + 1, e, "off"@) is Some {
                None
            } else {
                Some(joined(ls.insert(first_nonblank(ls, s + 1, e), "    off"@)))
            }
        } else {
            let k = kept(ls, s + 1, e);
            if k.len() == 0 {
                Some(joined(ls.take(s) + ls.skip(e)))
            } else {
                Some(joined(ls.take(s + 1) + k + ls.skip(e)))
            }
        },
    }
}

/// A line `prefer-no-csd`.
pub open spec fn spec_prefer_no_csd(content: Seq<char>) -> bool {
    let ls = text::lines(content);
    find_trim(ls, 0, ls.len() as int, "prefer-no-csd"@) is Some
}

/// The text with the line `prefer-no-csd` present (`on`) or removed.
pub open spec fn spec_set_prefer_no_csd(content: Seq<char>, on: bool) -> Option<Seq<char>> {
    let ls = text::lines(content);
    match find_trim(ls, 0, ls.len() as int, "prefer-no-csd"@) {
        Some(i) => if on {
            None
        } else {
            Some(joined(ls.remove(i)))
        },
        None => if on {
            let ls2 = if !(content.len() > 0 && content.last() == '\n') && ls.len() > 0 {
                ls.update(ls.len() - 1, ls.last().push('\n'))
            } else {
                ls
            };
            Some(joined(ls2.push("prefer-no-csd"@)))
        } else {
            None
        },
    }
}

/// `layout { gaps N }`, 16 when absent or not an `i64`.
pub open spec fn spec_gaps(content: Seq<char>) -> int {
    match kdl::block_value(text::lines(content), path1("layout"@), "gaps"@) {
        Some(v) => match num::i64_of(v) {
            Some(n) => n,
            None => 16,
        },
        None => 16,
    }
}

/// The text with `gaps N` set in `layout`, the block created when missing.
pub open spec fn spec_set_gaps(content: Seq<char>, gaps: int) -> Seq<char> {
    match kdl::spec_update_value(content, path1("layout"@), "gaps"@, num::dec(gaps)) {
        Some(c) => c,
        None => kdl::spec_create_block(content, path1("layout"@), seq!["gaps "@ + num::dec(gaps)]),
    }
}

/// `"s"`.
pub open spec fn quoted(s: Seq<char>) -> Seq<char> {
    seq!['"'] + s + seq!['"']
}

/// The body of a new `border` block.
pub open spec fn border_body(width: int, active: Seq<char>, inactive: Seq<char>) -> Seq<Seq<char>> {
    seq!["width "@ + num::dec(width), "active-color "@ + quoted(active), "inactive-color "@ + quoted(inactive)]
}

/// A `border` block as one line holding newlines, for insertion in `layout`.
pub open spec fn border_lines(width: int, active: Seq<char>, inactive: Seq<char>) -> Seq<char> {
    let b = border_body(width, active, inactive);
    "    border {\n"@ + "        "@ + b[0] + text::nl() + "        "@ + b[1] + text::nl() + "        "@ + b[2]
        + text::nl() + "    }"@
}

/// `ind key value` written in the block `[s, e]`: over its first line in
/// `(s, e)` that assigns `key`, else before its closing line `e`.
pub open spec fn replace_key(ls: Seq<Seq<char>>, s: int, e: int, key: Seq<char>, value: Seq<char>, ind: Seq<char>) -> Seq<Seq<char>> {
    match crate::services::ini::spec_find_key(ls, key, s + 1, e) {
        Some(j) => ls.update(j, kdl::kv_line(ind, key, value)),
        None => ls.insert(e, kdl::kv_line(ind, key, value)),
    }
}

/// The block's closing line after `replace_key`: one further down when a
/// line was added.
pub open spec fn end_after(ls: Seq<Seq<char>>, s: int, e: int, key: Seq<char>) -> int {
    match crate::services::ini::spec_find_key(ls, key, s + 1, e) {
        Some(_) => e,
        None => e + 1,
    }
}

/// The text after `layout > border` is set.
///
/// Off removes the block. On writes `width`, `active-color` and
/// `inactive-color` in an existing block (each over its line, or added
/// before the block's closing line), or creates the block: inside `layout`,
/// before its closing line, or appended with its parent.
pub open spec fn spec_set_border(content: Seq<char>, on: bool, width: int, active: Seq<char>, inactive: Seq<char>) -> Option<Seq<char>> {
    let ls = text::lines(content);
    match kdl::nested_block(ls, path2("layout"@, "border"@)) {
        Some((s, e)) => if !on {
            Some(joined(without(ls, s, e)))
        } else {
            let ind = text::leading_blanks(ls[s]) + kdl::spaces(4);
            let l1 = replace_key(ls, s, e, "width"@, num::dec(width), ind);
            let e1 = end_after(ls, s, e, "width"@);
            let l2 = replace_key(l1, s, e1, "active-color"@, quoted(active), ind);
            let e2 = end_after(l1, s, e1, "active-color"@);
            let l3 = replace_key(l2, s, e2, "inactive-color"@, quoted(inactive), ind);
            Some(joined(l3))
        },
        None => if !on {
            None
        } else {
            match kdl::nested_block(ls, path1("layout"@)) {
                Some((_s, pe)) => Some(joined(ls.insert(pe, border_lines(width, active, inactive)))),
                None => Some(kdl::spec_create_block(content, path2("layout"@, "border"@), border_body(width, active, inactive))),
            }
        },
    }
}

/// Whether the focus ring is on: `layout > focus-ring` exists and its first
/// `off`/`on` line is not `off`.
pub open spec fn spec_focus_ring(content: Seq<char>) -> bool {
    let ls = text::lines(content);
    match kdl::nested_block(ls, path2("layout"@, "focus-ring"@)) {
        None => false,
        Some((s, e)) => match switch_in(ls, s + 1, e) {
            Some(b) => b,
            None => true,
        },
    }
}

/// A `focus-ring` block holding `word`, as one line for insertion in `layout`.
pub open spec fn ring_lines(word: Seq<char>) -> Seq<char> {
    "    focus-ring {\n        "@ + word + "\n    }"@
}

/// The text with a new `focus-ring` block holding `word`.
pub open spec fn new_ring(content: Seq<char>, word: Seq<char>) -> Seq<char> {
    let ls = text::lines(content);
    match kdl::nested_block(ls, path1("layout"@)) {
        Some((_s, pe)) => joined(ls.insert(pe, ring_lines(word))),
        None => kdl::spec_create_block(content, path2("layout"@, "focus-ring"@), seq![word]),
    }
}

/// The text after the focus ring is set.
///
/// Off removes an existing block, or creates one holding `off`. On adds
/// `        on` before the first non-blank line of a block without an `on`
/// line, or creates a block holding `on`.
pub open spec fn spec_set_focus_ring(content: Seq<char>, on: bool) -> Option<Seq<char>> {
    let ls = text::lines(content);
    match kdl::nested_block(ls, path2("layout"@, "focus-ring"@)) {
        Some((s, e)) => if !on {
            Some(joined(without(ls, s, e)))
        } else if find_trim(ls, s + 1, e, "on"@) is Some {
            None
        } else {
            Some(joined(ls.insert(first_nonblank(ls, s + 1, e), "        on"@)))
        },
        None => if !on {
            Some(new_ring(content, "off"@))
        } else {
            Some(new_ring(content, "on"@))
        },
    }
}

/// A `blur` block exists.
pub open spec fn spec_blur_enabled(content: Seq<char>) -> bool {
    kdl::nested_block(text::lines(content), path1("blur"@)) is Some
}

/// The body of a new `blur` block.
pub open spec fn blur_defaults() -> Seq<Seq<char>> {
    seq!["passes 3"@, "offset 3.0"@, "noise 0.0"@, "saturation 1.3"@]
}

/// The text after the `blur` block is removed (off) or created with the
/// defaults (on; the text is written back unchanged when the block exists).
pub open spec fn spec_set_blur_enabled(content: Seq<char>, on: bool) -> Option<Seq<char>> {
    let ls = text::lines(content);
    match kdl::nested_block(ls, path1("blur"@)) {
        Some((s, e)) => if !on {
            Some(joined(without(ls, s, e)))
        } else {
            Some(content)
        },
        None => if !on {
            None
        } else {
            Some(kdl::spec_create_block(content, path1("blur"@), blur_defaults()))
        },
    }
}

/// The line that opens the region of the ChurrOS window rules' blur.
pub open spec fn glass_start() -> Seq<char> {
    "\n// [CHURROS-GLASS-START]\n"@
}

/// The line that closes it.
pub open spec fn glass_end() -> Seq<char> {
    "\n// [CHURROS-GLASS-END]"@
}

/// The bounds of the text between the marker lines.
pub open spec fn glass_bounds(content: Seq<char>) -> Option<(int, int)> {
    match text::find(content, glass_start()) {
        None => None,
        Some(i) => {
            let start = i + glass_start().len();
            match text::find(content.skip(start), glass_end()) {
                None => None,
                Some(j) => Some((start, start + j)),
            }
        },
    }
}

/// The first line `blur true` or `blur false` of the lines.
pub open spec fn blur_word(ls: Seq<Seq<char>>, i: int) -> Option<bool>
    decreases ls.len() - i,
{
    if i < 0 || i >= ls.len() {
        None
    } else if text::trim(ls[i]) == "blur true"@ {
        Some(true)
    } else if text::trim(ls[i]) == "blur false"@ {
        Some(false)
    } else {
        blur_word(ls, i + 1)
    }
}

/// Whether the window rules' blur is on (`None` without the markers).
pub open spec fn spec_glass_blur(content: Seq<char>) -> Option<bool> {
    match glass_bounds(content) {
        None => None,
        Some((s, e)) => match blur_word(text::lines(content.subrange(s, e)), 0) {
            Some(b) => Some(b),
            None => Some(false),
        },
    }
}

/// `l` with its first `from` replaced by `to`.
pub open spec fn replace_first(l: Seq<char>, from: Seq<char>, to: Seq<char>) -> Seq<char> {
    match text::find(l, from) {
        Some(i) => l.take(i) + to + l.skip(i + from.len()),
        None => l,
    }
}

/// A line of the region after the blur is set `enabled`.
pub open spec fn glass_line(l: Seq<char>, enabled: bool) -> Seq<char> {
    if !enabled && text::trim(l) == "blur true"@ {
        replace_first(l, "blur true"@, "blur false"@)
    } else if enabled && text::trim(l) == "blur false"@ {
        replace_first(l, "blur false"@, "blur true"@)
    } else {
        l
    }
}

/// The region's lines with the blur set.
pub open spec fn glass_lines(ls: Seq<Seq<char>>, enabled: bool) -> Seq<Seq<char>> {
    ls.map_values(|l: Seq<char>| glass_line(l, enabled))
}

/// The text with the lines `blur true`/`blur false` of the marked region set to
/// `enabled` (`None` without the markers).
pub open spec fn spec_set_glass_blur(content: Seq<char>, enabled: bool) -> Option<Seq<char>> {
    match glass_bounds(content) {
        None => None,
        Some((s, e)) => {
            let region = content.subrange(s, e);
            let nr = joined(glass_lines(text::lines(region), enabled));
            let nr2 = if region.len() > 0 && region.last() == '\n' {
                nr.push('\n')
            } else {
                nr
            };
            Some(content.take(s) + nr2 + content.skip(e))
        },
    }
}

/// Performance mode: animations off and the window rules' blur off (without
/// the markers: no `blur` block).
pub open spec fn spec_performance_mode(content: Seq<char>) -> bool {
    let glass_off = match spec_glass_blur(content) {
        Some(active) => !active,
        None => !spec_blur_enabled(content),
    };
    !spec_animations(content) && glass_off
}

/// `o`'s text, or `c` when it is `None`.
pub open spec fn or_same(o: Option<Seq<char>>, c: Seq<char>) -> Seq<char> {
    match o {
        Some(x) => x,
        None => c,
    }
}

/// The text after the performance mode is set `on`: the window rules' blur,
/// the `blur` block and the animations set to `!on`, in that order; `None`
/// when no step writes.
pub open spec fn spec_set_performance_mode(content: Seq<char>, on: bool) -> Option<Seq<char>> {
    let c1 = or_same(spec_set_glass_blur(content, !on), content);
    let c2 = or_same(spec_set_blur_enabled(c1, !on), c1);
    let c3 = or_same(spec_set_animations(c2, !on), c2);
    if spec_set_glass_blur(content, !on) is Some || spec_set_blur_enabled(c1, !on) is Some || spec_set_animations(
        c2,
        !on,
    ) is Some {
        Some(c3)
    } else {
        None
    }
}

/// `animations > name > duration`, `default` when absent or not an `i64`.
pub open spec fn spec_animation_duration(content: Seq<char>, name: Seq<char>, default: int) -> int {
    match kdl::block_value(text::lines(content), path2("animations"@, name), "duration"@) {
        Some(v) => match num::i64_of(v) {
            Some(n) => n,
            None => default,
        },
        None => default,
    }
}

/// The text with `input > keyboard > xkb > layout "L"` set, the blocks
/// created when missing.
pub open spec fn spec_set_keyboard_layout(content: Seq<char>, layout: Seq<char>) -> Seq<char> {
    let path = seq!["input"@, "keyboard"@, "xkb"@];
    match kdl::spec_update_value(content, path, "layout"@, quoted(layout)) {
        Some(c) => c,
        None => kdl::spec_create_block(content, path, seq!["layout "@ + quoted(layout)]),
    }
}

/// The text that a setter's result writes, if any.
pub open spec fn written(o: Option<String>) -> Option<Seq<char>> {
    match o {
        Some(x) => Some(x@),
        None => None,
    }
}

// ---------------------------------------------------------------- laws

/// Gaps read back: after `set_gaps(content, g)`, `get_gaps` gives `g`, for a
/// text whose `layout` block exists and takes the value back as
/// `reads_back_at` says.
pub proof fn law_gaps_reads_back(content: Seq<char>, gaps: i64)
    requires
        kdl::reads_back_at(text::lines(content), path1("layout"@), "gaps"@),
    ensures
        spec_gaps(spec_set_gaps(content, gaps as int)) == gaps,
{
    let v = num::dec(gaps as int);
    num::lemma_dec_shape(gaps as int);
    reveal_strlit("gaps");
    assert(kdl::plain_entry("gaps"@, v));
    kdl::law_value_reads_back(content, path1("layout"@), "gaps"@, v);
    num::law_number_reads_back(gaps);
}

/// The keyboard layout reads back: after `set_keyboard_layout(content, l)`,
/// the value of `input > keyboard > xkb > layout` is `"l"`, for a text whose
/// `xkb` block exists and takes the value back as `reads_back_at` says, and
/// a layout without line breaks.
pub proof fn law_keyboard_layout_reads_back(content: Seq<char>, layout: Seq<char>)
    requires
        kdl::reads_back_at(text::lines(content), seq!["input"@, "keyboard"@, "xkb"@], "layout"@),
        forall|x: int| 0 <= x < layout.len() ==> #[trigger] layout[x] != '\n',
    ensures
        kdl::block_value(
            text::lines(spec_set_keyboard_layout(content, layout)),
            seq!["input"@, "keyboard"@, "xkb"@],
            "layout"@,
        ) == Some(quoted(layout)),
{
    reveal_strlit("layout");
    let v = quoted(layout);
    assert forall|x: int| 0 <= x < v.len() implies #[trigger] v[x] != '\n' by {
        if 0 < x < v.len() - 1 {
            assert(v[x] == layout[x - 1]);
        }
    }
    assert(kdl::plain_entry("layout"@, v));
    kdl::law_value_reads_back(content, seq!["input"@, "keyboard"@, "xkb"@], "layout"@, v);
}

/// Setting the keyboard layout keeps the lines outside `input > keyboard >
/// xkb`: for a text whose `xkb` block exists and a layout without line
/// breaks, the lines up to the block's opening one and from its closing one
/// on read back in order (as `kdl::law_update_keeps_outside` says).
pub proof fn law_keyboard_layout_keeps_outside(content: Seq<char>, layout: Seq<char>)
    requires
        kdl::nested_block(text::lines(content), seq!["input"@, "keyboard"@, "xkb"@]) is Some,
        forall|x: int| 0 <= x < layout.len() ==> #[trigger] layout[x] != '\n',
    ensures
        ({
            let path = seq!["input"@, "keyboard"@, "xkb"@];
            let ls = text::lines(content);
            let (s, e) = kdl::nested_block(ls, path).unwrap();
            let l2 = text::lines(spec_set_keyboard_layout(content, layout));
            let d: int = if crate::services::ini::spec_find_key(ls, "layout"@, s + 1, e) is Some { 0 } else { 1 };
            &&& forall|k: int| 0 <= k <= s ==> #[trigger] l2[k] == text::strip_cr(ls[k])
            &&& forall|k: int| e <= k < ls.len() - 1 ==> l2[k + d] == text::strip_cr(#[trigger] ls[k])
            &&& ls.last().len() > 0 ==> l2[ls.len() - 1 + d] == ls.last()
        }),
{
    reveal_strlit("layout");
    let v = quoted(layout);
    assert forall|x: int| 0 <= x < v.len() implies #[trigger] v[x] != '\n' by {
        if 0 < x < v.len() - 1 {
            assert(v[x] == layout[x - 1]);
        }
    }
    let path = seq!["input"@, "keyboard"@, "xkb"@];
    kdl::law_update_keeps_outside(content, path, "layout"@, v);
    assert(spec_set_keyboard_layout(content, layout) == kdl::spec_update_value(content, path, "layout"@, v).unwrap());
}

/// `first_nonblank` lies in `[a, b]`, after blank lines only, and on a line
/// that is not blank when it is before `b`.
proof fn lemma_first_nonblank(ls: Seq<Seq<char>>, a: int, b: int)
    requires
        0 <= a <= b <= ls.len(),
    ensures
        a <= first_nonblank(ls, a, b) <= b,
        forall|k: int| a <= k < first_nonblank(ls, a, b) ==> text::trim(#[trigger] ls[k]).len() == 0,
        first_nonblank(ls, a, b) < b ==> text::trim(ls[first_nonblank(ls, a, b)]).len() > 0,
    decreases b - a,
{
    if a < b && text::trim(ls[a]).len() == 0 {
        lemma_first_nonblank(ls, a + 1, b);
    }
}

/// Blank lines, then an `on` line: the switch reads `true`.
proof fn lemma_switch_on_after_blanks(ls: Seq<Seq<char>>, a: int, b: int, p: int)
    requires
        0 <= a <= p < b,
        p < ls.len(),
        forall|k: int| a <= k < p ==> text::trim(#[trigger] ls[k]).len() == 0,
        text::trim(ls[p]) == "on"@,
    ensures
        switch_in(ls, a, b) == Some(true),
    decreases p - a,
{
    reveal_strlit("on");
    reveal_strlit("off");
    assert("on"@.len() == 2 && "off"@.len() == 3);
    if a < p {
        assert(text::trim(ls[a]).len() == 0);
        lemma_switch_on_after_blanks(ls, a + 1, b, p);
    } else {
        assert(text::trim(ls[a]) != "off"@);
    }
}

/// An `on` line and no `off` line: the switch reads `true`.
proof fn lemma_switch_on_found(ls: Seq<Seq<char>>, a: int, b: int)
    requires
        find_trim(ls, a, b, "on"@) is Some,
        find_trim(ls, a, b, "off"@) is None,
    ensures
        switch_in(ls, a, b) == Some(true),
    decreases b - a,
{
    if text::trim(ls[a]) != "on"@ {
        lemma_switch_on_found(ls, a + 1, b);
    }
}

/// The focus ring reads back on: after `set_focus_ring(content, true)` (or
/// where it writes nothing), `get_focus_ring` gives `true`, for a text whose
/// `layout > focus-ring` block exists and does not hold both an `on` and an
/// `off` line.
pub proof fn law_focus_ring_on_reads_back(content: Seq<char>)
    requires
        kdl::nested_block(text::lines(content), path2("layout"@, "focus-ring"@)) is Some,
        ({
            let ls = text::lines(content);
            let (s, e) = kdl::nested_block(ls, path2("layout"@, "focus-ring"@)).unwrap();
            find_trim(ls, s + 1, e, "on"@) is Some ==> find_trim(ls, s + 1, e, "off"@) is None
        }),
    ensures
        spec_focus_ring(
            match spec_set_focus_ring(content, true) {
                Some(c) => c,
                None => content,
            },
        ),
{
    let ls = text::lines(content);
    let path = path2("layout"@, "focus-ring"@);
    kdl::lemma_nested_bounds(ls, path);
    let (s, e) = kdl::nested_block(ls, path).unwrap();
    if find_trim(ls, s + 1, e, "on"@) is Some {
        lemma_switch_on_found(ls, s + 1, e);
    } else {
        reveal_strlit("        on");
        reveal_strlit("on");
        let l: Seq<char> = "        on"@;
        let w: Seq<char> = "on"@;
        assert(l =~= l.take(8) + w);
        text::lemma_trim_start_after_ws(l.take(8), w);
        text::lemma_trim_plain(w);
        assert(text::trim(l) == w);
        assert(kdl::neutral_line(l));
        lemma_first_nonblank(ls, s + 1, e);
        let p = first_nonblank(ls, s + 1, e);
        let ls2 = ls.insert(p, l);
        kdl::lemma_nested_insert_neutral(ls, path, p, l);
        assert(kdl::nested_block(ls2, path) == Some((s, e + 1)));
        text::lemma_lines_no_nl(content);
        assert forall|a: int, b: int| 0 <= a < ls2.len() && 0 <= b < ls2[a].len() implies #[trigger] ls2[a][b]
            != '\n' by {
            if a < p {
                assert(ls2[a] == ls[a]);
            } else if a > p {
                assert(ls2[a] == ls[a - 1]);
            }
        }
        text::lemma_lines_of_join(ls2);
        let ls3 = text::lines(joined(ls2));
        assert(ls2.last() == ls[ls.len() - 1]);
        if e + 1 == ls2.len() - 1 {
            text::lemma_trim_len(ls[e]);
        }
        assert forall|k: int| 0 <= k <= e + 1 implies text::trim(#[trigger] ls2[k]) == text::trim(ls3[k]) by {
            text::lemma_trim_strip_cr(ls2[k]);
        }
        kdl::lemma_nested_trims(ls2, ls3, path);
        assert forall|k: int| s + 1 <= k < p implies text::trim(#[trigger] ls3[k]).len() == 0 by {
            assert(text::trim(ls2[k]) == text::trim(ls3[k]));
            assert(ls2[k] == ls[k]);
        }
        assert(text::trim(ls2[p]) == text::trim(ls3[p]));
        lemma_switch_on_after_blanks(ls3, s + 1, e + 1, p);
        assert(spec_set_focus_ring(content, true) == Some(joined(ls2)));
    }
}

/// The three lines of a new `focus-ring` block holding `on`: the first opens
/// the block `focus-ring`, the second reads `on`, the third closes.
proof fn lemma_ring_on_lines()
    ensures
        ring_lines("on"@) == "    focus-ring {"@ + text::nl() + "        on"@ + text::nl() + "    }"@,
        !kdl::is_skipped(text::trim("    focus-ring {"@)),
        kdl::opens(text::trim("    focus-ring {"@)),
        kdl::block_name(text::trim("    focus-ring {"@)) == "focus-ring"@,
        kdl::neutral_line("        on"@),
        text::trim("        on"@) == "on"@,
        !kdl::is_skipped(text::trim("    }"@)),
        !kdl::opens(text::trim("    }"@)),
        kdl::closes(text::trim("    }"@)),
{
    reveal_strlit("    focus-ring {");
    reveal_strlit("    focus-ring {\n        ");
    reveal_strlit("\n    }");
    reveal_strlit("        on");
    reveal_strlit("on");
    reveal_strlit("    }");
    reveal_strlit("focus-ring");
    reveal_strlit("\n");
    assert(ring_lines("on"@) =~= "    focus-ring {"@ + text::nl() + "        on"@ + text::nl() + "    }"@);
    // the opening line
    let a: Seq<char> = "    focus-ring {"@;
    let t: Seq<char> = a.skip(4);
    assert(a =~= a.take(4) + t);
    text::lemma_trim_start_after_ws(a.take(4), t);
    text::lemma_trim_plain(t);
    assert(text::trim(a) == t);
    assert(t.take(2) != seq!['/', '/']) by {
        assert(t.take(2)[0] == 'f');
    }
    let u: Seq<char> = t.drop_last();
    assert(text::trim_end_char(u, '{') == u);
    assert(text::trim_end_char(t, '{') == u);
    let n: Seq<char> = "focus-ring"@;
    assert(u.drop_last() =~= n);
    assert(text::trim_start(u) == u);
    assert(text::trim_end(n) == n);
    assert(text::trim_end(u) == n);
    assert(text::trim(u) == n);
    assert(text::trim_end_char(n, '"') == n);
    text::lemma_index_of_char(n, '=', n.len() as int);
    assert(text::before(n, '=') =~= n);
    text::lemma_trim_plain(n);
    assert(text::trim_start_char(n, '"') == n);
    assert(text::trim_char(n, '"') == n);
    // the line in the block
    let l: Seq<char> = "        on"@;
    let w: Seq<char> = "on"@;
    assert(l =~= l.take(8) + w);
    text::lemma_trim_start_after_ws(l.take(8), w);
    text::lemma_trim_plain(w);
    // the closing line
    let c: Seq<char> = "    }"@;
    assert(c =~= c.take(4) + seq!['}']);
    text::lemma_trim_start_after_ws(c.take(4), seq!['}']);
    text::lemma_trim_plain(seq!['}']);
    assert(text::trim(c) == seq!['}']);
}

/// The lines of a new `layout` block holding a `focus-ring` block that holds
/// `on`, as the finder sees them: the ring at the second to fourth line.
proof fn lemma_new_layout_ring()
    ensures
        kdl::wrapped(path2("layout"@, "focus-ring"@), seq!["on"@], 0) == text::join(
            seq!["layout {"@, "    focus-ring {"@, "        on"@, "    }"@, "}"@],
            text::nl(),
        ) + text::nl(),
        text::lines(kdl::wrapped(path2("layout"@, "focus-ring"@), seq!["on"@], 0)) == seq![
            "layout {"@,
            "    focus-ring {"@,
            "        on"@,
            "    }"@,
            "}"@,
        ],
        kdl::nested_block(
            seq!["layout {"@, "    focus-ring {"@, "        on"@, "    }"@, "}"@],
            path2("layout"@, "focus-ring"@),
        ) == Some((1int, 3int)),
{
    reveal_strlit("layout {");
    reveal_strlit("    focus-ring {");
    reveal_strlit("        on");
    reveal_strlit("    }");
    reveal_strlit("}");
    reveal_strlit("layout");
    reveal_strlit("focus-ring");
    reveal_strlit("on");
    reveal_strlit("\n");
    reveal_strlit("    ");
    reveal_strlit("        ");
    let path = path2("layout"@, "focus-ring"@);
    let body = seq!["on"@];
    let five = seq!["layout {"@, "    focus-ring {"@, "        on"@, "    }"@, "}"@];
    let nl = text::nl();
    // the text of the new blocks
    assert(kdl::indent(0) =~= seq![]);
    assert(kdl::indent(1) =~= "    "@);
    assert(kdl::indent(2) =~= "        "@);
    assert(body.drop_last() =~= seq![]);
    assert(kdl::body_text(body.drop_last(), 2) =~= seq![]);
    assert(kdl::body_text(body, 2) =~= "        on"@ + nl);
    assert(kdl::wrapped(path, body, 2) == kdl::body_text(body, 2));
    assert(kdl::wrapped(path, body, 1) =~= "    focus-ring {"@ + nl + "        on"@ + nl + "    }"@ + nl);
    assert(kdl::wrapped(path, body, 0) =~= "layout {"@ + nl + "    focus-ring {"@ + nl + "        on"@ + nl + "    }"@
        + nl + "}"@ + nl);
    assert(five.drop_last().drop_last().drop_last().drop_last() =~= seq!["layout {"@]);
    assert(five.drop_last().drop_last().drop_last() =~= seq!["layout {"@, "    focus-ring {"@]);
    assert(five.drop_last().drop_last() =~= seq!["layout {"@, "    focus-ring {"@, "        on"@]);
    assert(five.drop_last() =~= seq!["layout {"@, "    focus-ring {"@, "        on"@, "    }"@]);
    let f1 = five.drop_last().drop_last().drop_last().drop_last();
    let f2 = five.drop_last().drop_last().drop_last();
    let f3 = five.drop_last().drop_last();
    let f4 = five.drop_last();
    assert(text::join(f1, nl) == "layout {"@);
    assert(text::join(f2, nl) == "layout {"@ + nl + "    focus-ring {"@);
    assert(text::join(f3, nl) == "layout {"@ + nl + "    focus-ring {"@ + nl + "        on"@);
    assert(text::join(f4, nl) == "layout {"@ + nl + "    focus-ring {"@ + nl + "        on"@ + nl + "    }"@);
    assert(text::join(five, nl) =~= "layout {"@ + nl + "    focus-ring {"@ + nl + "        on"@ + nl + "    }"@ + nl
        + "}"@);
    // its lines
    assert forall|a: int, b: int| 0 <= a < five.len() && 0 <= b < five[a].len() implies #[trigger] five[a][b]
        != '\n' by {}
    text::lemma_lines_of_joined(five);
    assert(five.map_values(|l: Seq<char>| text::strip_cr(l)) =~= five);
    // the blocks found
    let o: Seq<char> = "layout {"@;
    let two = seq![o, "}"@];
    let layout = path1("layout"@);
    lemma_ring_on_lines();
    let n: Seq<char> = "layout"@;
    text::lemma_trim_plain(o);
    assert(o.take(2) != seq!['/', '/']) by {
        assert(o.take(2)[0] == 'l');
    }
    let u: Seq<char> = o.drop_last();
    assert(text::trim_end_char(u, '{') == u);
    assert(text::trim_end_char(o, '{') == u);
    assert(u.drop_last() =~= n);
    assert(text::trim_start(u) == u);
    assert(text::trim_end(n) == n);
    assert(text::trim_end(u) == n);
    assert(text::trim(u) == n);
    assert(text::trim_end_char(n, '"') == n);
    text::lemma_index_of_char(n, '=', n.len() as int);
    assert(text::before(n, '=') =~= n);
    text::lemma_trim_plain(n);
    assert(text::trim_start_char(n, '"') == n);
    assert(kdl::block_name(text::trim(o)) == n);
    text::lemma_trim_plain("}"@);
    let e: Seq<int> = seq![];
    let en: Seq<Seq<char>> = seq![];
    assert(seq![0int].drop_last() =~= e);
    assert(seq![n].drop_last() =~= en);
    assert(e.push(0int) =~= seq![0int]);
    assert(en.push(n) =~= seq![n]);
    assert(text::trim(two[1]) == "}"@);
    assert(kdl::nested_from(two, layout, 1, seq![0int], seq![n]) == Some((0int, 1int)));
    assert(kdl::nested_block(two, layout) == Some((0int, 1int)));
    assert(layout.push("focus-ring"@) =~= path);
    assert(kdl::nested_from(two, path, 2, e, en) is None);
    assert(kdl::nested_from(two, path, 1, seq![0int], seq![n]) is None);
    assert(kdl::nested_block(two, path) is None);
    kdl::lemma_nested_child_added(two, layout, "focus-ring"@, "    focus-ring {"@, "        on"@, "    }"@);
    assert(two.take(1) + seq!["    focus-ring {"@, "        on"@, "    }"@] + two.skip(1) =~= five);
}

/// The focus ring reads back on where it is created with its `layout` block:
/// for a text that leaves no block open and has no `layout` block, after
/// `set_focus_ring(content, true)` `get_focus_ring` gives `true`.
pub proof fn law_focus_ring_on_created_with_layout(content: Seq<char>)
    requires
        kdl::nested_block(text::lines(content), path1("layout"@)) is None,
        kdl::nested_block(text::lines(content), path2("layout"@, "focus-ring"@)) is None,
        kdl::nest_state(text::lines(content), text::lines(content).len() as int).1.len() == 0,
    ensures
        spec_set_focus_ring(content, true) is Some,
        spec_focus_ring(spec_set_focus_ring(content, true).unwrap()),
{
    let ls = text::lines(content);
    let path = path2("layout"@, "focus-ring"@);
    let body = seq!["on"@];
    let five = seq!["layout {"@, "    focus-ring {"@, "        on"@, "    }"@, "}"@];
    assert(path.take(1) =~= path1("layout"@));
    assert(kdl::existing_depth_from(ls, path, 0) == 0);
    let inner = kdl::wrapped(path, body, 0);
    lemma_new_layout_ring();
    let s: Seq<char> = if content.len() > 0 && content.last() != '\n' {
        content.push('\n')
    } else {
        content
    };
    assert(kdl::spec_create_block(content, path, body) == s + inner);
    assert(spec_set_focus_ring(content, true) == Some(s + inner));
    text::lemma_lines_append(s, inner);
    let l1 = text::lines(s);
    if content.len() > 0 && content.last() != '\n' {
        text::lemma_lines_push_nl(content);
    }
    assert(l1.len() == ls.len());
    assert forall|k: int| 0 <= k < ls.len() implies text::trim(#[trigger] l1[k]) == text::trim(ls[k]) by {
        if content.len() > 0 && content.last() != '\n' && k == ls.len() - 1 {
            text::lemma_trim_strip_cr(ls[k]);
        }
    }
    kdl::lemma_nest_trims(l1, ls, ls.len() as int);
    if kdl::nested_block(l1, path) is Some {
        kdl::lemma_nested_bounds(l1, path);
        kdl::lemma_nested_trims(l1, ls, path);
    }
    kdl::lemma_nested_appended(l1, five, path);
    let l3 = text::lines(s + inner);
    assert(l3 == l1 + five);
    let n0 = l1.len() as int;
    assert(kdl::nested_block(l3, path) == Some((n0 + 1, n0 + 3)));
    lemma_ring_on_lines();
    assert(l3[n0 + 2] == "        on"@);
    lemma_switch_on_after_blanks(l3, n0 + 2, n0 + 3, n0 + 2);
}

/// The focus ring reads back on where it is created: for a text with a
/// `layout` block and no `layout > focus-ring` block, after
/// `set_focus_ring(content, true)` `get_focus_ring` gives `true`.
pub proof fn law_focus_ring_on_created(content: Seq<char>)
    requires
        kdl::nested_block(text::lines(content), path1("layout"@)) is Some,
        kdl::nested_block(text::lines(content), path2("layout"@, "focus-ring"@)) is None,
    ensures
        spec_set_focus_ring(content, true) is Some,
        spec_focus_ring(spec_set_focus_ring(content, true).unwrap()),
{
    let ls = text::lines(content);
    let parent = path1("layout"@);
    let path = path2("layout"@, "focus-ring"@);
    assert(path =~= parent.push("focus-ring"@));
    let a: Seq<char> = "    focus-ring {"@;
    let b: Seq<char> = "        on"@;
    let c: Seq<char> = "    }"@;
    lemma_ring_on_lines();
    kdl::lemma_nested_bounds(ls, parent);
    let pe = kdl::nested_block(ls, parent).unwrap().1;
    kdl::lemma_nested_child_added(ls, parent, "focus-ring"@, a, b, c);
    let l2 = ls.take(pe) + seq![a, b, c] + ls.skip(pe);
    assert(kdl::nested_block(l2, path) == Some((pe, pe + 2)));
    // the text written is the lines of `l2` joined
    let x = ls.take(pe);
    let y = ls.skip(pe);
    let r = ring_lines("on"@);
    let nl = text::nl();
    assert(ls.insert(pe, r) =~= x + seq![r] + y);
    text::lemma_join_concat(x + seq![r], y, nl);
    text::lemma_join_concat(x, seq![r], nl);
    assert(text::join(seq![r], nl) == r);
    assert(l2 =~= (x + seq![a, b, c]) + y);
    text::lemma_join_concat(x + seq![a, b, c], y, nl);
    text::lemma_join_concat(x, seq![a, b, c], nl);
    assert(seq![a, b, c] =~= seq![a, b] + seq![c]);
    text::lemma_join_concat(seq![a, b], seq![c], nl);
    assert(seq![a, b] =~= seq![a] + seq![b]);
    text::lemma_join_concat(seq![a], seq![b], nl);
    assert(text::join(seq![a, b, c], nl) == r);
    assert(joined(ls.insert(pe, r)) == joined(l2));
    assert(spec_set_focus_ring(content, true) == Some(joined(l2)));
    // its lines
    reveal_strlit("    focus-ring {");
    reveal_strlit("        on");
    reveal_strlit("    }");
    text::lemma_lines_no_nl(content);
    assert forall|i: int, j: int| 0 <= i < l2.len() && 0 <= j < l2[i].len() implies #[trigger] l2[i][j] != '\n' by {
        if i < pe {
            assert(l2[i] == ls[i]);
        } else if i >= pe + 3 {
            assert(l2[i] == ls[i - 3]);
        }
    }
    text::lemma_lines_of_join(l2);
    let ls3 = text::lines(joined(l2));
    assert forall|k: int| 0 <= k <= pe + 2 implies text::trim(#[trigger] l2[k]) == text::trim(ls3[k]) by {
        text::lemma_trim_strip_cr(l2[k]);
    }
    kdl::lemma_nested_trims(l2, ls3, path);
    assert(text::trim(l2[pe + 1]) == text::trim(ls3[pe + 1]));
    lemma_switch_on_after_blanks(ls3, pe + 1, pe + 2, pe + 1);
}

// ---------------------------------------------------------------- exec

fn lines_bounded(content: &str) -> (r: Vec<Vec<char>>)
    ensures
        text::views(r@) == text::lines(content@),
        text::total_len(text::views(r@)) <= usize::MAX,
{
    let v = text::chars_of(content);
    proof {
        text::lemma_lines_total_len(v@);
    }
    let r = text::split_lines(&v);
    assert(text::views(r@) == text::lines(v@));
    assert(v@.len() == v.len());
    r
}

fn find_trim_in(ls: &Vec<Vec<char>>, a: usize, b: usize, w: &Vec<char>) -> (r: Option<usize>)
    requires
        b <= ls.len(),
    ensures
        match r {
            Some(j) => find_trim(text::views(ls@), a as int, b as int, w@) == Some(j as int) && a <= j < b,
            None => find_trim(text::views(ls@), a as int, b as int, w@) is None,
        },
{
    let ghost lv = text::views(ls@);
    let mut j: usize = a;
    while j < b
        invariant
            a <= j,
            b <= ls.len(),
            lv == text::views(ls@),
            find_trim(lv, a as int, b as int, w@) == find_trim(lv, j as int, b as int, w@),
        decreases b - j,
    {
        let t = text::trimmed(&ls[j]);
        assert(t@ == text::trim(lv[j as int]));
        if text::same(&t, w) {
            return Some(j);
        }
        j += 1;
    }
    None
}

fn switch_of(ls: &Vec<Vec<char>>, a: usize, b: usize) -> (r: Option<bool>)
    requires
        b <= ls.len(),
    ensures
        r == switch_in(text::views(ls@), a as int, b as int),
{
    let ghost lv = text::views(ls@);
    let off = text::lit("off");
    let on = text::lit("on");
    let mut j: usize = a;
    while j < b
        invariant
            b <= ls.len(),
            lv == text::views(ls@),
            off@ == "off"@,
            on@ == "on"@,
            switch_in(lv, a as int, b as int) == switch_in(lv, j as int, b as int),
        decreases b - j,
    {
        let t = text::trimmed(&ls[j]);
        assert(t@ == text::trim(lv[j as int]));
        if text::same(&t, &off) {
            return Some(false);
        }
        if text::same(&t, &on) {
            return Some(true);
        }
        j += 1;
    }
    None
}

fn first_nonblank_in(ls: &Vec<Vec<char>>, a: usize, b: usize) -> (r: usize)
    requires
        a <= b <= ls.len(),
    ensures
        r == first_nonblank(text::views(ls@), a as int, b as int),
        a <= r <= b,
{
    let ghost lv = text::views(ls@);
    let mut j: usize = a;
    while j < b
        invariant
            a <= j <= b <= ls.len(),
            lv == text::views(ls@),
            first_nonblank(lv, a as int, b as int) == first_nonblank(lv, j as int, b as int),
        decreases b - j,
    {
        let t = text::trimmed(&ls[j]);
        assert(t@ == text::trim(lv[j as int]));
        if t.len() > 0 {
            return j;
        }
        j += 1;
    }
    b
}

fn kept_in(ls: &Vec<Vec<char>>, a: usize, b: usize) -> (r: Vec<Vec<char>>)
    requires
        a <= b <= ls.len(),
    ensures
        text::views(r@) == kept(text::views(ls@), a as int, b as int),
{
    let ghost lv = text::views(ls@);
    let off = text::lit("off");
    let mut out: Vec<Vec<char>> = Vec::new();
    let mut j: usize = a;
    assert(text::views(out@) =~= kept(lv, a as int, a as int));
    while j < b
        invariant
            a <= j <= b <= ls.len(),
            lv == text::views(ls@),
            off@ == "off"@,
            text::views(out@) == kept(lv, a as int, j as int),
        decreases b - j,
    {
        let t = text::trimmed(&ls[j]);
        assert(t@ == text::trim(lv[j as int]));
        if t.len() > 0 && !text::same(&t, &off) {
            let ghost o0 = text::views(out@);
            let l = ls[j].clone();
            assert(l@ == lv[j as int]);
            out.push(l);
            assert(text::views(out@) =~= o0.push(lv[j as int]));
        }
        j += 1;
    }
    out
}

/// The lines without those of `[s, e]`.
fn without_lines(ls: &Vec<Vec<char>>, s: usize, e: usize) -> (r: Vec<Vec<char>>)
    requires
        s <= e < ls.len(),
    ensures
        text::views(r@) == without(text::views(ls@), s as int, e as int),
{
    let mut out: Vec<Vec<char>> = Vec::new();
    kdl::push_lines(&mut out, ls, 0, s);
    kdl::push_lines(&mut out, ls, e + 1, ls.len());
    let ghost lv = text::views(ls@);
    assert(text::views(out@) =~= without(lv, s as int, e as int)) by {
        assert(lv.subrange(0, s as int) =~= lv.take(s as int));
        assert(lv.subrange(e + 1, ls.len() as int) =~= lv.skip(e + 1));
        assert(Seq::<Seq<char>>::empty() + lv.subrange(0, s as int) =~= lv.subrange(0, s as int));
    }
    out
}

fn one(a: &str) -> (r: Vec<Vec<char>>)
    ensures
        text::views(r@) == path1(a@),
{
    let v = vec![text::lit(a)];
    assert(text::views(v@) =~= path1(a@));
    v
}

fn two(a: &str, b: &str) -> (r: Vec<Vec<char>>)
    ensures
        text::views(r@) == path2(a@, b@),
{
    let v = vec![text::lit(a), text::lit(b)];
    assert(text::views(v@) =~= path2(a@, b@));
    v
}

fn string_opt(o: Option<Vec<Vec<char>>>) -> (r: Option<String>)
    ensures
        written(r) == match o {
            Some(ls) => Some(joined(text::views(ls@))),
            None => None,
        },
{
    match o {
        Some(ls) => Some(text::join_lines(&ls)),
        None => None,
    }
}

/// The compositor's settings in `config.kdl`.
pub struct NiriConfig;

impl NiriConfig {
    /// Sets `input > keyboard > xkb > layout "L"`, creating the blocks.
    pub fn set_keyboard_layout(content: &str, layout: &str) -> (r: String)
        ensures
            r@ == spec_set_keyboard_layout(content@, layout@),
    {
        let ls = text::lines_of(content);
        let path = vec![text::lit("input"), text::lit("keyboard"), text::lit("xkb")];
        assert(text::views(path@) =~= seq!["input"@, "keyboard"@, "xkb"@]);
        let key = text::lit("layout");
        let mut q: Vec<char> = Vec::new();
        q.push('"');
        let lv = text::chars_of(layout);
        text::append(&mut q, &lv);
        q.push('"');
        assert(q@ =~= quoted(layout@));
        match kdl::set_in_block(ls, &path, &key, &q) {
            Some(out) => text::join_lines(&out),
            None => {
                let mut line = text::lit("layout ");
                text::append(&mut line, &q);
                let body = vec![line];
                assert(text::views(body@) =~= seq!["layout "@ + quoted(layout@)]);
                let c = text::chars_of(content);
                let out = kdl::create_in(&c, &path, &body);
                text::string_of(&out)
            },
        }
    }

    /// Whether animations are on.
    pub fn get_animations(content: &str) -> (r: bool)
        ensures
            r == spec_animations(content@),
    {
        let ls = lines_bounded(content);
        let name = text::lit("animations");
        match kdl::find_block(&ls, &name) {
            None => true,
            Some((s, e)) => match switch_of(&ls, s + 1, e) {
                Some(b) => b,
                None => true,
            },
        }
    }

    /// Sets the animations on or off (see `spec_set_animations`).
    pub fn set_animations(content: &str, on: bool) -> (r: Option<String>)
        ensures
            written(r) == spec_set_animations(content@, on),
    {
        let ls = lines_bounded(content);
        let ghost lv = text::views(ls@);
        let name = text::lit("animations");
        match kdl::find_block(&ls, &name) {
            None => {
                if on {
                    None
                } else {
                    let mut c = text::chars_of(content);
                    if !(c.len() > 0 && c[c.len() - 1] == '\n') {
                        c.push('\n');
                    }
                    assert(c@ == ended(content@));
                    let tail = text::lit("animations {\n    off\n}\n");
                    text::append(&mut c, &tail);
                    Some(text::string_of(&c))
                }
            },
            Some((s, e)) => {
                if !on {
                    let off = text::lit("off");
                    if find_trim_in(&ls, s + 1, e, &off).is_some() {
                        None
                    } else {
                        let k = first_nonblank_in(&ls, s + 1, e);
                        let mut l2 = ls;
                        let line = text::lit("    off");
                        let ghost ln = line@;
                        l2.insert(k, line);
                        assert(text::views(l2@) =~= lv.insert(k as int, ln));
                        Some(text::join_lines(&l2))
                    }
                } else {
                    let kp = kept_in(&ls, s + 1, e);
                    if kp.len() == 0 {
                        let mut out = kdl::prefix(&ls, s);
                        kdl::push_lines(&mut out, &ls, e, ls.len());
                        assert(text::views(out@) =~= lv.take(s as int) + lv.skip(e as int)) by {
                            assert(lv.subrange(e as int, ls.len() as int) =~= lv.skip(e as int));
                        }
                        Some(text::join_lines(&out))
                    } else {
                        let mut out = kdl::prefix(&ls, s + 1);
                        kdl::push_lines(&mut out, &kp, 0, kp.len());
                        kdl::push_lines(&mut out, &ls, e, ls.len());
                        assert(text::views(out@) =~= lv.take(s + 1) + text::views(kp@) + lv.skip(e as int)) by {
                            assert(text::views(kp@).subrange(0, kp.len() as int) =~= text::views(kp@));
                            assert(lv.subrange(e as int, ls.len() as int) =~= lv.skip(e as int));
                        }
                        Some(text::join_lines(&out))
                    }
                }
            },
        }
    }

    /// Whether the line `prefer-no-csd` is there.
    pub fn get_prefer_no_csd(content: &str) -> (r: bool)
        ensures
            r == spec_prefer_no_csd(content@),
    {
        let ls = text::lines_of(content);
        let w = text::lit("prefer-no-csd");
        find_trim_in(&ls, 0, ls.len(), &w).is_some()
    }

    /// Adds (`on`) or removes the line `prefer-no-csd`.
    pub fn set_prefer_no_csd(content: &str, on: bool) -> (r: Option<String>)
        ensures
            written(r) == spec_set_prefer_no_csd(content@, on),
    {
        let c = text::chars_of(content);
        let mut ls = text::split_lines(&c);
        let ghost lv = text::views(ls@);
        let w = text::lit("prefer-no-csd");
        match find_trim_in(&ls, 0, ls.len(), &w) {
            Some(i) => {
                if on {
                    None
                } else {
                    ls.remove(i);
                    assert(text::views(ls@) =~= lv.remove(i as int));
                    Some(text::join_lines(&ls))
                }
            },
            None => {
                if on {
                    if !(c.len() > 0 && c[c.len() - 1] == '\n') && ls.len() > 0 {
                        let n = ls.len() - 1;
                        let mut last = ls[n].clone();
                        last.push('\n');
                        let ghost ln = last@;
                        assert(ln == lv.last().push('\n'));
                        ls.set(n, last);
                        assert(text::views(ls@) =~= lv.update(n as int, ln));
                    }
                    let ghost l2 = text::views(ls@);
                    ls.push(w);
                    assert(text::views(ls@) =~= l2.push("prefer-no-csd"@));
                    Some(text::join_lines(&ls))
                } else {
                    None
                }
            },
        }
    }

    /// `layout > gaps`, 16 by default.
    pub fn get_gaps(content: &str) -> (r: i64)
        ensures
            r == spec_gaps(content@),
    {
        let ls = text::lines_of(content);
        let path = one("layout");
        let key = text::lit("gaps");
        match kdl::extract_value(&ls, &path, &key) {
            Some(v) => match num::parse_i64(&v) {
                Some(n) => n,
                None => 16,
            },
            None => 16,
        }
    }

    /// Sets `layout > gaps`.
    pub fn set_gaps(content: &str, gaps: i64) -> (r: String)
        ensures
            r@ == spec_set_gaps(content@, gaps as int),
    {
        let ls = text::lines_of(content);
        let path = one("layout");
        let key = text::lit("gaps");
        let v = num::i64_to_chars(gaps);
        match kdl::set_in_block(ls, &path, &key, &v) {
            Some(out) => text::join_lines(&out),
            None => {
                let mut line = text::lit("gaps ");
                text::append(&mut line, &v);
                let body = vec![line];
                assert(text::views(body@) =~= seq!["gaps "@ + num::dec(gaps as int)]);
                let c = text::chars_of(content);
                let out = kdl::create_in(&c, &path, &body);
                text::string_of(&out)
            },
        }
    }

    /// Sets `layout > border` (see `spec_set_border`).
    pub fn set_border(content: &str, on: bool, width: i64, active_color: &str, inactive_color: &str) -> (r: Option<String>)
        ensures
            written(r) == spec_set_border(content@, on, width as int, active_color@, inactive_color@),
    {
        let c = text::chars_of(content);
        let ls = text::split_lines(&c);
        let ghost lv = text::views(ls@);
        let path = two("layout", "border");
        let wv = num::i64_to_chars(width);
        let qa = quote(active_color);
        let qi = quote(inactive_color);
        match kdl::find_nested_block(&ls, &path) {
            Some((s, e)) => {
                if !on {
                    let out = without_lines(&ls, s, e);
                    Some(text::join_lines(&out))
                } else {
                    let mut ind = text::blanks_of(&ls[s]);
                    let sp = kdl::indent_of(1);
                    text::append(&mut ind, &sp);
                    let ghost indv = ind@;
                    assert(indv == text::leading_blanks(lv[s as int]) + kdl::spaces(4));
                    let (l1, e1) = replace_key_in(ls, s, e, &text::lit("width"), &wv, &ind);
                    let (l2, e2) = replace_key_in(l1, s, e1, &text::lit("active-color"), &qa, &ind);
                    let (l3, _e3) = replace_key_in(l2, s, e2, &text::lit("inactive-color"), &qi, &ind);
                    Some(text::join_lines(&l3))
                }
            },
            None => {
                if !on {
                    None
                } else {
                    let b0 = prefixed("width ", &wv);
                    let b1 = prefixed("active-color ", &qa);
                    let b2 = prefixed("inactive-color ", &qi);
                    let parent = one("layout");
                    match kdl::find_nested_block(&ls, &parent) {
                        Some((_s, pe)) => {
                            let mut block = text::lit("    border {\n");
                            let eight = text::lit("        ");
                            text::append(&mut block, &eight);
                            text::append(&mut block, &b0);
                            block.push('\n');
                            text::append(&mut block, &eight);
                            text::append(&mut block, &b1);
                            block.push('\n');
                            text::append(&mut block, &eight);
                            text::append(&mut block, &b2);
                            block.push('\n');
                            let close = text::lit("    }");
                            text::append(&mut block, &close);
                            let ghost bl = block@;
                            assert(bl =~= border_lines(width as int, active_color@, inactive_color@));
                            let mut l2 = ls;
                            l2.insert(pe, block);
                            assert(text::views(l2@) =~= lv.insert(pe as int, bl));
                            Some(text::join_lines(&l2))
                        },
                        None => {
                            let body = vec![b0, b1, b2];
                            assert(text::views(body@) =~= border_body(width as int, active_color@, inactive_color@));
                            let out = kdl::create_in(&c, &path, &body);
                            Some(text::string_of(&out))
                        },
                    }
                }
            },
        }
    }

    /// Whether `layout > focus-ring` is on.
    pub fn get_focus_ring(content: &str) -> (r: bool)
        ensures
            r == spec_focus_ring(content@),
    {
        let ls = text::lines_of(content);
        let path = two("layout", "focus-ring");
        match kdl::find_nested_block(&ls, &path) {
            None => false,
            Some((s, e)) => match switch_of(&ls, s + 1, e) {
                Some(b) => b,
                None => true,
            },
        }
    }

    /// Sets `layout > focus-ring` (see `spec_set_focus_ring`).
    pub fn set_focus_ring(content: &str, on: bool) -> (r: Option<String>)
        ensures
            written(r) == spec_set_focus_ring(content@, on),
    {
        let c = text::chars_of(content);
        let ls = text::split_lines(&c);
        let ghost lv = text::views(ls@);
        let path = two("layout", "focus-ring");
        match kdl::find_nested_block(&ls, &path) {
            Some((s, e)) => {
                if !on {
                    let out = without_lines(&ls, s, e);
                    Some(text::join_lines(&out))
                } else {
                    let w = text::lit("on");
                    if find_trim_in(&ls, s + 1, e, &w).is_some() {
                        None
                    } else {
                        let k = first_nonblank_in(&ls, s + 1, e);
                        let line = text::lit("        on");
                        let ghost ln = line@;
                        let mut l2 = ls;
                        l2.insert(k, line);
                        assert(text::views(l2@) =~= lv.insert(k as int, ln));
                        Some(text::join_lines(&l2))
                    }
                }
            },
            None => {
                if !on {
                    Some(new_ring_in(&c, ls, &text::lit("off")))
                } else {
                    Some(new_ring_in(&c, ls, &text::lit("on")))
                }
            },
        }
    }

    /// Whether a `blur` block exists.
    pub fn get_blur_enabled(content: &str) -> (r: bool)
        ensures
            r == spec_blur_enabled(content@),
    {
        let ls = text::lines_of(content);
        let path = one("blur");
        kdl::find_nested_block(&ls, &path).is_some()
    }

    /// Removes the `blur` block, or creates it with the defaults.
    pub fn set_blur_enabled(content: &str, on: bool) -> (r: Option<String>)
        ensures
            written(r) == spec_set_blur_enabled(content@, on),
    {
        let c = text::chars_of(content);
        let r = blur_enabled_in(&c, on);
        match r {
            Some(v) => Some(text::string_of(&v)),
            None => None,
        }
    }

    /// `animations > name > duration`, `default` when absent.
    pub fn get_animation_duration(content: &str, name: &str, default: i64) -> (r: i64)
        ensures
            r == spec_animation_duration(content@, name@, default as int),
    {
        let ls = text::lines_of(content);
        let path = two("animations", name);
        let key = text::lit("duration");
        match kdl::extract_value(&ls, &path, &key) {
            Some(v) => match num::parse_i64(&v) {
                Some(n) => n,
                None => default,
            },
            None => default,
        }
    }
}

fn quote(s: &str) -> (r: Vec<char>)
    ensures
        r@ == quoted(s@),
{
    let mut q: Vec<char> = Vec::new();
    q.push('"');
    let v = text::chars_of(s);
    text::append(&mut q, &v);
    q.push('"');
    assert(q@ =~= quoted(s@));
    q
}

fn prefixed(p: &str, v: &Vec<char>) -> (r: Vec<char>)
    ensures
        r@ == p@ + v@,
{
    let mut r = text::lit(p);
    text::append(&mut r, v);
    r
}

fn replace_key_in(input: Vec<Vec<char>>, s: usize, e: usize, key: &Vec<char>, value: &Vec<char>, ind: &Vec<char>) -> (r: (Vec<Vec<char>>, usize))
    requires
        s < e < input.len(),
    ensures
        text::views(r.0@) == replace_key(text::views(input@), s as int, e as int, key@, value@, ind@),
        r.1 == end_after(text::views(input@), s as int, e as int, key@),
        r.0.len() == input.len() + (r.1 - e),
        e <= r.1 <= e + 1,
{
    let ghost lv = text::views(input@);
    let mut ls = input;
    let mut line = ind.clone();
    text::append(&mut line, key);
    line.push(' ');
    text::append(&mut line, value);
    let ghost ln = line@;
    assert(ln =~= kdl::kv_line(ind@, key@, value@));
    let mut j: usize = s + 1;
    while j < e
        invariant
            s < j <= e < ls.len(),
            text::views(ls@) == lv,
            lv == text::views(input@),
            ls.len() == input.len(),
            line@ == ln,
            ln == kdl::kv_line(ind@, key@, value@),
            crate::services::ini::spec_find_key(lv, key@, s + 1, e as int) == crate::services::ini::spec_find_key(lv, key@, j as int, e as int),
        decreases e - j,
    {
        if crate::services::ini::key_matches(&ls[j], key) {
            assert(lv[j as int] == ls@[j as int]@);
            assert(crate::services::ini::spec_find_key(lv, key@, j as int, e as int) == Some(j as int));
            ls.set(j, line);
            assert(text::views(ls@) =~= lv.update(j as int, ln));
            return (ls, e);
        }
        j += 1;
    }
    ls.insert(e, line);
    assert(text::views(ls@) =~= lv.insert(e as int, ln));
    (ls, e + 1)
}

fn new_ring_in(c: &Vec<char>, ls: Vec<Vec<char>>, word: &Vec<char>) -> (r: String)
    requires
        text::views(ls@) == text::lines(c@),
    ensures
        r@ == new_ring(c@, word@),
{
    let ghost lv = text::views(ls@);
    let parent = one("layout");
    match kdl::find_nested_block(&ls, &parent) {
        Some((_s, pe)) => {
            let mut block = text::lit("    focus-ring {\n        ");
            text::append(&mut block, word);
            let close = text::lit("\n    }");
            text::append(&mut block, &close);
            let ghost bl = block@;
            assert(bl =~= ring_lines(word@));
            let mut l2 = ls;
            l2.insert(pe, block);
            assert(text::views(l2@) =~= lv.insert(pe as int, bl));
            text::join_lines(&l2)
        },
        None => {
            let path = two("layout", "focus-ring");
            let body = vec![word.clone()];
            assert(text::views(body@) =~= seq![word@]);
            let out = kdl::create_in(c, &path, &body);
            text::string_of(&out)
        },
    }
}

fn blur_enabled_in(c: &Vec<char>, on: bool) -> (r: Option<Vec<char>>)
    ensures
        match r {
            Some(v) => spec_set_blur_enabled(c@, on) == Some(v@),
            None => spec_set_blur_enabled(c@, on) is None,
        },
{
    let ls = text::split_lines(c);
    let path = one("blur");
    match kdl::find_nested_block(&ls, &path) {
        Some((s, e)) => {
            if !on {
                let out = without_lines(&ls, s, e);
                let mut sep: Vec<char> = Vec::new();
                sep.push('\n');
                assert(sep@ =~= text::nl());
                Some(text::join_with(&out, &sep))
            } else {
                Some(c.clone())
            }
        },
        None => {
            if !on {
                None
            } else {
                let body = vec![text::lit("passes 3"), text::lit("offset 3.0"), text::lit("noise 0.0"), text::lit("saturation 1.3")];
                assert(text::views(body@) =~= blur_defaults());
                Some(kdl::create_in(c, &path, &body))
            }
        },
    }
}

fn glass_bounds_of(c: &Vec<char>) -> (r: Option<(usize, usize)>)
    ensures
        match r {
            Some((s, e)) => glass_bounds(c@) == Some((s as int, e as int)) && s <= e <= c.len(),
            None => glass_bounds(c@) is None,
        },
{
    let sm = text::lit("\n// [CHURROS-GLASS-START]\n");
    let em = text::lit("\n// [CHURROS-GLASS-END]");
    match text::search(c, &sm) {
        None => None,
        Some(i) => {
            proof {
                text::lemma_find_from_occurs(c@, sm@, 0);
                assert(text::occurs_at(c@, sm@, i as int));
                assert(i + sm@.len() <= c@.len());
            }
            assert(i + sm.len() <= c.len());
            let start = i + sm.len();
            let rest = text::slice(c, start, c.len());
            assert(rest@ =~= c@.skip(start as int));
            match text::search(&rest, &em) {
                None => None,
                Some(j) => {
                    proof {
                        text::lemma_find_from_occurs(rest@, em@, 0);
                        assert(text::occurs_at(rest@, em@, j as int));
                    }
                    Some((start, start + j))
                },
            }
        },
    }
}

fn replace_first_of(l: &Vec<char>, from: &Vec<char>, to: &Vec<char>) -> (r: Vec<char>)
    ensures
        r@ == replace_first(l@, from@, to@),
{
    match text::search(l, from) {
        Some(i) => {
            proof {
                text::lemma_find_from_occurs(l@, from@, 0);
                assert(text::occurs_at(l@, from@, i as int));
                assert(i + from@.len() <= l@.len());
            }
            assert(i + from.len() <= l.len());
            let mut r = text::slice(l, 0, i);
            text::append(&mut r, to);
            let tail = text::slice(l, i + from.len(), l.len());
            text::append(&mut r, &tail);
            assert(r@ =~= replace_first(l@, from@, to@));
            r
        },
        None => l.clone(),
    }
}

fn glass_line_of(l: &Vec<char>, enabled: bool) -> (r: Vec<char>)
    ensures
        r@ == glass_line(l@, enabled),
{
    let t = text::trimmed(l);
    let bt = text::lit("blur true");
    let bf = text::lit("blur false");
    if !enabled && text::same(&t, &bt) {
        replace_first_of(l, &bt, &bf)
    } else if enabled && text::same(&t, &bf) {
        replace_first_of(l, &bf, &bt)
    } else {
        l.clone()
    }
}

fn set_glass_in(c: &Vec<char>, enabled: bool) -> (r: Option<Vec<char>>)
    ensures
        match r {
            Some(v) => spec_set_glass_blur(c@, enabled) == Some(v@),
            None => spec_set_glass_blur(c@, enabled) is None,
        },
{
    let (s, e) = match glass_bounds_of(c) {
        Some(b) => b,
        None => {
            return None;
        },
    };
    let region = text::slice(c, s, e);
    let ls = text::split_lines(&region);
    let ghost lv = text::views(ls@);
    let mut nl: Vec<Vec<char>> = Vec::new();
    let mut i: usize = 0;
    while i < ls.len()
        invariant
            i <= ls.len(),
            lv == text::views(ls@),
            text::views(nl@) == glass_lines(lv.take(i as int), enabled),
        decreases ls.len() - i,
    {
        let g = glass_line_of(&ls[i], enabled);
        let ghost n0 = text::views(nl@);
        nl.push(g);
        assert(text::views(nl@) =~= n0.push(glass_line(lv[i as int], enabled)));
        i += 1;
        assert(glass_lines(lv.take(i as int), enabled) =~= glass_lines(lv.take(i - 1), enabled).push(glass_line(lv[i - 1], enabled)));
    }
    assert(lv.take(i as int) =~= lv);
    let mut sep: Vec<char> = Vec::new();
    sep.push('\n');
    assert(sep@ =~= text::nl());
    let mut nr = text::join_with(&nl, &sep);
    if region.len() > 0 && region[region.len() - 1] == '\n' {
        nr.push('\n');
    }
    let mut out = text::slice(c, 0, s);
    text::append(&mut out, &nr);
    let tail = text::slice(c, e, c.len());
    text::append(&mut out, &tail);
    assert(out@ =~= c@.take(s as int) + nr@ + c@.skip(e as int));
    Some(out)
}

impl NiriConfig {
    /// Whether the window rules' blur between the ChurrOS markers is on
    /// (`None` without the markers).
    pub fn get_glass_blur(content: &str) -> (r: Option<bool>)
        ensures
            r == spec_glass_blur(content@),
    {
        let c = text::chars_of(content);
        let (s, e) = match glass_bounds_of(&c) {
            Some(b) => b,
            None => {
                return None;
            },
        };
        let region = text::slice(&c, s, e);
        let ls = text::split_lines(&region);
        let ghost lv = text::views(ls@);
        assert(c@ == content@);
        let bt = text::lit("blur true");
        let bf = text::lit("blur false");
        let mut i: usize = 0;
        while i < ls.len()
            invariant
                i <= ls.len(),
                lv == text::views(ls@),
                bt@ == "blur true"@,
                bf@ == "blur false"@,
                glass_bounds(content@) == Some((s as int, e as int)),
                lv == text::lines(content@.subrange(s as int, e as int)),
                blur_word(lv, 0) == blur_word(lv, i as int),
            decreases ls.len() - i,
        {
            let t = text::trimmed(&ls[i]);
            assert(t@ == text::trim(lv[i as int]));
            if text::same(&t, &bt) {
                return Some(true);
            }
            if text::same(&t, &bf) {
                return Some(false);
            }
            i += 1;
        }
        Some(false)
    }

    /// Sets the `blur true`/`blur false` lines between the markers.
    pub fn set_glass_blur(content: &str, enabled: bool) -> (r: Option<String>)
        ensures
            written(r) == spec_set_glass_blur(content@, enabled),
    {
        let c = text::chars_of(content);
        match set_glass_in(&c, enabled) {
            Some(v) => Some(text::string_of(&v)),
            None => None,
        }
    }

    /// Whether the performance mode is on.
    pub fn get_performance_mode(content: &str) -> (r: bool)
        ensures
            r == spec_performance_mode(content@),
    {
        let glass_off = match Self::get_glass_blur(content) {
            Some(active) => !active,
            None => !Self::get_blur_enabled(content),
        };
        !Self::get_animations(content) && glass_off
    }

    /// Sets the performance mode: the window rules' blur, the `blur` block
    /// and the animations set to `!on`.
    pub fn set_performance_mode(content: &str, on: bool) -> (r: Option<String>)
        ensures
            written(r) == spec_set_performance_mode(content@, on),
    {
        let c0 = text::chars_of(content);
        let g = set_glass_in(&c0, !on);
        let w1 = g.is_some();
        let c1 = match g {
            Some(v) => v,
            None => c0,
        };
        let b = blur_enabled_in(&c1, !on);
        let w2 = b.is_some();
        let c2 = match b {
            Some(v) => v,
            None => c1,
        };
        let s2 = text::string_of(&c2);
        let a = Self::set_animations(s2.as_str(), !on);
        let w3 = a.is_some();
        let s3 = match a {
            Some(v) => v,
            None => s2,
        };
        if w1 || w2 || w3 {
            Some(s3)
        } else {
            None
        }
    }
}

// ---------------------------------------------------------------- border and blur values

/// The width and the two colours that the lines `[j, end)` of the border
/// block set, over `st`.
pub open spec fn border_scan(ls: Seq<Seq<char>>, j: int, end: int, st: (int, Seq<char>, Seq<char>)) -> (int, Seq<char>, Seq<char>)
    decreases end - j,
{
    if j < 0 || j >= end || j >= ls.len() {
        st
    } else {
        let t = text::trim(ls[j]);
        let st2 = if text::starts_with(t, "width"@) {
            match second_word(t) {
                Some(w) => match num::i64_of(w) {
                    Some(v) => (v, st.1, st.2),
                    None => st,
                },
                None => st,
            }
        } else if text::starts_with(t, "active-color"@) {
            match first_quoted(t) {
                Some(m) => (st.0, m, st.2),
                None => st,
            }
        } else if text::starts_with(t, "inactive-color"@) {
            match first_quoted(t) {
                Some(m) => (st.0, st.1, m),
                None => st,
            }
        } else {
            st
        };
        border_scan(ls, j + 1, end, st2)
    }
}

pub open spec fn border_json(on: bool, width: int, active: Seq<char>, inactive: Seq<char>) -> JsonV {
    JsonV::Obj(seq![
        ("active_color"@, JsonV::Str(active)),
        ("inactive_color"@, JsonV::Str(inactive)),
        ("on"@, JsonV::Bool(on)),
        ("width"@, JsonV::Num(num::dec(width))),
    ])
}

/// `layout > border`: on with its width and colours when the block is
/// there, else off.
pub open spec fn spec_border(content: Seq<char>) -> JsonV {
    let ls = text::lines(content);
    match kdl::nested_block(ls, path2("layout"@, "border"@)) {
        Some((s, e)) => {
            let st = border_scan(ls, s + 1, e, (0, seq![], seq![]));
            border_json(true, st.0, st.1, st.2)
        },
        None => border_json(false, 0, seq![], seq![]),
    }
}

/// The blur values that the lines `[j, end)` of the blur block set, over
/// `st`: passes, offset, noise and saturation (numbers by their text).
pub open spec fn blur_scan(ls: Seq<Seq<char>>, j: int, end: int, st: (int, Seq<char>, Seq<char>, Seq<char>)) -> (int, Seq<char>, Seq<char>, Seq<char>)
    decreases end - j,
{
    if j < 0 || j >= end || j >= ls.len() {
        st
    } else {
        let p = text::words(text::trim(ls[j]));
        let st2 = if p.len() == 2 {
            if p[0] == "passes"@ {
                match num::i64_of(p[1]) {
                    Some(v) => (v, st.1, st.2, st.3),
                    None => st,
                }
            } else if p[0] == "offset"@ && num::is_float_text(p[1]) {
                (st.0, p[1], st.2, st.3)
            } else if p[0] == "noise"@ && num::is_float_text(p[1]) {
                (st.0, st.1, p[1], st.3)
            } else if p[0] == "saturation"@ && num::is_float_text(p[1]) {
                (st.0, st.1, st.2, p[1])
            } else {
                st
            }
        } else {
            st
        };
        blur_scan(ls, j + 1, end, st2)
    }
}

pub open spec fn blur_json(passes: int, offset: Seq<char>, noise: Seq<char>, saturation: Seq<char>) -> JsonV {
    JsonV::Obj(seq![
        ("noise"@, JsonV::Num(noise)),
        ("offset"@, JsonV::Num(offset)),
        ("passes"@, JsonV::Num(num::dec(passes))),
        ("saturation"@, JsonV::Num(saturation)),
    ])
}

/// The blur settings, or the defaults when there is no blur block.
pub open spec fn spec_blur(content: Seq<char>) -> JsonV {
    let ls = text::lines(content);
    match kdl::nested_block(ls, path1("blur"@)) {
        Some((s, e)) => {
            let st = blur_scan(ls, s + 1, e, (0, "0.0"@, "0.0"@, "1.0"@));
            blur_json(st.0, st.1, st.2, st.3)
        },
        None => blur_json(0, "0.0"@, "0.0"@, "1.0"@),
    }
}

/// The first line in `[a, b)` that sets `key` (`KEY ` or `KEY=`).
pub open spec fn key_line(ls: Seq<Seq<char>>, a: int, b: int, key: Seq<char>) -> Option<int>
    decreases b - a,
{
    if a < 0 || a >= b || a >= ls.len() {
        None
    } else if text::starts_with(text::trim(ls[a]), key + " "@) || text::starts_with(text::trim(ls[a]), key + "="@) {
        Some(a)
    } else {
        key_line(ls, a + 1, b, key)
    }
}

/// The lines with `key value` set inside the block `[s, e]`: the first
/// line that sets it replaced, else a line added before the block's last
/// line (so that a later addition lands before an earlier one).
pub open spec fn set_key(ls: Seq<Seq<char>>, s: int, e: int, key: Seq<char>, value: Seq<char>, inner: Seq<char>) -> Seq<Seq<char>> {
    let line = inner + key + " "@ + value;
    match key_line(ls, s + 1, e, key) {
        Some(j) => ls.update(j, line),
        None => ls.insert(e, line),
    }
}

/// The blur block's body for the settings.
pub open spec fn blur_body(passes: int, offset: Seq<char>, noise: Seq<char>, saturation: Seq<char>) -> Seq<Seq<char>> {
    seq!["passes "@ + num::dec(passes), "offset "@ + offset, "noise "@ + noise, "saturation "@ + saturation]
}

/// `config.kdl` with the blur set (the numbers by their text): each value
/// written in the blur block, or a new block.
pub open spec fn spec_set_blur(content: Seq<char>, passes: int, offset: Seq<char>, noise: Seq<char>, saturation: Seq<char>) -> Seq<char> {
    let ls = text::lines(content);
    match kdl::nested_block(ls, path1("blur"@)) {
        Some((s, e)) => {
            let inner = text::leading_blanks(ls[s]) + "    "@;
            let l1 = set_key(ls, s, e, "passes"@, num::dec(passes), inner);
            let l2 = set_key(l1, s, e, "offset"@, offset, inner);
            let l3 = set_key(l2, s, e, "noise"@, noise, inner);
            let l4 = set_key(l3, s, e, "saturation"@, saturation, inner);
            joined(l4)
        },
        None => kdl::spec_create_block(content, path1("blur"@), blur_body(passes, offset, noise, saturation)),
    }
}

fn key_line_in(ls: &Vec<Vec<char>>, a: usize, b: usize, key: &Vec<char>) -> (r: Option<usize>)
    requires
        a <= b <= ls.len(),
    ensures
        match r {
            Some(j) => key_line(text::views(ls@), a as int, b as int, key@) == Some(j as int) && a <= j < b,
            None => key_line(text::views(ls@), a as int, b as int, key@) is None,
        },
{
    let ghost lv = text::views(ls@);
    let mut sp = text::slice(key, 0, key.len());
    sp.push(' ');
    let mut eq = text::slice(key, 0, key.len());
    eq.push('=');
    proof {
        reveal_strlit(" ");
        reveal_strlit("=");
        assert(sp@ =~= key@ + " "@);
        assert(eq@ =~= key@ + "="@);
    }
    let mut j: usize = a;
    while j < b
        invariant
            a <= j <= b <= ls.len(),
            lv == text::views(ls@),
            sp@ == key@ + " "@,
            eq@ == key@ + "="@,
            key_line(lv, a as int, b as int, key@) == key_line(lv, j as int, b as int, key@),
        decreases b - j,
    {
        let t = text::trimmed(&ls[j]);
        assert(ls@[j as int]@ == lv[j as int]);
        if text::has_prefix(&t, &sp) || text::has_prefix(&t, &eq) {
            return Some(j);
        }
        j += 1;
    }
    None
}

fn set_key_in(ls: Vec<Vec<char>>, s: usize, e: usize, key: &str, value: &Vec<char>, inner: &Vec<char>) -> (r: Vec<Vec<char>>)
    requires
        s < e < ls.len(),
    ensures
        text::views(r@) == set_key(text::views(ls@), s as int, e as int, key@, value@, inner@),
        r.len() >= ls.len(),
{
    let ghost lv = text::views(ls@);
    let k = text::lit(key);
    let mut line = text::slice(inner, 0, inner.len());
    text::append(&mut line, &k);
    line.push(' ');
    text::append(&mut line, value);
    proof {
        reveal_strlit(" ");
    }
    assert(line@ =~= inner@ + key@ + " "@ + value@);
    let mut l = ls;
    match key_line_in(&l, s + 1, e, &k) {
        Some(j) => {
            let ghost lw = line@;
            l.set(j, line);
            assert(text::views(l@) =~= lv.update(j as int, lw));
        },
        None => {
            let ghost lw = line@;
            l.insert(e, line);
            assert(text::views(l@) =~= lv.insert(e as int, lw));
        },
    }
    l
}

impl NiriConfig {
    /// `layout > border`: `on`, `width`, `active_color` and
    /// `inactive_color` (off, 0 and empty when there is no border block).
    pub fn get_border(content: &str) -> (r: Json)
        ensures
            r@ == spec_border(content@),
    {
        let ls = text::lines_of(content);
        let ghost lv = text::views(ls@);
        let path = two("layout", "border");
        let (on, width, active, inactive) = match kdl::find_nested_block(&ls, &path) {
            Some((s, e)) => {
                let mut w: i64 = 0;
                let mut a: Vec<char> = Vec::new();
                let mut b: Vec<char> = Vec::new();
                let mut j: usize = s + 1;
                assert(Seq::<char>::empty() =~= seq![]);
                while j < e
                    invariant
                        s < j <= e < ls.len(),
                        lv == text::views(ls@),
                        border_scan(lv, s + 1, e as int, (0, seq![], seq![])) == border_scan(lv, j as int, e as int, (w as int, a@, b@)),
                    decreases e - j,
                {
                    let t = text::trimmed(&ls[j]);
                    assert(ls@[j as int]@ == lv[j as int]);
                    if text::has_prefix(&t, &text::lit("width")) {
                        match second_of(&t) {
                            Some(x) => match num::parse_i64(&x) {
                                Some(v) => {
                                    w = v;
                                },
                                None => {},
                            },
                            None => {},
                        }
                    } else if text::has_prefix(&t, &text::lit("active-color")) {
                        match quoted_of(&t) {
                            Some(m) => {
                                a = m;
                            },
                            None => {},
                        }
                    } else if text::has_prefix(&t, &text::lit("inactive-color")) {
                        match quoted_of(&t) {
                            Some(m) => {
                                b = m;
                            },
                            None => {},
                        }
                    }
                    j += 1;
                }
                (true, w, a, b)
            },
            None => (false, 0i64, Vec::new(), Vec::new()),
        };
        let mut m: Vec<(String, Json)> = Vec::new();
        assert(settings::jv_members(m@) =~= Seq::<(Seq<char>, JsonV)>::empty());
        m = settings::with_member(m, "active_color", Json::Str(text::string_of(&active)));
        m = settings::with_member(m, "inactive_color", Json::Str(text::string_of(&inactive)));
        m = settings::with_member(m, "on", Json::Bool(on));
        m = settings::with_member(m, "width", Json::Number(text::string_of(&num::i64_to_chars(width))));
        let r = Json::Object(m);
        assert(settings::jv_members(m@) =~= seq![
            ("active_color"@, JsonV::Str(active@)),
            ("inactive_color"@, JsonV::Str(inactive@)),
            ("on"@, JsonV::Bool(on)),
            ("width"@, JsonV::Num(num::dec(width as int))),
        ]);
        r
    }

    /// The blur settings: `passes`, `offset`, `noise` and `saturation`.
    pub fn get_blur(content: &str) -> (r: Json)
        ensures
            r@ == spec_blur(content@),
    {
        let ls = text::lines_of(content);
        let ghost lv = text::views(ls@);
        let path = one("blur");
        let mut passes: i64 = 0;
        let mut offset = text::lit("0.0");
        let mut noise = text::lit("0.0");
        let mut saturation = text::lit("1.0");
        match kdl::find_nested_block(&ls, &path) {
            Some((s, e)) => {
                let mut j: usize = s + 1;
                while j < e
                    invariant
                        s < j <= e < ls.len(),
                        lv == text::views(ls@),
                        blur_scan(lv, s + 1, e as int, (0, "0.0"@, "0.0"@, "1.0"@)) == blur_scan(
                            lv,
                            j as int,
                            e as int,
                            (passes as int, offset@, noise@, saturation@),
                        ),
                    decreases e - j,
                {
                    assert(ls@[j as int]@ == lv[j as int]);
                    let p = text::words_of(&text::trimmed(&ls[j]));
                    if p.len() == 2 {
                        assert(p@[0]@ == text::views(p@)[0]);
                        assert(p@[1]@ == text::views(p@)[1]);
                        if text::same(&p[0], &text::lit("passes")) {
                            match num::parse_i64(&p[1]) {
                                Some(v) => {
                                    passes = v;
                                },
                                None => {},
                            }
                        } else if text::same(&p[0], &text::lit("offset")) && num::float_text(&p[1]) {
                            offset = text::slice(&p[1], 0, p[1].len());
                            assert(offset@ =~= p@[1]@);
                        } else if text::same(&p[0], &text::lit("noise")) && num::float_text(&p[1]) {
                            noise = text::slice(&p[1], 0, p[1].len());
                            assert(noise@ =~= p@[1]@);
                        } else if text::same(&p[0], &text::lit("saturation")) && num::float_text(&p[1]) {
                            saturation = text::slice(&p[1], 0, p[1].len());
                            assert(saturation@ =~= p@[1]@);
                        }
                    }
                    j += 1;
                }
            },
            None => {},
        }
        let mut m: Vec<(String, Json)> = Vec::new();
        assert(settings::jv_members(m@) =~= Seq::<(Seq<char>, JsonV)>::empty());
        m = settings::with_member(m, "noise", Json::Number(text::string_of(&noise)));
        m = settings::with_member(m, "offset", Json::Number(text::string_of(&offset)));
        m = settings::with_member(m, "passes", Json::Number(text::string_of(&num::i64_to_chars(passes))));
        m = settings::with_member(m, "saturation", Json::Number(text::string_of(&saturation)));
        let r = Json::Object(m);
        assert(settings::jv_members(m@) =~= seq![
            ("noise"@, JsonV::Num(noise@)),
            ("offset"@, JsonV::Num(offset@)),
            ("passes"@, JsonV::Num(num::dec(passes as int))),
            ("saturation"@, JsonV::Num(saturation@)),
        ]);
        r
    }

    /// Sets the blur (the three fractional values by their text).
    pub fn set_blur(content: &str, passes: i64, offset: &str, noise: &str, saturation: &str) -> (r: String)
        ensures
            r@ == spec_set_blur(content@, passes as int, offset@, noise@, saturation@),
    {
        let c = text::chars_of(content);
        let ls = text::split_lines(&c);
        let path = one("blur");
        let pv = num::i64_to_chars(passes);
        let ov = text::chars_of(offset);
        let nv = text::chars_of(noise);
        let sv = text::chars_of(saturation);
        match kdl::find_nested_block(&ls, &path) {
            Some((s, e)) => {
                let mut inner = text::blanks_of(&ls[s]);
                text::append(&mut inner, &text::lit("    "));
                let l1 = set_key_in(ls, s, e, "passes", &pv, &inner);
                let l2 = set_key_in(l1, s, e, "offset", &ov, &inner);
                let l3 = set_key_in(l2, s, e, "noise", &nv, &inner);
                let l4 = set_key_in(l3, s, e, "saturation", &sv, &inner);
                text::join_lines(&l4)
            },
            None => {
                let mut b0 = text::lit("passes ");
                text::append(&mut b0, &pv);
                let mut b1 = text::lit("offset ");
                text::append(&mut b1, &ov);
                let mut b2 = text::lit("noise ");
                text::append(&mut b2, &nv);
                let mut b3 = text::lit("saturation ");
                text::append(&mut b3, &sv);
                let body = vec![b0, b1, b2, b3];
                assert(text::views(body@) =~= blur_body(passes as int, offset@, noise@, saturation@));
                text::string_of(&kdl::create_in(&c, &path, &body))
            },
        }
    }
}

} // verus!
