//! The host-preview dry run (`CHURROS_DEV=1`): which commands would change
//! the machine. Reads stay live; the others are logged and skipped.
use vstd::prelude::*;
use crate::text;
use crate::services::kdl;
use crate::services::path_order;

verus! {

// ---------------------------------------------------------------- model

/// `nmcli` verbs that change the machine.
pub open spec fn nmcli_verbs() -> Seq<Seq<char>> {
    seq!["connect"@, "disconnect"@, "delete"@, "modify"@, "add"@, "edit"@, "up"@, "down"@, "rescan"@,
        "reload"@, "on"@, "off"@]
}

/// `systemctl` verbs that only read.
pub open spec fn systemctl_reads() -> Seq<Seq<char>> {
    seq!["is-active"@, "is-enabled"@, "is-failed"@, "status"@, "show"@, "cat"@, "list-units"@,
        "list-unit-files"@, "list-timers"@, "show-environment"@, "--version"@, "help"@]
}

/// `bluetoothctl` verbs that only read.
pub open spec fn bluetoothctl_reads() -> Seq<Seq<char>> {
    seq!["show"@, "devices"@, "info"@, "list"@, "paired-devices"@, "help"@]
}

/// Programs that only read.
pub open spec fn read_only_bins() -> Seq<Seq<char>> {
    seq!["id"@, "date"@, "pgrep"@, "fc-list"@, "lspci"@, "curl"@, "notify-send"@, "xdg-open"@, "thunar"@]
}

/// The `nmcli` scan from argument `i`: options are passed over (`-f`,
/// `--fields`, `-g` and `--get-values` with their value), and the first verb
/// of `nmcli_verbs` decides.
pub open spec fn nmcli_from(args: Seq<Seq<char>>, i: int) -> bool
    decreases args.len() + 2 - i,
{
    if i < 0 || i >= args.len() {
        false
    } else {
        let a = args[i];
        if a == "-f"@ || a == "--fields"@ || a == "-g"@ || a == "--get-values"@ {
            nmcli_from(args, i + 2)
        } else if text::starts_with(a, "-"@) {
            nmcli_from(args, i + 1)
        } else if nmcli_verbs().contains(a) {
            true
        } else {
            nmcli_from(args, i + 1)
        }
    }
}

/// The `bluetoothctl` scan from argument `i`: the first argument that is not
/// an option (`--timeout` takes a value) changes the machine unless it reads.
pub open spec fn bluetoothctl_from(args: Seq<Seq<char>>, i: int) -> bool
    decreases args.len() + 2 - i,
{
    if i < 0 || i >= args.len() {
        false
    } else {
        let a = args[i];
        if a == "--timeout"@ {
            bluetoothctl_from(args, i + 2)
        } else if text::starts_with(a, "-"@) {
            bluetoothctl_from(args, i + 1)
        } else {
            !bluetoothctl_reads().contains(a)
        }
    }
}

/// Some argument starts with `p`.
pub open spec fn any_starts(args: Seq<Seq<char>>, p: Seq<char>) -> bool {
    exists|j: int| 0 <= j < args.len() && text::starts_with(#[trigger] args[j], p)
}

/// Some argument is one of `words`.
pub open spec fn any_of(args: Seq<Seq<char>>, words: Seq<Seq<char>>) -> bool {
    exists|j: int| 0 <= j < args.len() && words.contains(#[trigger] args[j])
}

/// Some argument holds `p`.
pub open spec fn any_holds(args: Seq<Seq<char>>, p: Seq<char>) -> bool {
    exists|j: int| 0 <= j < args.len() && text::contains(#[trigger] args[j], p)
}

/// The first argument is `a` or `b`.
pub open spec fn first_is(args: Seq<Seq<char>>, a: Seq<char>, b: Seq<char>) -> bool {
    args.len() > 0 && (args[0] == a || args[0] == b)
}

/// Whether running the program `bin` with `args` would change the machine.
pub open spec fn spec_mutates(bin: Seq<char>, args: Seq<Seq<char>>) -> bool {
    if bin == "nmcli"@ {
        nmcli_from(args, 0)
    } else if bin == "wpctl"@ || bin == "timedatectl"@ {
        any_starts(args, "set-"@)
    } else if bin == "brightnessctl"@ {
        args.contains("set"@) || args.contains("s"@)
    } else if bin == "bluetoothctl"@ {
        bluetoothctl_from(args, 0)
    } else if bin == "rfkill"@ {
        args.contains("block"@) || args.contains("unblock"@)
    } else if bin == "systemctl"@ {
        !any_of(args, systemctl_reads())
    } else if bin == "loginctl"@ {
        any_starts(args, "lock"@) || any_starts(args, "terminate"@) || any_starts(args, "kill"@)
    } else if bin == "gsettings"@ {
        first_is(args, "set"@, "reset"@)
    } else if bin == "dconf"@ {
        first_is(args, "write"@, "reset"@)
    } else if bin == "ufw"@ {
        !args.contains("status"@)
    } else if bin == "pacman"@ {
        !any_starts(args, "-Q"@)
    } else if bin == "flatpak"@ {
        args.contains("update"@) || args.contains("install"@) || args.contains("remove"@)
    } else if bin == "swapon"@ {
        !args.contains("--show"@)
    } else if bin == "niri"@ {
        args.contains("action"@) || args.contains("quit"@)
    } else if bin == "hyprctl"@ {
        args.contains("dispatch"@)
    } else if read_only_bins().contains(bin) {
        false
    } else if bin == "sh"@ || bin == "bash"@ {
        !any_holds(args, "command -v"@)
    } else {
        true
    }
}

/// The last component of a path when it is a name (`Path::file_name`, as
/// text): none when the path ends in `..`, is a root, or is empty.
pub open spec fn path_file_name(p: Seq<char>) -> Option<Seq<char>> {
    let c = path_order::comps(p);
    if c.len() > 0 && c.last().0 == 4 {
        Some(c.last().1)
    } else {
        None
    }
}

/// The program of a command: the file name of its first word, or the word.
pub open spec fn spec_bin_name(cmd: Seq<char>) -> Seq<char> {
    match path_file_name(cmd) {
        Some(n) => n,
        None => cmd,
    }
}

/// Whether running the command would change the machine: an empty command
/// does; otherwise its program and arguments decide.
pub open spec fn spec_is_mutation(cmd: Seq<Seq<char>>, bin: Seq<char>) -> bool {
    cmd.len() == 0 || spec_mutates(bin, cmd.drop_first())
}

// ---------------------------------------------------------------- exec

/// A path of one plain component: not empty, no `/`, neither `.` nor `..`.
pub open spec fn bare_word(p: Seq<char>) -> bool {
    p.len() > 0 && !p.contains('/') && p != "."@ && p != ".."@
}

/// A path of one plain component is its own file name.
proof fn lemma_bare_word_file_name(w: Seq<char>)
    requires
        bare_word(w),
    ensures
        path_file_name(w) == Some(w),
{
    reveal_strlit(".");
    reveal_strlit("..");
    reveal_strlit("./");
    assert forall|j: int| 0 <= j < w.len() implies w[j] != '/' by {
        if w[j] == '/' {
            assert(w.contains('/'));
        }
    }
    assert(path_order::head_comps(w) =~= Seq::<path_order::Comp>::empty()) by {
        if text::starts_with(w, "./"@) {
            assert(w.take(2)[1] == w[1]);
        }
    }
    text::lemma_index_of_char(w, '/', w.len() as int);
    assert(text::split(w, '/') == seq![w]);
    assert(seq![w].drop_first() =~= Seq::<Seq<char>>::empty());
    assert(path_order::body_comps(seq![w]) == seq![(4int, w)] + path_order::body_comps(Seq::<Seq<char>>::empty()));
    assert(path_order::comps(w) =~= seq![(4int, w)]);
}

/// `Path::new(cmd).file_name()` as text, by the components of the path.
pub(crate) fn file_name(cmd: &str) -> (r: Option<String>)
    ensures
        match r {
            Some(n) => path_file_name(cmd@) == Some(n@),
            None => path_file_name(cmd@) is None,
        },
        bare_word(cmd@) ==> (r is Some && r.unwrap()@ == cmd@),
{
    proof {
        if bare_word(cmd@) {
            lemma_bare_word_file_name(cmd@);
        }
    }
    let c = path_order::comps_of(cmd);
    let ghost cv = path_order::comp_views(c@);
    if c.len() > 0 && c[c.len() - 1].0 == 4 {
        assert(cv.last() == (c@[c.len() - 1].0 as int, c@[c.len() - 1].1@));
        Some(text::string_of(&c[c.len() - 1].1))
    } else {
        proof {
            if c.len() > 0 {
                assert(cv.last() == (c@[c.len() - 1].0 as int, c@[c.len() - 1].1@));
            }
        }
        None
    }
}

/// The program of a command word.
pub fn bin_name(cmd: &str) -> (r: String)
    ensures
        r@ == spec_bin_name(cmd@),
        bare_word(cmd@) ==> r@ == cmd@,
{
    match file_name(cmd) {
        Some(n) => n,
        None => cmd.to_string(),
    }
}

fn is_word(a: &Vec<char>, w: &str) -> (r: bool)
    ensures
        r == (a@ == w@),
{
    text::same(a, &text::lit(w))
}

fn has_arg(args: &Vec<Vec<char>>, needle: &str) -> (r: bool)
    ensures
        r == text::views(args@).contains(needle@),
{
    let n = text::lit(needle);
    let ghost av = text::views(args@);
    let mut j: usize = 0;
    while j < args.len()
        invariant
            j <= args.len(),
            av == text::views(args@),
            n@ == needle@,
            forall|k: int| 0 <= k < j ==> av[k] != needle@,
        decreases args.len() - j,
    {
        if text::same(&args[j], &n) {
            assert(av[j as int] == needle@);
            return true;
        }
        j += 1;
    }
    false
}

fn starts_any(args: &Vec<Vec<char>>, p: &str) -> (r: bool)
    ensures
        r == any_starts(text::views(args@), p@),
{
    let pv = text::lit(p);
    let ghost av = text::views(args@);
    let mut j: usize = 0;
    while j < args.len()
        invariant
            j <= args.len(),
            av == text::views(args@),
            pv@ == p@,
            forall|k: int| 0 <= k < j ==> !text::starts_with(#[trigger] av[k], p@),
        decreases args.len() - j,
    {
        if text::has_prefix(&args[j], &pv) {
            assert(text::starts_with(av[j as int], p@));
            return true;
        }
        j += 1;
    }
    false
}

fn holds_any(args: &Vec<Vec<char>>, p: &str) -> (r: bool)
    ensures
        r == any_holds(text::views(args@), p@),
{
    let pv = text::lit(p);
    let ghost av = text::views(args@);
    let mut j: usize = 0;
    while j < args.len()
        invariant
            j <= args.len(),
            av == text::views(args@),
            pv@ == p@,
            forall|k: int| 0 <= k < j ==> !text::contains(#[trigger] av[k], p@),
        decreases args.len() - j,
    {
        if text::has(&args[j], &pv) {
            assert(text::contains(av[j as int], p@));
            return true;
        }
        j += 1;
    }
    false
}

fn in_list(a: &Vec<char>, words: &Vec<Vec<char>>) -> (r: bool)
    ensures
        r == text::views(words@).contains(a@),
{
    let ghost wv = text::views(words@);
    let mut j: usize = 0;
    while j < words.len()
        invariant
            j <= words.len(),
            wv == text::views(words@),
            forall|k: int| 0 <= k < j ==> wv[k] != a@,
        decreases words.len() - j,
    {
        if text::same(&words[j], a) {
            assert(wv[j as int] == a@);
            return true;
        }
        j += 1;
    }
    false
}

fn nmcli_verbs_of() -> (r: Vec<Vec<char>>)
    ensures
        text::views(r@) == nmcli_verbs(),
{
    let v = vec![text::lit("connect"), text::lit("disconnect"), text::lit("delete"), text::lit("modify"),
        text::lit("add"), text::lit("edit"), text::lit("up"), text::lit("down"), text::lit("rescan"),
        text::lit("reload"), text::lit("on"), text::lit("off")];
    assert(text::views(v@) =~= nmcli_verbs());
    v
}

fn systemctl_reads_of() -> (r: Vec<Vec<char>>)
    ensures
        text::views(r@) == systemctl_reads(),
{
    let v = vec![text::lit("is-active"), text::lit("is-enabled"), text::lit("is-failed"), text::lit("status"),
        text::lit("show"), text::lit("cat"), text::lit("list-units"), text::lit("list-unit-files"),
        text::lit("list-timers"), text::lit("show-environment"), text::lit("--version"), text::lit("help")];
    assert(text::views(v@) =~= systemctl_reads());
    v
}

fn bluetoothctl_reads_of() -> (r: Vec<Vec<char>>)
    ensures
        text::views(r@) == bluetoothctl_reads(),
{
    let v = vec![text::lit("show"), text::lit("devices"), text::lit("info"), text::lit("list"),
        text::lit("paired-devices"), text::lit("help")];
    assert(text::views(v@) =~= bluetoothctl_reads());
    v
}

fn read_only_bins_of() -> (r: Vec<Vec<char>>)
    ensures
        text::views(r@) == read_only_bins(),
{
    let v = vec![text::lit("id"), text::lit("date"), text::lit("pgrep"), text::lit("fc-list"), text::lit("lspci"),
        text::lit("curl"), text::lit("notify-send"), text::lit("xdg-open"), text::lit("thunar")];
    assert(text::views(v@) =~= read_only_bins());
    v
}

fn nmcli_mutates(args: &Vec<Vec<char>>) -> (r: bool)
    ensures
        r == nmcli_from(text::views(args@), 0),
{
    let ghost av = text::views(args@);
    let verbs = nmcli_verbs_of();
    let mut i: usize = 0;
    while i < args.len()
        invariant
            av == text::views(args@),
            text::views(verbs@) == nmcli_verbs(),
            nmcli_from(av, 0) == nmcli_from(av, i as int),
        decreases args.len() - i,
    {
        let a = &args[i];
        assert(a@ == av[i as int]);
        if is_word(a, "-f") || is_word(a, "--fields") || is_word(a, "-g") || is_word(a, "--get-values") {
            if args.len() - i < 2 {
                assert(nmcli_from(av, i + 2) == false);
                return false;
            }
            i += 2;
        } else if text::has_prefix(a, &text::lit("-")) {
            i += 1;
        } else if in_list(a, &verbs) {
            return true;
        } else {
            i += 1;
        }
    }
    false
}

fn bluetoothctl_mutates(args: &Vec<Vec<char>>) -> (r: bool)
    ensures
        r == bluetoothctl_from(text::views(args@), 0),
{
    let ghost av = text::views(args@);
    let reads = bluetoothctl_reads_of();
    let mut i: usize = 0;
    while i < args.len()
        invariant
            av == text::views(args@),
            text::views(reads@) == bluetoothctl_reads(),
            bluetoothctl_from(av, 0) == bluetoothctl_from(av, i as int),
        decreases args.len() - i,
    {
        let a = &args[i];
        assert(a@ == av[i as int]);
        if is_word(a, "--timeout") {
            if args.len() - i < 2 {
                assert(bluetoothctl_from(av, i + 2) == false);
                return false;
            }
            i += 2;
        } else if text::has_prefix(a, &text::lit("-")) {
            i += 1;
        } else {
            return !in_list(a, &reads);
        }
    }
    false
}

fn systemctl_mutates(args: &Vec<Vec<char>>) -> (r: bool)
    ensures
        r == !any_of(text::views(args@), systemctl_reads()),
{
    let ghost av = text::views(args@);
    let reads = systemctl_reads_of();
    let mut j: usize = 0;
    while j < args.len()
        invariant
            j <= args.len(),
            av == text::views(args@),
            text::views(reads@) == systemctl_reads(),
            forall|k: int| 0 <= k < j ==> !systemctl_reads().contains(#[trigger] av[k]),
        decreases args.len() - j,
    {
        if in_list(&args[j], &reads) {
            assert(systemctl_reads().contains(av[j as int]));
            return false;
        }
        j += 1;
    }
    true
}

fn first_word_is(args: &Vec<Vec<char>>, a: &str, b: &str) -> (r: bool)
    ensures
        r == first_is(text::views(args@), a@, b@),
{
    args.len() > 0 && (is_word(&args[0], a) || is_word(&args[0], b))
}

/// Whether running `bin` with `args` would change the machine.
pub fn mutates(bin: &Vec<char>, args: &Vec<Vec<char>>) -> (r: bool)
    ensures
        r == spec_mutates(bin@, text::views(args@)),
{
    if is_word(bin, "nmcli") {
        nmcli_mutates(args)
    } else if is_word(bin, "wpctl") || is_word(bin, "timedatectl") {
        starts_any(args, "set-")
    } else if is_word(bin, "brightnessctl") {
        has_arg(args, "set") || has_arg(args, "s")
    } else if is_word(bin, "bluetoothctl") {
        bluetoothctl_mutates(args)
    } else if is_word(bin, "rfkill") {
        has_arg(args, "block") || has_arg(args, "unblock")
    } else if is_word(bin, "systemctl") {
        systemctl_mutates(args)
    } else if is_word(bin, "loginctl") {
        starts_any(args, "lock") || starts_any(args, "terminate") || starts_any(args, "kill")
    } else if is_word(bin, "gsettings") {
        first_word_is(args, "set", "reset")
    } else if is_word(bin, "dconf") {
        first_word_is(args, "write", "reset")
    } else if is_word(bin, "ufw") {
        !has_arg(args, "status")
    } else if is_word(bin, "pacman") {
        !starts_any(args, "-Q")
    } else if is_word(bin, "flatpak") {
        has_arg(args, "update") || has_arg(args, "install") || has_arg(args, "remove")
    } else if is_word(bin, "swapon") {
        !has_arg(args, "--show")
    } else if is_word(bin, "niri") {
        has_arg(args, "action") || has_arg(args, "quit")
    } else if is_word(bin, "hyprctl") {
        has_arg(args, "dispatch")
    } else if in_list(bin, &read_only_bins_of()) {
        false
    } else if is_word(bin, "sh") || is_word(bin, "bash") {
        !holds_any(args, "command -v")
    } else {
        true
    }
}

/// True when running the command would change this machine.
pub fn is_mutation(cmd: &[&str]) -> (r: bool)
    ensures
        r == spec_is_mutation(kdl::str_views(cmd@), if cmd@.len() > 0 {
            spec_bin_name(cmd@[0]@)
        } else {
            seq![]
        }),
        cmd@.len() > 0 && bare_word(cmd@[0]@) ==> r == spec_is_mutation(kdl::str_views(cmd@), cmd@[0]@),
{
    if cmd.len() == 0 {
        return true;
    }
    let bin = bin_name(cmd[0]);
    let all = kdl::strs_of(cmd);
    assert(text::views(all@).len() == all@.len());
    let mut args: Vec<Vec<char>> = Vec::new();
    let ghost a0 = text::views(args@);
    assert(a0 =~= Seq::<Seq<char>>::empty());
    kdl::push_lines(&mut args, &all, 1, all.len());
    proof {
        let av = text::views(all@);
        assert(text::views(args@) =~= av.drop_first());
    }
    let b = text::chars_of(bin.as_str());
    mutates(&b, &args)
}

} // verus!
