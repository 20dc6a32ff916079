//! The desktop wallpaper: the path in the settings, the directories where
//! wallpapers are found, which files count as wallpapers, the name an
//! imported image gets, and the steps that apply one. Listing directories,
//! copying files and running the programs stay outside.
use vstd::prelude::*;
use crate::text;
use crate::num;
use crate::services::settings::{get_string, spec_get_string, spec_set, Json, JsonV};
use crate::services::gtk_settings::{path_join, join_path, least_socket, least_wayland};
use crate::backend::dev::path_file_name;
use crate::services::path_order;

verus! {

/// Where imported wallpapers go.
pub open spec fn spec_user_dir(home: Seq<char>) -> Seq<char> {
    path_join(home, ".local/share/churros/wallpapers"@)
}

/// The directories searched for wallpapers, in order.
pub open spec fn spec_wallpaper_dirs(home: Seq<char>) -> Seq<Seq<char>> {
    seq![
        "/usr/share/churros/wallpapers"@,
        "/usr/share/backgrounds"@,
        spec_user_dir(home),
        path_join(home, "Pictures/Wallpapers"@),
        path_join(home, "Pictures"@),
    ]
}

/// The extension of a file name (`Path::extension`): what follows its
/// last `.`, unless the name starts with that dot or is `..`.
pub open spec fn extension(name: Seq<char>) -> Option<Seq<char>> {
    let k = crate::services::display::last_index(name, '.');
    if name == ".."@ || k <= 0 {
        None
    } else {
        Some(name.skip(k + 1))
    }
}

/// An image file that can be a wallpaper (by its extension, in any case).
pub open spec fn is_wallpaper(name: Seq<char>) -> bool {
    match extension(name) {
        Some(e) => {
            let l = text::lowercase(e);
            l == "jpg"@ || l == "jpeg"@ || l == "png"@ || l == "webp"@ || l == "gif"@
        },
        None => false,
    }
}

/// The file name an imported image tries at attempt `n`: its own name
/// first, then `NAME_n.EXT` (the extension after its last dot).
pub open spec fn import_name(source: Seq<char>, n: int) -> Seq<char> {
    let base = match path_file_name(source) {
        Some(b) => b,
        None => "wallpaper"@,
    };
    let k = crate::services::display::last_index(base, '.');
    let stem = if k >= 0 { base.take(k) } else { base };
    let ext = if k >= 0 { base.skip(k) } else { seq![] };
    if n == 0 {
        base
    } else {
        stem + "_"@ + num::dec(n) + ext
    }
}

/// A step of choosing an imported image's name.
#[derive(Debug, PartialEq, Eq)]
pub enum NameStep {
    /// This name is free: copy the image there.
    Take(String),
    /// The name was taken: try attempt `n`.
    Next(u32),
    /// Every attempt's name is taken.
    GiveUp,
}

/// A step of applying a wallpaper.
#[derive(Debug, PartialEq, Eq)]
pub enum ApplyStep {
    /// The outcome.
    Done(bool),
    /// Run this wrapper command; its success applies the wallpaper.
    RunWrapper(Vec<String>),
    /// Run these commands in turn, then the check; its success applies it.
    RunSwaybg(Vec<Vec<String>>, Vec<String>),
}

pub open spec fn command_views(v: Seq<Vec<String>>) -> Seq<Seq<Seq<char>>> {
    v.map_values(|c: Vec<String>| text::string_views(c@))
}

/// The fallback: `swaybg` restarted on the wallpaper, then checked, when it
/// is installed; else failure.
pub open spec fn swaybg_or_fail(path: Seq<char>, has_swaybg: bool, s: ApplyStep) -> bool {
    if has_swaybg {
        s matches ApplyStep::RunSwaybg(cmds, check) && command_views(cmds@) == seq![
            seq!["pkill"@, "-x"@, "swaybg"@],
            seq!["swaybg"@, "-i"@, path, "-m"@, "fill"@],
        ] && text::string_views(check@) == seq!["pgrep"@, "-x"@, "swaybg"@]
    } else {
        s == ApplyStep::Done(false)
    }
}

fn swaybg_step(path: &str, has_swaybg: bool) -> (r: ApplyStep)
    ensures
        swaybg_or_fail(path@, has_swaybg, r),
{
    if !has_swaybg {
        return ApplyStep::Done(false);
    }
    let a = text::strings_of(&["pkill", "-x", "swaybg"]);
    let b = text::strings_of(&["swaybg", "-i", path, "-m", "fill"]);
    let c = text::strings_of(&["pgrep", "-x", "swaybg"]);
    assert(["pkill", "-x", "swaybg"]@.map_values(|s: &str| s@) =~= seq!["pkill"@, "-x"@, "swaybg"@]);
    assert(["swaybg", "-i", path, "-m", "fill"]@.map_values(|s: &str| s@) =~= seq!["swaybg"@, "-i"@, path@, "-m"@, "fill"@]);
    assert(["pgrep", "-x", "swaybg"]@.map_values(|s: &str| s@) =~= seq!["pgrep"@, "-x"@, "swaybg"@]);
    let mut cmds: Vec<Vec<String>> = Vec::new();
    cmds.push(a);
    cmds.push(b);
    assert(command_views(cmds@) =~= seq![seq!["pkill"@, "-x"@, "swaybg"@], seq!["swaybg"@, "-i"@, path@, "-m"@, "fill"@]]);
    ApplyStep::RunSwaybg(cmds, c)
}

/// The desktop wallpaper.
pub struct WallpaperService;

impl WallpaperService {
    /// The path of the current wallpaper (empty when none is set).
    pub fn current(settings: &Json) -> (r: String)
        ensures
            r@ == spec_get_string(settings@, "wallpaper.path"@, ""@),
    {
        get_string(settings, "wallpaper.path", "")
    }

    /// The settings with the wallpaper's path recorded.
    pub fn record(settings: Json, path: &str) -> (r: Json)
        ensures
            r@ == spec_set(settings@, "wallpaper.path"@, JsonV::Str(path@)),
    {
        crate::services::settings::set(settings, "wallpaper.path", Json::Str(path.to_string()))
    }

    /// Where imported wallpapers go.
    pub fn user_dir(home: &str) -> (r: String)
        ensures
            r@ == spec_user_dir(home@),
    {
        join_path(home, ".local/share/churros/wallpapers")
    }

    /// The directories searched for wallpapers.
    pub fn wallpaper_dirs(home: &str) -> (r: Vec<String>)
        ensures
            text::string_views(r@) == spec_wallpaper_dirs(home@),
    {
        let mut r: Vec<String> = Vec::new();
        r.push("/usr/share/churros/wallpapers".to_string());
        r.push("/usr/share/backgrounds".to_string());
        r.push(Self::user_dir(home));
        r.push(join_path(home, "Pictures/Wallpapers"));
        r.push(join_path(home, "Pictures"));
        assert(text::string_views(r@) =~= spec_wallpaper_dirs(home@));
        r
    }

    /// The wallpapers found, in the order of paths (by their components) and
    /// each path once, the first one found kept.
    pub fn list(found: &Vec<String>) -> (r: Vec<String>)
        ensures
            path_order::sorted_once(text::string_views(found@), text::string_views(r@)),
    {
        path_order::sort_paths(found)
    }

    /// Whether a file (by its name) can be a wallpaper.
    pub fn is_wallpaper(name: &str) -> (r: bool)
        ensures
            r == is_wallpaper(name@),
    {
        let n = text::chars_of(name);
        let k = crate::services::display::last_index_of(&n, '.');
        let ghost kk = crate::services::display::last_index(n@, '.');
        if text::same(&n, &text::lit("..")) {
            return false;
        }
        match k {
            Some(k) => {
                if k == 0 {
                    return false;
                }
                let e = text::slice(&n, k + 1, n.len());
                assert(e@ =~= n@.skip(k + 1));
                let l = text::chars_of(text::to_lower(text::string_of(&e).as_str()).as_str());
                text::same(&l, &text::lit("jpg")) || text::same(&l, &text::lit("jpeg")) || text::same(&l, &text::lit("png"))
                    || text::same(&l, &text::lit("webp")) || text::same(&l, &text::lit("gif"))
            },
            None => false,
        }
    }

    /// The file name an imported image tries at attempt `n` (the caller
    /// tries 0, 1, 2, … until the name is free in `user_dir`).
    pub fn import_name(source_path: &str, n: u32) -> (r: String)
        ensures
            r@ == import_name(source_path@, n as int),
    {
        let base = match crate::backend::dev::file_name(source_path) {
            Some(b) => text::chars_of(b.as_str()),
            None => text::lit("wallpaper"),
        };
        if n == 0 {
            return text::string_of(&base);
        }
        let k = crate::services::display::last_index_of(&base, '.');
        let mut out = match k {
            Some(k) => text::slice(&base, 0, k),
            None => text::slice(&base, 0, base.len()),
        };
        out.push('_');
        text::append(&mut out, &num::nat_to_digits(n as u64));
        match k {
            Some(k) => text::append(&mut out, &text::slice(&base, k, base.len())),
            None => {},
        }
        proof {
            reveal_strlit("_");
        }
        assert(out@ =~= import_name(source_path@, n as int));
        text::string_of(&out)
    }

    /// After the name of attempt `n` was looked up: take it when it is free,
    /// else try the next attempt (none after the last).
    pub fn name_step(source_path: &str, n: u32, taken: bool) -> (r: NameStep)
        ensures
            !taken ==> (r matches NameStep::Take(x) && x@ == import_name(source_path@, n as int)),
            taken && n < u32::MAX ==> r == NameStep::Next((n + 1) as u32),
            taken && n == u32::MAX ==> r == NameStep::GiveUp,
    {
        if !taken {
            NameStep::Take(Self::import_name(source_path, n))
        } else if n < u32::MAX {
            NameStep::Next(n + 1)
        } else {
            NameStep::GiveUp
        }
    }

    /// The first step of applying a wallpaper: failure when the path is
    /// empty or not a file, else the wrapper when it is installed, else
    /// `swaybg`.
    pub fn apply(path: &str, is_file: bool, has_wrapper: bool, has_swaybg: bool) -> (r: ApplyStep)
        ensures
            if path@.len() == 0 || !is_file {
                r == ApplyStep::Done(false)
            } else if has_wrapper {
                r matches ApplyStep::RunWrapper(c) && text::string_views(c@) == seq!["churros-apply-wallpaper"@, path@]
            } else {
                swaybg_or_fail(path@, has_swaybg, r)
            },
    {
        if text::chars_of(path).len() == 0 || !is_file {
            return ApplyStep::Done(false);
        }
        if has_wrapper {
            let c = text::strings_of(&["churros-apply-wallpaper", path]);
            assert(["churros-apply-wallpaper", path]@.map_values(|s: &str| s@) =~= seq!["churros-apply-wallpaper"@, path@]);
            return ApplyStep::RunWrapper(c);
        }
        swaybg_step(path, has_swaybg)
    }

    /// The step after the wrapper ran (`ok`: it succeeded within its time).
    pub fn after_wrapper(path: &str, ok: bool, has_swaybg: bool) -> (r: ApplyStep)
        ensures
            if ok {
                r == ApplyStep::Done(true)
            } else {
                swaybg_or_fail(path@, has_swaybg, r)
            },
    {
        if ok {
            return ApplyStep::Done(true);
        }
        swaybg_step(path, has_swaybg)
    }

    /// What to add to the environment of the programs run: a Wayland socket
    /// and its runtime directory when `WAYLAND_DISPLAY` is unset and the
    /// runtime directory lists one (its entries, none when it is not a
    /// directory), and the runtime directory when `XDG_RUNTIME_DIR` is still
    /// unset.
    pub fn env_additions(has_wayland: bool, has_runtime_dir: bool, uid: u32, entries: Option<&Vec<String>>) -> (r: Vec<(String, String)>)
        ensures
            ({
                let xrd = "/run/user/"@ + num::dec(uid as int);
                let sock = if has_wayland { None } else {
                    match entries {
                        Some(es) => least_socket(text::string_views(es@)),
                        None => None,
                    }
                };
                let a = match sock {
                    Some(s) => seq![("WAYLAND_DISPLAY"@, s), ("XDG_RUNTIME_DIR"@, xrd)],
                    None => seq![],
                };
                let xrd_set = has_runtime_dir || sock is Some;
                r@.map_values(|p: (String, String)| (p.0@, p.1@)) == if xrd_set { a } else { a.push(("XDG_RUNTIME_DIR"@, xrd)) }
            }),
    {
        let mut xrd = text::lit("/run/user/");
        text::append(&mut xrd, &num::nat_to_digits(uid as u64));
        let xs = text::string_of(&xrd);
        let mut r: Vec<(String, String)> = Vec::new();
        let mut set = has_runtime_dir;
        if !has_wayland {
            match entries {
                Some(es) => match least_wayland(es) {
                    Some(s) => {
                        r.push(("WAYLAND_DISPLAY".to_string(), s));
                        r.push(("XDG_RUNTIME_DIR".to_string(), text::string_of(&xrd)));
                        set = true;
                    },
                    None => {},
                },
                None => {},
            }
        }
        let ghost a = r@.map_values(|p: (String, String)| (p.0@, p.1@));
        if !set {
            r.push(("XDG_RUNTIME_DIR".to_string(), xs));
            assert(r@.map_values(|p: (String, String)| (p.0@, p.1@)) =~= a.push(("XDG_RUNTIME_DIR"@, xrd@)));
        }
        r
    }
}

} // verus!
