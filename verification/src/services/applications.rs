use vstd::prelude::*;
use crate::text;
use crate::num;
use crate::services::settings::{get_bool, spec_get_bool, spec_set, Json, JsonV};

verus! {

/// How many entries are package directories (directories other than
/// `ALPM_DB_VERSION`).
pub open spec fn package_dirs(es: Seq<(Seq<char>, bool)>) -> nat
    decreases es.len(),
{
    if es.len() == 0 {
        0
    } else {
        package_dirs(es.drop_last()) + if es.last().1 && es.last().0 != "ALPM_DB_VERSION"@ {
            1nat
        } else {
            0nat
        }
    }
}

pub open spec fn entry_views(v: Seq<(String, bool)>) -> Seq<(Seq<char>, bool)> {
    v.map_values(|e: (String, bool)| (e.0@, e.1))
}

/// The package count shown on the page.
pub open spec fn spec_count(entries: Option<Seq<(Seq<char>, bool)>>, pacman_out: Option<Seq<char>>) -> Seq<char> {
    let n = match entries {
        Some(es) => package_dirs(es),
        None => 0,
    };
    if n > 0 {
        num::dec(n as int)
    } else {
        match pacman_out {
            Some(t) => num::dec(text::lines(t).len() as int),
            None => "0"@,
        }
    }
}


/// The software sources shown on the "Applications" page.
pub struct ApplicationsService;

impl ApplicationsService {
    pub fn store() -> (r: &'static str)
        ensures
            r@ == "Pacman"@,
    {
        "Pacman"
    }

    pub fn package_manager() -> (r: &'static str)
        ensures
            r@ == "pacman"@,
    {
        "pacman"
    }

    pub fn repositories() -> (r: &'static str)
        ensures
            r@ == "Arch Linux"@,
    {
        "Arch Linux"
    }

    /// Whether applications update themselves (on by default).
    pub fn auto_updates(settings: &Json) -> (r: bool)
        ensures
            r == spec_get_bool(settings@, "applications.auto_updates"@, true),
    {
        get_bool(settings, "applications.auto_updates", true)
    }

    /// The settings with automatic updates set.
    pub fn set_auto_updates(settings: Json, value: bool) -> (r: Json)
        ensures
            r@ == spec_set(settings@, "applications.auto_updates"@, JsonV::Bool(value)),
    {
        crate::services::settings::set(settings, "applications.auto_updates", Json::Bool(value))
    }

    /// Whether suggested applications install themselves (off by default).
    pub fn auto_install(settings: &Json) -> (r: bool)
        ensures
            r == spec_get_bool(settings@, "applications.auto_install"@, false),
    {
        get_bool(settings, "applications.auto_install", false)
    }

    /// The settings with automatic installs set.
    pub fn set_auto_install(settings: Json, value: bool) -> (r: Json)
        ensures
            r@ == spec_set(settings@, "applications.auto_install"@, JsonV::Bool(value)),
    {
        crate::services::settings::set(settings, "applications.auto_install", Json::Bool(value))
    }

    /// The number of installed packages: the package directories of
    /// pacman's database (name and whether it is a directory, none when it
    /// could not be read), else the lines of `pacman -Q` (none when it could
    /// not run), else 0.
    pub fn count(entries: Option<&Vec<(String, bool)>>, pacman_out: Option<&str>) -> (r: String)
        ensures
            r@ == spec_count(match entries {
                Some(e) => Some(entry_views(e@)),
                None => None,
            }, text::opt_view(pacman_out)),
    {
        let n: usize = match entries {
            Some(es) => {
                let ghost ev = entry_views(es@);
                let mut n: usize = 0;
                let mut i: usize = 0;
                while i < es.len()
                    invariant
                        i <= es.len(),
                        ev == entry_views(es@),
                        n == package_dirs(ev.take(i as int)),
                        n <= i,
                    decreases es.len() - i,
                {
                    let is_pkg = es[i].1 && !text::same(&text::chars_of(es[i].0.as_str()), &text::lit("ALPM_DB_VERSION"));
                    assert(ev.take(i + 1).drop_last() =~= ev.take(i as int));
                    assert(ev[i as int] == (es@[i as int].0@, es@[i as int].1));
                    if is_pkg {
                        n += 1;
                    }
                    i += 1;
                }
                assert(ev.take(es.len() as int) =~= ev);
                n
            },
            None => 0,
        };
        if n > 0 {
            return text::string_of(&num::nat_to_digits(n as u64));
        }
        match pacman_out {
            Some(t) => {
                let ls = text::lines_of(t);
                text::string_of(&num::nat_to_digits(ls.len() as u64))
            },
            None => "0".to_string(),
        }
    }
}

} // verus!
