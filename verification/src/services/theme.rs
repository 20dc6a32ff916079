//! Light and dark: the flag file, the desktop settings, GTK's
//! `settings.ini` and the signals that other programs reload on. Writing
//! the files and running the commands stay outside.
use vstd::prelude::*;
use crate::text;
use crate::services::settings::{self, Json, JsonV};

verus! {

/// Whether a line of `settings.ini` picks the old dark GTK theme.
pub open spec fn is_dark_theme_line(l: Seq<char>) -> bool {
    text::trim(l) == "gtk-theme-name=Adwaita-dark"@
}

/// `settings.ini` with `Adwaita-dark` changed to `Adwaita`, when a line
/// picks it (none, so that nothing is written, otherwise).
pub open spec fn spec_migrate(content: Seq<char>) -> Option<Seq<char>> {
    let ls = text::lines(content);
    if exists|i: int| 0 <= i < ls.len() && is_dark_theme_line(#[trigger] ls[i]) {
        Some(text::replace_all(content, "gtk-theme-name=Adwaita-dark"@, "gtk-theme-name=Adwaita"@))
    } else {
        None
    }
}

/// Dark or light: the flag file when it is there (`1` is dark), else the
/// settings' `theme.dark` when it is a boolean, else dark.
pub open spec fn spec_is_dark(flag: Option<Seq<char>>, data: JsonV) -> bool {
    match flag {
        Some(c) => text::trim(c) == "1"@,
        None => match settings::spec_get(data, "theme.dark"@, JsonV::Null) {
            JsonV::Bool(b) => b,
            _ => true,
        },
    }
}

pub open spec fn flag_text(dark: bool) -> Seq<char> {
    if dark {
        "1"@
    } else {
        "0"@
    }
}

/// The `settings.ini` keys that other programs read: (GTK directory, key,
/// value).
pub open spec fn spec_persist_ini(dark: bool) -> Seq<(Seq<char>, Seq<char>, Seq<char>)> {
    seq![
        ("gtk-3.0"@, "gtk-application-prefer-dark-theme"@, flag_text(dark)),
        ("gtk-3.0"@, "gtk-theme-name"@, "Adwaita"@),
        ("gtk-4.0"@, "gtk-application-prefer-dark-theme"@, flag_text(dark)),
    ]
}

/// The GNOME colour scheme, and the signals that make the bar and the
/// terminal reload.
pub open spec fn spec_persist_commands(dark: bool) -> Seq<Seq<Seq<char>>> {
    seq![
        seq!["gsettings"@, "set"@, "org.gnome.desktop.interface"@, "color-scheme"@, if dark {
            "prefer-dark"@
        } else {
            "prefer-light"@
        }],
        seq!["pkill"@, "-SIGUSR2"@, "waybar"@],
        seq!["pkill"@, if dark { "-SIGUSR1"@ } else { "-SIGUSR2"@ }, "foot"@],
    ]
}

/// What a switch writes reads back: after switching to `dark`, the theme is
/// `dark` by the new flag file, and also by the new settings alone (when the
/// flag file is gone), on a settings document that is an object.
pub proof fn law_switch_reads_back(data: JsonV, dark: bool)
    requires
        data is Obj,
    ensures
        spec_is_dark(Some(flag_text(dark)), settings::spec_set(data, "theme.dark"@, JsonV::Bool(dark))) == dark,
        spec_is_dark(None, settings::spec_set(data, "theme.dark"@, JsonV::Bool(dark))) == dark,
{
    reveal_strlit("1");
    reveal_strlit("0");
    let f = flag_text(dark);
    assert(f.len() == 1);
    assert(!text::is_ws(f[0]));
    assert(f.drop_first().len() == 0);
    assert(text::trim_start(f) == f);
    assert(text::trim_end(f) == f);
    assert(text::trim(f) == f);
    settings::law_get_after_set(data, "theme.dark"@, JsonV::Bool(dark), JsonV::Null);
}

pub open spec fn triple_views(v: Seq<(String, String, String)>) -> Seq<(Seq<char>, Seq<char>, Seq<char>)> {
    v.map_values(|t: (String, String, String)| (t.0@, t.1@, t.2@))
}

fn flag_of(dark: bool) -> (r: String)
    ensures
        r@ == flag_text(dark),
{
    if dark {
        "1".to_string()
    } else {
        "0".to_string()
    }
}

/// The theme page's services.
pub struct ThemeService;

impl ThemeService {
    /// `settings.ini` (its text) with the old dark GTK theme replaced, or
    /// none when it does not pick it.
    pub fn migrate_adwaita_dark_ini(content: &str) -> (r: Option<String>)
        ensures
            match r {
                Some(t) => spec_migrate(content@) == Some(t@),
                None => spec_migrate(content@) is None,
            },
    {
        let ls = text::lines_of(content);
        let ghost lv = text::views(ls@);
        let target = text::lit("gtk-theme-name=Adwaita-dark");
        let mut i: usize = 0;
        while i < ls.len()
            invariant
                i <= ls.len(),
                lv == text::views(ls@),
                lv == text::lines(content@),
                target@ == "gtk-theme-name=Adwaita-dark"@,
                forall|k: int| 0 <= k < i ==> !is_dark_theme_line(#[trigger] lv[k]),
            decreases ls.len() - i,
        {
            assert(ls@[i as int]@ == lv[i as int]);
            if text::same(&text::trimmed(&ls[i]), &target) {
                assert(is_dark_theme_line(lv[i as int]));
                let r = text::replace_chars(&text::chars_of(content), &target, &text::lit("gtk-theme-name=Adwaita"));
                return Some(text::string_of(&r));
            }
            i += 1;
        }
        None
    }

    /// What to run before GTK starts, from what `gsettings get
    /// org.gnome.desktop.interface gtk-theme` printed: the reset to
    /// `Adwaita` when it names `Adwaita-dark`.
    pub fn migrate_before_gtk(gsettings_out: &str) -> (r: Option<Vec<String>>)
        ensures
            match r {
                Some(c) => text::contains(gsettings_out@, "Adwaita-dark"@)
                    && text::string_views(c@) == seq!["gsettings"@, "set"@, "org.gnome.desktop.interface"@, "gtk-theme"@, "Adwaita"@],
                None => !text::contains(gsettings_out@, "Adwaita-dark"@),
            },
    {
        if text::has(&text::chars_of(gsettings_out), &text::lit("Adwaita-dark")) {
            let c = text::strings_of(&["gsettings", "set", "org.gnome.desktop.interface", "gtk-theme", "Adwaita"]);
            assert(["gsettings", "set", "org.gnome.desktop.interface", "gtk-theme", "Adwaita"]@.map_values(|s: &str| s@)
                =~= seq!["gsettings"@, "set"@, "org.gnome.desktop.interface"@, "gtk-theme"@, "Adwaita"@]);
            Some(c)
        } else {
            None
        }
    }

    /// Dark or light, from the flag file (its text, when it is there) and
    /// the settings.
    pub fn is_dark(flag: Option<&str>, data: &Json) -> (r: bool)
        ensures
            r == spec_is_dark(text::opt_view(flag), data@),
    {
        match flag {
            Some(c) => text::same(&text::trimmed(&text::chars_of(c)), &text::lit("1")),
            None => match settings::get(settings::copy_json(data), "theme.dark", Json::Null) {
                Json::Bool(b) => b,
                _ => true,
            },
        }
    }

    /// Switches to dark or light: nothing when the theme already is so,
    /// else the new settings and the new text of the flag file.
    pub fn set(data: Json, dark_now: bool, dark: bool) -> (r: Option<(Json, String)>)
        ensures
            match r {
                Some((d, f)) => dark_now != dark && d@ == settings::spec_set(data@, "theme.dark"@, JsonV::Bool(dark))
                    && f@ == flag_text(dark),
                None => dark_now == dark,
            },
    {
        if dark_now == dark {
            return None;
        }
        Some((settings::set(data, "theme.dark", Json::Bool(dark)), flag_of(dark)))
    }

    /// Switches to the other theme.
    pub fn toggle(data: Json, dark_now: bool) -> (r: (Json, String))
        ensures
            r.0@ == settings::spec_set(data@, "theme.dark"@, JsonV::Bool(!dark_now)),
            r.1@ == flag_text(!dark_now),
    {
        (settings::set(data, "theme.dark", Json::Bool(!dark_now)), flag_of(!dark_now))
    }

    /// The `settings.ini` keys that other programs read.
    pub fn persist_ini(dark: bool) -> (r: Vec<(String, String, String)>)
        ensures
            triple_views(r@) == spec_persist_ini(dark),
    {
        let mut r: Vec<(String, String, String)> = Vec::new();
        r.push(("gtk-3.0".to_string(), "gtk-application-prefer-dark-theme".to_string(), flag_of(dark)));
        r.push(("gtk-3.0".to_string(), "gtk-theme-name".to_string(), "Adwaita".to_string()));
        r.push(("gtk-4.0".to_string(), "gtk-application-prefer-dark-theme".to_string(), flag_of(dark)));
        assert(triple_views(r@) =~= spec_persist_ini(dark));
        r
    }

    /// The commands that tell the rest of the desktop.
    pub fn persist_commands(dark: bool) -> (r: Vec<Vec<String>>)
        ensures
            r@.map_values(|c: Vec<String>| text::string_views(c@)) == spec_persist_commands(dark),
    {
        let scheme = if dark { "prefer-dark" } else { "prefer-light" };
        let sig = if dark { "-SIGUSR1" } else { "-SIGUSR2" };
        let a = text::strings_of(&["gsettings", "set", "org.gnome.desktop.interface", "color-scheme", scheme]);
        let b = text::strings_of(&["pkill", "-SIGUSR2", "waybar"]);
        let c = text::strings_of(&["pkill", sig, "foot"]);
        assert(["gsettings", "set", "org.gnome.desktop.interface", "color-scheme", scheme]@.map_values(|s: &str| s@)
            =~= seq!["gsettings"@, "set"@, "org.gnome.desktop.interface"@, "color-scheme"@, scheme@]);
        assert(["pkill", "-SIGUSR2", "waybar"]@.map_values(|s: &str| s@) =~= seq!["pkill"@, "-SIGUSR2"@, "waybar"@]);
        assert(["pkill", sig, "foot"]@.map_values(|s: &str| s@) =~= seq!["pkill"@, sig@, "foot"@]);
        let mut r: Vec<Vec<String>> = Vec::new();
        r.push(a);
        r.push(b);
        r.push(c);
        assert(r@.map_values(|c: Vec<String>| text::string_views(c@)) =~= spec_persist_commands(dark));
        r
    }
}

} // verus!
