//! Dynamic colours taken from the wallpaper with `wal`: the switch in the
//! settings, the wallpaper to read, and the colours picked from the palette.
use vstd::prelude::*;
use crate::text;
use crate::services::settings::{self, get_bool, spec_get_bool, member_at, Json, JsonV};

verus! {

/// A string colour of a palette section (`colors` or `special`) when the
/// section is an object.
pub open spec fn palette_color(palette: JsonV, section: Seq<char>, name: Seq<char>) -> Option<Seq<char>> {
    match member_at(palette, section) {
        Some(JsonV::Obj(m)) => match settings::lookup(m, name) {
            Some(JsonV::Str(s)) => Some(s),
            _ => None,
        },
        _ => None,
    }
}

pub open spec fn first_of(a: Option<Seq<char>>, b: Seq<char>) -> Seq<char> {
    match a {
        Some(x) => x,
        None => b,
    }
}

/// The accent (`color1`, else `color4`, else the foreground, else orange),
/// the background and the foreground of a `wal` palette.
pub open spec fn spec_palette_colors(p: JsonV) -> (Seq<char>, Seq<char>, Seq<char>) {
    let accent = match palette_color(p, "colors"@, "color1"@) {
        Some(c) => c,
        None => match palette_color(p, "colors"@, "color4"@) {
            Some(c) => c,
            None => first_of(palette_color(p, "special"@, "foreground"@), "#DE8636"@),
        },
    };
    (
        accent,
        first_of(palette_color(p, "special"@, "background"@), "#111827"@),
        first_of(palette_color(p, "special"@, "foreground"@), "#F8FAFC"@),
    )
}

fn color_of(p: &Json, section: &str, name: &str) -> (r: Option<String>)
    ensures
        match r {
            Some(c) => palette_color(p@, section@, name@) == Some(c@),
            None => palette_color(p@, section@, name@) is None,
        },
{
    match p {
        Json::Object(m) => {
            let i = settings::member_of(m, &text::lit(section));
            proof {
                settings::lemma_jv_members(m@);
                settings::lemma_member_index(settings::jv_members(m@), section@);
            }
            if i >= m.len() {
                return None;
            }
            match &m[i].1 {
                Json::Object(cm) => {
                    let j = settings::member_of(cm, &text::lit(name));
                    proof {
                        settings::lemma_jv_members(cm@);
                        settings::lemma_member_index(settings::jv_members(cm@), name@);
                    }
                    if j >= cm.len() {
                        return None;
                    }
                    match &cm[j].1 {
                        Json::Str(s) => Some(text::string_of(&text::chars_of(s.as_str()))),
                        _ => None,
                    }
                },
                _ => None,
            }
        },
        _ => None,
    }
}

/// Dynamic colours taken from the wallpaper.
pub struct PywalService;

impl PywalService {
    /// The palette from the cache file's text (`None` when it could not be
    /// read or is not JSON).
    pub fn read_cache_of(text: Option<&str>) -> (r: Option<Json>)
        ensures
            match r {
                Some(j) => settings::parsed_text(text::opt_view(text)) == Some(j@),
                None => settings::parsed_text(text::opt_view(text)) is None,
            },
    {
        settings::parse_text(text)
    }

    /// Whether the dynamic colours are on (off by default).
    pub fn enabled(settings: &Json) -> (r: bool)
        ensures
            r == spec_get_bool(settings@, "theme.dynamic_colors"@, false),
    {
        get_bool(settings, "theme.dynamic_colors", false)
    }

    /// The settings with the dynamic colours switched.
    pub fn toggle(settings: Json, value: bool) -> (r: Json)
        ensures
            r@ == settings::spec_set(settings@, "theme.dynamic_colors"@, JsonV::Bool(value)),
    {
        settings::set(settings, "theme.dynamic_colors", Json::Bool(value))
    }

    /// The wallpaper to take the colours from: the current one when it is a
    /// file, else the default one when that is a file, else none.
    pub fn current_wallpaper(path: &str, path_is_file: bool, default_is_file: bool) -> (r: Option<String>)
        ensures
            match r {
                Some(x) => if path@.len() > 0 && path_is_file {
                    x@ == path@
                } else {
                    default_is_file && x@ == "/usr/share/churros/wallpapers/default.jpeg"@
                },
                None => !(path@.len() > 0 && path_is_file) && !default_is_file,
            },
    {
        if text::chars_of(path).len() > 0 && path_is_file {
            Some(path.to_string())
        } else if default_is_file {
            Some("/usr/share/churros/wallpapers/default.jpeg".to_string())
        } else {
            None
        }
    }

    /// The command that makes the palette of a wallpaper.
    pub fn generate(wallpaper: &str) -> (r: Vec<String>)
        ensures
            text::string_views(r@) == seq!["wal"@, "-q"@, "-i"@, wallpaper@, "-n"@, "-e"@],
    {
        let r = text::strings_of(&["wal", "-q", "-i", wallpaper, "-n", "-e"]);
        assert(["wal", "-q", "-i", wallpaper, "-n", "-e"]@.map_values(|s: &str| s@) =~= seq![
            "wal"@,
            "-q"@,
            "-i"@,
            wallpaper@,
            "-n"@,
            "-e"@,
        ]);
        r
    }

    /// The accent, background and foreground to apply from a palette
    /// (`colors.json` of `wal`).
    pub fn apply_accent(palette: &Json) -> (r: (String, String, String))
        ensures
            (r.0@, r.1@, r.2@) == spec_palette_colors(palette@),
    {
        let fg = color_of(palette, "special", "foreground");
        let accent = match color_of(palette, "colors", "color1") {
            Some(c) => c,
            None => match color_of(palette, "colors", "color4") {
                Some(c) => c,
                None => match &fg {
                    Some(f) => text::string_of(&text::chars_of(f.as_str())),
                    None => "#DE8636".to_string(),
                },
            },
        };
        let bg = match color_of(palette, "special", "background") {
            Some(c) => c,
            None => "#111827".to_string(),
        };
        let f = match fg {
            Some(c) => c,
            None => "#F8FAFC".to_string(),
        };
        (accent, bg, f)
    }
}

} // verus!
