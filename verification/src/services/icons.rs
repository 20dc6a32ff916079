//! The icon theme page: the theme in the desktop settings, GTK's
//! `settings.ini` and the running session.
use vstd::prelude::*;
use crate::text;
use crate::services::settings::{self, Json, JsonV};
use crate::services::gtk_settings;
use crate::services::cursor::{self, spec_current, command_views, pair_views, Changes};

verus! {

/// The icon theme page's services.
pub struct IconsService;

impl IconsService {
    /// Where icon themes are looked for.
    pub fn icon_dirs(home: &str) -> (r: Vec<String>)
        ensures
            text::string_views(r@) == gtk_settings::theme_dirs(home@),
    {
        gtk_settings::theme_dirs_of(home)
    }

    /// The theme: `icons.theme` of the settings, else the GTK 3
    /// `settings.ini` (its text, when the file is there), else `Adwaita`.
    pub fn current(data: &Json, ini: Option<&str>) -> (r: String)
        ensures
            r@ == spec_current(data@, text::opt_view(ini), "icons.theme"@, "gtk-icon-theme-name="@, "Adwaita"@),
    {
        cursor::current_theme(data, ini, "icons.theme", "gtk-icon-theme-name=", "Adwaita")
    }

    /// Sets the theme: the settings, `settings.ini` and the session.
    pub fn set(data: Json, theme: &str) -> (r: Changes)
        ensures
            r.0@ == settings::spec_set(data@, "icons.theme"@, JsonV::Str(theme@)),
            pair_views(r.1@) == seq![("gtk-icon-theme-name"@, theme@)],
            command_views(r.2@) == seq![seq!["gsettings"@, "set"@, "org.gnome.desktop.interface"@, "icon-theme"@, theme@]],
    {
        let d = settings::set(data, "icons.theme", Json::Str(theme.to_string()));
        let mut ini: Vec<(String, String)> = Vec::new();
        ini.push(("gtk-icon-theme-name".to_string(), theme.to_string()));
        assert(pair_views(ini@) =~= seq![("gtk-icon-theme-name"@, theme@)]);
        let c = text::strings_of(&["gsettings", "set", "org.gnome.desktop.interface", "icon-theme", theme]);
        assert(["gsettings", "set", "org.gnome.desktop.interface", "icon-theme", theme]@.map_values(|s: &str| s@)
            =~= seq!["gsettings"@, "set"@, "org.gnome.desktop.interface"@, "icon-theme"@, theme@]);
        let mut cmds: Vec<Vec<String>> = Vec::new();
        cmds.push(c);
        assert(command_views(cmds@) =~= seq![seq!["gsettings"@, "set"@, "org.gnome.desktop.interface"@, "icon-theme"@, theme@]]);
        (d, ini, cmds)
    }

    /// The themes found (the names of the theme directories that hold an
    /// `index.theme`), sorted, each once.
    pub fn available(names: &Vec<String>) -> (r: Vec<String>)
        ensures
            text::strictly_sorted(text::string_views(r@)),
            text::string_views(r@).to_set() == text::string_views(names@).to_set(),
    {
        text::sorted_unique(names)
    }
}

} // verus!
