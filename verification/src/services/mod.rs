pub mod about;
pub mod ini;
pub mod kdl;
pub mod niri_config;
pub mod keyboard;
pub mod mako_config;
pub mod fuzzel_config;
pub mod power;
pub mod system;
pub mod applications;
pub mod settings;
pub mod privacy;
pub mod update;
pub mod pywal;
pub mod wallpaper;
pub mod connectivity;
pub mod audio;
pub mod window_rules;
pub mod display;
pub mod lock_screen;
pub mod gtk_settings;
pub mod cursor;
pub mod icons;
pub mod theme;
pub mod users;
pub mod logs;
pub mod backup;
pub mod glass;
pub mod path_order;
