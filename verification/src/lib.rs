//! Settings logic of the ChurrOS desktop: parsers and editors for the
//! configuration files of niri, mako, fuzzel and waybar, the decisions of the
//! preferences services, and the interpreters of the system tools output.
pub mod text;
pub mod num;
pub mod services;
pub mod backend;
pub mod widgets;
