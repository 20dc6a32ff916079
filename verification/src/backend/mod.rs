pub mod dev;
pub mod jsonc;
pub mod waybar_style;
pub mod wifi;
pub mod bluetooth;
pub mod audio;
pub mod ethernet;
