use churros::backend::dev::{bin_name, is_mutation};

#[test]
fn reads_are_live() {
    assert!(!is_mutation(&["nmcli", "-t", "-f", "DEVICE,TYPE", "device"]));
    assert!(!is_mutation(&["nmcli", "radio", "wifi"]));
    assert!(!is_mutation(&["wpctl", "status"]));
    assert!(!is_mutation(&["wpctl", "get-volume", "@DEFAULT_AUDIO_SINK@"]));
    assert!(!is_mutation(&["brightnessctl", "g"]));
    assert!(!is_mutation(&["bluetoothctl", "show"]));
    assert!(!is_mutation(&["bluetoothctl", "devices"]));
    assert!(!is_mutation(&["systemctl", "is-active", "NetworkManager"]));
    assert!(!is_mutation(&["systemctl", "--user", "is-enabled", "churros-update.timer"]));
    assert!(!is_mutation(&["gsettings", "get", "org.gnome.desktop.interface", "gtk-theme"]));
    assert!(!is_mutation(&["id", "-u"]));
    assert!(!is_mutation(&["swapon", "--show", "--noheadings"]));
    assert!(!is_mutation(&["rfkill", "list", "bluetooth"]));
    assert!(!is_mutation(&["pacman", "-Q"]));
    assert!(!is_mutation(&["sh", "-c", "command -v swaylock >/dev/null 2>&1"]));
}

#[test]
fn writes_are_dummy() {
    assert!(is_mutation(&["nmcli", "radio", "wifi", "off"]));
    assert!(is_mutation(&["nmcli", "device", "disconnect", "wlan0"]));
    assert!(is_mutation(&["nmcli", "device", "wifi", "connect", "x"]));
    assert!(is_mutation(&["wpctl", "set-volume", "@DEFAULT_AUDIO_SINK@", "50%"]));
    assert!(is_mutation(&["brightnessctl", "set", "50%"]));
    assert!(is_mutation(&["bluetoothctl", "power", "off"]));
    assert!(is_mutation(&["bluetoothctl", "connect", "AA:BB"]));
    assert!(is_mutation(&["systemctl", "poweroff"]));
    assert!(is_mutation(&["systemctl", "--user", "enable", "--now", "x.timer"]));
    assert!(is_mutation(&["gsettings", "set", "org.gnome.desktop.interface", "color-scheme", "prefer-dark"]));
    assert!(is_mutation(&["pkill", "waybar"]));
    assert!(is_mutation(&["pkexec", "calamares"]));
    assert!(is_mutation(&["loginctl", "lock-session"]));
    assert!(is_mutation(&["niri", "msg", "action", "quit"]));
    assert!(is_mutation(&["sh", "-c", "for pid in $(pgrep -x gnome-shell); do kill -USR1 $pid; done"]));
    assert!(is_mutation(&["foot", "-e", "sudo", "pacman", "-Syu"]));
    assert!(is_mutation(&["churros-apply-wallpaper", "/tmp/wp.jpg"]));
}

#[test]
fn program_is_the_file_name() {
    assert!(!is_mutation(&["/usr/bin/nmcli", "radio", "wifi"]));
    assert!(is_mutation(&["/usr/bin/nmcli", "radio", "wifi", "on"]));
    assert!(is_mutation(&[]));
    assert!(!is_mutation(&["nmcli", "-f"]));
    assert!(!is_mutation(&["bluetoothctl", "--timeout", "5", "devices"]));
    assert!(is_mutation(&["dconf", "write", "/a", "1"]));
    assert!(!is_mutation(&["dconf", "read", "/a"]));
}

#[test]
fn program_names_are_file_names() {
    assert_eq!(bin_name("/usr/bin/nmcli"), "nmcli");
    assert_eq!(bin_name("nmcli"), "nmcli");
    assert_eq!(bin_name("tools/bin/."), "bin");
    assert_eq!(bin_name("//x//y//"), "y");
    assert_eq!(bin_name(".."), "..");
    assert_eq!(bin_name("/"), "/");
    assert_eq!(bin_name(""), "");
}
