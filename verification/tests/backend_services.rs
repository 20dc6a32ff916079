use churros::backend::{audio, bluetooth, ethernet, wifi};

#[test]
fn wifi_readers() {
    assert!(wifi::available(0, "lo:loopback\nwlan0:wifi\n"));
    assert!(!wifi::available(0, "eth0:ethernet\n"));
    assert!(!wifi::available(1, "wlan0:wifi\n"));
    assert!(wifi::enabled(0, " Enabled\n"));
    assert!(!wifi::enabled(0, "disabled"));
    assert_eq!(wifi::parse_escaped("yes:My\\:Net:80:WPA2"), vec!["yes", "My:Net", "80", "WPA2"]);
    assert_eq!(wifi::saved_networks(0, "Home:802-11-wireless\nWired:802-3-ethernet\n"), vec!["Home"]);
    assert!(wifi::saved_networks(1, "Home:802-11-wireless").is_empty());
}

#[test]
fn wifi_get_sorts_and_dedups() {
    let list = "no:Cafe:40:WPA2\nyes:Home:60:WPA2\nno:Cafe:90:WPA2\n\nno::30:\nno:Office:70:WPA1\n";
    let saved = vec!["Office".to_string()];
    let info = wifi::get(true, true, 0, list, &saved);
    assert_eq!(info.connected.as_deref(), Some("Home"));
    let names: Vec<&str> = info.networks.iter().map(|n| n.ssid.as_str()).collect();
    assert_eq!(names, vec!["Home", "Office", "Cafe", "Hidden Network"]);
    assert_eq!(info.networks[2].signal, 40);
    assert!(info.networks[1].saved);
    let off = wifi::get(true, false, 0, list, &saved);
    assert!(off.networks.is_empty() && off.connected.is_none());
}

#[test]
fn wifi_commands() {
    assert_eq!(wifi::connect("Home", Some("pw")), vec!["nmcli", "device", "wifi", "connect", "Home", "password", "pw"]);
    assert_eq!(wifi::connect("Home", None), vec!["nmcli", "device", "wifi", "connect", "Home"]);
    let (add, up) = wifi::connect_hidden("H", None);
    assert_eq!(add[8], "H");
    assert_eq!(up, vec!["nmcli", "connection", "up", "H"]);
    assert_eq!(wifi::disconnect(0, "eth0:ethernet\nwlp2s0:wifi\n"), Some(vec!["nmcli".to_string(), "device".to_string(), "disconnect".to_string(), "wlp2s0".to_string()]));
    assert_eq!(wifi::disconnect(0, "eth0:ethernet\n"), None);
    assert_eq!(wifi::toggle(true), vec!["nmcli", "radio", "wifi", "off"]);
    assert_eq!(wifi::forget("X"), vec!["nmcli", "connection", "delete", "X"]);
    assert_eq!(wifi::scan(), vec!["nmcli", "device", "wifi", "rescan"]);
}

#[test]
fn wifi_connect_errors() {
    assert_eq!(wifi::connect_error(0, "whatever"), (true, String::new()));
    assert_eq!(wifi::connect_error(4, "Secrets were required, but not provided"), (false, "Password required.".to_string()));
    assert_eq!(wifi::connect_error(4, "INVALID key"), (false, "Incorrect password.".to_string()));
    assert_eq!(wifi::connect_error(4, "Activation failed"), (false, "Unable to connect.".to_string()));
    assert_eq!(wifi::connect_error(4, "boom"), (false, "Unknown error.".to_string()));
    assert_eq!(wifi::hidden_outcome(1, 0, ""), (false, "Failed to create hidden profile.".to_string()));
}

#[test]
fn bluetooth_readers() {
    assert!(bluetooth::available(false, true, None));
    assert!(!bluetooth::available(true, true, Some("No default controller available")));
    assert!(bluetooth::available(true, false, Some("Controller AA")));
    assert!(bluetooth::is_enabled(true, Some("Controller AA\n\tPowered: yes\n")));
    assert!(!bluetooth::is_enabled(true, Some("\tPowered: no\n")));
    assert!(!bluetooth::is_enabled(false, Some("\tPowered: yes\n")));
    assert!(bluetooth::is_blocked(true, true, Some("0: hci0\n\tSoft blocked: yes\n")));
    let out = "Device AA:BB JBL Flip 5\nDevice CC:DD x\nnoise\n";
    assert_eq!(bluetooth::device_addresses(out), vec!["AA:BB"]);
    let infos = vec![Some("\tConnected: yes\n".to_string())];
    let ds = bluetooth::list_devices(true, Some(out), &infos);
    assert_eq!(ds.len(), 1);
    assert_eq!(ds[0].name, "Flip 5");
    assert!(ds[0].connected);
    assert_eq!(bluetooth::connected_device(true, Some("Device AA:BB  My Phone \n")).as_deref(), Some("My Phone"));
    assert_eq!(bluetooth::connect(false, "AA"), None);
    assert_eq!(bluetooth::connect(true, "AA"), Some(vec!["bluetoothctl".to_string(), "connect".to_string(), "AA".to_string()]));
}

#[test]
fn audio_readers_and_commands() {
    let status = "Audio\n ├─ Sinks:\n │  *   50. Speakers [vol: 0.85]\n │      52. HDMI\n │\n ├─ Sources:\n │  *   60. Mic\n\nVideo\n";
    let sinks = audio::list_sinks(Some(status));
    assert_eq!(sinks.len(), 2);
    assert_eq!((sinks[0].id, sinks[0].name.as_str(), sinks[0].default), (50, "Speakers", true));
    assert_eq!((sinks[1].id, sinks[1].name.as_str(), sinks[1].default), (52, "HDMI", false));
    let sources = audio::list_sources(Some(status));
    assert_eq!(sources.len(), 1);
    assert_eq!(sources[0].name, "Mic");
    assert!(audio::list_sinks(None).is_empty());
    assert!(audio::is_muted(Some("Volume: 0.40 [MUTED]\n")));
    assert!(!audio::is_input_muted(Some("Volume: 0.40\n")));
    assert_eq!(audio::set_volume(55), vec!["wpctl", "set-volume", "@DEFAULT_AUDIO_SINK@", "55%"]);
    assert_eq!(audio::set_input_mute(true), vec!["wpctl", "set-mute", "@DEFAULT_AUDIO_SOURCE@", "1"]);
    assert_eq!(audio::set_default_sink(52), vec!["wpctl", "set-default", "52"]);
}

#[test]
fn ethernet_readers() {
    let info = ethernet::get(0, "wlan0:wifi:connected:Home\nenp3s0:ethernet:connected:Wired connection 1\n");
    assert!(info.available && info.connected);
    assert_eq!(info.device.as_deref(), Some("enp3s0"));
    assert_eq!(info.connection, "Wired connection 1");
    let none = ethernet::get(0, "wlan0:wifi:connected:Home\n");
    assert!(!none.available && none.device.is_none());
    assert_eq!(ethernet::ip(0, "2: enp3s0: <UP>\n    inet 192.168.1.5/24 brd 192.168.1.255\n").as_deref(), Some("192.168.1.5/24"));
    assert_eq!(ethernet::speed(" 1000\n"), Some(1000));
    assert_eq!(ethernet::speed("-1"), None);
    assert_eq!(ethernet::disconnect(&info), Some(vec!["nmcli".to_string(), "device".to_string(), "disconnect".to_string(), "enp3s0".to_string()]));
    assert_eq!(ethernet::connect(&none), None);
}

#[test]
fn wifi_link_from_iw() {
    let out = "Connected to aa:bb:cc:dd:ee:ff (on wlan0)\n\tSSID: Home\n\tfreq: 2437\n\trx bitrate: 65.0 MBit/s\n\tsignal: -60 dBm\n\ttx bitrate: 72.2 MBit/s VHT-MCS 7\n";
    let a = wifi::iw_active(0, out, "wlan0").expect("link");
    assert!(a.connected);
    assert_eq!(a.ssid, "Home");
    assert_eq!(a.signal, 80);
    assert_eq!(a.speed, "72.2 MBit/s");
    assert_eq!(a.device, "wlan0");
    assert!(wifi::iw_active(0, "Not connected.\n", "wlan0").is_none());
    assert!(wifi::iw_active(1, out, "wlan0").is_none());
    assert!(wifi::iw_active(0, "SSID: \n", "wlan0").is_none());
    assert_eq!(wifi::signal_percent(-100), 0);
    assert_eq!(wifi::signal_percent(-120), 0);
    assert_eq!(wifi::signal_percent(-50), 100);
    assert_eq!(wifi::signal_percent(-30), 100);
    assert_eq!(wifi::signal_percent(-70), 60);
}

#[test]
fn wifi_link_from_list() {
    let out = " :Other:40:54 Mbit/s:wlan0\n*:Home\\:5G:70:130 Mbit/s:wlp2s0\n";
    let a = wifi::nmcli_active(0, out, "wlan0").expect("in use");
    assert_eq!(a.ssid, "Home:5G");
    assert_eq!(a.signal, 70);
    assert_eq!(a.speed, "130 Mbit/s");
    assert_eq!(a.device, "wlp2s0");
    let b = wifi::nmcli_active(0, "yes:Cafe:x", "wlan0").expect("in use");
    assert_eq!(b.ssid, "Cafe");
    assert_eq!(b.signal, 0);
    assert_eq!(b.speed, "");
    assert_eq!(b.device, "wlan0");
    assert!(wifi::nmcli_active(0, "no:Cafe:50\n", "wlan0").is_none());
    assert!(wifi::nmcli_active(4, out, "wlan0").is_none());
}

#[test]
fn interface_counters() {
    let dev = "Inter-|   Receive                |  Transmit\n face |bytes    packets errs drop fifo frame compressed multicast|bytes\n    lo: 10 1 0 0 0 0 0 0 10 1 0 0 0 0 0 0\n  wlan0: 1234 10 0 0 0 0 0 0 5678 20 0 0 0 0 0 0\n";
    let t = wifi::interface_bytes(dev, "wlan0").expect("counters");
    assert_eq!((t.rx_bytes, t.tx_bytes), (1234, 5678));
    assert!(wifi::interface_bytes(dev, "eth0").is_none());
    assert!(wifi::interface_bytes("wlan0: 1 2 3\n", "wlan0").is_none());
    assert!(wifi::interface_bytes("wlan0: x 0 0 0 0 0 0 0 5\nwlan0: 1 0 0 0 0 0 0 0 5\n", "wlan0").is_none());
}
