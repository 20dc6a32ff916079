use churros::services::connectivity::ConnectivityService;

#[test]
fn running_needs_tool_and_active_unit() {
    assert!(ConnectivityService::nm_running(true, Some("active")));
    assert!(!ConnectivityService::nm_running(false, Some("active")));
    assert!(!ConnectivityService::nm_running(true, Some("inactive")));
    assert!(!ConnectivityService::nm_running(true, None));
    assert!(ConnectivityService::bt_running(true, Some("active")));
    assert!(!ConnectivityService::bt_running(true, Some("failed")));
}

#[test]
fn wifi_available_looks_for_a_wifi_device() {
    assert!(ConnectivityService::wifi_available(true, Some("ethernet\nwifi\nloopback")));
    assert!(!ConnectivityService::wifi_available(true, Some("ethernet\nloopback")));
    assert!(!ConnectivityService::wifi_available(false, Some("wifi")));
    assert!(!ConnectivityService::wifi_available(true, None));
}

#[test]
fn wifi_enabled_ignores_case() {
    assert!(ConnectivityService::wifi_enabled(true, Some("enabled")));
    assert!(ConnectivityService::wifi_enabled(true, Some("Enabled")));
    assert!(!ConnectivityService::wifi_enabled(true, Some("disabled")));
    assert!(!ConnectivityService::wifi_enabled(false, Some("enabled")));
}

#[test]
fn commands_of_the_radio() {
    assert_eq!(ConnectivityService::set_wifi(true), vec!["nmcli", "radio", "wifi", "on"]);
    assert_eq!(ConnectivityService::set_wifi(false), vec!["nmcli", "radio", "wifi", "off"]);
    assert_eq!(ConnectivityService::rescan_wifi(), vec!["nmcli", "device", "wifi", "rescan"]);
    assert_eq!(ConnectivityService::wifi_forget("Casa"), vec!["nmcli", "connection", "delete", "Casa"]);
    assert_eq!(
        ConnectivityService::wifi_connect("Casa", Some("pw")),
        vec!["nmcli", "device", "wifi", "connect", "Casa", "password", "pw"]
    );
    assert_eq!(
        ConnectivityService::wifi_connect("Casa", None),
        vec!["nmcli", "device", "wifi", "connect", "Casa"]
    );
}

#[test]
fn current_network_is_the_active_line() {
    let out = "no:Vecino\nyes:Casa:5G\nno:Otro";
    assert_eq!(ConnectivityService::current_network(true, Some(out)), Some("Casa:5G".to_string()));
    assert_eq!(ConnectivityService::current_network(true, Some("no:Vecino")), None);
    assert_eq!(ConnectivityService::current_network(false, Some(out)), None);
    assert_eq!(ConnectivityService::current_network(true, Some("yes")), Some(String::new()));
}

#[test]
fn saved_networks_are_wireless_connections() {
    let out = "Casa:802-11-wireless\nCable:802-3-ethernet\nBar\\:2:802-11-wireless";
    assert_eq!(ConnectivityService::saved_networks(0, out), vec!["Casa", "Bar:2"]);
    assert!(ConnectivityService::saved_networks(1, out).is_empty());
}

#[test]
fn networks_are_deduped_and_ordered() {
    let out = "no:Vecino:40:WPA2\nno:Casa:70:WPA2\nyes:Oficina:20:WPA2\nno:Vecino:90:WPA2\nno::10:\nno:Libre:-80:";
    let saved = vec!["Casa".to_string()];
    let nets = ConnectivityService::wifi_networks_full(0, out, &saved);
    let ssids: Vec<&str> = nets.iter().map(|n| n.ssid.as_str()).collect();
    assert_eq!(ssids, vec!["Oficina", "Casa", "Vecino", "Hidden Network", "Libre"]);
    assert!(nets[0].connected);
    assert!(nets[1].saved);
    assert_eq!(nets[2].signal, 40);
    assert_eq!(nets[4].signal, -80);
    assert_eq!(nets[0].security, "WPA2");
    assert!(ConnectivityService::wifi_networks_full(10, out, &saved).is_empty());
}

#[test]
fn disconnect_picks_the_wifi_device() {
    let out = "eth0:ethernet\nwlan0:wifi\nlo:loopback";
    assert_eq!(
        ConnectivityService::wifi_disconnect(0, out),
        Some(vec!["nmcli".to_string(), "device".to_string(), "disconnect".to_string(), "wlan0".to_string()])
    );
    assert_eq!(ConnectivityService::wifi_disconnect(0, "eth0:ethernet"), None);
    assert_eq!(ConnectivityService::wifi_disconnect(1, out), None);
}

#[test]
fn bluetooth_state_and_devices() {
    assert!(ConnectivityService::bluetooth_available(true, Some("Controller AA:BB churros [default]")));
    assert!(!ConnectivityService::bluetooth_available(true, Some("")));
    assert!(!ConnectivityService::bluetooth_available(false, Some("Controller")));
    let show = "Controller AA:BB\n\tName: churros\n\tPowered: Yes\n";
    assert!(ConnectivityService::bluetooth_enabled(true, Some(show)));
    assert!(!ConnectivityService::bluetooth_enabled(true, Some("\tPowered: no")));
    assert!(!ConnectivityService::bluetooth_enabled(false, Some(show)));
    assert_eq!(
        ConnectivityService::set_bluetooth(true, false),
        Some(vec!["bluetoothctl".to_string(), "power".to_string(), "off".to_string()])
    );
    assert_eq!(ConnectivityService::set_bluetooth(false, true), None);
    let devs = ConnectivityService::bluetooth_devices(
        true,
        Some("Device 11:22:33 Auriculares  Sony\nController AA:BB x\nDevice\nDevice 44:55"),
    );
    assert_eq!(devs.len(), 2);
    assert_eq!(devs[0].mac, "11:22:33");
    assert_eq!(devs[0].name, "Auriculares Sony");
    assert_eq!(devs[1].mac, "44:55");
    assert_eq!(devs[1].name, "");
    assert!(ConnectivityService::bluetooth_devices(false, Some("Device 11:22 x")).is_empty());
}

#[test]
fn network_list_once_in_order() {
    let out = "no:Cafe:40:WPA2\nno:Home:20:WPA2\nyes:Work:30:WPA2\nno:Cafe:90:WPA2\nno:Lab:70:\n";
    let saved = vec!["Home".to_string()];
    let nets = ConnectivityService::wifi_networks_full(0, out, &saved);
    let names: Vec<&str> = nets.iter().map(|n| n.ssid.as_str()).collect();
    assert_eq!(names, vec!["Work", "Home", "Lab", "Cafe"]);
    assert_eq!(nets[3].signal, 40);
}
