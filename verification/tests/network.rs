use crawlds::ipc::events::NetEvent;
use crawlds::ipc::types::{
    ActiveWifiDetails, HotspotBackend, HotspotClient, HotspotStatus, NetMode, WifiNetwork,
};
use crawlds::network::details_ssid;
use crawlds::network::{
    build_net_status, frequency_band_label, hotspot_changes, HotspotChange, frequency_channel, ipv4_to_string, nm_connectivity_str,
    nm_device_state_str, ssid_to_string, wifi_security_label, DeviceReport, NetworkSnapshot,
    NetworkState, NM_DEVICE_TYPE_ETHERNET, NM_DEVICE_TYPE_WIFI,
};
use crawlds::wifi::{
    ethernet_speed_label, merge_networks, network_entry, parse_sysfs_speed,
    upstream_from_route_output, NetworkCache, WIFI_DETAILS_TTL_MS, WIFI_LIST_TTL_MS,
};

#[test]
fn connectivity_labels() {
    assert_eq!(nm_connectivity_str(4), "full");
    assert_eq!(nm_connectivity_str(3), "limited");
    assert_eq!(nm_connectivity_str(2), "portal");
    assert_eq!(nm_connectivity_str(1), "none");
    assert_eq!(nm_connectivity_str(0), "unknown");
    assert_eq!(nm_connectivity_str(77), "unknown");
}

#[test]
fn device_state_labels() {
    assert_eq!(nm_device_state_str(100), "activated");
    assert_eq!(nm_device_state_str(30), "disconnected");
    assert_eq!(nm_device_state_str(10), "unmanaged");
    assert_eq!(nm_device_state_str(15), "unknown");
}

#[test]
fn security_labels() {
    assert_eq!(wifi_security_label(0, 0, 0), "open");
    assert_eq!(wifi_security_label(1, 4, 8), "wpa2");
    assert_eq!(wifi_security_label(1, 4, 0), "wpa");
    assert_eq!(wifi_security_label(1, 0, 0), "secured");
}

#[test]
fn bands_and_channels() {
    assert_eq!(frequency_band_label(2437).as_deref(), Some("2.4GHz"));
    assert_eq!(frequency_band_label(5180).as_deref(), Some("5GHz"));
    assert_eq!(frequency_band_label(6115).as_deref(), Some("6GHz"));
    assert_eq!(frequency_band_label(900), None);
    assert_eq!(frequency_channel(2412), Some(1));
    assert_eq!(frequency_channel(2484), Some(14));
    assert_eq!(frequency_channel(5180), Some(36));
    assert_eq!(frequency_channel(6115), Some(33));
    assert_eq!(frequency_channel(2500), None);
}

#[test]
fn ssid_and_ipv4_text() {
    assert_eq!(ssid_to_string(b"\0home\0\0"), "home");
    assert_eq!(ssid_to_string(b"cafe"), "cafe");
    assert_eq!(ipv4_to_string(0xC0A8_0001), "192.168.0.1");
    assert_eq!(ipv4_to_string(0), "0.0.0.0");
}

fn device(iface: &str, state: u32, device_type: u32, ssid: Option<&str>) -> DeviceReport {
    DeviceReport {
        iface: iface.to_string(),
        state,
        ip4_raw: 0x0A00_0002,
        mac: Some("aa:bb".to_string()),
        device_type,
        ap_ssid: ssid.map(|s| s.to_string()),
    }
}

#[test]
fn status_from_devices() {
    let devices = vec![
        device("lo", 100, 14, None),
        device("wlan0", 100, NM_DEVICE_TYPE_WIFI, Some("home")),
        device("eth0", 30, NM_DEVICE_TYPE_ETHERNET, None),
    ];
    let s = build_net_status(4, true, true, &devices);
    assert_eq!(s.connectivity, "full");
    assert!(s.wifi_available);
    assert!(s.ethernet_available);
    assert_eq!(s.active_ssid.as_deref(), Some("home"));
    assert!(matches!(s.mode, NetMode::Station));
    assert_eq!(s.interfaces.len(), 2);
    assert_eq!(s.interfaces[0].name, "wlan0");
    assert_eq!(s.interfaces[0].state, "activated");
    assert_eq!(s.interfaces[0].ip4.as_deref(), Some("10.0.0.2"));
    assert_eq!(s.interfaces[1].name, "eth0");
    assert_eq!(s.interfaces[1].state, "disconnected");
}

#[test]
fn first_snapshot_reports_everything() {
    let devices = vec![device("wlan0", 100, NM_DEVICE_TYPE_WIFI, Some("home"))];
    let state = NetworkState::new();
    let snapshot = NetworkSnapshot { status: build_net_status(4, true, true, &devices) };
    let events = state.diff_events(&snapshot);
    assert_eq!(events.len(), 4);
    assert!(matches!(&events[0], NetEvent::ConnectivityChanged { state } if state == "full"));
    assert!(matches!(events[1], NetEvent::WifiEnabled));
    assert!(matches!(events[2], NetEvent::ModeChanged { mode: NetMode::Station }));
    assert!(matches!(&events[3], NetEvent::Connected { ssid: Some(s), iface } if s == "home" && iface == "wlan0"));
}

#[test]
fn unchanged_snapshot_reports_only_the_connection() {
    let devices = vec![device("wlan0", 100, NM_DEVICE_TYPE_WIFI, None)];
    let mut state = NetworkState::new();
    state.set_snapshot(NetworkSnapshot { status: build_net_status(4, false, true, &devices) });
    let events = state.diff_events(&NetworkSnapshot { status: build_net_status(4, false, true, &devices) });
    assert!(events.is_empty());
    let events = state.diff_events(&NetworkSnapshot { status: build_net_status(3, true, true, &devices) });
    assert_eq!(events.len(), 2);
    assert!(matches!(&events[0], NetEvent::ConnectivityChanged { state } if state == "limited"));
    assert!(matches!(events[1], NetEvent::WifiEnabled));
}

fn net(ssid: &str, signal: u8, connected: bool) -> WifiNetwork {
    network_entry(ssid.to_string(), signal, 0, 0, 1, connected, false, Some(2437), None)
}

#[test]
fn network_entry_fields() {
    let n = network_entry("cafe".to_string(), 70, 1, 0, 0, false, true, Some(5180), Some("aa".into()));
    assert!(n.secured);
    assert!(n.password_required);
    assert!(n.existing);
    assert!(!n.cached);
    assert_eq!(n.security, "secured");
    let open = network_entry("x".to_string(), 10, 0, 0, 0, false, false, None, None);
    assert!(!open.secured);
    assert!(open.cached);
    assert_eq!(open.security, "open");
}

#[test]
fn merge_keeps_one_entry_per_network_strongest_first() {
    let out = merge_networks(vec![
        net("home", 40, false),
        net("", 99, false),
        net("cafe", 60, false),
        net("home", 70, false),
        net("office", 20, true),
        net("office", 90, false),
    ]);
    let names: Vec<(&str, u8)> = out.iter().map(|n| (n.ssid.as_str(), n.signal)).collect();
    assert_eq!(names, vec![("home", 70), ("cafe", 60), ("office", 20)]);
}

#[test]
fn merge_prefers_connected_access_point() {
    let out = merge_networks(vec![net("home", 80, false), net("home", 30, true), net("home", 90, false)]);
    assert_eq!(out.len(), 1);
    assert_eq!(out[0].signal, 30);
    assert!(out[0].connected);
}

#[test]
fn sysfs_speed_and_label() {
    assert_eq!(parse_sysfs_speed(" 1000\n"), Some(1000));
    assert_eq!(parse_sysfs_speed("0"), None);
    assert_eq!(parse_sysfs_speed("-1"), None);
    assert_eq!(parse_sysfs_speed(""), None);
    assert_eq!(ethernet_speed_label(Some(100), true, None).as_deref(), Some("100 Mb/s"));
    assert_eq!(ethernet_speed_label(Some(0), true, Some(1000)).as_deref(), Some("1000 Mb/s"));
    assert_eq!(ethernet_speed_label(None, true, None).as_deref(), Some("Unknown"));
    assert_eq!(ethernet_speed_label(None, false, Some(10)), None);
}

#[test]
fn wifi_list_served_from_cache_while_fresh() {
    let mut cache = NetworkCache::new();
    assert!(cache.cached_wifi_list(0).is_none());
    cache.store_wifi_list(vec![net("home", 70, true)], 1_000);
    assert_eq!(WIFI_LIST_TTL_MS, 5_000);
    let hit = cache.cached_wifi_list(5_999).expect("fresh list");
    assert_eq!(hit.len(), 1);
    assert_eq!(hit[0].ssid, "home");
    assert!(cache.cached_wifi_list(1_000).is_some());
    assert!(cache.cached_wifi_list(500).is_some());
    assert!(cache.cached_wifi_list(6_000).is_none());
    assert!(cache.cached_wifi_details(1_000).is_none());
}

#[test]
fn wifi_details_served_from_cache_while_fresh() {
    let mut cache = NetworkCache::default();
    let details = ActiveWifiDetails {
        ifname: Some("wlan0".to_string()),
        ssid: Some("home".to_string()),
        signal: Some(80),
        frequency_mhz: Some(2437),
        band: Some("2.4 GHz".to_string()),
        channel: Some(6),
        rate_mbps: None,
        ip4: None,
        ip6: vec![],
        gateway4: None,
        gateway6: vec![],
        dns4: vec![],
        dns6: vec![],
        security: None,
        bssid: None,
        mac: None,
    };
    cache.store_wifi_details(details, 10_000);
    assert_eq!(WIFI_DETAILS_TTL_MS, 5_000);
    assert_eq!(cache.cached_wifi_details(14_999).and_then(|d| d.ssid.clone()), Some("home".to_string()));
    assert!(cache.cached_wifi_details(15_000).is_none());
    assert!(cache.cached_wifi_list(10_000).is_none());
}

#[test]
fn upstream_interface_from_route_output() {
    assert_eq!(upstream_from_route_output(Some(b"wlan0\n")), "wlan0");
    assert_eq!(upstream_from_route_output(Some(b"  \n")), "unknown");
    assert_eq!(upstream_from_route_output(None), "unknown");
}

fn hotspot(active: bool, macs: &[&str]) -> HotspotStatus {
    HotspotStatus {
        active,
        ssid: Some("ap".to_string()),
        iface: Some("wlan1".to_string()),
        band: Some("bg".to_string()),
        channel: Some(6),
        clients: macs.iter().map(|m| HotspotClient { mac: m.to_string(), ip: None }).collect(),
        backend: HotspotBackend::NetworkManager,
        supports_virtual_ap: true,
    }
}

#[test]
fn hotspot_start_join_leave_stop() {
    let started = hotspot_changes(&None, &hotspot(true, &[]));
    assert_eq!(started, vec![HotspotChange::Started, HotspotChange::StatusChanged]);
    let prev = Some(hotspot(true, &["aa", "bb"]));
    let now = hotspot(true, &["bb", "cc"]);
    assert_eq!(
        hotspot_changes(&prev, &now),
        vec![HotspotChange::ClientJoined(1), HotspotChange::ClientLeft(0), HotspotChange::StatusChanged]
    );
    assert_eq!(hotspot_changes(&Some(now.clone()), &now), vec![]);
    assert_eq!(hotspot_changes(&Some(now), &hotspot(false, &[])), vec![HotspotChange::Stopped]);
    assert_eq!(hotspot_changes(&None, &hotspot(false, &[])), vec![]);
}

#[test]
fn default_network_settings() {
    let c = crawlds::network::Config::default();
    assert!(!c.wifi_scan_on_start);
    assert_eq!(c.wifi_scan_finish_delay_ms, 0);
    assert!(c.hotspot_backend.is_none());
    assert!(!c.hotspot_virtual_iface);
}

#[test]
fn details_ssid_falls_back_to_the_interface() {
    assert_eq!(details_ssid(Some(b"Home\0\0"), "wlan0"), Some("Home".to_string()));
    assert_eq!(details_ssid(Some(b"\0\0"), "wlan0"), Some("wlan0".to_string()));
    assert_eq!(details_ssid(None, "wlan0"), Some("wlan0".to_string()));
    assert_eq!(details_ssid(None, ""), None);
    assert_eq!(details_ssid(Some(b""), ""), None);
}
