use crawlds::bluetooth::{connection_event, powers_on_at_start, Config};
use crawlds::ipc::events::BtEvent;
use crawlds::ipc::types::BtDevice;

fn device() -> BtDevice {
    BtDevice {
        address: "AA:BB:CC:DD:EE:FF".to_string(),
        name: Some("Headphones".to_string()),
        connected: true,
        paired: true,
        rssi: Some(-40),
        battery: Some(80),
        icon: None,
    }
}

#[test]
fn default_bluetooth_settings() {
    let c = Config::default();
    assert!(!c.auto_power);
    assert_eq!(c.scan_timeout_secs, 30);
}

#[test]
fn adapter_powered_on_only_when_asked_and_off() {
    let on = Config { auto_power: true, scan_timeout_secs: 30 };
    assert!(powers_on_at_start(&on, false));
    assert!(!powers_on_at_start(&on, true));
    assert!(!powers_on_at_start(&Config::default(), false));
}

#[test]
fn connection_changes_raise_events() {
    match connection_event(true, device(), "AA:BB:CC:DD:EE:FF".to_string()) {
        BtEvent::DeviceConnected { device } => assert_eq!(device.name.as_deref(), Some("Headphones")),
        other => panic!("unexpected {other:?}"),
    }
    match connection_event(false, device(), "AA:BB:CC:DD:EE:FF".to_string()) {
        BtEvent::DeviceDisconnected { address } => assert_eq!(address, "AA:BB:CC:DD:EE:FF"),
        other => panic!("unexpected {other:?}"),
    }
}
