//! The Bluetooth domain's settings and the decisions of its event loop:
//! whether the adapter is powered on at start, and which event a device's
//! connection change raises.
use vstd::prelude::*;
use crate::ipc::events::BtEvent;
use crate::ipc::types::BtDevice;

verus! {

/// Settings of the Bluetooth domain.
#[derive(Debug, Clone, Copy)]
pub struct Config {
    /// Power the adapter on at start when it is off.
    pub auto_power: bool,
    /// Scan timeout in seconds (0: none).
    pub scan_timeout_secs: u64,
}

impl Default for Config {
    fn default() -> (c: Self)
        ensures
            !c.auto_power,
            c.scan_timeout_secs == 30,
    {
        Config { auto_power: false, scan_timeout_secs: 30 }
    }
}

/// Why a Bluetooth request failed.
#[derive(Debug, Clone)]
pub enum BtError {
    /// The BlueZ session reported an error (its message).
    Session(String),
    NoAdapter,
    DeviceNotFound(String),
}

/// At start the adapter is powered on when the settings ask for it and it is off.
pub fn powers_on_at_start(cfg: &Config, powered: bool) -> (b: bool)
    ensures
        b == (cfg.auto_power && !powered),
{
    cfg.auto_power && !powered
}

/// The event a change of a device's connection raises: the device as it is
/// now when it connected, its address when it disconnected.
pub fn connection_event(connected: bool, device: BtDevice, address: String) -> (e: BtEvent)
    ensures
        e == if connected {
            BtEvent::DeviceConnected { device }
        } else {
            BtEvent::DeviceDisconnected { address }
        },
{
    if connected {
        BtEvent::DeviceConnected { device }
    } else {
        BtEvent::DeviceDisconnected { address }
    }
}

} // verus!
