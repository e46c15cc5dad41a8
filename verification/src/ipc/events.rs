//! Events the domains publish on the daemon's event stream.
use vstd::prelude::*;
use crate::ipc::types::{
    ActiveEthernetDetails, ActiveWifiDetails, BtDevice, ClipEntry, EthernetInterface,
    GreeterMessageType, GreeterStatus, HotspotClient, HotspotStatus, NetMode, Notification,
    RssItem, ThemeData, Wallpaper, WifiNetwork,
};

verus! {

#[derive(Debug, Clone)]
pub enum BtEvent {
    DeviceDiscovered { device: BtDevice },
    DeviceConnected { device: BtDevice },
    DeviceDisconnected { address: String },
    DeviceRemoved { address: String },
    AdapterPowered { on: bool },
    ScanStarted,
    ScanStopped,
}

#[derive(Debug, Clone)]
pub enum NetEvent {
    Connected { ssid: Option<String>, iface: String },
    Disconnected { iface: String },
    IpChanged { iface: String, ip: String },
    WifiEnabled,
    WifiDisabled,
    WifiScanStarted,
    WifiScanFinished,
    WifiListUpdated { networks: Vec<WifiNetwork> },
    ActiveWifiDetailsChanged { details: ActiveWifiDetails },
    EthernetInterfacesChanged { interfaces: Vec<EthernetInterface> },
    ActiveEthernetDetailsChanged { details: ActiveEthernetDetails },
    ModeChanged { mode: NetMode },
    ConnectivityChanged { state: String },
    HotspotStarted { status: HotspotStatus },
    HotspotStopped,
    HotspotStatusChanged { status: HotspotStatus },
    HotspotClientJoined { client: HotspotClient },
    HotspotClientLeft { mac: String },
}

#[derive(Debug, Clone)]
pub enum NotifyEvent {
    New { notification: Notification },
    Closed { id: u32, reason: u32 },
    ActionInvoked { id: u32, action_key: String },
    Replaced { notification: Notification },
}

#[derive(Debug, Clone)]
pub enum ClipboardEvent {
    Changed { entry: ClipEntry },
    PrimaryChanged { entry: ClipEntry },
}

#[derive(Debug, Clone)]
pub struct IdleEvent {
    pub event: String,
    pub idle_time_secs: u64,
    pub pending_action: Option<String>,
}

#[derive(Debug, Clone)]
pub enum GreeterEvent {
    StateChanged { status: GreeterStatus },
    AuthMessage { message: String, message_type: GreeterMessageType },
    AuthSuccess,
    AuthFailure { message: String },
    SessionStarted,
}

#[derive(Debug, Clone)]
pub enum DaemonEvent {
    Started,
    Stopping,
    DomainError { domain: String, message: String },
}

#[derive(Debug, Clone)]
pub enum WebserviceEvent {
    RssFeedUpdated { feed_url: String, items: Vec<RssItem> },
    RssFeedError { feed_url: String, message: String },
    RssFeedsRefreshed,
    WallhavenResults { walls: Vec<Wallpaper> },
    WallhavenError { message: String },
}

#[derive(Debug, Clone)]
pub enum ThemeEvent {
    Loaded { theme: ThemeData },
    Changed { theme: ThemeData, variant: String },
    ListUpdated { themes: Vec<String> },
    Error { message: String },
    DynamicGenerated { theme: ThemeData, variant: String },
    DynamicApplied { theme: ThemeData, variant: String },
    DynamicError { message: String },
}

} // verus!
