//! Plain data exchanged between the daemon, its domains and its clients.
use vstd::prelude::*;

verus! {

// ── Bluetooth ────────────────────────────────────────────────────────────────

#[derive(Debug, Clone)]
pub struct BtDevice {
    pub address: String,
    pub name: Option<String>,
    pub connected: bool,
    pub paired: bool,
    pub rssi: Option<i16>,
    pub battery: Option<u8>,
    pub icon: Option<String>,
}

#[derive(Debug, Clone)]
pub struct BtStatus {
    pub powered: bool,
    pub discovering: bool,
    pub devices: Vec<BtDevice>,
}

// ── Network ──────────────────────────────────────────────────────────────────

#[derive(Debug, Clone)]
pub struct NetInterface {
    pub name: String,
    pub state: String,
    pub ip4: Option<String>,
    pub ip6: Option<String>,
    pub mac: Option<String>,
}

#[derive(Debug, Clone)]
pub struct WifiNetwork {
    pub ssid: String,
    pub signal: u8,
    pub secured: bool,
    pub connected: bool,
    pub existing: bool,
    pub cached: bool,
    pub password_required: bool,
    pub security: String,
    pub frequency_mhz: Option<u32>,
    pub bssid: Option<String>,
    pub last_seen_ms: Option<u64>,
}

#[derive(Debug, Clone)]
pub struct ActiveWifiDetails {
    pub ifname: Option<String>,
    pub ssid: Option<String>,
    pub signal: Option<u8>,
    pub frequency_mhz: Option<u32>,
    pub band: Option<String>,
    pub channel: Option<u32>,
    pub rate_mbps: Option<u32>,
    pub ip4: Option<String>,
    pub ip6: Vec<String>,
    pub gateway4: Option<String>,
    pub gateway6: Vec<String>,
    pub dns4: Vec<String>,
    pub dns6: Vec<String>,
    pub security: Option<String>,
    pub bssid: Option<String>,
    pub mac: Option<String>,
}

#[derive(Debug, Clone)]
pub struct EthernetInterface {
    pub ifname: String,
    pub connected: bool,
    pub mac: Option<String>,
    pub ip4: Option<String>,
    pub ip6: Vec<String>,
}

#[derive(Debug, Clone)]
pub struct ActiveEthernetDetails {
    pub ifname: String,
    pub speed: Option<String>,
    pub ipv4: Option<String>,
    pub ipv6: Vec<String>,
    pub gateway4: Option<String>,
    pub gateway6: Vec<String>,
    pub dns4: Vec<String>,
    pub dns6: Vec<String>,
    pub mac: Option<String>,
}

#[derive(Debug, Clone, Copy, PartialEq, Eq, Structural)]
pub enum NetMode {
    Station,
    Ap,
    Unknown,
}

#[derive(Debug, Clone)]
pub struct NetStatus {
    pub connectivity: String,
    pub wifi_enabled: bool,
    pub network_enabled: bool,
    pub wifi_available: bool,
    pub ethernet_available: bool,
    pub mode: NetMode,
    pub active_ssid: Option<String>,
    pub interfaces: Vec<NetInterface>,
}

// ── Hotspot ─────────────────────────────────────────────────────────────────

#[derive(Debug, Clone, Copy, PartialEq, Eq, Structural)]
pub enum HotspotBackend {
    NetworkManager,
    Hostapd,
}

impl Default for HotspotBackend {
    fn default() -> (b: Self)
        ensures
            b == HotspotBackend::NetworkManager,
    {
        HotspotBackend::NetworkManager
    }
}

#[derive(Debug, Clone)]
pub struct HotspotConfig {
    pub ssid: String,
    pub password: Option<String>,
    pub iface: Option<String>,
    pub band: Option<String>,
    pub channel: Option<u32>,
    pub backend: Option<HotspotBackend>,
}

#[derive(Debug, Clone)]
pub struct HotspotClient {
    pub mac: String,
    pub ip: Option<String>,
}

#[derive(Debug, Clone)]
pub struct HotspotStatus {
    pub active: bool,
    pub ssid: Option<String>,
    pub iface: Option<String>,
    pub band: Option<String>,
    pub channel: Option<u32>,
    pub clients: Vec<HotspotClient>,
    pub backend: HotspotBackend,
    pub supports_virtual_ap: bool,
}

// ── Notifications ────────────────────────────────────────────────────────────

#[derive(Debug, Clone, Copy, PartialEq, Eq, Structural)]
pub enum Urgency {
    Low,
    Normal,
    Critical,
}

#[derive(Debug, Clone)]
pub struct NotificationAction {
    pub key: String,
    pub label: String,
}

#[derive(Debug, Clone)]
pub struct Notification {
    pub id: u32,
    pub app_name: String,
    pub summary: String,
    pub body: String,
    pub icon: String,
    pub urgency: Urgency,
    pub actions: Vec<NotificationAction>,
    pub expire_timeout_ms: i32,
    pub timestamp_ms: u64,
}

// ── Clipboard ────────────────────────────────────────────────────────────────

#[derive(Debug, Clone)]
pub struct ClipEntry {
    pub content: String,
    pub mime: String,
    pub timestamp_ms: u64,
}

// ── Sysmon ───────────────────────────────────────────────────────────────────

#[derive(Debug, Clone)]
pub struct MemStatus {
    pub total_kb: u64,
    pub used_kb: u64,
    pub available_kb: u64,
    pub swap_total_kb: u64,
    pub swap_used_kb: u64,
}

#[derive(Debug, Clone)]
pub struct NetTraffic {
    pub rx_bytes: u64,
    pub tx_bytes: u64,
    pub rx_bps: u64,
    pub tx_bps: u64,
}

#[derive(Debug, Clone)]
pub struct DiskStatus {
    pub mount: String,
    pub total_bytes: u64,
    pub used_bytes: u64,
    pub available_bytes: u64,
    pub filesystem: Option<String>,
}

// ── Power (UPower) ───────────────────────────────────────────────────────────

#[derive(Debug, Clone, Copy, PartialEq, Eq, Structural)]
pub enum BatteryState {
    Charging,
    Discharging,
    FullyCharged,
    Empty,
    Unknown,
}

// ── Disk (UDisks2) ───────────────────────────────────────────────────────────

#[derive(Debug, Clone)]
pub struct BlockDevice {
    pub device: String,
    pub label: Option<String>,
    pub size_bytes: u64,
    pub filesystem: Option<String>,
    pub mount_point: Option<String>,
    pub mounted: bool,
    pub removable: bool,
}

// ── VFS ──────────────────────────────────────────────────────────────────────

#[derive(Debug, Clone)]
pub struct FileInfo {
    pub path: String,
    pub name: String,
    pub is_dir: bool,
    pub size_bytes: u64,
    pub modified_ms: u64,
    pub is_symlink: bool,
}

#[derive(Debug, Clone)]
pub enum FsEvent {
    Created { path: String },
    Modified { path: String },
    Deleted { path: String },
    Renamed { from: String, to: String },
}

impl FsEvent {
    /// The path the event concerns; for a rename, the path it was renamed from.
    pub open spec fn path_spec(&self) -> Seq<char> {
        match self {
            FsEvent::Created { path } => path@,
            FsEvent::Modified { path } => path@,
            FsEvent::Deleted { path } => path@,
            FsEvent::Renamed { from, .. } => from@,
        }
    }

    /// The path the event concerns; for a rename, the path it was renamed from.
    pub fn path(&self) -> (p: Option<String>)
        ensures
            p matches Some(s) && s@ == self.path_spec(),
    {
        match self {
            FsEvent::Created { path } => Some(path.clone()),
            FsEvent::Modified { path } => Some(path.clone()),
            FsEvent::Deleted { path } => Some(path.clone()),
            FsEvent::Renamed { from, .. } => Some(from.clone()),
        }
    }
}

// ── Greeter (greetd) ─────────────────────────────────────────────────────────

#[derive(Debug, Clone, Copy, PartialEq, Eq, Structural)]
pub enum GreeterState {
    Inactive,
    Authenticating,
    AwaitingInput,
    Ready,
    Error,
}

#[derive(Debug, Clone, Copy, PartialEq, Eq, Structural)]
pub enum GreeterMessageType {
    Visible,
    Secret,
    Info,
    Error,
}

#[derive(Debug, Clone)]
pub struct GreeterStatus {
    pub state: GreeterState,
    pub username: String,
    pub message: Option<String>,
    pub message_type: Option<GreeterMessageType>,
    pub last_error: Option<String>,
}

// ── RSS ───────────────────────────────────────────────────────────────────────

#[derive(Debug, Clone)]
pub struct RssItem {
    pub feed_title: String,
    pub title: String,
    pub link: String,
    pub published: Option<String>,
    pub summary: Option<String>,
    pub thumbnail: Option<String>,
}

// ── Wallpaper ─────────────────────────────────────────────────────────────────

#[derive(Debug, Clone, Copy, PartialEq, Eq, Structural)]
pub enum WallpaperBackend {
    Swww,
    Unknown,
}

impl Default for WallpaperBackend {
    fn default() -> (b: Self)
        ensures
            b == WallpaperBackend::Unknown,
    {
        WallpaperBackend::Unknown
    }
}

#[derive(Debug, Clone)]
pub struct WallpaperMonitorState {
    pub name: String,
    pub current: Option<String>,
    pub transition: Option<String>,
}

#[derive(Debug, Clone)]
pub struct WallpaperStatus {
    pub backend: WallpaperBackend,
    pub backend_available: bool,
    pub monitors: Vec<WallpaperMonitorState>,
}

#[derive(Debug, Clone)]
pub struct WallpaperSetOptions {
    pub path: String,
    pub monitor: Option<String>,
    pub transition: Option<String>,
}

impl WallpaperSetOptions {
    /// Options that set `path` on every monitor with the default transition.
    pub fn new(path: String) -> (o: Self)
        ensures
            o.path == path,
            o.monitor is None,
            o.transition is None,
    {
        WallpaperSetOptions { path, monitor: None, transition: None }
    }

    /// The same options, restricted to one monitor.
    pub fn with_monitor(self, monitor: String) -> (o: Self)
        ensures
            o.path == self.path,
            o.monitor == Some(monitor),
            o.transition == self.transition,
    {
        WallpaperSetOptions { monitor: Some(monitor), ..self }
    }

    /// The same options, with a transition.
    pub fn with_transition(self, transition: String) -> (o: Self)
        ensures
            o.path == self.path,
            o.monitor == self.monitor,
            o.transition == Some(transition),
    {
        WallpaperSetOptions { transition: Some(transition), ..self }
    }
}

// ── Wallhaven ────────────────────────────────────────────────────────────────

#[derive(Debug, Clone)]
pub struct Wallpaper {
    pub id: String,
    pub url: String,
    pub thumb_url: String,
    pub resolution: String,
    pub purity: String,
    pub tags: Vec<String>,
    pub uploaded_at: String,
    pub file_size: u64,
}

// ── Theme ────────────────────────────────────────────────────────────────────

#[derive(Debug, Clone, Copy, PartialEq, Eq, Structural)]
pub enum ThemeSchemeType {
    Vibrant,
    Tonalspot,
    Excited,
    Rainbow,
    Dark,
    Light,
    Amoled,
}

impl Default for ThemeSchemeType {
    fn default() -> (t: Self)
        ensures
            t == ThemeSchemeType::Tonalspot,
    {
        ThemeSchemeType::Tonalspot
    }
}

#[derive(Debug, Clone)]
pub struct ThemeMetadata {
    pub name: String,
    pub source: String,
    pub scheme: String,
}

#[derive(Debug, Clone)]
pub struct ThemeColors {
    pub primary: String,
    pub on_primary: String,
    pub secondary: String,
    pub on_secondary: String,
    pub tertiary: String,
    pub on_tertiary: String,
    pub error: String,
    pub on_error: String,
    pub surface: String,
    pub on_surface: String,
    pub surface_variant: String,
    pub on_surface_variant: String,
    pub outline: String,
    pub shadow: String,
    pub hover: String,
    pub on_hover: String,
}

#[derive(Debug, Clone)]
pub struct TerminalColorSet {
    pub black: String,
    pub red: String,
    pub green: String,
    pub yellow: String,
    pub blue: String,
    pub magenta: String,
    pub cyan: String,
    pub white: String,
}

#[derive(Debug, Clone)]
pub struct TerminalColors {
    pub normal: TerminalColorSet,
    pub bright: TerminalColorSet,
    pub foreground: String,
    pub background: String,
    pub selection_fg: String,
    pub selection_bg: String,
    pub cursor_text: String,
    pub cursor: String,
}

#[derive(Debug, Clone)]
pub struct ThemeMode {
    pub colors: ThemeColors,
    pub terminal: TerminalColors,
}

#[derive(Debug, Clone)]
pub struct ThemeData {
    pub metadata: ThemeMetadata,
    pub dark: ThemeMode,
    pub light: ThemeMode,
}

} // verus!
