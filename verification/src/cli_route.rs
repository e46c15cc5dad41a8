//! Which daemon request a command line makes: the first option given, in a
//! fixed order, decides.
use vstd::prelude::*;
use crate::cli_args::{
    BrightnessArgs, BtArgs, ClipArgs, DiskArgs, NetArgs, NotifyArgs, ProcArgs, SysmonArgs,
};
use crate::text::{chars_of, same_text, string_of};

verus! {

fn copy_text(s: &String) -> (r: String)
    ensures
        r == *s,
{
    s.clone()
}

fn copy_opt(o: &Option<String>) -> (r: Option<String>)
    ensures
        r == *o,
{
    match o {
        Some(s) => Some(s.clone()),
        None => None,
    }
}

// ── Bluetooth ───────────────────────────────────────────────────────────────

/// A request of the `bluetooth` command.
#[derive(Debug, Clone)]
pub enum BtRequest {
    Connect { address: String },
    Disconnect { address: String },
    Power { on: bool },
    Scan,
    Discoverable { on: bool },
    Pairable { on: bool },
    Alias { address: String, alias: String },
    /// `--alias` was not given an address and an alias.
    AliasUsage,
    Pair { address: String },
    Trust { address: String, trusted: bool },
    /// `--trust` was not given an address and `on` or `off`.
    TrustUsage,
    Remove { address: String },
    Status,
}

/// The request for a `bluetooth` command line: connect, disconnect, power,
/// scan, discoverable, pairable, alias, pair, trust, remove, in that order
/// of precedence; the status otherwise. A switch is on when it reads `on`.
pub open spec fn bt_request_of(args: BtArgs) -> BtRequest {
    if args.connect is Some {
        BtRequest::Connect { address: args.connect->0 }
    } else if args.disconnect is Some {
        BtRequest::Disconnect { address: args.disconnect->0 }
    } else if args.power is Some {
        BtRequest::Power { on: args.power->0@ == "on"@ }
    } else if args.scan {
        BtRequest::Scan
    } else if args.discoverable is Some {
        BtRequest::Discoverable { on: args.discoverable->0@ == "on"@ }
    } else if args.pairable is Some {
        BtRequest::Pairable { on: args.pairable->0@ == "on"@ }
    } else if args.alias is Some {
        let vals = args.alias->0@;
        if vals.len() == 2 {
            BtRequest::Alias { address: vals[0], alias: vals[1] }
        } else {
            BtRequest::AliasUsage
        }
    } else if args.pair is Some {
        BtRequest::Pair { address: args.pair->0 }
    } else if args.trust is Some {
        let vals = args.trust->0@;
        if vals.len() == 2 {
            BtRequest::Trust { address: vals[0], trusted: vals[1]@ == "on"@ }
        } else {
            BtRequest::TrustUsage
        }
    } else if args.remove is Some {
        BtRequest::Remove { address: args.remove->0 }
    } else {
        BtRequest::Status
    }
}

/// The request a `bluetooth` command line makes.
pub fn bt_request(args: &BtArgs) -> (r: BtRequest)
    ensures
        r == bt_request_of(*args),
{
    if let Some(a) = &args.connect {
        BtRequest::Connect { address: copy_text(a) }
    } else if let Some(a) = &args.disconnect {
        BtRequest::Disconnect { address: copy_text(a) }
    } else if let Some(s) = &args.power {
        BtRequest::Power { on: same_text(s.as_str(), "on") }
    } else if args.scan {
        BtRequest::Scan
    } else if let Some(s) = &args.discoverable {
        BtRequest::Discoverable { on: same_text(s.as_str(), "on") }
    } else if let Some(s) = &args.pairable {
        BtRequest::Pairable { on: same_text(s.as_str(), "on") }
    } else if let Some(vals) = &args.alias {
        if vals.len() == 2 {
            BtRequest::Alias { address: copy_text(&vals[0]), alias: copy_text(&vals[1]) }
        } else {
            BtRequest::AliasUsage
        }
    } else if let Some(a) = &args.pair {
        BtRequest::Pair { address: copy_text(a) }
    } else if let Some(vals) = &args.trust {
        if vals.len() == 2 {
            BtRequest::Trust { address: copy_text(&vals[0]), trusted: same_text(vals[1].as_str(), "on") }
        } else {
            BtRequest::TrustUsage
        }
    } else if let Some(a) = &args.remove {
        BtRequest::Remove { address: copy_text(a) }
    } else {
        BtRequest::Status
    }
}

// ── Network ─────────────────────────────────────────────────────────────────

/// A request of the `network` command.
#[derive(Debug, Clone)]
pub enum NetRequest {
    Power { on: bool },
    HotspotStart {
        ssid: String,
        password: Option<String>,
        band: Option<String>,
        channel: Option<u32>,
        backend: Option<String>,
    },
    HotspotStop,
    HotspotStatus,
    WifiForget { ssid: String },
    WifiScan,
    WifiDetails,
    WifiConnect { ssid: String, password: Option<String> },
    WifiDisconnect,
    WifiList,
    EthConnect { interface: Option<String> },
    EthDisconnect,
    EthDetails,
    EthList,
    /// The status, shown as a summary table.
    Status,
    /// The status, shown as the interface list.
    Interfaces,
}

/// A power switch is on when it reads `on`, `true` or `1`.
pub open spec fn switch_on(s: Seq<char>) -> bool {
    s == "on"@ || s == "true"@ || s == "1"@
}

pub open spec fn text_or_empty(o: Option<String>) -> Seq<char> {
    match o {
        Some(s) => s@,
        None => Seq::empty(),
    }
}

/// The request for a `network` command line: power first; then the
/// hotspot, Wi-Fi and Ethernet groups, each with its own order of actions
/// (its list or status last); then the status.
pub open spec fn net_request_matches(args: NetArgs, r: NetRequest) -> bool {
    if args.power is Some {
        r == NetRequest::Power { on: switch_on(args.power->0@) }
    } else if args.hotspot {
        if args.connect {
            r matches NetRequest::HotspotStart { ssid, password, band, channel, backend }
                && ssid@ == (match args.ssid {
                    Some(s) => s@,
                    None => "CrawlDS-Hotspot"@,
                }) && password == args.password && band == args.band && channel == args.channel
                && backend == args.backend
        } else if args.disconnect {
            r == NetRequest::HotspotStop
        } else {
            r == NetRequest::HotspotStatus
        }
    } else if args.wifi {
        if args.forget {
            r matches NetRequest::WifiForget { ssid } && ssid@ == text_or_empty(args.ssid)
        } else if args.scan {
            r == NetRequest::WifiScan
        } else if args.details {
            r == NetRequest::WifiDetails
        } else if args.connect {
            r matches NetRequest::WifiConnect { ssid, password } && ssid@ == text_or_empty(args.ssid)
                && password == args.password
        } else if args.disconnect {
            r == NetRequest::WifiDisconnect
        } else {
            r == NetRequest::WifiList
        }
    } else if args.eth {
        if args.connect {
            r == NetRequest::EthConnect { interface: args.iface }
        } else if args.disconnect {
            r == NetRequest::EthDisconnect
        } else if args.details {
            r == NetRequest::EthDetails
        } else {
            r == NetRequest::EthList
        }
    } else if args.status {
        r == NetRequest::Status
    } else {
        r == NetRequest::Interfaces
    }
}

fn text_or_default(o: &Option<String>) -> (s: String)
    ensures
        s@ == text_or_empty(*o),
{
    match o {
        Some(s) => s.clone(),
        None => String::new(),
    }
}

/// The request a `network` command line makes.
pub fn net_request(args: &NetArgs) -> (r: NetRequest)
    ensures
        net_request_matches(*args, r),
{
    if let Some(p) = &args.power {
        let on = same_text(p.as_str(), "on") || same_text(p.as_str(), "true") || same_text(p.as_str(), "1");
        NetRequest::Power { on }
    } else if args.hotspot {
        if args.connect {
            let ssid = match &args.ssid {
                Some(s) => s.clone(),
                None => string_of(chars_of("CrawlDS-Hotspot").as_slice()),
            };
            NetRequest::HotspotStart {
                ssid,
                password: copy_opt(&args.password),
                band: copy_opt(&args.band),
                channel: args.channel,
                backend: copy_opt(&args.backend),
            }
        } else if args.disconnect {
            NetRequest::HotspotStop
        } else {
            NetRequest::HotspotStatus
        }
    } else if args.wifi {
        if args.forget {
            NetRequest::WifiForget { ssid: text_or_default(&args.ssid) }
        } else if args.scan {
            NetRequest::WifiScan
        } else if args.details {
            NetRequest::WifiDetails
        } else if args.connect {
            NetRequest::WifiConnect { ssid: text_or_default(&args.ssid), password: copy_opt(&args.password) }
        } else if args.disconnect {
            NetRequest::WifiDisconnect
        } else {
            NetRequest::WifiList
        }
    } else if args.eth {
        if args.connect {
            NetRequest::EthConnect { interface: copy_opt(&args.iface) }
        } else if args.disconnect {
            NetRequest::EthDisconnect
        } else if args.details {
            NetRequest::EthDetails
        } else {
            NetRequest::EthList
        }
    } else if args.status {
        NetRequest::Status
    } else {
        NetRequest::Interfaces
    }
}

pub open spec fn net_method(r: NetRequest) -> Seq<char> {
    match r {
        NetRequest::Power { .. } => "NetPower"@,
        NetRequest::HotspotStart { .. } => "NetHotspotStart"@,
        NetRequest::HotspotStop => "NetHotspotStop"@,
        NetRequest::HotspotStatus => "NetHotspotStatus"@,
        NetRequest::WifiForget { .. } => "NetWifiForget"@,
        NetRequest::WifiScan => "NetWifiScan"@,
        NetRequest::WifiDetails => "NetWifiDetails"@,
        NetRequest::WifiConnect { .. } => "NetWifiConnect"@,
        NetRequest::WifiDisconnect => "NetWifiDisconnect"@,
        NetRequest::WifiList => "NetWifiList"@,
        NetRequest::EthConnect { .. } => "NetEthConnect"@,
        NetRequest::EthDisconnect => "NetEthDisconnect"@,
        NetRequest::EthDetails => "NetEthDetails"@,
        NetRequest::EthList => "NetEthList"@,
        NetRequest::Status => "NetStatus"@,
        NetRequest::Interfaces => "NetStatus"@,
    }
}

/// Which kind of network request `r` is (the status views share one).
pub open spec fn net_kind(r: NetRequest) -> int {
    match r {
        NetRequest::Power { .. } => 0,
        NetRequest::HotspotStart { .. } => 1,
        NetRequest::HotspotStop => 2,
        NetRequest::HotspotStatus => 3,
        NetRequest::WifiForget { .. } => 4,
        NetRequest::WifiScan => 5,
        NetRequest::WifiDetails => 6,
        NetRequest::WifiConnect { .. } => 7,
        NetRequest::WifiDisconnect => 8,
        NetRequest::WifiList => 9,
        NetRequest::EthConnect { .. } => 10,
        NetRequest::EthDisconnect => 11,
        NetRequest::EthDetails => 12,
        NetRequest::EthList => 13,
        NetRequest::Status => 14,
        NetRequest::Interfaces => 14,
    }
}

/// Distinct network requests reach distinct daemon methods: two requests
/// share a method only when they are the same kind (the two status views
/// counting as one).
pub proof fn net_methods_are_distinct(r1: NetRequest, r2: NetRequest)
    ensures
        net_method(r1) == net_method(r2) ==> net_kind(r1) == net_kind(r2),
{
    reveal_strlit("NetPower");
    reveal_strlit("NetHotspotStart");
    reveal_strlit("NetHotspotStop");
    reveal_strlit("NetHotspotStatus");
    reveal_strlit("NetWifiForget");
    reveal_strlit("NetWifiScan");
    reveal_strlit("NetWifiDetails");
    reveal_strlit("NetWifiConnect");
    reveal_strlit("NetWifiDisconnect");
    reveal_strlit("NetWifiList");
    reveal_strlit("NetEthConnect");
    reveal_strlit("NetEthDisconnect");
    reveal_strlit("NetEthDetails");
    reveal_strlit("NetEthList");
    reveal_strlit("NetStatus");
    if net_method(r1) == net_method(r2) && net_kind(r1) != net_kind(r2) {
        let m1 = net_method(r1);
        let m2 = net_method(r2);
        assert(m1.len() == m2.len());
        assert(m1[3] == m2[3] && m1[4] == m2[4] && m1[5] == m2[5] && m1[6] == m2[6]);
        assert(m1[7] == m2[7]);
        if m1.len() > 10 {
            assert(m1[8] == m2[8] && m1[9] == m2[9] && m1[10] == m2[10]);
        }
    }
}

/// Each network request reaches a method of its own group: Wi-Fi requests
/// a `NetWifi…` method, Ethernet requests a `NetEth…` one, hotspot requests
/// a `NetHotspot…` one.
pub proof fn net_methods_name_their_group(r: NetRequest)
    ensures
        4 <= net_kind(r) <= 9 ==> "NetWifi"@.is_prefix_of(net_method(r)),
        10 <= net_kind(r) <= 13 ==> "NetEth"@.is_prefix_of(net_method(r)),
        1 <= net_kind(r) <= 3 ==> "NetHotspot"@.is_prefix_of(net_method(r)),
{
    reveal_strlit("NetWifi");
    reveal_strlit("NetEth");
    reveal_strlit("NetHotspot");
    reveal_strlit("NetHotspotStart");
    reveal_strlit("NetHotspotStop");
    reveal_strlit("NetHotspotStatus");
    reveal_strlit("NetWifiForget");
    reveal_strlit("NetWifiScan");
    reveal_strlit("NetWifiDetails");
    reveal_strlit("NetWifiConnect");
    reveal_strlit("NetWifiDisconnect");
    reveal_strlit("NetWifiList");
    reveal_strlit("NetEthConnect");
    reveal_strlit("NetEthDisconnect");
    reveal_strlit("NetEthDetails");
    reveal_strlit("NetEthList");
    assert("NetWifi"@.is_prefix_of(net_method(r)) || !(4 <= net_kind(r) <= 9));
}

/// Each network request's method ends with what it asks for: a connect
/// request's method ends `Connect`, a disconnect request's `Disconnect`,
/// and so on for start, stop, status, forget, scan, details and list.
pub proof fn net_methods_name_their_action(r: NetRequest)
    ensures
        (r is WifiConnect || r is EthConnect) ==> "Connect"@.is_suffix_of(net_method(r)),
        (r is WifiDisconnect || r is EthDisconnect) ==> "Disconnect"@.is_suffix_of(net_method(r)),
        (r is WifiDetails || r is EthDetails) ==> "Details"@.is_suffix_of(net_method(r)),
        (r is WifiList || r is EthList) ==> "List"@.is_suffix_of(net_method(r)),
        r is HotspotStart ==> "Start"@.is_suffix_of(net_method(r)),
        r is HotspotStop ==> "Stop"@.is_suffix_of(net_method(r)),
        (r is HotspotStatus || r is Status || r is Interfaces) ==> "Status"@.is_suffix_of(net_method(r)),
        r is WifiForget ==> "Forget"@.is_suffix_of(net_method(r)),
        r is WifiScan ==> "Scan"@.is_suffix_of(net_method(r)),
        r is Power ==> "Power"@.is_suffix_of(net_method(r)),
{
    reveal_strlit("Connect");
    reveal_strlit("Disconnect");
    reveal_strlit("Details");
    reveal_strlit("List");
    reveal_strlit("Start");
    reveal_strlit("Stop");
    reveal_strlit("Status");
    reveal_strlit("Forget");
    reveal_strlit("Scan");
    reveal_strlit("Power");
    reveal_strlit("NetPower");
    reveal_strlit("NetHotspotStart");
    reveal_strlit("NetHotspotStop");
    reveal_strlit("NetHotspotStatus");
    reveal_strlit("NetWifiForget");
    reveal_strlit("NetWifiScan");
    reveal_strlit("NetWifiDetails");
    reveal_strlit("NetWifiConnect");
    reveal_strlit("NetWifiDisconnect");
    reveal_strlit("NetWifiList");
    reveal_strlit("NetEthConnect");
    reveal_strlit("NetEthDisconnect");
    reveal_strlit("NetEthDetails");
    reveal_strlit("NetEthList");
    reveal_strlit("NetStatus");
}

impl NetRequest {
    /// The JSON-RPC method that carries the request.
    pub fn method(&self) -> (s: &'static str)
        ensures
            s@ == net_method(*self),
    {
        match self {
            NetRequest::Power { .. } => "NetPower",
            NetRequest::HotspotStart { .. } => "NetHotspotStart",
            NetRequest::HotspotStop => "NetHotspotStop",
            NetRequest::HotspotStatus => "NetHotspotStatus",
            NetRequest::WifiForget { .. } => "NetWifiForget",
            NetRequest::WifiScan => "NetWifiScan",
            NetRequest::WifiDetails => "NetWifiDetails",
            NetRequest::WifiConnect { .. } => "NetWifiConnect",
            NetRequest::WifiDisconnect => "NetWifiDisconnect",
            NetRequest::WifiList => "NetWifiList",
            NetRequest::EthConnect { .. } => "NetEthConnect",
            NetRequest::EthDisconnect => "NetEthDisconnect",
            NetRequest::EthDetails => "NetEthDetails",
            NetRequest::EthList => "NetEthList",
            NetRequest::Status => "NetStatus",
            NetRequest::Interfaces => "NetStatus",
        }
    }
}

pub open spec fn bt_method(r: BtRequest) -> Option<Seq<char>> {
    match r {
        BtRequest::Connect { .. } => Some("BtConnect"@),
        BtRequest::Disconnect { .. } => Some("BtDisconnect"@),
        BtRequest::Power { .. } => Some("BtPower"@),
        BtRequest::Scan => Some("BtScan"@),
        BtRequest::Discoverable { .. } => Some("BtDiscoverable"@),
        BtRequest::Pairable { .. } => Some("BtPairable"@),
        BtRequest::Alias { .. } => Some("BtAlias"@),
        BtRequest::AliasUsage => None,
        BtRequest::Pair { .. } => Some("BtPair"@),
        BtRequest::Trust { .. } => Some("BtTrust"@),
        BtRequest::TrustUsage => None,
        BtRequest::Remove { .. } => Some("BtRemove"@),
        BtRequest::Status => Some("BtStatus"@),
    }
}

impl BtRequest {
    /// The JSON-RPC method that carries the request; none for a usage message.
    pub fn method(&self) -> (s: Option<&'static str>)
        ensures
            match s {
                Some(m) => bt_method(*self) == Some(m@),
                None => bt_method(*self) is None,
            },
    {
        match self {
            BtRequest::Connect { .. } => Some("BtConnect"),
            BtRequest::Disconnect { .. } => Some("BtDisconnect"),
            BtRequest::Power { .. } => Some("BtPower"),
            BtRequest::Scan => Some("BtScan"),
            BtRequest::Discoverable { .. } => Some("BtDiscoverable"),
            BtRequest::Pairable { .. } => Some("BtPairable"),
            BtRequest::Alias { .. } => Some("BtAlias"),
            BtRequest::AliasUsage => None,
            BtRequest::Pair { .. } => Some("BtPair"),
            BtRequest::Trust { .. } => Some("BtTrust"),
            BtRequest::TrustUsage => None,
            BtRequest::Remove { .. } => Some("BtRemove"),
            BtRequest::Status => Some("BtStatus"),
        }
    }
}


// ── The other commands ──────────────────────────────────────────────────────

/// The daemon method `sysmon` queries: the CPU unless memory, disks, the
/// network or the GPU is asked for (in that order).
pub fn sysmon_method(args: &SysmonArgs) -> (s: &'static str)
    ensures
        s@ == if args.cpu || (!args.mem && !args.disk && !args.net && !args.gpu) {
            "SysmonCpu"@
        } else if args.mem {
            "SysmonMem"@
        } else if args.disk {
            "SysmonDisk"@
        } else if args.net {
            "SysmonNet"@
        } else {
            "SysmonGpu"@
        },
{
    if args.cpu || (!args.mem && !args.disk && !args.net && !args.gpu) {
        "SysmonCpu"
    } else if args.mem {
        "SysmonMem"
    } else if args.disk {
        "SysmonDisk"
    } else if args.net {
        "SysmonNet"
    } else {
        "SysmonGpu"
    }
}

/// A request of the `brightness` command.
#[derive(Debug, Clone, Copy, PartialEq, Eq, Structural)]
pub enum BrightnessRequest {
    SetTo(u8),
    Inc(u8),
    Dec(u8),
    Get,
}

/// `--set` before `--inc` before `--dec`; otherwise the current brightness.
pub fn brightness_request(args: &BrightnessArgs) -> (r: BrightnessRequest)
    ensures
        r == match (args.set, args.inc, args.dec) {
            (Some(v), _, _) => BrightnessRequest::SetTo(v),
            (None, Some(v), _) => BrightnessRequest::Inc(v),
            (None, None, Some(v)) => BrightnessRequest::Dec(v),
            (None, None, None) => BrightnessRequest::Get,
        },
{
    if let Some(v) = args.set {
        BrightnessRequest::SetTo(v)
    } else if let Some(v) = args.inc {
        BrightnessRequest::Inc(v)
    } else if let Some(v) = args.dec {
        BrightnessRequest::Dec(v)
    } else {
        BrightnessRequest::Get
    }
}

impl BrightnessRequest {
    /// The daemon method that carries the request.
    pub fn method(&self) -> (s: &'static str)
        ensures
            s@ == match *self {
                BrightnessRequest::SetTo(_) => "BrightnessSet"@,
                BrightnessRequest::Inc(_) => "BrightnessInc"@,
                BrightnessRequest::Dec(_) => "BrightnessDec"@,
                BrightnessRequest::Get => "BrightnessGet"@,
            },
    {
        match self {
            BrightnessRequest::SetTo(_) => "BrightnessSet",
            BrightnessRequest::Inc(_) => "BrightnessInc",
            BrightnessRequest::Dec(_) => "BrightnessDec",
            BrightnessRequest::Get => "BrightnessGet",
        }
    }
}

/// A request of the `proc` command.
#[derive(Debug, Clone)]
pub enum ProcRequest {
    Watch(u32),
    Kill { pid: u32, force: bool },
    Find(String),
    List { sort: String, top: usize },
}

/// `--watch` before `--kill` before `--find`; otherwise the process list
/// in the requested order and length.
pub fn proc_request(args: &ProcArgs) -> (r: ProcRequest)
    ensures
        r == match (args.watch, args.kill, args.find) {
            (Some(pid), _, _) => ProcRequest::Watch(pid),
            (None, Some(pid), _) => ProcRequest::Kill { pid, force: args.force },
            (None, None, Some(name)) => ProcRequest::Find(name),
            (None, None, None) => ProcRequest::List { sort: args.sort, top: args.top },
        },
{
    if let Some(pid) = args.watch {
        ProcRequest::Watch(pid)
    } else if let Some(pid) = args.kill {
        ProcRequest::Kill { pid, force: args.force }
    } else if let Some(name) = &args.find {
        ProcRequest::Find(copy_text(name))
    } else {
        ProcRequest::List { sort: copy_text(&args.sort), top: args.top }
    }
}

impl ProcRequest {
    /// The daemon method that carries the request.
    pub fn method(&self) -> (s: &'static str)
        ensures
            s@ == match *self {
                ProcRequest::Watch(_) => "ProcWatch"@,
                ProcRequest::Kill { .. } => "ProcKill"@,
                ProcRequest::Find(_) => "ProcFind"@,
                ProcRequest::List { .. } => "ProcList"@,
            },
    {
        match self {
            ProcRequest::Watch(_) => "ProcWatch",
            ProcRequest::Kill { .. } => "ProcKill",
            ProcRequest::Find(_) => "ProcFind",
            ProcRequest::List { .. } => "ProcList",
        }
    }
}

/// A request of the `disk` command.
#[derive(Debug, Clone)]
pub enum DiskRequest {
    Mount(String),
    Unmount(String),
    Eject(String),
    List,
}

/// `--mount` before `--unmount` before `--eject`; otherwise the device list.
pub fn disk_request(args: &DiskArgs) -> (r: DiskRequest)
    ensures
        r == match (args.mount, args.unmount, args.eject) {
            (Some(d), _, _) => DiskRequest::Mount(d),
            (None, Some(d), _) => DiskRequest::Unmount(d),
            (None, None, Some(d)) => DiskRequest::Eject(d),
            (None, None, None) => DiskRequest::List,
        },
{
    if let Some(d) = &args.mount {
        DiskRequest::Mount(copy_text(d))
    } else if let Some(d) = &args.unmount {
        DiskRequest::Unmount(copy_text(d))
    } else if let Some(d) = &args.eject {
        DiskRequest::Eject(copy_text(d))
    } else {
        DiskRequest::List
    }
}

impl DiskRequest {
    /// The daemon method that carries the request.
    pub fn method(&self) -> (s: &'static str)
        ensures
            s@ == match *self {
                DiskRequest::Mount(_) => "DiskMount"@,
                DiskRequest::Unmount(_) => "DiskUnmount"@,
                DiskRequest::Eject(_) => "DiskEject"@,
                DiskRequest::List => "DiskList"@,
            },
    {
        match self {
            DiskRequest::Mount(_) => "DiskMount",
            DiskRequest::Unmount(_) => "DiskUnmount",
            DiskRequest::Eject(_) => "DiskEject",
            DiskRequest::List => "DiskList",
        }
    }
}

/// A request of the `notify` command.
#[derive(Debug, Clone)]
pub enum NotifyRequest {
    Dismiss(u32),
    Send { title: String, body: String, urgency: String },
    List,
}

fn copy_or_empty(o: &Option<String>) -> (r: String)
    ensures
        r@ == text_or_empty(*o),
{
    match o {
        Some(s) => s.clone(),
        None => String::new(),
    }
}

/// `--dismiss` first; a title or a body sends a notification (missing
/// parts empty, urgency `normal` unless given); otherwise the list.
pub fn notify_request(args: &NotifyArgs) -> (r: NotifyRequest)
    ensures
        match args.dismiss {
            Some(id) => r == NotifyRequest::Dismiss(id),
            None => if args.title is Some || args.body is Some {
                r matches NotifyRequest::Send { title, body, urgency } && title@ == text_or_empty(
                    args.title,
                ) && body@ == text_or_empty(args.body) && urgency@ == match args.urgency {
                    Some(u) => u@,
                    None => "normal"@,
                }
            } else {
                r == NotifyRequest::List
            },
        },
{
    if let Some(id) = args.dismiss {
        NotifyRequest::Dismiss(id)
    } else if args.title.is_some() || args.body.is_some() {
        let urgency = match &args.urgency {
            Some(u) => u.clone(),
            None => string_of(chars_of("normal").as_slice()),
        };
        NotifyRequest::Send { title: copy_or_empty(&args.title), body: copy_or_empty(&args.body), urgency }
    } else {
        NotifyRequest::List
    }
}

impl NotifyRequest {
    /// The daemon method that carries the request.
    pub fn method(&self) -> (s: &'static str)
        ensures
            s@ == match *self {
                NotifyRequest::Dismiss(_) => "NotifyDismiss"@,
                NotifyRequest::Send { .. } => "NotifySend"@,
                NotifyRequest::List => "NotifyList"@,
            },
    {
        match self {
            NotifyRequest::Dismiss(_) => "NotifyDismiss",
            NotifyRequest::Send { .. } => "NotifySend",
            NotifyRequest::List => "NotifyList",
        }
    }
}

/// A request of the `clipboard` command.
#[derive(Debug, Clone)]
pub enum ClipRequest {
    Replace(String),
    History,
    Get,
}

/// `--set` before `--history`; otherwise the current content.
pub fn clip_request(args: &ClipArgs) -> (r: ClipRequest)
    ensures
        r == match args.set {
            Some(t) => ClipRequest::Replace(t),
            None => if args.history {
                ClipRequest::History
            } else {
                ClipRequest::Get
            },
        },
{
    if let Some(t) = &args.set {
        ClipRequest::Replace(copy_text(t))
    } else if args.history {
        ClipRequest::History
    } else {
        ClipRequest::Get
    }
}

impl ClipRequest {
    /// The daemon method that carries the request.
    pub fn method(&self) -> (s: &'static str)
        ensures
            s@ == match *self {
                ClipRequest::Replace(_) => "ClipSet"@,
                ClipRequest::History => "ClipHistory"@,
                ClipRequest::Get => "ClipGet"@,
            },
    {
        match self {
            ClipRequest::Replace(_) => "ClipSet",
            ClipRequest::History => "ClipHistory",
            ClipRequest::Get => "ClipGet",
        }
    }
}

} // verus!
