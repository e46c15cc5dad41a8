//! Network state tracking: the status snapshot built from NetworkManager's
//! device reports, the events a new snapshot raises, and the labels shown
//! for connectivity, device states and Wi-Fi access points.
use vstd::prelude::*;
use crate::ipc::events::NetEvent;
use crate::ipc::types::{HotspotBackend, HotspotClient, HotspotStatus, NetInterface, NetMode, NetStatus};
use crate::text::{
    append_chars, chars_of, decimal, from_utf8_lossy, string_of, trim_char, trim_matches_char,
    u64_to_decimal, utf8_lossy,
};

verus! {

/// Settings of the network domain.
#[derive(Debug, Clone)]
pub struct Config {
    pub wifi_scan_on_start: bool,
    pub wifi_scan_finish_delay_ms: u64,
    pub hotspot_backend: Option<HotspotBackend>,
    pub hotspot_virtual_iface: bool,
}

impl Default for Config {
    fn default() -> (c: Self)
        ensures
            !c.wifi_scan_on_start,
            c.wifi_scan_finish_delay_ms == 0,
            c.hotspot_backend is None,
            !c.hotspot_virtual_iface,
    {
        Config {
            wifi_scan_on_start: false,
            wifi_scan_finish_delay_ms: 0,
            hotspot_backend: None,
            hotspot_virtual_iface: false,
        }
    }
}

/// Why a network request failed.
#[derive(Debug, Clone)]
pub enum NetError {
    /// D-Bus reported an error (its message).
    DBus(String),
    /// A D-Bus value had another type than expected (the message).
    ZVariant(String),
    /// NetworkManager is not running.
    Unavailable,
    NotFound(String),
    Unsupported(String),
}

/// NetworkManager's device type for Ethernet devices.
pub const NM_DEVICE_TYPE_ETHERNET: u32 = 1;

/// NetworkManager's device type for Wi-Fi devices.
pub const NM_DEVICE_TYPE_WIFI: u32 = 2;

// ── Labels ──────────────────────────────────────────────────────────────────

pub open spec fn connectivity_label(state: u32) -> Seq<char> {
    if state == 4 {
        "full"@
    } else if state == 3 {
        "limited"@
    } else if state == 2 {
        "portal"@
    } else if state == 1 {
        "none"@
    } else {
        "unknown"@
    }
}

/// The name of a NetworkManager connectivity state.
pub fn nm_connectivity_str(state: u32) -> (s: &'static str)
    ensures
        s@ == connectivity_label(state),
{
    match state {
        4 => "full",
        3 => "limited",
        2 => "portal",
        1 => "none",
        _ => "unknown",
    }
}

pub open spec fn device_state_label(state: u32) -> Seq<char> {
    if state == 100 {
        "activated"@
    } else if state == 90 {
        "secondaries"@
    } else if state == 80 {
        "ip-check"@
    } else if state == 70 {
        "ip-config"@
    } else if state == 60 {
        "need-auth"@
    } else if state == 50 {
        "config"@
    } else if state == 40 {
        "prepare"@
    } else if state == 30 {
        "disconnected"@
    } else if state == 20 {
        "unavailable"@
    } else if state == 10 {
        "unmanaged"@
    } else {
        "unknown"@
    }
}

/// The name of a NetworkManager device state.
pub fn nm_device_state_str(state: u32) -> (s: &'static str)
    ensures
        s@ == device_state_label(state),
{
    match state {
        100 => "activated",
        90 => "secondaries",
        80 => "ip-check",
        70 => "ip-config",
        60 => "need-auth",
        50 => "config",
        40 => "prepare",
        30 => "disconnected",
        20 => "unavailable",
        10 => "unmanaged",
        _ => "unknown",
    }
}

pub open spec fn security_label(flags: u32, wpa_flags: u32, rsn_flags: u32) -> Seq<char> {
    if flags == 0 && wpa_flags == 0 && rsn_flags == 0 {
        "open"@
    } else if rsn_flags != 0 {
        "wpa2"@
    } else if wpa_flags != 0 {
        "wpa"@
    } else {
        "secured"@
    }
}

/// The security of an access point, from its privacy, WPA and RSN flags.
pub fn wifi_security_label(flags: u32, wpa_flags: u32, rsn_flags: u32) -> (s: String)
    ensures
        s@ == security_label(flags, wpa_flags, rsn_flags),
{
    let lit = if flags == 0 && wpa_flags == 0 && rsn_flags == 0 {
        "open"
    } else if rsn_flags != 0 {
        "wpa2"
    } else if wpa_flags != 0 {
        "wpa"
    } else {
        "secured"
    };
    string_of(chars_of(lit).as_slice())
}

pub open spec fn band_label(freq: u32) -> Option<Seq<char>> {
    if 2400 <= freq <= 2499 {
        Some("2.4GHz"@)
    } else if 5000 <= freq <= 5899 {
        Some("5GHz"@)
    } else if 5925 <= freq <= 7125 {
        Some("6GHz"@)
    } else {
        None
    }
}

/// The frequency band of a channel frequency in MHz.
pub fn frequency_band_label(freq: u32) -> (r: Option<String>)
    ensures
        match r {
            Some(s) => band_label(freq) == Some(s@),
            None => band_label(freq) is None,
        },
{
    let lit = if 2400 <= freq && freq <= 2499 {
        "2.4GHz"
    } else if 5000 <= freq && freq <= 5899 {
        "5GHz"
    } else if 5925 <= freq && freq <= 7125 {
        "6GHz"
    } else {
        return None;
    };
    Some(string_of(chars_of(lit).as_slice()))
}

pub open spec fn channel_of(freq: u32) -> Option<u32> {
    if 2412 <= freq <= 2472 {
        Some(((freq - 2407) / 5) as u32)
    } else if freq == 2484 {
        Some(14)
    } else if 5000 <= freq <= 5895 {
        Some(((freq - 5000) / 5) as u32)
    } else if 5925 <= freq <= 7125 {
        Some(((freq - 5950) / 5) as u32)
    } else {
        None
    }
}

/// The Wi-Fi channel number of a frequency in MHz.
///
/// Between 5925 and 5949 MHz the channel formula of the 6 GHz band would go
/// below zero; Rust's `u32` subtraction panics there in debug builds and wraps
/// in release builds, so those frequencies are left out.
pub fn frequency_channel(freq: u32) -> (r: Option<u32>)
    requires
        !(5925 <= freq < 5950),
    ensures
        r == channel_of(freq),
{
    if 2412 <= freq && freq <= 2472 {
        return Some((freq - 2407) / 5);
    }
    if freq == 2484 {
        return Some(14);
    }
    if 5000 <= freq && freq <= 5895 {
        return Some((freq - 5000) / 5);
    }
    if 5925 <= freq && freq <= 7125 {
        return Some((freq - 5950) / 5);
    }
    None
}

/// An access point's SSID bytes as text, with NUL padding removed.
pub fn ssid_to_string(bytes: &[u8]) -> (s: String)
    ensures
        s@ == trim_char(utf8_lossy(bytes@), '\0'),
{
    let text = from_utf8_lossy(bytes);
    let v = trim_matches_char(chars_of(text.as_str()).as_slice(), '\0');
    string_of(v.as_slice())
}

/// The SSID a Wi-Fi details report shows: the access point's SSID when it
/// has a non-empty one, else the interface name when that is not empty.
pub open spec fn details_ssid_spec(ap_ssid: Option<Seq<u8>>, iface: Seq<char>) -> Option<Seq<char>> {
    let from_ap = match ap_ssid {
        Some(b) => if trim_char(utf8_lossy(b), '\0').len() > 0 {
            Some(trim_char(utf8_lossy(b), '\0'))
        } else {
            None
        },
        None => None,
    };
    if from_ap is None && iface.len() > 0 {
        Some(iface)
    } else {
        from_ap
    }
}

/// The SSID of the Wi-Fi details, from the active access point's SSID bytes
/// (`None` where there was no access point to read) and the interface name.
pub fn details_ssid(ap_ssid: Option<&[u8]>, iface: &str) -> (r: Option<String>)
    ensures
        match r {
            Some(s) => details_ssid_spec(
                match ap_ssid {
                    Some(b) => Some(b@),
                    None => None,
                },
                iface@,
            ) == Some(s@),
            None => details_ssid_spec(
                match ap_ssid {
                    Some(b) => Some(b@),
                    None => None,
                },
                iface@,
            ) is None,
        },
{
    let from_ap = match ap_ssid {
        Some(b) => {
            let s = ssid_to_string(b);
            if chars_of(s.as_str()).len() > 0 {
                Some(s)
            } else {
                None
            }
        },
        None => None,
    };
    match from_ap {
        Some(s) => Some(s),
        None => {
            if chars_of(iface).len() > 0 {
                Some(string_of(chars_of(iface).as_slice()))
            } else {
                None
            }
        },
    }
}

/// Dotted-quad text of an IPv4 address held as a `u32`, most significant octet first.
pub open spec fn ipv4_text(raw: u32) -> Seq<char> {
    decimal((raw / 16777216) as nat) + "."@ + decimal(((raw / 65536) % 256) as nat) + "."@
        + decimal(((raw / 256) % 256) as nat) + "."@ + decimal((raw % 256) as nat)
}

/// `Ipv4Addr::from(raw).to_string()`.
pub fn ipv4_to_string(raw: u32) -> (s: String)
    ensures
        s@ == ipv4_text(raw),
{
    let dot = chars_of(".");
    let mut v = u64_to_decimal((raw / 16777216) as u64);
    append_chars(&mut v, dot.as_slice());
    append_chars(&mut v, u64_to_decimal(((raw / 65536) % 256) as u64).as_slice());
    append_chars(&mut v, dot.as_slice());
    append_chars(&mut v, u64_to_decimal(((raw / 256) % 256) as u64).as_slice());
    append_chars(&mut v, dot.as_slice());
    append_chars(&mut v, u64_to_decimal((raw % 256) as u64).as_slice());
    string_of(v.as_slice())
}

// ── Status snapshot ─────────────────────────────────────────────────────────

/// What NetworkManager reports of one device.
#[derive(Debug, Clone)]
pub struct DeviceReport {
    /// Interface name (empty when unavailable).
    pub iface: String,
    /// NetworkManager device state code.
    pub state: u32,
    /// IPv4 address as a `u32`, 0 when there is none.
    pub ip4_raw: u32,
    pub mac: Option<String>,
    /// NetworkManager device type code.
    pub device_type: u32,
    /// For a Wi-Fi device, the SSID of its active access point, when it could be read.
    pub ap_ssid: Option<String>,
}

/// The interface entry a Wi-Fi or Ethernet device contributes.
pub open spec fn interface_matches(i: NetInterface, d: DeviceReport) -> bool {
    &&& i.name@ == d.iface@
    &&& i.state@ == device_state_label(d.state)
    &&& (if d.ip4_raw == 0 {
        i.ip4 is None
    } else {
        i.ip4 matches Some(a) && a@ == ipv4_text(d.ip4_raw)
    })
    &&& i.ip6 is None
    &&& i.mac == d.mac
}

pub open spec fn is_listed(d: DeviceReport) -> bool {
    d.device_type == NM_DEVICE_TYPE_WIFI || d.device_type == NM_DEVICE_TYPE_ETHERNET
}

/// The devices that are listed as interfaces, in order.
pub open spec fn listed(devices: Seq<DeviceReport>) -> Seq<DeviceReport> {
    devices.filter(|d: DeviceReport| is_listed(d))
}

/// A Wi-Fi device whose active access point has a non-empty SSID.
pub open spec fn has_active_ap(d: DeviceReport) -> bool {
    &&& d.device_type == NM_DEVICE_TYPE_WIFI
    &&& d.ap_ssid matches Some(s) && s@.len() > 0
}

/// The last device, if any, with an active access point.
pub open spec fn last_active_ap(devices: Seq<DeviceReport>) -> Option<DeviceReport>
    decreases devices.len(),
{
    if devices.len() == 0 {
        None
    } else if has_active_ap(devices.last()) {
        Some(devices.last())
    } else {
        last_active_ap(devices.drop_last())
    }
}

/// What a snapshot states of the devices it was built from.
pub open spec fn snapshot_of(
    s: NetStatus,
    connectivity: u32,
    wifi_enabled: bool,
    network_enabled: bool,
    devices: Seq<DeviceReport>,
) -> bool {
    &&& s.connectivity@ == connectivity_label(connectivity)
    &&& s.wifi_enabled == wifi_enabled
    &&& s.network_enabled == network_enabled
    &&& s.wifi_available == exists|k: int|
        0 <= k < devices.len() && (#[trigger] devices[k]).device_type == NM_DEVICE_TYPE_WIFI
    &&& s.ethernet_available == exists|k: int|
        0 <= k < devices.len() && (#[trigger] devices[k]).device_type == NM_DEVICE_TYPE_ETHERNET
    &&& s.interfaces@.len() == listed(devices).len()
    &&& forall|k: int|
        0 <= k < s.interfaces@.len() ==> interface_matches(
            #[trigger] s.interfaces@[k],
            listed(devices)[k],
        )
    &&& match last_active_ap(devices) {
        Some(d) => s.mode == NetMode::Station && s.active_ssid == d.ap_ssid,
        None => s.mode == NetMode::Unknown && s.active_ssid is None,
    }
}

/// The network status a NetworkManager query reports: the connectivity
/// label, the Wi-Fi and Ethernet interfaces, and the SSID of the active
/// Wi-Fi access point (the last one found), which also sets the mode.
pub fn build_net_status(
    connectivity: u32,
    wifi_enabled: bool,
    network_enabled: bool,
    devices: &Vec<DeviceReport>,
) -> (s: NetStatus)
    ensures
        snapshot_of(s, connectivity, wifi_enabled, network_enabled, devices@),
{
    let mut interfaces: Vec<NetInterface> = Vec::new();
    let mut active_ssid: Option<String> = None;
    let mut mode = NetMode::Unknown;
    let mut wifi_available = false;
    let mut ethernet_available = false;
    let mut i: usize = 0;
    while i < devices.len()
        invariant
            0 <= i <= devices.len(),
            wifi_available == exists|k: int|
                0 <= k < i && (#[trigger] devices@[k]).device_type == NM_DEVICE_TYPE_WIFI,
            ethernet_available == exists|k: int|
                0 <= k < i && (#[trigger] devices@[k]).device_type == NM_DEVICE_TYPE_ETHERNET,
            interfaces@.len() == listed(devices@.subrange(0, i as int)).len(),
            forall|k: int|
                0 <= k < interfaces@.len() ==> interface_matches(
                    #[trigger] interfaces@[k],
                    listed(devices@.subrange(0, i as int))[k],
                ),
            match last_active_ap(devices@.subrange(0, i as int)) {
                Some(d) => mode == NetMode::Station && active_ssid == d.ap_ssid,
                None => mode == NetMode::Unknown && active_ssid is None,
            },
        decreases devices.len() - i,
    {
        let d = &devices[i];
        let ghost pre = devices@.subrange(0, i as int);
        let ghost next = devices@.subrange(0, i + 1);
        proof {
            assert(next.drop_last() =~= pre);
            assert(next.last() == *d);
            assert(next =~= pre.push(*d));
            reveal_with_fuel(Seq::filter, 1);
            assert(listed(next) == if is_listed(*d) {
                listed(pre).push(*d)
            } else {
                listed(pre)
            });
        }
        if d.device_type == NM_DEVICE_TYPE_WIFI || d.device_type == NM_DEVICE_TYPE_ETHERNET {
            let ip4 = if d.ip4_raw == 0 {
                None
            } else {
                Some(ipv4_to_string(d.ip4_raw))
            };
            let state = string_of(chars_of(nm_device_state_str(d.state)).as_slice());
            let name = d.iface.clone();
            let mac = d.mac.clone();
            let ghost old_if = interfaces@;
            interfaces.push(NetInterface { name, state, ip4, ip6: None, mac });
            proof {
                assert forall|k: int| 0 <= k < interfaces@.len() implies interface_matches(
                    #[trigger] interfaces@[k],
                    listed(next)[k],
                ) by {
                    if k < interfaces@.len() - 1 {
                        assert(interfaces@[k] == old_if[k]);
                    }
                }
            }
        }
        if d.device_type == NM_DEVICE_TYPE_WIFI {
            wifi_available = true;
            match &d.ap_ssid {
                Some(ssid) => {
                    if chars_of(ssid.as_str()).len() > 0 {
                        active_ssid = Some(ssid.clone());
                        mode = NetMode::Station;
                    }
                },
                None => {},
            }
        }
        if d.device_type == NM_DEVICE_TYPE_ETHERNET {
            ethernet_available = true;
        }
        i = i + 1;
    }
    proof {
        assert(devices@.subrange(0, devices@.len() as int) =~= devices@);
    }
    let connectivity = string_of(chars_of(nm_connectivity_str(connectivity)).as_slice());
    NetStatus {
        connectivity,
        wifi_enabled,
        network_enabled,
        wifi_available,
        ethernet_available,
        mode,
        active_ssid,
        interfaces,
    }
}


// ── Change events ───────────────────────────────────────────────────────────

/// A remembered network status.
#[derive(Debug, Clone)]
pub struct NetworkSnapshot {
    pub status: NetStatus,
}

/// The last snapshot seen, against which new snapshots are compared.
pub struct NetworkState {
    last: Option<NetworkSnapshot>,
}

pub open spec fn wifi_toggle(on: bool) -> NetEvent {
    if on {
        NetEvent::WifiEnabled
    } else {
        NetEvent::WifiDisabled
    }
}

/// The events that report how `s` differs from the previous status; with no
/// previous status, connectivity, Wi-Fi state and mode are all reported.
pub open spec fn change_events(prev: Option<NetStatus>, s: NetStatus) -> Seq<NetEvent> {
    match prev {
        Some(p) => (if p.connectivity@ != s.connectivity@ {
            seq![NetEvent::ConnectivityChanged { state: s.connectivity }]
        } else {
            Seq::empty()
        }) + (if p.wifi_enabled != s.wifi_enabled {
            seq![wifi_toggle(s.wifi_enabled)]
        } else {
            Seq::empty()
        }) + (if p.mode != s.mode {
            seq![NetEvent::ModeChanged { mode: s.mode }]
        } else {
            Seq::empty()
        }),
        None => seq![
            NetEvent::ConnectivityChanged { state: s.connectivity },
            wifi_toggle(s.wifi_enabled),
            NetEvent::ModeChanged { mode: s.mode },
        ],
    }
}

/// A `Connected` event for the active SSID on the first interface, when both exist.
pub open spec fn connected_events(s: NetStatus) -> Seq<NetEvent> {
    match s.active_ssid {
        Some(ssid) => if s.interfaces@.len() > 0 {
            seq![NetEvent::Connected { ssid: Some(ssid), iface: s.interfaces@[0].name }]
        } else {
            Seq::empty()
        },
        None => Seq::empty(),
    }
}

proof fn lemma_contains_add(a: Seq<NetEvent>, b: Seq<NetEvent>, x: NetEvent)
    ensures
        (a + b).contains(x) <==> a.contains(x) || b.contains(x),
{
    if a.contains(x) {
        let i = choose|i: int| 0 <= i < a.len() && a[i] == x;
        assert((a + b)[i] == x);
    }
    if b.contains(x) {
        let i = choose|i: int| 0 <= i < b.len() && b[i] == x;
        assert((a + b)[a.len() + i] == x);
    }
    if (a + b).contains(x) {
        let i = choose|i: int| 0 <= i < (a + b).len() && (a + b)[i] == x;
        if i < a.len() {
            assert(a[i] == x);
        } else {
            assert(b[i - a.len()] == x);
        }
    }
}

proof fn lemma_contains_one(e: NetEvent, x: NetEvent)
    ensures
        seq![e].contains(x) <==> e == x,
        !Seq::<NetEvent>::empty().contains(x),
{
    if e == x {
        assert(seq![e][0] == x);
    }
}

/// Turning Wi-Fi on or off is reported the right way round: when the Wi-Fi
/// switch changed between the previous status and the new one (or there is
/// no previous status), the events hold `WifiEnabled` exactly when Wi-Fi is
/// now on and `WifiDisabled` exactly when it is now off; when the switch did
/// not change, neither is reported.
pub proof fn wifi_toggle_is_reported(prev: Option<NetStatus>, s: NetStatus)
    ensures
        ({
            let ev = change_events(prev, s) + connected_events(s);
            let changed = match prev {
                Some(p) => p.wifi_enabled != s.wifi_enabled,
                None => true,
            };
            &&& changed ==> (ev.contains(NetEvent::WifiEnabled) <==> s.wifi_enabled)
            &&& changed ==> (ev.contains(NetEvent::WifiDisabled) <==> !s.wifi_enabled)
            &&& !changed ==> !ev.contains(NetEvent::WifiEnabled) && !ev.contains(NetEvent::WifiDisabled)
        }),
{
    let ce = connected_events(s);
    let en = NetEvent::WifiEnabled;
    let dis = NetEvent::WifiDisabled;
    match s.active_ssid {
        Some(ssid) => {
            if s.interfaces@.len() > 0 {
                lemma_contains_one(NetEvent::Connected { ssid: Some(ssid), iface: s.interfaces@[0].name }, en);
                lemma_contains_one(NetEvent::Connected { ssid: Some(ssid), iface: s.interfaces@[0].name }, dis);
            } else {
                lemma_contains_one(en, en);
            }
        },
        None => {
            lemma_contains_one(en, en);
        },
    }
    assert(!ce.contains(en) && !ce.contains(dis));
    let cc = NetEvent::ConnectivityChanged { state: s.connectivity };
    let mc = NetEvent::ModeChanged { mode: s.mode };
    let w = wifi_toggle(s.wifi_enabled);
    lemma_contains_one(cc, en);
    lemma_contains_one(cc, dis);
    lemma_contains_one(mc, en);
    lemma_contains_one(mc, dis);
    lemma_contains_one(w, en);
    lemma_contains_one(w, dis);
    match prev {
        Some(p) => {
            let a = if p.connectivity@ != s.connectivity@ {
                seq![cc]
            } else {
                Seq::empty()
            };
            let b = if p.wifi_enabled != s.wifi_enabled {
                seq![w]
            } else {
                Seq::empty()
            };
            let c = if p.mode != s.mode {
                seq![mc]
            } else {
                Seq::empty()
            };
            assert(change_events(prev, s) == a + b + c);
            lemma_contains_add(a, b, en);
            lemma_contains_add(a + b, c, en);
            lemma_contains_add(a + b + c, ce, en);
            lemma_contains_add(a, b, dis);
            lemma_contains_add(a + b, c, dis);
            lemma_contains_add(a + b + c, ce, dis);
        },
        None => {
            let ch = seq![cc, w, mc];
            assert(ch =~= seq![cc] + seq![w] + seq![mc]);
            lemma_contains_add(seq![cc], seq![w], en);
            lemma_contains_add(seq![cc] + seq![w], seq![mc], en);
            lemma_contains_add(seq![cc], seq![w], dis);
            lemma_contains_add(seq![cc] + seq![w], seq![mc], dis);
            lemma_contains_add(ch, ce, en);
            lemma_contains_add(ch, ce, dis);
        },
    }
}

/// Setting a snapshot forgets the ones before it: two states that last set
/// snapshots with the same status raise the same events for every later
/// snapshot, and a snapshot compared with its own status raises no
/// connectivity, Wi-Fi or mode change.
pub proof fn set_snapshot_forgets_history(st1: NetworkState, st2: NetworkState, s: NetStatus, x: NetStatus)
    requires
        st1.previous() == Some(s),
        st2.previous() == Some(s),
    ensures
        change_events(st1.previous(), x) + connected_events(x) == change_events(st2.previous(), x)
            + connected_events(x),
        change_events(st1.previous(), s) == Seq::<NetEvent>::empty(),
{
    assert(change_events(Some(s), s) =~= Seq::<NetEvent>::empty());
}

impl NetworkState {
    /// The status of the remembered snapshot.
    pub closed spec fn previous(&self) -> Option<NetStatus> {
        match self.last {
            Some(snap) => Some(snap.status),
            None => None,
        }
    }

    /// A state that has seen no snapshot yet.
    pub fn new() -> (st: Self)
        ensures
            st.previous() is None,
    {
        NetworkState { last: None }
    }

    /// Remember `snapshot` as the one to compare against next.
    pub fn set_snapshot(&mut self, snapshot: NetworkSnapshot)
        ensures
            final(self).previous() == Some(snapshot.status),
    {
        self.last = Some(snapshot);
    }

    /// The events a new snapshot raises against the remembered one.
    pub fn diff_events(&self, snapshot: &NetworkSnapshot) -> (events: Vec<NetEvent>)
        ensures
            events@ == change_events(self.previous(), snapshot.status) + connected_events(
                snapshot.status,
            ),
    {
        let mut events: Vec<NetEvent> = Vec::new();
        let status = &snapshot.status;
        match &self.last {
            Some(prev) => {
                let prev_status = &prev.status;
                if prev_status.connectivity != status.connectivity {
                    events.push(NetEvent::ConnectivityChanged { state: status.connectivity.clone() });
                }
                if prev_status.wifi_enabled != status.wifi_enabled {
                    events.push(
                        if status.wifi_enabled {
                            NetEvent::WifiEnabled
                        } else {
                            NetEvent::WifiDisabled
                        },
                    );
                }
                if prev_status.mode != status.mode {
                    events.push(NetEvent::ModeChanged { mode: status.mode });
                }
            },
            None => {
                events.push(NetEvent::ConnectivityChanged { state: status.connectivity.clone() });
                events.push(
                    if status.wifi_enabled {
                        NetEvent::WifiEnabled
                    } else {
                        NetEvent::WifiDisabled
                    },
                );
                events.push(NetEvent::ModeChanged { mode: status.mode });
            },
        }
        let ghost head = events@;
        proof {
            assert(head =~= change_events(self.previous(), snapshot.status));
        }
        match &status.active_ssid {
            Some(ssid) => {
                if status.interfaces.len() > 0 {
                    events.push(
                        NetEvent::Connected {
                            ssid: Some(ssid.clone()),
                            iface: status.interfaces[0].name.clone(),
                        },
                    );
                }
            },
            None => {},
        }
        proof {
            assert(events@ =~= head + connected_events(snapshot.status));
        }
        events
    }
}

/// Comparing a status with itself raises no change event: only the
/// `Connected` report of the active SSID, if any, remains.
pub proof fn diff_against_same_status_reports_no_change(s: NetStatus)
    ensures
        change_events(Some(s), s) == Seq::<NetEvent>::empty(),
{
    assert(change_events(Some(s), s) =~= Seq::<NetEvent>::empty());
}

/// The first comparison reports the connectivity, the Wi-Fi state and the mode.
pub proof fn first_diff_reports_everything(s: NetStatus)
    ensures
        change_events(None, s).len() == 3,
        change_events(None, s)[0] == (NetEvent::ConnectivityChanged { state: s.connectivity }),
        change_events(None, s)[1] == wifi_toggle(s.wifi_enabled),
        change_events(None, s)[2] == (NetEvent::ModeChanged { mode: s.mode }),
{
}

// ── Hotspot changes ─────────────────────────────────────────────────────────

/// A change between two hotspot statuses that is reported as an event.
#[derive(Debug, Clone, Copy, PartialEq, Eq, Structural)]
pub enum HotspotChange {
    Started,
    Stopped,
    /// The client at this index of the new status joined.
    ClientJoined(usize),
    /// The client at this index of the previous status left.
    ClientLeft(usize),
    StatusChanged,
}

pub open spec fn opt_text(o: Option<String>) -> Option<Seq<char>> {
    match o {
        Some(s) => Some(s@),
        None => None,
    }
}

pub open spec fn same_client(a: HotspotClient, b: HotspotClient) -> bool {
    a.mac@ == b.mac@ && opt_text(a.ip) == opt_text(b.ip)
}

/// Field-by-field equality of two hotspot statuses, strings compared by content.
pub open spec fn same_hotspot(a: HotspotStatus, b: HotspotStatus) -> bool {
    &&& a.active == b.active
    &&& opt_text(a.ssid) == opt_text(b.ssid)
    &&& opt_text(a.iface) == opt_text(b.iface)
    &&& opt_text(a.band) == opt_text(b.band)
    &&& a.channel == b.channel
    &&& a.clients@.len() == b.clients@.len()
    &&& forall|k: int| 0 <= k < a.clients@.len() ==> same_client(#[trigger] a.clients@[k], b.clients@[k])
    &&& a.backend == b.backend
    &&& a.supports_virtual_ap == b.supports_virtual_ap
}

/// The status compared against when there is no previous one.
pub open spec fn inactive_hotspot(s: HotspotStatus) -> bool {
    &&& !s.active
    &&& s.ssid is None
    &&& s.iface is None
    &&& s.band is None
    &&& s.channel is None
    &&& s.clients@.len() == 0
    &&& s.backend == HotspotBackend::NetworkManager
    &&& !s.supports_virtual_ap
}

pub open spec fn has_mac(clients: Seq<HotspotClient>, mac: Seq<char>) -> bool {
    exists|k: int| 0 <= k < clients.len() && (#[trigger] clients[k]).mac@ == mac
}

/// Indices of the clients of `cur` whose MAC is new, one per MAC (its first occurrence).
pub open spec fn joined_indices(prev: Seq<HotspotClient>, cur: Seq<HotspotClient>) -> Seq<usize>
    decreases cur.len(),
{
    if cur.len() == 0 {
        Seq::empty()
    } else {
        let before = cur.drop_last();
        let rest = joined_indices(prev, before);
        let m = cur.last().mac@;
        if !has_mac(prev, m) && !has_mac(before, m) {
            rest.push((cur.len() - 1) as usize)
        } else {
            rest
        }
    }
}

/// The changes to report when the hotspot status `s` follows `prev`.
pub open spec fn hotspot_changes_spec(prev: Option<HotspotStatus>, s: HotspotStatus) -> Seq<
    HotspotChange,
> {
    let was_active = match prev {
        Some(p) => p.active,
        None => false,
    };
    let prev_clients = match prev {
        Some(p) => p.clients@,
        None => Seq::empty(),
    };
    if !s.active {
        if was_active {
            seq![HotspotChange::Stopped]
        } else {
            Seq::empty()
        }
    } else {
        (if !was_active {
            seq![HotspotChange::Started]
        } else {
            Seq::empty()
        }) + joined_indices(prev_clients, s.clients@).map_values(
            |i: usize| HotspotChange::ClientJoined(i),
        ) + joined_indices(s.clients@, prev_clients).map_values(
            |i: usize| HotspotChange::ClientLeft(i),
        ) + (if (match prev {
            Some(p) => !same_hotspot(s, p),
            None => !inactive_hotspot(s),
        }) {
            seq![HotspotChange::StatusChanged]
        } else {
            Seq::empty()
        })
    }
}

fn same_text(a: &String, b: &String) -> (r: bool)
    ensures
        r == (a@ == b@),
{
    *a == *b
}

fn same_opt_text(a: &Option<String>, b: &Option<String>) -> (r: bool)
    ensures
        r == (opt_text(*a) == opt_text(*b)),
{
    match (a, b) {
        (Some(x), Some(y)) => same_text(x, y),
        (None, None) => true,
        _ => false,
    }
}

fn mac_listed(clients: &Vec<HotspotClient>, upto: usize, mac: &String) -> (r: bool)
    requires
        upto <= clients@.len(),
    ensures
        r == has_mac(clients@.subrange(0, upto as int), mac@),
{
    let ghost pre = clients@.subrange(0, upto as int);
    let mut i: usize = 0;
    while i < upto
        invariant
            0 <= i <= upto <= clients@.len(),
            pre == clients@.subrange(0, upto as int),
            forall|k: int| 0 <= k < i ==> (#[trigger] clients@[k]).mac@ != mac@,
        decreases upto - i,
    {
        if same_text(&clients[i].mac, mac) {
            assert(pre[i as int] == clients@[i as int]);
            return true;
        }
        i = i + 1;
    }
    assert forall|k: int| 0 <= k < pre.len() implies (#[trigger] pre[k]).mac@ != mac@ by {
        assert(pre[k] == clients@[k]);
    }
    false
}

fn push_new_macs(
    out: &mut Vec<HotspotChange>,
    prev: &Vec<HotspotClient>,
    cur: &Vec<HotspotClient>,
    joined: bool,
)
    ensures
        final(out)@ == old(out)@ + joined_indices(prev@, cur@).map_values(
            |i: usize|
                if joined {
                    HotspotChange::ClientJoined(i)
                } else {
                    HotspotChange::ClientLeft(i)
                },
        ),
{
    let ghost o0 = out@;
    let ghost f = |i: usize|
        if joined {
            HotspotChange::ClientJoined(i)
        } else {
            HotspotChange::ClientLeft(i)
        };
    let mut i: usize = 0;
    proof {
        assert(prev@.subrange(0, prev@.len() as int) =~= prev@);
        assert(joined_indices(prev@, cur@.subrange(0, 0)) =~= Seq::<usize>::empty());
        assert(out@ =~= o0 + joined_indices(prev@, cur@.subrange(0, 0)).map_values(f));
    }
    while i < cur.len()
        invariant
            0 <= i <= cur.len(),
            out@ == o0 + joined_indices(prev@, cur@.subrange(0, i as int)).map_values(f),
            f == (|i: usize|
                if joined {
                    HotspotChange::ClientJoined(i)
                } else {
                    HotspotChange::ClientLeft(i)
                }),
        decreases cur.len() - i,
    {
        let ghost pre = cur@.subrange(0, i as int);
        let ghost next = cur@.subrange(0, i + 1);
        proof {
            assert(next.drop_last() =~= pre);
            assert(next.last() == cur@[i as int]);
        }
        let in_prev = mac_listed(prev, prev.len(), &cur[i].mac);
        let in_before = mac_listed(cur, i, &cur[i].mac);
        proof {
            assert(prev@.subrange(0, prev@.len() as int) =~= prev@);
        }
        let ghost js = joined_indices(prev@, pre);
        if !in_prev && !in_before {
            out.push(
                if joined {
                    HotspotChange::ClientJoined(i)
                } else {
                    HotspotChange::ClientLeft(i)
                },
            );
            proof {
                assert(joined_indices(prev@, next) == js.push(i));
                assert(out@ =~= o0 + js.push(i).map_values(f));
            }
        } else {
            proof {
                assert(joined_indices(prev@, next) == js);
            }
        }
        i = i + 1;
    }
    proof {
        assert(cur@.subrange(0, cur@.len() as int) =~= cur@);
    }
}

fn same_clients(a: &Vec<HotspotClient>, b: &Vec<HotspotClient>) -> (r: bool)
    ensures
        r == (a@.len() == b@.len() && forall|k: int|
            0 <= k < a@.len() ==> same_client(#[trigger] a@[k], b@[k])),
{
    if a.len() != b.len() {
        return false;
    }
    let mut i: usize = 0;
    while i < a.len()
        invariant
            a@.len() == b@.len(),
            0 <= i <= a.len(),
            forall|k: int| 0 <= k < i ==> same_client(#[trigger] a@[k], b@[k]),
        decreases a.len() - i,
    {
        if !same_text(&a[i].mac, &b[i].mac) || !same_opt_text(&a[i].ip, &b[i].ip) {
            return false;
        }
        i = i + 1;
    }
    true
}

fn same_hotspot_exec(a: &HotspotStatus, b: &HotspotStatus) -> (r: bool)
    ensures
        r == same_hotspot(*a, *b),
{
    a.active == b.active && same_opt_text(&a.ssid, &b.ssid) && same_opt_text(&a.iface, &b.iface)
        && same_opt_text(&a.band, &b.band) && a.channel == b.channel && same_clients(
        &a.clients,
        &b.clients,
    ) && a.backend == b.backend && a.supports_virtual_ap == b.supports_virtual_ap
}

/// The events a new hotspot status raises against the previous one: stop,
/// start, each client MAC that joined or left, and any other change of status.
pub fn hotspot_changes(prev: &Option<HotspotStatus>, status: &HotspotStatus) -> (out: Vec<
    HotspotChange,
>)
    ensures
        out@ == hotspot_changes_spec(*prev, *status),
{
    let mut out: Vec<HotspotChange> = Vec::new();
    let was_active = match prev {
        Some(p) => p.active,
        None => false,
    };
    if !status.active {
        if was_active {
            out.push(HotspotChange::Stopped);
        }
        proof {
            assert(out@ =~= hotspot_changes_spec(*prev, *status));
        }
        return out;
    }
    if !was_active {
        out.push(HotspotChange::Started);
    }
    let empty: Vec<HotspotClient> = Vec::new();
    let prev_clients = match prev {
        Some(p) => &p.clients,
        None => &empty,
    };
    let ghost o1 = out@;
    push_new_macs(&mut out, prev_clients, &status.clients, true);
    let ghost o2 = out@;
    push_new_macs(&mut out, &status.clients, prev_clients, false);
    let ghost o3 = out@;
    let changed = match prev {
        Some(p) => !same_hotspot_exec(status, p),
        None => {
            status.active || status.ssid.is_some() || status.iface.is_some() || status.band.is_some()
                || status.channel.is_some() || status.clients.len() > 0 || status.backend
                != HotspotBackend::NetworkManager || status.supports_virtual_ap
        },
    };
    if changed {
        out.push(HotspotChange::StatusChanged);
    }
    proof {
        let pc = match prev {
            Some(p) => p.clients@,
            None => Seq::<HotspotClient>::empty(),
        };
        assert(prev_clients@ == pc);
        let fj = |i: usize| HotspotChange::ClientJoined(i);
        let fl = |i: usize| HotspotChange::ClientLeft(i);
        assert(joined_indices(pc, status.clients@).map_values(
            |i: usize|
                if true {
                    HotspotChange::ClientJoined(i)
                } else {
                    HotspotChange::ClientLeft(i)
                },
        ) =~= joined_indices(pc, status.clients@).map_values(fj));
        assert(joined_indices(status.clients@, pc).map_values(
            |i: usize|
                if false {
                    HotspotChange::ClientJoined(i)
                } else {
                    HotspotChange::ClientLeft(i)
                },
        ) =~= joined_indices(status.clients@, pc).map_values(fl));
        assert(out@ =~= hotspot_changes_spec(*prev, *status));
    }
    out
}

} // verus!
