//! The Wi-Fi network list: one entry per network name out of all access
//! points seen, strongest first.
use vstd::prelude::*;
use crate::ipc::types::{ActiveWifiDetails, WifiNetwork};
use crate::network::{security_label, wifi_security_label};
use crate::text::same_text;

verus! {

// ── Specifications ──────────────────────────────────────────────────────────

/// Whether a scanned access point replaces the one kept for its network:
/// the connected one stays; otherwise a connected or stronger one wins.
pub open spec fn replaces(kept: WifiNetwork, entry: WifiNetwork) -> bool {
    if kept.connected {
        false
    } else if entry.connected {
        true
    } else {
        entry.signal > kept.signal
    }
}

/// Position of the entry for this network name, or the length when none.
pub open spec fn ssid_index(table: Seq<WifiNetwork>, ssid: Seq<char>) -> int
    decreases table.len(),
{
    if table.len() == 0 {
        0
    } else if table[0].ssid@ == ssid {
        0
    } else {
        1 + ssid_index(table.drop_first(), ssid)
    }
}

/// The table after one more access point was seen.
pub open spec fn merge_one(table: Seq<WifiNetwork>, e: WifiNetwork) -> Seq<WifiNetwork> {
    let i = ssid_index(table, e.ssid@);
    if i < table.len() {
        if replaces(table[i], e) {
            table.update(i, e)
        } else {
            table
        }
    } else {
        table.push(e)
    }
}

/// One entry per network name, in order of first sighting; access points
/// without a name are left out.
pub open spec fn merged(es: Seq<WifiNetwork>) -> Seq<WifiNetwork>
    decreases es.len(),
{
    if es.len() == 0 {
        Seq::empty()
    } else {
        let m = merged(es.drop_last());
        if es.last().ssid@.len() == 0 {
            m
        } else {
            merge_one(m, es.last())
        }
    }
}

pub open spec fn strongest_first(s: Seq<WifiNetwork>) -> bool {
    forall|i: int, j: int| 0 <= i < j < s.len() ==> s[i].signal >= s[j].signal
}

/// `a` and `b` hold the same entries (each entry of one is in the other,
/// and they have the same length).
pub open spec fn same_entries(a: Seq<WifiNetwork>, b: Seq<WifiNetwork>) -> bool {
    &&& a.len() == b.len()
    &&& forall|i: int| 0 <= i < a.len() ==> b.contains(#[trigger] a[i])
    &&& forall|j: int| 0 <= j < b.len() ==> a.contains(#[trigger] b[j])
}

pub open spec fn distinct_ssids(s: Seq<WifiNetwork>) -> bool {
    forall|i: int, j: int| 0 <= i < j < s.len() ==> s[i].ssid@ != s[j].ssid@
}

proof fn lemma_ssid_index(s: Seq<WifiNetwork>, ssid: Seq<char>, i: int)
    requires
        0 <= i <= s.len(),
        i < s.len() ==> s[i].ssid@ == ssid,
        forall|k: int| 0 <= k < i ==> (#[trigger] s[k]).ssid@ != ssid,
    ensures
        ssid_index(s, ssid) == i,
    decreases i,
{
    if i > 0 {
        assert forall|k: int| 0 <= k < i - 1 implies (#[trigger] s.drop_first()[k]).ssid@ != ssid by {
            assert(s.drop_first()[k] == s[k + 1]);
        }
        lemma_ssid_index(s.drop_first(), ssid, i - 1);
    }
}

fn find_ssid(table: &Vec<WifiNetwork>, ssid: &str) -> (i: usize)
    ensures
        i == ssid_index(table@, ssid@),
        i <= table@.len(),
        i < table@.len() ==> table@[i as int].ssid@ == ssid@,
        forall|k: int| 0 <= k < i ==> (#[trigger] table@[k]).ssid@ != ssid@,
{
    let mut i: usize = 0;
    while i < table.len()
        invariant
            0 <= i <= table@.len(),
            forall|k: int| 0 <= k < i ==> (#[trigger] table@[k]).ssid@ != ssid@,
        decreases table.len() - i,
    {
        if same_text(table[i].ssid.as_str(), ssid) {
            proof {
                lemma_ssid_index(table@, ssid@, i as int);
            }
            return i;
        }
        i = i + 1;
    }
    proof {
        lemma_ssid_index(table@, ssid@, i as int);
    }
    i
}

/// One entry per network name, strongest first: of the access points
/// sharing a name, the connected one, else the strongest (the first seen
/// among equals) stands for the network.
pub fn merge_networks(entries: Vec<WifiNetwork>) -> (out: Vec<WifiNetwork>)
    ensures
        strongest_first(out@),
        same_entries(out@, merged(entries@)),
        distinct_ssids(out@),
{
    let ghost all = entries@;
    let mut rest = entries;
    let total = rest.len();
    let mut table: Vec<WifiNetwork> = Vec::new();
    let mut n: usize = 0;
    proof {
        assert(all.subrange(0, 0) =~= Seq::<WifiNetwork>::empty());
        assert(all.subrange(0, all.len() as int) =~= all);
    }
    while rest.len() > 0
        invariant
            n + rest@.len() == all.len(),
            all.len() == total,
            rest@ == all.subrange(n as int, all.len() as int),
            table@ == merged(all.subrange(0, n as int)),
            distinct_ssids(table@),
        decreases rest.len(),
    {
        let e = rest.remove(0);
        let ghost prefix = all.subrange(0, n + 1);
        proof {
            assert(e == all[n as int]);
            assert(prefix.drop_last() =~= all.subrange(0, n as int));
            assert(prefix.last() == e);
        }
        if crate::text::chars_of(e.ssid.as_str()).len() > 0 {
            let i = find_ssid(&table, e.ssid.as_str());
            if i < table.len() {
                let keep_old = table[i].connected || (!e.connected && e.signal <= table[i].signal);
                if !keep_old {
                    let ghost before = table@;
                    table.set(i, e);
                    proof {
                        assert(table@[i as int].ssid@ == before[i as int].ssid@);
                        assert forall|a: int, b: int| 0 <= a < b < table@.len() implies table@[a].ssid@
                            != table@[b].ssid@ by {
                            if a != i && b != i {
                                assert(before[a].ssid@ != before[b].ssid@);
                            } else if a == i {
                                assert(before[a].ssid@ != before[b].ssid@);
                            } else {
                                assert(before[a].ssid@ != before[b].ssid@);
                            }
                        }
                    }
                }
            } else {
                let ghost before = table@;
                table.push(e);
                proof {
                    assert forall|a: int, b: int| 0 <= a < b < table@.len() implies table@[a].ssid@
                        != table@[b].ssid@ by {
                        if b < before.len() {
                            assert(before[a].ssid@ != before[b].ssid@);
                        } else {
                            assert(table@[a] == before[a]);
                        }
                    }
                }
            }
        }
        n = n + 1;
        proof {
            assert(rest@ =~= all.subrange(n as int, all.len() as int));
        }
    }
    proof {
        assert(all.subrange(0, n as int) =~= all);
    }
    let ghost m = table@;
    let mlen = table.len();
    let mut out: Vec<WifiNetwork> = Vec::new();
    let mut taken: usize = 0;
    while table.len() > 0
        invariant
            taken + table@.len() == m.len(),
            m.len() == mlen,
            table@ == m.subrange(taken as int, m.len() as int),
            distinct_ssids(m),
            distinct_ssids(out@),
            strongest_first(out@),
            out@.len() == taken,
            forall|i: int| 0 <= i < out@.len() ==> m.subrange(0, taken as int).contains(#[trigger] out@[i]),
            forall|j: int| 0 <= j < taken ==> out@.contains(#[trigger] m[j]),
        decreases table.len(),
    {
        let e = table.remove(0);
        proof {
            assert(e == m[taken as int]);
        }
        let mut p: usize = 0;
        while p < out.len() && out[p].signal >= e.signal
            invariant
                0 <= p <= out@.len(),
                forall|k: int| 0 <= k < p ==> (#[trigger] out@[k]).signal >= e.signal,
            decreases out.len() - p,
        {
            p = p + 1;
        }
        let ghost before = out@;
        out.insert(p, e);
        proof {
            assert(out@ == before.insert(p as int, e));
            assert forall|a: int, b: int| 0 <= a < b < out@.len() implies out@[a].signal >= out@[b].signal by {
                if b < p {
                    assert(out@[a] == before[a] && out@[b] == before[b]);
                } else if b == p {
                    assert(out@[a] == before[a]);
                } else if a < p {
                    assert(out@[a] == before[a] && out@[b] == before[b - 1]);
                    if p < before.len() {
                        assert(before[p as int].signal < e.signal);
                        assert(before[a].signal >= before[p as int].signal || a == p);
                    }
                } else if a == p {
                    assert(out@[b] == before[b - 1]);
                    assert(before[p as int].signal < e.signal);
                    assert(before[p as int].signal >= before[b - 1].signal || b - 1 == p);
                } else {
                    assert(out@[a] == before[a - 1] && out@[b] == before[b - 1]);
                }
            }
            assert forall|k: int| 0 <= k < before.len() implies (#[trigger] before[k]).ssid@ != e.ssid@ by {
                let a = choose|a: int| 0 <= a < taken && m.subrange(0, taken as int)[a] == before[k];
                assert(m[a] == before[k]);
                assert(m[a].ssid@ != m[taken as int].ssid@);
            }
            assert forall|a: int, b: int| 0 <= a < b < out@.len() implies out@[a].ssid@ != out@[b].ssid@ by {
                if b < p {
                    assert(out@[a] == before[a] && out@[b] == before[b]);
                } else if b == p {
                    assert(out@[a] == before[a]);
                } else if a < p {
                    assert(out@[a] == before[a] && out@[b] == before[b - 1]);
                } else if a == p {
                    assert(out@[b] == before[b - 1]);
                } else {
                    assert(out@[a] == before[a - 1] && out@[b] == before[b - 1]);
                }
            }
            let mt = m.subrange(0, taken + 1);
            assert forall|i: int| 0 <= i < out@.len() implies mt.contains(#[trigger] out@[i]) by {
                if i < p {
                    assert(out@[i] == before[i]);
                    let k = choose|k: int| 0 <= k < taken && m.subrange(0, taken as int)[k] == before[i];
                    assert(mt[k] == before[i]);
                } else if i == p {
                    assert(mt[taken as int] == e);
                } else {
                    assert(out@[i] == before[i - 1]);
                    let k = choose|k: int| 0 <= k < taken && m.subrange(0, taken as int)[k] == before[i - 1];
                    assert(mt[k] == before[i - 1]);
                }
            }
            assert forall|j: int| 0 <= j < taken + 1 implies out@.contains(#[trigger] m[j]) by {
                if j < taken {
                    let k = choose|k: int| 0 <= k < before.len() && before[k] == m[j];
                    if k < p {
                        assert(out@[k] == m[j]);
                    } else {
                        assert(out@[k + 1] == m[j]);
                    }
                } else {
                    assert(out@[p as int] == m[j]);
                }
            }
        }
        taken = taken + 1;
        proof {
            assert(table@ =~= m.subrange(taken as int, m.len() as int));
        }
    }
    proof {
        assert(m.subrange(0, taken as int) =~= m);
    }
    out
}

/// The list entry for one access point.
pub fn network_entry(
    ssid: String,
    signal: u8,
    flags: u32,
    wpa_flags: u32,
    rsn_flags: u32,
    connected: bool,
    existing: bool,
    frequency_mhz: Option<u32>,
    bssid: Option<String>,
) -> (n: WifiNetwork)
    ensures
        n.ssid == ssid,
        n.signal == signal,
        n.secured == (flags != 0 || wpa_flags != 0 || rsn_flags != 0),
        n.connected == connected,
        n.existing == existing,
        n.cached == !existing,
        n.password_required == n.secured,
        n.security@ == security_label(flags, wpa_flags, rsn_flags),
        n.frequency_mhz == frequency_mhz,
        n.bssid == bssid,
        n.last_seen_ms is None,
{
    let secured = flags != 0 || wpa_flags != 0 || rsn_flags != 0;
    WifiNetwork {
        ssid,
        signal,
        secured,
        connected,
        existing,
        cached: !existing,
        password_required: secured,
        security: wifi_security_label(flags, wpa_flags, rsn_flags),
        frequency_mhz,
        bssid,
        last_seen_ms: None,
    }
}

// ── Ethernet link speed ─────────────────────────────────────────────────────

pub open spec fn sysfs_speed_of(data: Seq<char>) -> Option<u32> {
    let t = crate::text::trim(data);
    if t.len() == 0 {
        None
    } else {
        match crate::text::parse_u32_spec(t) {
            Some(v) => if v > 0 {
                Some(v)
            } else {
                None
            },
            None => None,
        }
    }
}

/// The link speed in a sysfs `speed` file's text: a positive number of Mb/s.
pub fn parse_sysfs_speed(data: &str) -> (r: Option<u32>)
    ensures
        r == sysfs_speed_of(data@),
{
    let t = crate::text::trim_chars(crate::text::chars_of(data).as_slice());
    if t.len() == 0 {
        return None;
    }
    match crate::text::parse_u32(t.as_slice()) {
        Some(v) => if v > 0 {
            Some(v)
        } else {
            None
        },
        None => None,
    }
}

/// The interface of the default route as `ip route | awk ...` printed it,
/// `unknown` when the command could not run or printed nothing.
pub open spec fn upstream_of(stdout: Option<Seq<u8>>) -> Seq<char> {
    match stdout {
        Some(b) => {
            let t = crate::text::trim(crate::text::utf8_lossy(b));
            if t.len() == 0 {
                "unknown"@
            } else {
                t
            }
        },
        None => "unknown"@,
    }
}

/// The upstream interface named in the output of the default-route query
/// (`None` when the query could not run).
pub fn upstream_from_route_output(stdout: Option<&[u8]>) -> (s: String)
    ensures
        s@ == upstream_of(
            match stdout {
                Some(b) => Some(b@),
                None => None,
            },
        ),
{
    match stdout {
        Some(b) => {
            let text = crate::text::from_utf8_lossy(b);
            let t = crate::text::trim_chars(crate::text::chars_of(text.as_str()).as_slice());
            if t.len() == 0 {
                crate::text::string_of(crate::text::chars_of("unknown").as_slice())
            } else {
                crate::text::string_of(t.as_slice())
            }
        },
        None => crate::text::string_of(crate::text::chars_of("unknown").as_slice()),
    }
}

pub open spec fn mbps_text(v: u32) -> Seq<char> {
    crate::text::decimal(v as nat) + " Mb/s"@
}

/// The speed shown for a wired link: NetworkManager's figure when it is
/// positive, else the kernel's (or `Unknown`) for a named interface, else
/// nothing.
pub fn ethernet_speed_label(nm_speed: Option<u32>, has_ifname: bool, sysfs_speed: Option<u32>) -> (r: Option<String>)
    ensures
        match r {
            Some(s) => match nm_speed {
                Some(v) if v > 0 => s@ == mbps_text(v),
                _ => has_ifname && match sysfs_speed {
                    Some(v) => s@ == mbps_text(v),
                    None => s@ == "Unknown"@,
                },
            },
            None => !(nm_speed matches Some(v) && v > 0) && !has_ifname,
        },
{
    match nm_speed {
        Some(v) => {
            if v > 0 {
                let mut t = crate::text::u64_to_decimal(v as u64);
                crate::text::append_chars(&mut t, crate::text::chars_of(" Mb/s").as_slice());
                return Some(crate::text::string_of(t.as_slice()));
            }
        },
        None => {},
    }
    if !has_ifname {
        return None;
    }
    match sysfs_speed {
        Some(v) => {
            let mut t = crate::text::u64_to_decimal(v as u64);
            crate::text::append_chars(&mut t, crate::text::chars_of(" Mb/s").as_slice());
            Some(crate::text::string_of(t.as_slice()))
        },
        None => Some(crate::text::string_of(crate::text::chars_of("Unknown").as_slice())),
    }
}


// ── Cache of what NetworkManager reported ───────────────────────────────────

/// How long a fetched Wi-Fi list is served from the cache.
pub const WIFI_LIST_TTL_MS: u64 = 5000;

/// How long fetched details of the active Wi-Fi connection are served from the cache.
pub const WIFI_DETAILS_TTL_MS: u64 = 5000;

/// A Wi-Fi list and when it was fetched (milliseconds of a monotonic clock).
pub struct CachedWifiList {
    pub data: Vec<WifiNetwork>,
    pub fetched_at_ms: u64,
}

/// Details of the active Wi-Fi connection and when they were fetched.
pub struct CachedWifiDetails {
    pub data: ActiveWifiDetails,
    pub fetched_at_ms: u64,
}

/// The last Wi-Fi list and connection details fetched, each served while it is fresh.
pub struct NetworkCache {
    pub wifi_list: Option<CachedWifiList>,
    pub wifi_details: Option<CachedWifiDetails>,
}

/// Time since `fetched_at_ms`, which a monotonic clock never lets go negative.
pub open spec fn elapsed_ms(fetched_at_ms: u64, now_ms: u64) -> int {
    if now_ms >= fetched_at_ms {
        now_ms - fetched_at_ms
    } else {
        0
    }
}

/// An entry fetched at `fetched_at_ms` is still served at `now_ms`.
pub open spec fn is_fresh(fetched_at_ms: u64, now_ms: u64, ttl_ms: u64) -> bool {
    elapsed_ms(fetched_at_ms, now_ms) < ttl_ms
}

fn fresh(fetched_at_ms: u64, now_ms: u64, ttl_ms: u64) -> (b: bool)
    ensures
        b == is_fresh(fetched_at_ms, now_ms, ttl_ms),
{
    let elapsed: u64 = if now_ms >= fetched_at_ms {
        now_ms - fetched_at_ms
    } else {
        0
    };
    elapsed < ttl_ms
}

impl NetworkCache {
    /// An empty cache.
    pub fn new() -> (c: Self)
        ensures
            c.wifi_list is None,
            c.wifi_details is None,
    {
        NetworkCache { wifi_list: None, wifi_details: None }
    }

    /// The cached Wi-Fi list, if one was fetched less than
    /// `WIFI_LIST_TTL_MS` before `now_ms`.
    pub fn cached_wifi_list(&self, now_ms: u64) -> (r: Option<&Vec<WifiNetwork>>)
        ensures
            match self.wifi_list {
                Some(e) => if is_fresh(e.fetched_at_ms, now_ms, WIFI_LIST_TTL_MS) {
                    r == Some(&e.data)
                } else {
                    r is None
                },
                None => r is None,
            },
    {
        match &self.wifi_list {
            Some(e) => {
                if fresh(e.fetched_at_ms, now_ms, WIFI_LIST_TTL_MS) {
                    Some(&e.data)
                } else {
                    None
                }
            },
            None => None,
        }
    }

    /// Remembers a freshly fetched Wi-Fi list.
    pub fn store_wifi_list(&mut self, data: Vec<WifiNetwork>, now_ms: u64)
        ensures
            final(self).wifi_list == Some(CachedWifiList { data, fetched_at_ms: now_ms }),
            final(self).wifi_details == old(self).wifi_details,
    {
        self.wifi_list = Some(CachedWifiList { data, fetched_at_ms: now_ms });
    }

    /// The cached connection details, if they were fetched less than
    /// `WIFI_DETAILS_TTL_MS` before `now_ms`.
    pub fn cached_wifi_details(&self, now_ms: u64) -> (r: Option<&ActiveWifiDetails>)
        ensures
            match self.wifi_details {
                Some(e) => if is_fresh(e.fetched_at_ms, now_ms, WIFI_DETAILS_TTL_MS) {
                    r == Some(&e.data)
                } else {
                    r is None
                },
                None => r is None,
            },
    {
        match &self.wifi_details {
            Some(e) => {
                if fresh(e.fetched_at_ms, now_ms, WIFI_DETAILS_TTL_MS) {
                    Some(&e.data)
                } else {
                    None
                }
            },
            None => None,
        }
    }

    /// Remembers freshly fetched connection details.
    pub fn store_wifi_details(&mut self, data: ActiveWifiDetails, now_ms: u64)
        ensures
            final(self).wifi_details == Some(CachedWifiDetails { data, fetched_at_ms: now_ms }),
            final(self).wifi_list == old(self).wifi_list,
    {
        self.wifi_details = Some(CachedWifiDetails { data, fetched_at_ms: now_ms });
    }
}

impl Default for NetworkCache {
    fn default() -> (c: Self)
        ensures
            c.wifi_list is None,
            c.wifi_details is None,
    {
        NetworkCache::new()
    }
}

/// Law: an entry stored at `stored_at` is served from the cache at every
/// moment before `stored_at + ttl_ms`, and at none from then on.
pub proof fn cache_entry_served_until_ttl(stored_at: u64, now: u64, ttl_ms: u64)
    requires
        ttl_ms > 0,
    ensures
        is_fresh(stored_at, now, ttl_ms) <==> now < stored_at + ttl_ms,
{
}

} // verus!
