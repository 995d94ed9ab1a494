//! Packet accounting of the capture engine: which capture devices are
//! offered, how a captured frame is decoded, and how each device keeps its
//! per-second {rx,tx} × {IPv4,IPv6} counters, its application-attributed
//! flow table and its per-application totals, which are handed to the
//! history store once per second.
//!
//! The capture loop itself (opening devices, reading frames, emitting the
//! `traffic-tick` event) belongs to the application; it calls into this
//! module for every decision.

use vstd::prelude::*;

use etherparse::{LaxPacketHeaders, NetHeaders, TransportHeader};

use crate::history::store::{app_recorded, bucket_recorded, HistoryStore};
use crate::history::types::{Dir, Family};
use crate::history::live::wadd;
use crate::port_map::{program_for, spec_program_for, PortCache};
use crate::text::{has_substring, lowercase, str_contains, to_lower};
use crate::vecmap::{KeyEq, VecMap};

verus! {

/// Program name given to traffic whose local port has no known owner.
pub const UNKNOWN_PROGRAM: &'static str = "其他";

/// The flow table keeps at most this many flows; beyond it the least
/// recently seen flow is dropped.
pub const FLOW_TABLE_LIMIT: usize = 256;

/// A `traffic-tick` carries at most this many flows, the busiest first.
pub const TICK_FLOW_COUNT: usize = 24;

/// Link type of Ethernet frames.
pub const LINKTYPE_ETHERNET: i32 = 1;

/// Link type of raw IP packets.
pub const LINKTYPE_RAW: i32 = 101;

/// The BSD value of the raw-IP link type.
pub const DLT_RAW: i32 = 12;

/// An IPv4 or IPv6 address, as its network-order octets.
#[derive(Clone, Copy, Debug)]
pub enum IpAddress {
    V4([u8; 4]),
    V6([u8; 16]),
}

impl View for IpAddress {
    /// Whether it is IPv4, and its octets.
    type V = (bool, Seq<u8>);

    open spec fn view(&self) -> (bool, Seq<u8>) {
        match self {
            IpAddress::V4(a) => (true, a@),
            IpAddress::V6(a) => (false, a@),
        }
    }
}

fn same_octets(a: &[u8], b: &[u8]) -> (r: bool)
    ensures
        r == (a@ == b@),
{
    if a.len() != b.len() {
        return false;
    }
    let mut i: usize = 0;
    while i < a.len()
        invariant
            a@.len() == b@.len(),
            i <= a@.len(),
            forall|j: int| 0 <= j < i ==> a@[j] == b@[j],
        decreases a@.len() - i,
    {
        if a[i] != b[i] {
            return false;
        }
        i = i + 1;
    }
    assert(a@ =~= b@);
    true
}

impl IpAddress {
    pub fn is_ipv4(&self) -> (r: bool)
        ensures
            r == self@.0,
    {
        match self {
            IpAddress::V4(_) => true,
            IpAddress::V6(_) => false,
        }
    }
}

impl KeyEq for IpAddress {
    fn key_eq(&self, other: &Self) -> (r: bool) {
        match (self, other) {
            (IpAddress::V4(a), IpAddress::V4(b)) => same_octets(a.as_slice(), b.as_slice()),
            (IpAddress::V6(a), IpAddress::V6(b)) => same_octets(a.as_slice(), b.as_slice()),
            _ => false,
        }
    }
}

/// Source and destination of an IP header.
#[derive(Clone, Copy, Debug)]
pub enum NetAddrs {
    V4([u8; 4], [u8; 4]),
    V6([u8; 16], [u8; 16]),
}

impl NetAddrs {
    /// The IP family of the header.
    pub fn family(&self) -> (r: Family)
        ensures
            r == family_of(*self),
    {
        match self {
            NetAddrs::V4(_, _) => Family::V4,
            NetAddrs::V6(_, _) => Family::V6,
        }
    }
}

/// Source and destination ports of a TCP or UDP header.
#[derive(Clone, Copy, Debug)]
pub enum TransportPorts {
    Tcp(u16, u16),
    Udp(u16, u16),
}

/// What the accounting reads of a decoded frame: the IP addresses, if the
/// frame carries IPv4 or IPv6, and the ports, if it carries TCP or UDP.
#[derive(Clone, Copy, Debug)]
pub struct PacketSummary {
    pub net: Option<NetAddrs>,
    pub transport: Option<TransportPorts>,
}

/// What `LaxPacketHeaders::from_ethernet` decodes of a frame, reduced to a
/// `PacketSummary`; `None` when it reports an error.
pub uninterp spec fn ethernet_headers(frame: Seq<u8>) -> Option<PacketSummary>;

/// What `LaxPacketHeaders::from_ip` decodes of a raw IP packet, reduced to a
/// `PacketSummary`; `None` when it reports an error.
pub uninterp spec fn ip_headers(packet: Seq<u8>) -> Option<PacketSummary>;

/// `etherparse::LaxPacketHeaders::from_ethernet`, its IP addresses and TCP/UDP
/// ports picked out. The result is a function of the bytes alone; nothing more
/// is claimed of the decoder.
#[verifier::external_body]
fn lax_from_ethernet(frame: &[u8]) -> (r: Option<PacketSummary>)
    ensures
        r == ethernet_headers(frame@),
{
    let h = LaxPacketHeaders::from_ethernet(frame).ok()?;
    let net = match h.net {
        Some(NetHeaders::Ipv4(a, _)) => Some(NetAddrs::V4(a.source, a.destination)),
        Some(NetHeaders::Ipv6(a, _)) => Some(NetAddrs::V6(a.source, a.destination)),
        _ => None,
    };
    let transport = match h.transport {
        Some(TransportHeader::Tcp(t)) => Some(TransportPorts::Tcp(t.source_port, t.destination_port)),
        Some(TransportHeader::Udp(u)) => Some(TransportPorts::Udp(u.source_port, u.destination_port)),
        _ => None,
    };
    Some(PacketSummary { net, transport })
}

/// `etherparse::LaxPacketHeaders::from_ip`, its IP addresses and TCP/UDP ports
/// picked out. The result is a function of the bytes alone; nothing more is
/// claimed of the decoder.
#[verifier::external_body]
fn lax_from_ip(packet: &[u8]) -> (r: Option<PacketSummary>)
    ensures
        r == ip_headers(packet@),
{
    let h = LaxPacketHeaders::from_ip(packet).ok()?;
    let net = match h.net {
        Some(NetHeaders::Ipv4(a, _)) => Some(NetAddrs::V4(a.source, a.destination)),
        Some(NetHeaders::Ipv6(a, _)) => Some(NetAddrs::V6(a.source, a.destination)),
        _ => None,
    };
    let transport = match h.transport {
        Some(TransportHeader::Tcp(t)) => Some(TransportPorts::Tcp(t.source_port, t.destination_port)),
        Some(TransportHeader::Udp(u)) => Some(TransportPorts::Udp(u.source_port, u.destination_port)),
        _ => None,
    };
    Some(PacketSummary { net, transport })
}

/// Whether frames of this link type are raw IP packets (no link header).
pub open spec fn is_raw_ip_link(linktype: i32) -> bool {
    linktype == LINKTYPE_RAW || linktype == DLT_RAW
}

/// Decodes a captured frame by its link type: raw IP for the raw-IP link
/// types, Ethernet for Ethernet and every other link type.
pub fn sniffable_headers(packet: &[u8], linktype: i32) -> (r: Option<PacketSummary>)
    ensures
        r == (if is_raw_ip_link(linktype) {
            ip_headers(packet@)
        } else {
            ethernet_headers(packet@)
        }),
{
    if linktype == LINKTYPE_ETHERNET {
        lax_from_ethernet(packet)
    } else if linktype == LINKTYPE_RAW || linktype == DLT_RAW {
        lax_from_ip(packet)
    } else {
        lax_from_ethernet(packet)
    }
}

/// Presentation info of a capture device.
#[derive(Clone, Debug)]
pub struct DeviceInfo {
    pub name: String,
    pub desc: Option<String>,
    pub addresses: Vec<String>,
}

/// The name a device is shown and selected by: its description, else its name.
pub open spec fn display_of(d: DeviceInfo) -> Seq<char> {
    match d.desc {
        Some(s) => s@,
        None => d.name@,
    }
}

impl DeviceInfo {
    /// The description, or the system name when there is none.
    pub fn display(&self) -> (r: String)
        ensures
            r@ == display_of(*self),
    {
        match &self.desc {
            Some(s) => s.clone(),
            None => self.name.clone(),
        }
    }
}

/// Whether a lowercased device description names a virtual adapter that
/// duplicates real traffic or carries none.
pub open spec fn is_noise_text(lower: Seq<char>) -> bool {
    ||| has_substring(lower, "wi-fi direct"@)
    ||| has_substring(lower, "bluetooth"@)
    ||| has_substring(lower, "wan miniport"@)
    ||| has_substring(lower, "microsoft kernel"@)
}

/// Whether a device is hidden from the device picker: its description,
/// lowercased, names a Wi-Fi Direct, Bluetooth, WAN Miniport or Microsoft
/// Kernel adapter.
pub open spec fn is_noise(desc: Seq<char>) -> bool {
    is_noise_text(lowercase(desc))
}

/// `is_noise_text` on text that is already lowercase.
pub fn is_noise_lower(lower: &str) -> (r: bool)
    ensures
        r == is_noise_text(lower@),
{
    str_contains(lower, "wi-fi direct") || str_contains(lower, "bluetooth") || str_contains(
        lower,
        "wan miniport",
    ) || str_contains(lower, "microsoft kernel")
}

/// Virtual adapters that duplicate real traffic or carry none are hidden
/// from the device picker.
pub fn is_noise_device(desc: &str) -> (r: bool)
    ensures
        r == is_noise(desc@),
{
    let lower = to_lower(desc);
    is_noise_lower(lower.as_str())
}

/// Whether a device is offered at all: it has an address and is not noise.
pub open spec fn offered(d: DeviceInfo) -> bool {
    d.addresses@.len() > 0 && !is_noise(display_of(d))
}

/// The devices offered, in order: those with an address that are not noise,
/// and of several with the same display name only the first.
pub open spec fn selected_devices(devs: Seq<DeviceInfo>) -> Seq<DeviceInfo>
    decreases devs.len(),
{
    if devs.len() == 0 {
        Seq::empty()
    } else {
        let prev = selected_devices(devs.drop_last());
        let d = devs.last();
        if offered(d) && !(exists|i: int| 0 <= i < prev.len() && display_of(#[trigger] prev[i]) == display_of(d)) {
            prev.push(d)
        } else {
            prev
        }
    }
}

/// Every device offered has an address and is not noise, and no two share
/// a display name (the device picker is keyed by it).
pub proof fn lemma_selected_devices_distinct(devs: Seq<DeviceInfo>)
    ensures
        forall|i: int| 0 <= i < selected_devices(devs).len() ==> offered(#[trigger] selected_devices(devs)[i]),
        forall|i: int, j: int|
            0 <= i < j < selected_devices(devs).len() ==> display_of(#[trigger] selected_devices(devs)[i])
                != display_of(#[trigger] selected_devices(devs)[j]),
    decreases devs.len(),
{
    if devs.len() > 0 {
        lemma_selected_devices_distinct(devs.drop_last());
        let prev = selected_devices(devs.drop_last());
        let d = devs.last();
        if offered(d) && !(exists|i: int| 0 <= i < prev.len() && display_of(#[trigger] prev[i]) == display_of(d)) {
            let sel = prev.push(d);
            assert(selected_devices(devs) == sel);
            assert forall|i: int, j: int| 0 <= i < j < sel.len() implies display_of(#[trigger] sel[i]) != display_of(
                #[trigger] sel[j],
            ) by {
                assert(sel[i] == prev[i]);
                if j < prev.len() {
                    assert(sel[j] == prev[j]);
                }
            }
            assert forall|i: int| 0 <= i < sel.len() implies offered(#[trigger] sel[i]) by {
                if i < prev.len() {
                    assert(sel[i] == prev[i]);
                }
            }
        }
    }
}

/// Filters the system's device list down to the devices offered for capture
/// (see `selected_devices`): a device shown twice would break the picker,
/// which is keyed by display name.
pub fn select_devices(devs: Vec<DeviceInfo>) -> (r: Vec<DeviceInfo>)
    ensures
        r@ == selected_devices(devs@),
{
    let ghost all = devs@;
    let mut out: Vec<DeviceInfo> = Vec::new();
    let mut shown: Vec<String> = Vec::new();
    let mut rest = devs;
    let mut i: usize = 0;
    let n = rest.len();
    assert(all.take(0) =~= Seq::<DeviceInfo>::empty());
    while rest.len() > 0
        invariant
            n == all.len(),
            i <= n,
            rest@ == all.skip(i as int),
            out@ == selected_devices(all.take(i as int)),
            shown@.len() == out@.len(),
            forall|j: int| 0 <= j < out@.len() ==> (#[trigger] shown@[j])@ == display_of(out@[j]),
        decreases rest@.len(),
    {
        let d = rest.remove(0);
        assert(d == all[i as int]);
        assert(rest@ =~= all.skip(i + 1));
        assert(all.take(i + 1).drop_last() =~= all.take(i as int));
        let disp = d.display();
        let mut dup = false;
        let mut j: usize = 0;
        while j < shown.len()
            invariant
                j <= shown@.len(),
                shown@.len() == out@.len(),
                forall|k: int| 0 <= k < out@.len() ==> (#[trigger] shown@[k])@ == display_of(out@[k]),
                dup == exists|k: int| 0 <= k < j && display_of(#[trigger] out@[k]) == disp@,
            decreases shown@.len() - j,
        {
            if shown[j] == disp {
                assert(display_of(out@[j as int]) == disp@);
                dup = true;
            }
            j = j + 1;
        }
        let keep = d.addresses.len() > 0 && !dup && !is_noise_device(disp.as_str());
        if keep {
            shown.push(disp);
            out.push(d);
        }
        i = i + 1;
    }
    assert(all.take(n as int) =~= all);
    out
}

/// The addresses of the given devices, device by device.
pub open spec fn addresses_of(devs: Seq<DeviceInfo>) -> Seq<Seq<char>>
    decreases devs.len(),
{
    if devs.len() == 0 {
        Seq::empty()
    } else {
        addresses_of(devs.drop_last()) + devs.last().addresses@.map_values(|a: String| a@)
    }
}

/// All local addresses of the given devices, in order.
pub fn local_addresses(devs: &Vec<DeviceInfo>) -> (r: Vec<String>)
    ensures
        r@.map_values(|a: String| a@) == addresses_of(devs@),
{
    let mut out: Vec<String> = Vec::new();
    let mut i: usize = 0;
    assert(devs@.take(0) =~= Seq::<DeviceInfo>::empty());
    while i < devs.len()
        invariant
            i <= devs@.len(),
            out@.map_values(|a: String| a@) == addresses_of(devs@.take(i as int)),
        decreases devs@.len() - i,
    {
        let d = &devs[i];
        let ghost before = out@;
        let mut j: usize = 0;
        while j < d.addresses.len()
            invariant
                j <= d.addresses@.len(),
                out@.len() == before.len() + j,
                forall|k: int| 0 <= k < before.len() ==> out@[k] == before[k],
                forall|k: int| 0 <= k < j ==> (#[trigger] out@[before.len() + k])@ == d.addresses@[k]@,
            decreases d.addresses@.len() - j,
        {
            out.push(d.addresses[j].clone());
            j = j + 1;
        }
        assert(devs@.take(i + 1).drop_last() =~= devs@.take(i as int));
        assert forall|idx: int| before.len() <= idx < out@.len() implies out@[idx]@ == d.addresses@[idx - before.len()]@ by {
            let k = idx - before.len();
            assert(out@[before.len() + k]@ == d.addresses@[k]@);
        }
        assert(out@.map_values(|a: String| a@) =~= before.map_values(|a: String| a@) + d.addresses@.map_values(|a: String| a@));
        i = i + 1;
    }
    assert(devs@.take(devs@.len() as int) =~= devs@);
    out
}

/// Whether a capture session started with `filter` takes device `d`: with a
/// filter, exactly the devices whose display name is the filter; without one,
/// every device that has at least one address.
pub open spec fn is_capture_target(d: DeviceInfo, filter: Option<String>) -> bool {
    match filter {
        Some(f) => display_of(d) == f@,
        None => d.addresses@.len() > 0,
    }
}

/// Whether a device is captured by a session started with `filter` (see
/// `is_capture_target`).
pub fn matches_filter(info: &DeviceInfo, filter: &Option<String>) -> (r: bool)
    ensures
        r == is_capture_target(*info, *filter),
{
    match filter {
        Some(f) => {
            let disp = info.display();
            disp == *f
        },
        None => info.addresses.len() > 0,
    }
}

/// The devices of the system's list that a session started with `filter`
/// captures, in list order.
pub open spec fn capture_targets_of(devs: Seq<DeviceInfo>, filter: Option<String>) -> Seq<DeviceInfo>
    decreases devs.len(),
{
    if devs.len() == 0 {
        Seq::empty()
    } else {
        let prev = capture_targets_of(devs.drop_last(), filter);
        if is_capture_target(devs.last(), filter) {
            prev.push(devs.last())
        } else {
            prev
        }
    }
}

/// The devices to start one capture thread each for: those of the system's
/// list that `filter` selects (by display name; every device with an address
/// when there is no filter), in list order.
pub fn capture_targets(devs: Vec<DeviceInfo>, filter: &Option<String>) -> (r: Vec<DeviceInfo>)
    ensures
        r@ == capture_targets_of(devs@, *filter),
{
    let ghost all = devs@;
    let mut out: Vec<DeviceInfo> = Vec::new();
    let mut rest = devs;
    let mut i: usize = 0;
    let n = rest.len();
    assert(all.take(0) =~= Seq::<DeviceInfo>::empty());
    while rest.len() > 0
        invariant
            n == all.len(),
            i <= n,
            rest@ == all.skip(i as int),
            out@ == capture_targets_of(all.take(i as int), *filter),
        decreases rest@.len(),
    {
        let d = rest.remove(0);
        assert(d == all[i as int]);
        assert(rest@ =~= all.skip(i + 1));
        assert(all.take(i + 1).drop_last() =~= all.take(i as int));
        if matches_filter(&d, filter) {
            out.push(d);
        }
        i = i + 1;
    }
    assert(all.take(n as int) =~= all);
    out
}

/// Key of the live flow table: remote address and port, local port, protocol.
#[derive(Clone, Copy, Debug)]
pub struct FlowKey {
    pub remote: IpAddress,
    pub remote_port: u16,
    pub local_port: u16,
    pub is_tcp: bool,
}

/// View of a flow key: (remote, remote port, local port, is TCP).
pub type FlowKeyV = ((bool, Seq<u8>), u16, u16, bool);

impl View for FlowKey {
    type V = FlowKeyV;

    open spec fn view(&self) -> FlowKeyV {
        (self.remote@, self.remote_port, self.local_port, self.is_tcp)
    }
}

impl KeyEq for FlowKey {
    fn key_eq(&self, other: &Self) -> (r: bool) {
        self.remote.key_eq(&other.remote) && self.remote_port == other.remote_port
            && self.local_port == other.local_port && self.is_tcp == other.is_tcp
    }
}

/// Traffic of one flow: bytes received and sent, the second it was last
/// seen, and the program it is attributed to.
#[derive(Clone, Debug)]
pub struct FlowStat {
    pub rx: u64,
    pub tx: u64,
    pub last_seen: u64,
    pub program: String,
}

/// View of a flow's traffic: (rx, tx, last seen, program).
pub type FlowStatV = (u64, u64, u64, Seq<char>);

impl View for FlowStat {
    type V = FlowStatV;

    open spec fn view(&self) -> FlowStatV {
        (self.rx, self.tx, self.last_seen, self.program@)
    }
}

/// Key of the per-second application totals: program and IP family.
#[derive(Clone, Debug)]
pub struct AppKey {
    pub program: String,
    pub family: Family,
}

impl View for AppKey {
    type V = (Seq<char>, Family);

    open spec fn view(&self) -> (Seq<char>, Family) {
        (self.program@, self.family)
    }
}

impl KeyEq for AppKey {
    fn key_eq(&self, other: &Self) -> (r: bool) {
        self.program == other.program && self.family == other.family
    }
}

/// Bytes of the current second, by direction and IP family.
#[derive(Clone, Copy, Debug, Default)]
pub struct Counters {
    pub rx_v4: u64,
    pub rx_v6: u64,
    pub tx_v4: u64,
    pub tx_v6: u64,
}

pub open spec fn zero_counters() -> Counters {
    Counters { rx_v4: 0, rx_v6: 0, tx_v4: 0, tx_v6: 0 }
}

/// The counters with `bytes` added (wrapping) to the one of `dir` and `family`.
pub open spec fn counters_after(c: Counters, dir: Dir, family: Family, bytes: u64) -> Counters {
    match (dir, family) {
        (Dir::Rx, Family::V4) => Counters { rx_v4: wadd(c.rx_v4, bytes), ..c },
        (Dir::Rx, Family::V6) => Counters { rx_v6: wadd(c.rx_v6, bytes), ..c },
        (Dir::Tx, Family::V4) => Counters { tx_v4: wadd(c.tx_v4, bytes), ..c },
        (Dir::Tx, Family::V6) => Counters { tx_v6: wadd(c.tx_v6, bytes), ..c },
    }
}

fn add_to_counters(c: Counters, dir: Dir, family: Family, bytes: u64) -> (r: Counters)
    ensures
        r == counters_after(c, dir, family, bytes),
{
    match (dir, family) {
        (Dir::Rx, Family::V4) => Counters { rx_v4: c.rx_v4.wrapping_add(bytes), ..c },
        (Dir::Rx, Family::V6) => Counters { rx_v6: c.rx_v6.wrapping_add(bytes), ..c },
        (Dir::Tx, Family::V4) => Counters { tx_v4: c.tx_v4.wrapping_add(bytes), ..c },
        (Dir::Tx, Family::V6) => Counters { tx_v6: c.tx_v6.wrapping_add(bytes), ..c },
    }
}

/// The IP family of a decoded header.
pub open spec fn family_of(n: NetAddrs) -> Family {
    match n {
        NetAddrs::V4(_, _) => Family::V4,
        NetAddrs::V6(_, _) => Family::V6,
    }
}

pub open spec fn source_of(n: NetAddrs) -> IpAddress {
    match n {
        NetAddrs::V4(s, _) => IpAddress::V4(s),
        NetAddrs::V6(s, _) => IpAddress::V6(s),
    }
}

pub open spec fn destination_of(n: NetAddrs) -> IpAddress {
    match n {
        NetAddrs::V4(_, d) => IpAddress::V4(d),
        NetAddrs::V6(_, d) => IpAddress::V6(d),
    }
}

/// The flow a packet belongs to: seen from this machine, the remote end is
/// the destination of outgoing packets and the source of incoming ones.
pub open spec fn flow_key_of(n: NetAddrs, t: TransportPorts, outgoing: bool) -> FlowKey {
    let (is_tcp, sport, dport) = match t {
        TransportPorts::Tcp(s, d) => (true, s, d),
        TransportPorts::Udp(s, d) => (false, s, d),
    };
    FlowKey {
        remote: if outgoing { destination_of(n) } else { source_of(n) },
        remote_port: if outgoing { dport } else { sport },
        local_port: if outgoing { sport } else { dport },
        is_tcp,
    }
}

/// The program a new flow is attributed to: the owner of its local port, or
/// `UNKNOWN_PROGRAM` when the port has no known owner.
pub open spec fn owner_program(cache: PortCache, k: FlowKey) -> Seq<char> {
    match spec_program_for(cache, k.is_tcp, k.remote@.0, k.local_port) {
        Some(n) => n,
        None => UNKNOWN_PROGRAM@,
    }
}

/// A flow's traffic after a packet of `bytes` bytes in direction `dir` at
/// second `now`; a flow seen for the first time starts empty and takes
/// `program`.
pub open spec fn stat_after(prev: Option<FlowStatV>, dir: Dir, bytes: u64, now: u64, program: Seq<char>) -> FlowStatV {
    let base = match prev {
        Some(s) => s,
        None => (0u64, 0u64, now, program),
    };
    (
        if dir == Dir::Rx { wadd(base.0, bytes) } else { base.0 },
        if dir == Dir::Tx { wadd(base.1, bytes) } else { base.1 },
        now,
        base.3,
    )
}

/// Application totals after `bytes` more in direction `dir`.
pub open spec fn app_total_after(prev: Option<(u64, u64)>, dir: Dir, bytes: u64) -> (u64, u64) {
    let base = match prev {
        Some(t) => t,
        None => (0u64, 0u64),
    };
    if dir == Dir::Rx {
        (wadd(base.0, bytes), base.1)
    } else {
        (base.0, wadd(base.1, bytes))
    }
}

/// The traffic a flow table holds for a flow.
pub open spec fn flow_in(m: VecMap<FlowKey, FlowStat>, k: FlowKeyV) -> Option<FlowStatV> {
    match m.get(k) {
        Some(s) => Some(s@),
        None => None,
    }
}

/// `new` is the table `old` with flow `key` set to `st` and, when that
/// makes more than `FLOW_TABLE_LIMIT` flows, one least recently seen flow
/// dropped.
pub open spec fn table_after_touch(old: VecMap<FlowKey, FlowStat>, new: VecMap<FlowKey, FlowStat>, key: FlowKeyV, st: FlowStatV) -> bool {
    let n = old.entries@.len() + if flow_in(old, key) is Some { 0nat } else { 1nat };
    if n <= FLOW_TABLE_LIMIT {
        &&& new.entries@.len() == n
        &&& forall|k: FlowKeyV| #[trigger] flow_in(new, k) == touched_in(old, key, st, k)
    } else {
        &&& new.entries@.len() == n - 1
        &&& exists|e: FlowKeyV| {
            &&& #[trigger] touched_in(old, key, st, e) is Some
            &&& flow_in(new, e) is None
            &&& forall|k: FlowKeyV| k != e ==> #[trigger] flow_in(new, k) == touched_in(old, key, st, k)
            &&& forall|k: FlowKeyV| #[trigger] touched_in(old, key, st, k) matches Some(s) ==> touched_in(old, key, st, e).unwrap().2 <= s.2
        }
    }
}

/// The table `old` with flow `key` set to `st`, at flow `k`.
pub open spec fn touched_in(old: VecMap<FlowKey, FlowStat>, key: FlowKeyV, st: FlowStatV, k: FlowKeyV) -> Option<FlowStatV> {
    if k == key {
        Some(st)
    } else {
        flow_in(old, k)
    }
}

/// The capture state of one device.
pub struct DeviceState {
    display: String,
    adapter: String,
    local_addrs: Vec<IpAddress>,
    cur: Counters,
    flows: VecMap<FlowKey, FlowStat>,
    app_cur: VecMap<AppKey, (u64, u64)>,
    cur_sec: u64,
}

impl DeviceState {
    #[verifier::type_invariant]
    spec fn inv(self) -> bool {
        &&& self.flows.wf()
        &&& self.app_cur.wf()
        &&& self.flows.entries@.len() <= FLOW_TABLE_LIMIT
    }

    /// The device's display name.
    pub closed spec fn display_name(&self) -> Seq<char> {
        self.display@
    }

    /// The adapter name its history is recorded under.
    pub closed spec fn adapter_name(&self) -> Seq<char> {
        self.adapter@
    }

    /// The device's own addresses: a packet from one of them is outgoing.
    pub closed spec fn local(&self) -> Seq<(bool, Seq<u8>)> {
        self.local_addrs@.map_values(|a: IpAddress| a@)
    }

    /// Bytes counted in the current second.
    pub closed spec fn counters(&self) -> Counters {
        self.cur
    }

    /// The second being counted.
    pub closed spec fn second(&self) -> u64 {
        self.cur_sec
    }

    /// The traffic of a flow, if the table holds it.
    pub closed spec fn flow(&self, k: FlowKeyV) -> Option<FlowStatV> {
        flow_in(self.flows, k)
    }

    /// The number of flows in the table.
    pub closed spec fn flow_count(&self) -> nat {
        self.flows.entries@.len()
    }

    /// Received and sent bytes of a (program, family) in the current second.
    pub closed spec fn app_total(&self, k: (Seq<char>, Family)) -> Option<(u64, u64)> {
        self.app_cur.get(k)
    }

    /// The application totals of the current second, in first-seen order.
    pub closed spec fn app_totals(&self) -> Seq<((Seq<char>, Family), (u64, u64))> {
        self.app_cur.entries@.map_values(|e: (AppKey, (u64, u64))| (e.0@, e.1))
    }
}

/// The state of a device that has seen nothing yet.
pub open spec fn fresh_state(s: DeviceState, display: Seq<char>, local: Seq<(bool, Seq<u8>)>, now: u64) -> bool {
    &&& s.display_name() == display
    &&& s.adapter_name() == display
    &&& s.local() == local
    &&& s.counters() == zero_counters()
    &&& s.second() == now
    &&& s.flow_count() == 0
    &&& forall|k: FlowKeyV| #[trigger] s.flow(k) is None
    &&& s.app_totals().len() == 0
}

/// Two states hold the same flow table.
pub open spec fn same_flows(a: DeviceState, b: DeviceState) -> bool {
    a.flow_count() == b.flow_count() && forall|k: FlowKeyV| #[trigger] a.flow(k) == b.flow(k)
}

/// Two states hold the same application totals.
pub open spec fn same_apps(a: DeviceState, b: DeviceState) -> bool {
    a.app_totals() == b.app_totals() && forall|k: (Seq<char>, Family)| #[trigger] a.app_total(k) == b.app_total(k)
}

/// The flow table `old` with flow `key` set to `st`.
pub open spec fn touched_flow(old: DeviceState, key: FlowKeyV, st: FlowStatV, k: FlowKeyV) -> Option<FlowStatV> {
    if k == key {
        Some(st)
    } else {
        old.flow(k)
    }
}

/// `new`'s flow table is `old`'s with flow `key` set to `st`, and, when that
/// makes more than `FLOW_TABLE_LIMIT` flows, one least recently seen flow
/// dropped.
pub open spec fn flows_after_touch(old: DeviceState, new: DeviceState, key: FlowKeyV, st: FlowStatV) -> bool {
    let n = old.flow_count() + if old.flow(key) is Some { 0nat } else { 1nat };
    if n <= FLOW_TABLE_LIMIT {
        &&& new.flow_count() == n
        &&& forall|k: FlowKeyV| #[trigger] new.flow(k) == touched_flow(old, key, st, k)
    } else {
        &&& new.flow_count() == n - 1
        &&& exists|e: FlowKeyV| {
            &&& #[trigger] touched_flow(old, key, st, e) is Some
            &&& new.flow(e) is None
            &&& forall|k: FlowKeyV| k != e ==> #[trigger] new.flow(k) == touched_flow(old, key, st, k)
            &&& forall|k: FlowKeyV| #[trigger] touched_flow(old, key, st, k) matches Some(s) ==> touched_flow(old, key, st, e).unwrap().2 <= s.2
        }
    }
}

/// `new`'s application totals are `old`'s with `bytes` more in direction
/// `dir` for the (program, family) `key`.
pub open spec fn apps_after_add(old: DeviceState, new: DeviceState, key: (Seq<char>, Family), dir: Dir, bytes: u64) -> bool {
    &&& new.app_total(key) == Some(app_total_after(old.app_total(key), dir, bytes))
    &&& forall|k: (Seq<char>, Family)| k != key ==> #[trigger] new.app_total(k) == old.app_total(k)
}

/// What a captured packet does to a device's state: an IPv4/IPv6 packet of
/// `len` bytes counts towards the current second, as sent when it comes from
/// one of the device's addresses and as received otherwise; a TCP/UDP packet
/// also updates its flow (seen at `now`) and the totals of the flow's
/// program. Anything else changes nothing.
pub open spec fn packet_accounted(
    old: DeviceState,
    new: DeviceState,
    summary: Option<PacketSummary>,
    len: usize,
    now: u64,
    cache: PortCache,
) -> bool {
    &&& new.display_name() == old.display_name()
    &&& new.adapter_name() == old.adapter_name()
    &&& new.local() == old.local()
    &&& new.second() == old.second()
    &&& match summary {
        Some(PacketSummary { net: Some(n), transport }) => {
            let family = family_of(n);
            let outgoing = old.local().contains(source_of(n)@);
            let dir = if outgoing { Dir::Tx } else { Dir::Rx };
            let bytes = len as u64;
            &&& new.counters() == counters_after(old.counters(), dir, family, bytes)
            &&& match transport {
                Some(t) => {
                    let key = flow_key_of(n, t, outgoing);
                    let st = stat_after(old.flow(key@), dir, bytes, now, owner_program(cache, key));
                    &&& flows_after_touch(old, new, key@, st)
                    &&& apps_after_add(old, new, (st.3, family), dir, bytes)
                },
                None => same_flows(old, new) && same_apps(old, new),
            }
        },
        _ => {
            &&& new.counters() == old.counters()
            &&& same_flows(old, new)
            &&& same_apps(old, new)
        },
    }
}

/// The flow-table law of a TCP/UDP packet of `len` bytes: a table of at most
/// `FLOW_TABLE_LIMIT` flows stays within it (a flow is dropped only when the
/// new one would exceed it, and then one seen least recently); the packet's
/// flow, when still in the table, has its received (or sent) bytes grown by
/// `len` (wrapping) and is seen at `now`; a flow seen for the first time takes
/// its owner's program (`UNKNOWN_PROGRAM` when the owner is unknown); and
/// that program's totals for the packet's family grow by `len` the same way.
pub proof fn lemma_packet_flow_law(
    old: DeviceState,
    new: DeviceState,
    n: NetAddrs,
    t: TransportPorts,
    len: usize,
    now: u64,
    cache: PortCache,
)
    requires
        packet_accounted(old, new, Some(PacketSummary { net: Some(n), transport: Some(t) }), len, now, cache),
        old.flow_count() <= FLOW_TABLE_LIMIT,
    ensures
        new.flow_count() <= FLOW_TABLE_LIMIT,
        ({
            let outgoing = old.local().contains(source_of(n)@);
            let dir = if outgoing { Dir::Tx } else { Dir::Rx };
            let key = flow_key_of(n, t, outgoing);
            let bytes = len as u64;
            let program = match old.flow(key@) {
                Some(s) => s.3,
                None => owner_program(cache, key),
            };
            &&& old.flow(key@) is Some || old.flow_count() < FLOW_TABLE_LIMIT ==> new.flow(key@) is Some
            &&& new.flow(key@) matches Some(s) ==> {
                &&& s.3 == program
                &&& s.2 == now
                &&& s.0 == if dir == Dir::Rx {
                    wadd(match old.flow(key@) { Some(p) => p.0, None => 0u64 }, bytes)
                } else {
                    match old.flow(key@) { Some(p) => p.0, None => 0u64 }
                }
                &&& s.1 == if dir == Dir::Tx {
                    wadd(match old.flow(key@) { Some(p) => p.1, None => 0u64 }, bytes)
                } else {
                    match old.flow(key@) { Some(p) => p.1, None => 0u64 }
                }
            }
            &&& new.app_total((program, family_of(n))) == Some(
                app_total_after(old.app_total((program, family_of(n))), dir, bytes),
            )
            &&& old.flow(key@) is None && old.flow_count() == FLOW_TABLE_LIMIT ==> {
                &&& new.flow_count() == FLOW_TABLE_LIMIT
                &&& flows_after_touch(
                    old,
                    new,
                    key@,
                    stat_after(old.flow(key@), dir, bytes, now, owner_program(cache, key)),
                )
            }
        }),
{
    let outgoing = old.local().contains(source_of(n)@);
    let dir = if outgoing { Dir::Tx } else { Dir::Rx };
    let key = flow_key_of(n, t, outgoing);
    let st = stat_after(old.flow(key@), dir, len as u64, now, owner_program(cache, key));
    assert(flows_after_touch(old, new, key@, st));
}

/// Flows are attributed to the process recorded as owning their own local
/// endpoint: the same transport (TCP or UDP), the same IP family and the
/// flow's local port. When that owner and its name are recorded, a new flow
/// takes the name, and an unattributed flow takes it on the per-second retry;
/// when no owner is recorded for that endpoint, a new flow is `UNKNOWN_PROGRAM`
/// and the retry leaves a flow as it is.
pub proof fn lemma_flow_owner_attribution(cache: PortCache, k: FlowKey, st: FlowStatV)
    ensures
        cache.owner((k.is_tcp, k.remote is V4, k.local_port)) matches Some(pid) ==> (cache.name_of(pid) matches Some(
            name,
        ) ==> {
            &&& owner_program(cache, k) == name@
            &&& st.3 == UNKNOWN_PROGRAM@ ==> reresolved(cache, k@, st) == (st.0, st.1, st.2, name@)
        }),
        cache.owner((k.is_tcp, k.remote is V4, k.local_port)) is None ==> {
            &&& owner_program(cache, k) == UNKNOWN_PROGRAM@
            &&& reresolved(cache, k@, st) == st
        },
{
    assert(k@.3 == k.is_tcp && k@.2 == k.local_port);
    assert(k.remote@.0 == (k.remote is V4));
}

/// Whether `a` is one of `addrs`.
fn contains_addr(addrs: &Vec<IpAddress>, a: &IpAddress) -> (r: bool)
    ensures
        r == addrs@.map_values(|x: IpAddress| x@).contains(a@),
{
    let ghost views = addrs@.map_values(|x: IpAddress| x@);
    let mut i: usize = 0;
    while i < addrs.len()
        invariant
            i <= addrs@.len(),
            views == addrs@.map_values(|x: IpAddress| x@),
            forall|j: int| 0 <= j < i ==> views[j] != a@,
        decreases addrs@.len() - i,
    {
        if addrs[i].key_eq(a) {
            assert(views[i as int] == a@);
            return true;
        }
        i = i + 1;
    }
    false
}

/// Sets flow `key` after a packet (see `stat_after`); returns the flow's program.
fn touch_flow(
    flows: &mut VecMap<FlowKey, FlowStat>,
    key: FlowKey,
    dir: Dir,
    bytes: u64,
    now: u64,
    cache: &PortCache,
) -> (program: String)
    requires
        old(flows).wf(),
    ensures
        final(flows).wf(),
        final(flows).entries@.len() == old(flows).entries@.len() + if old(flows).contains_key(key@) { 0nat } else { 1nat },
        ({
            let prev = match old(flows).get(key@) {
                Some(s) => Some(s@),
                None => None,
            };
            let st = stat_after(prev, dir, bytes, now, owner_program(*cache, key));
            &&& final(flows).get(key@) matches Some(s) && s@ == st
            &&& program@ == st.3
        }),
        forall|k: FlowKeyV| k != key@ ==> #[trigger] final(flows).get(k) == old(flows).get(k),
{
    match flows.find(&key) {
        Some(i) => {
            proof {
                flows.lemma_get_at(i as int);
            }
            let prev = &flows.entries[i].1;
            let rx = if dir == Dir::Rx { prev.rx.wrapping_add(bytes) } else { prev.rx };
            let tx = if dir == Dir::Tx { prev.tx.wrapping_add(bytes) } else { prev.tx };
            let program = prev.program.clone();
            let st = FlowStat { rx, tx, last_seen: now, program: prev.program.clone() };
            flows.set_value(i, st);
            program
        },
        None => {
            let program = match program_for(cache, key.is_tcp, key.remote.is_ipv4(), key.local_port) {
                Some(name) => name,
                None => UNKNOWN_PROGRAM.to_owned(),
            };
            let rx = if dir == Dir::Rx { bytes } else { 0 };
            let tx = if dir == Dir::Tx { bytes } else { 0 };
            let st = FlowStat { rx, tx, last_seen: now, program: program.clone() };
            flows.push_new(key, st);
            program
        },
    }
}

/// Adds `bytes` in direction `dir` to the totals of (program, family).
fn add_app_bytes(apps: &mut VecMap<AppKey, (u64, u64)>, program: String, family: Family, dir: Dir, bytes: u64)
    requires
        old(apps).wf(),
    ensures
        final(apps).wf(),
        final(apps).get((program@, family)) == Some(app_total_after(old(apps).get((program@, family)), dir, bytes)),
        forall|k: (Seq<char>, Family)| k != (program@, family) ==> #[trigger] final(apps).get(k) == old(apps).get(k),
{
    let key = AppKey { program, family };
    match apps.find(&key) {
        Some(i) => {
            proof {
                apps.lemma_get_at(i as int);
            }
            let (rx, tx) = apps.entries[i].1;
            let v = if dir == Dir::Rx { (rx.wrapping_add(bytes), tx) } else { (rx, tx.wrapping_add(bytes)) };
            apps.set_value(i, v);
        },
        None => {
            let v = if dir == Dir::Rx { (bytes, 0u64) } else { (0u64, bytes) };
            apps.push_new(key, v);
        },
    }
}

/// Position of a least recently seen flow.
fn oldest_flow(flows: &VecMap<FlowKey, FlowStat>) -> (r: usize)
    requires
        flows.entries@.len() > 0,
    ensures
        r < flows.entries@.len(),
        forall|j: int| 0 <= j < flows.entries@.len() ==> flows.entries@[r as int].1.last_seen <= (#[trigger] flows.entries@[j]).1.last_seen,
{
    let mut best: usize = 0;
    let mut i: usize = 1;
    while i < flows.entries.len()
        invariant
            1 <= i <= flows.entries@.len(),
            best < i,
            forall|j: int| 0 <= j < i ==> flows.entries@[best as int].1.last_seen <= (#[trigger] flows.entries@[j]).1.last_seen,
        decreases flows.entries@.len() - i,
    {
        if flows.entries[i].1.last_seen < flows.entries[best].1.last_seen {
            best = i;
        }
        i = i + 1;
    }
    best
}

/// Accounts a packet to flow `key` (see `stat_after`), then drops a least
/// recently seen flow if the table has grown beyond `FLOW_TABLE_LIMIT`;
/// returns the flow's program.
fn account_flow(
    flows: &mut VecMap<FlowKey, FlowStat>,
    key: FlowKey,
    dir: Dir,
    bytes: u64,
    now: u64,
    cache: &PortCache,
) -> (program: String)
    requires
        old(flows).wf(),
        old(flows).entries@.len() <= FLOW_TABLE_LIMIT,
    ensures
        final(flows).wf(),
        final(flows).entries@.len() <= FLOW_TABLE_LIMIT,
        table_after_touch(
            *old(flows),
            *final(flows),
            key@,
            stat_after(flow_in(*old(flows), key@), dir, bytes, now, owner_program(*cache, key)),
        ),
        program@ == stat_after(flow_in(*old(flows), key@), dir, bytes, now, owner_program(*cache, key)).3,
{
    let ghost before = *flows;
    let ghost st = stat_after(flow_in(before, key@), dir, bytes, now, owner_program(*cache, key));
    let program = touch_flow(flows, key, dir, bytes, now, cache);
    let ghost touched = *flows;
    assert forall|k: FlowKeyV| #[trigger] flow_in(touched, k) == touched_in(before, key@, st, k) by {}
    if flows.len() > FLOW_TABLE_LIMIT {
        let e = oldest_flow(flows);
        proof {
            touched.lemma_get_at(e as int);
        }
        let ghost ek = flows.entries@[e as int].0@;
        let _ = flows.remove_at(e);
        proof {
            assert forall|k: FlowKeyV| #[trigger] touched_in(before, key@, st, k) is Some implies touched_in(
                before,
                key@,
                st,
                ek,
            ).unwrap().2 <= touched_in(before, key@, st, k).unwrap().2 by {
                assert(flow_in(touched, k) == touched_in(before, key@, st, k));
                assert(flow_in(touched, ek) == touched_in(before, key@, st, ek));
                assert(touched.contains_key(k));
                let j = touched.index_of(k);
                touched.lemma_get_at(j);
            }
            assert(flow_in(*flows, ek) is None);
            assert forall|k: FlowKeyV| k != ek implies #[trigger] flow_in(*flows, k) == touched_in(before, key@, st, k) by {
                assert(flow_in(touched, k) == touched_in(before, key@, st, k));
            }
        }
    }
    program
}

proof fn lemma_flows_after_touch(old: DeviceState, new: DeviceState, key: FlowKeyV, st: FlowStatV)
    requires
        table_after_touch(old.flows, new.flows, key, st),
    ensures
        flows_after_touch(old, new, key, st),
{
    let n = old.flows.entries@.len() + if flow_in(old.flows, key) is Some { 0nat } else { 1nat };
    assert forall|k: FlowKeyV| #[trigger] touched_flow(old, key, st, k) == touched_in(old.flows, key, st, k) by {}
    if n > FLOW_TABLE_LIMIT {
        let e = choose|e: FlowKeyV| {
            &&& #[trigger] touched_in(old.flows, key, st, e) is Some
            &&& flow_in(new.flows, e) is None
            &&& forall|k: FlowKeyV| k != e ==> #[trigger] flow_in(new.flows, k) == touched_in(old.flows, key, st, k)
            &&& forall|k: FlowKeyV| #[trigger] touched_in(old.flows, key, st, k) matches Some(s) ==> touched_in(old.flows, key, st, e).unwrap().2 <= s.2
        };
        assert(touched_flow(old, key, st, e) is Some);
        assert forall|k: FlowKeyV| k != e implies #[trigger] new.flow(k) == touched_flow(old, key, st, k) by {
            assert(flow_in(new.flows, k) == touched_in(old.flows, key, st, k));
        }
        assert forall|k: FlowKeyV| #[trigger] touched_flow(old, key, st, k) is Some implies touched_flow(old, key, st, e).unwrap().2 <= touched_flow(old, key, st, k).unwrap().2 by {
            assert(touched_in(old.flows, key, st, k) == touched_flow(old, key, st, k));
        }
    } else {
        assert forall|k: FlowKeyV| #[trigger] new.flow(k) == touched_flow(old, key, st, k) by {
            assert(flow_in(new.flows, k) == touched_in(old.flows, key, st, k));
        }
    }
}

impl DeviceState {
    /// The state of a device about to be captured: its display name (also
    /// the adapter name its history is kept under), its own addresses and
    /// the current second.
    pub fn new(display: String, local_addrs: Vec<IpAddress>, now: u64) -> (r: Self)
        ensures
            fresh_state(r, display@, local_addrs@.map_values(|a: IpAddress| a@), now),
    {
        let adapter = display.clone();
        let r = DeviceState {
            display,
            adapter,
            local_addrs,
            cur: Counters { rx_v4: 0, rx_v6: 0, tx_v4: 0, tx_v6: 0 },
            flows: VecMap::new(),
            app_cur: VecMap::new(),
            cur_sec: now,
        };
        assert(r.app_totals() =~= Seq::empty());
        r
    }

    /// The second being counted.
    pub fn cur_sec(&self) -> (r: u64)
        ensures
            r == self.second(),
    {
        self.cur_sec
    }

    /// The device's display name.
    pub fn display(&self) -> (r: String)
        ensures
            r@ == self.display_name(),
    {
        self.display.clone()
    }

    /// Bytes counted in the current second.
    pub fn current_counters(&self) -> (r: Counters)
        ensures
            r == self.counters(),
    {
        self.cur
    }

    /// The number of flows in the table, never more than `FLOW_TABLE_LIMIT`.
    pub fn flows_len(&self) -> (r: usize)
        ensures
            r == self.flow_count(),
            r <= FLOW_TABLE_LIMIT,
    {
        proof {
            use_type_invariant(self);
        }
        self.flows.len()
    }

    /// Accounts one decoded packet of `len` bytes seen at second `now` (see
    /// `packet_accounted`); the flow table never grows beyond `FLOW_TABLE_LIMIT`.
    pub fn on_packet(&mut self, summary: Option<PacketSummary>, len: usize, now: u64, cache: &PortCache)
        ensures
            packet_accounted(*old(self), *final(self), summary, len, now, *cache),
            final(self).flow_count() <= FLOW_TABLE_LIMIT,
    {
        proof {
            use_type_invariant(&*self);
        }
        let s = match summary {
            Some(s) => s,
            None => return ,
        };
        let n = match s.net {
            Some(n) => n,
            None => return ,
        };
        let family = n.family();
        let (source, dest) = match n {
            NetAddrs::V4(a, b) => (IpAddress::V4(a), IpAddress::V4(b)),
            NetAddrs::V6(a, b) => (IpAddress::V6(a), IpAddress::V6(b)),
        };
        let bytes = len as u64;
        let outgoing = contains_addr(&self.local_addrs, &source);
        let dir = if outgoing { Dir::Tx } else { Dir::Rx };
        self.cur = add_to_counters(self.cur, dir, family, bytes);
        let t = match s.transport {
            Some(t) => t,
            None => return ,
        };
        let (is_tcp, sport, dport) = match t {
            TransportPorts::Tcp(a, b) => (true, a, b),
            TransportPorts::Udp(a, b) => (false, a, b),
        };
        let key = FlowKey {
            remote: if outgoing { dest } else { source },
            remote_port: if outgoing { dport } else { sport },
            local_port: if outgoing { sport } else { dport },
            is_tcp,
        };
        assert(key == flow_key_of(n, t, outgoing));
        let ghost mid = *self;
        let mut flows: VecMap<FlowKey, FlowStat> = VecMap::new();
        std::mem::swap(&mut flows, &mut self.flows);
        let program = account_flow(&mut flows, key, dir, bytes, now, cache);
        self.flows = flows;
        let mut apps: VecMap<AppKey, (u64, u64)> = VecMap::new();
        std::mem::swap(&mut apps, &mut self.app_cur);
        add_app_bytes(&mut apps, program, family, dir, bytes);
        self.app_cur = apps;
        proof {
            let st = stat_after(old(self).flow(key@), dir, bytes, now, owner_program(*cache, key));
            assert(mid.flows == old(self).flows);
            lemma_flows_after_touch(*old(self), *self, key@, st);
        }
    }
}

/// Positions of the `limit` largest values (all of them when there are
/// fewer), largest first: distinct positions, and no value left out is
/// larger than one picked.
fn busiest(totals: &Vec<u64>, limit: usize) -> (r: Vec<usize>)
    ensures
        r@.len() == if limit < totals@.len() { limit as int } else { totals@.len() as int },
        forall|i: int| 0 <= i < r@.len() ==> (#[trigger] r@[i]) < totals@.len(),
        forall|i: int, j: int| 0 <= i < j < r@.len() ==> r@[i] != r@[j],
        forall|i: int, j: int| 0 <= i < j < r@.len() ==> totals@[r@[i] as int] >= totals@[r@[j] as int],
        forall|p: int, i: int|
            #![trigger totals@[p], r@[i]]
            0 <= p < totals@.len() && !r@.contains(p as usize) && 0 <= i < r@.len() ==> totals@[p] <= totals@[r@[i] as int],
{
    let n = totals.len();
    let want = if limit < n { limit } else { n };
    let mut taken: Vec<bool> = Vec::new();
    let mut t: usize = 0;
    while t < n
        invariant
            t <= n,
            taken@.len() == t,
            forall|j: int| 0 <= j < t ==> !taken@[j],
        decreases n - t,
    {
        taken.push(false);
        t = t + 1;
    }
    let mut out: Vec<usize> = Vec::new();
    while out.len() < want
        invariant
            n == totals@.len(),
            want <= n,
            out@.len() <= want,
            taken@.len() == n,
            forall|i: int| 0 <= i < out@.len() ==> (#[trigger] out@[i]) < n,
            forall|p: int| 0 <= p < n ==> (taken@[p] <==> out@.contains(p as usize)),
            forall|i: int, j: int| 0 <= i < j < out@.len() ==> out@[i] != out@[j],
            forall|i: int, j: int| 0 <= i < j < out@.len() ==> totals@[out@[i] as int] >= totals@[out@[j] as int],
            forall|p: int, i: int|
                #![trigger taken@[p], out@[i]]
                0 <= p < n && !taken@[p] && 0 <= i < out@.len() ==> totals@[p] <= totals@[out@[i] as int],
        decreases want - out@.len(),
    {
        proof {
            if forall|p: int| 0 <= p < n ==> taken@[p] {
                assert forall|p: usize| p < n implies #[trigger] out@.contains(p) by {
                    assert(taken@[p as int]);
                }
                lemma_covering_len(out@, n as int);
                assert(false);
            }
        }
        let mut best: usize = n;
        let mut p: usize = 0;
        while p < n
            invariant
                n == totals@.len(),
                taken@.len() == n,
                p <= n,
                best == n || (best < p && !taken@[best as int]),
                best == n ==> forall|q: int| 0 <= q < p ==> taken@[q],
                best < n ==> forall|q: int| 0 <= q < p && !taken@[q] ==> totals@[q] <= totals@[best as int],
            decreases n - p,
        {
            if !taken[p] && (best == n || totals[p] > totals[best]) {
                best = p;
            }
            p = p + 1;
        }
        assert(best < n);
        let ghost before = out@;
        out.push(best);
        taken.set(best, true);
        proof {
            assert forall|q: int| 0 <= q < n implies (taken@[q] <==> out@.contains(q as usize)) by {
                if q == best as int {
                    assert(out@[out@.len() - 1] == best);
                } else {
                    if out@.contains(q as usize) {
                        let i = choose|i: int| 0 <= i < out@.len() && out@[i] == q as usize;
                        assert(i < before.len());
                        assert(before.contains(q as usize));
                    }
                    if before.contains(q as usize) {
                        let i = choose|i: int| 0 <= i < before.len() && before[i] == q as usize;
                        assert(out@[i] == q as usize);
                    }
                }
            }
            assert forall|i: int, j: int| 0 <= i < j < out@.len() implies out@[i] != out@[j] by {
                if j == out@.len() - 1 {
                    assert(before.contains(out@[i]));
                }
            }
        }
    }
    proof {
        assert forall|p: int, i: int|
            #![trigger totals@[p], out@[i]]
            0 <= p < totals@.len() && !out@.contains(p as usize) && 0 <= i < out@.len() implies totals@[p] <= totals@[out@[i] as int] by {
            assert(!taken@[p]);
        }
    }
    out
}

/// A sequence in which every position below `n` occurs has at least `n` elements.
proof fn lemma_covering_len(s: Seq<usize>, n: int)
    requires
        0 <= n <= usize::MAX,
        forall|p: usize| p < n ==> #[trigger] s.contains(p),
    ensures
        s.len() >= n,
{
    let covered = vstd::set_lib::set_int_range(0, n);
    let idx = vstd::set_lib::set_int_range(0, s.len() as int);
    let f = |i: int| s[i] as int;
    assert forall|p: int| covered.contains(p) implies #[trigger] idx.map(f).contains(p) by {
        assert(s.contains(p as usize));
        let i = choose|i: int| 0 <= i < s.len() && s[i] == p as usize;
        assert(idx.contains(i));
        assert(f(i) == p);
    }
    assert(covered.subset_of(idx.map(f)));
    vstd::set_lib::lemma_int_range(0, n);
    vstd::set_lib::lemma_int_range(0, s.len() as int);
    vstd::set_lib::lemma_map_size_bound(idx, idx.map(f), f);
    vstd::set_lib::lemma_len_subset(covered, idx.map(f));
}

/// A flow's traffic after the once-per-second retry of its attribution: a
/// flow still attributed to `UNKNOWN_PROGRAM` takes the owner of its local
/// port when that is known by now (the owner tables refresh every few seconds).
pub open spec fn reresolved(cache: PortCache, k: FlowKeyV, st: FlowStatV) -> FlowStatV {
    if st.3 == UNKNOWN_PROGRAM@ {
        match spec_program_for(cache, k.3, k.0.0, k.2) {
            Some(n) => (st.0, st.1, st.2, n),
            None => st,
        }
    } else {
        st
    }
}

/// `reresolved` on a flow that may be absent.
pub open spec fn reresolved_opt(cache: PortCache, k: FlowKeyV, st: Option<FlowStatV>) -> Option<FlowStatV> {
    match st {
        Some(x) => Some(reresolved(cache, k, x)),
        None => None,
    }
}

/// Retries the attribution of every flow still attributed to `UNKNOWN_PROGRAM`.
fn reresolve_flows(flows: &mut VecMap<FlowKey, FlowStat>, cache: &PortCache)
    requires
        old(flows).wf(),
    ensures
        final(flows).wf(),
        final(flows).entries@.len() == old(flows).entries@.len(),
        forall|k: FlowKeyV| #[trigger] flow_in(*final(flows), k) == reresolved_opt(*cache, k, flow_in(*old(flows), k)),
{
    let ghost orig = *flows;
    let mut i: usize = 0;
    while i < flows.len()
        invariant
            flows.wf(),
            i <= flows.entries@.len(),
            flows.entries@.len() == orig.entries@.len(),
            forall|j: int| 0 <= j < flows.entries@.len() ==> (#[trigger] flows.entries@[j]).0 == orig.entries@[j].0,
            forall|j: int| 0 <= j < i ==> (#[trigger] flows.entries@[j]).1@ == reresolved(*cache, orig.entries@[j].0@, orig.entries@[j].1@),
            forall|j: int| i <= j < flows.entries@.len() ==> (#[trigger] flows.entries@[j]).1 == orig.entries@[j].1,
        decreases flows.entries@.len() - i,
    {
        let unknown = crate::text::str_eq(flows.entries[i].1.program.as_str(), UNKNOWN_PROGRAM);
        if unknown {
            let k = flows.entries[i].0;
            match program_for(cache, k.is_tcp, k.remote.is_ipv4(), k.local_port) {
                Some(name) => {
                    let old_st = &flows.entries[i].1;
                    let st = FlowStat { rx: old_st.rx, tx: old_st.tx, last_seen: old_st.last_seen, program: name };
                    let ghost before = *flows;
                    flows.set_value(i, st);
                    assert forall|j: int| 0 <= j < flows.entries@.len() && j != i implies #[trigger] flows.entries@[j] == before.entries@[j] by {}
                },
                None => {},
            }
        }
        i = i + 1;
    }
    proof {
        assert forall|k: FlowKeyV| #[trigger] flow_in(*flows, k) == reresolved_opt(*cache, k, flow_in(orig, k)) by {
            if orig.contains_key(k) {
                let j = orig.index_of(k);
                orig.lemma_get_at(j);
                flows.lemma_get_at(j);
            } else if flows.contains_key(k) {
                let j = flows.index_of(k);
                assert(orig.entries@[j].0@ == k);
            }
        }
    }
}

/// One flow of a `traffic-tick`.
#[derive(Clone, Debug)]
pub struct FlowInfo {
    pub device: String,
    pub remote: IpAddress,
    pub remote_port: u16,
    pub local_port: u16,
    /// `TCP` or `UDP`.
    pub proto: String,
    /// `v4` or `v6`.
    pub family: String,
    pub rx: u64,
    pub tx: u64,
    pub program: String,
}

/// `f` shows flow `k` of device `device` with traffic `st`.
pub open spec fn shows_flow(f: FlowInfo, device: Seq<char>, k: FlowKeyV, st: FlowStatV) -> bool {
    &&& f.device@ == device
    &&& f.remote@ == k.0
    &&& f.remote_port == k.1
    &&& f.local_port == k.2
    &&& f.proto@ == (if k.3 { "TCP"@ } else { "UDP"@ })
    &&& f.family@ == (if k.0.0 { "v4"@ } else { "v6"@ })
    &&& f.rx == st.0
    &&& f.tx == st.1
    &&& f.program@ == st.3
}

/// Bytes of a flow shown in a tick, both directions (wrapping).
pub open spec fn info_total(f: FlowInfo) -> u64 {
    wadd(f.rx, f.tx)
}

/// Bytes of a flow, both directions (wrapping).
pub open spec fn stat_total(st: FlowStatV) -> u64 {
    wadd(st.0, st.1)
}

/// `f` shows some flow of the table of `s`.
pub open spec fn shows_some_flow(s: DeviceState, f: FlowInfo) -> bool {
    exists|k: FlowKeyV| #[trigger] s.flow(k) is Some && shows_flow(f, s.display_name(), k, s.flow(k).unwrap())
}

/// `shown` are the busiest flows of `s`, at most `TICK_FLOW_COUNT` of them,
/// busiest first: each shows a distinct flow of the table, and a flow left
/// out carries no more traffic than any shown.
pub open spec fn busiest_flows_shown(s: DeviceState, shown: Seq<FlowInfo>) -> bool {
    &&& shown.len() == if TICK_FLOW_COUNT < s.flow_count() { TICK_FLOW_COUNT as nat } else { s.flow_count() }
    &&& forall|i: int| 0 <= i < shown.len() ==> shows_some_flow(s, #[trigger] shown[i])
    &&& forall|i: int, j: int| 0 <= i < j < shown.len() ==> (shown[i].remote@, shown[i].remote_port, shown[i].local_port, shown[i].proto@) != (
        shown[j].remote@, shown[j].remote_port, shown[j].local_port, shown[j].proto@)
    &&& forall|i: int, j: int| 0 <= i < j < shown.len() ==> info_total(shown[i]) >= info_total(shown[j])
    &&& forall|k: FlowKeyV| #[trigger] s.flow(k) is Some ==> (exists|i: int| 0 <= i < shown.len() && (#[trigger] shown[i]).remote@ == k.0
        && shown[i].remote_port == k.1 && shown[i].local_port == k.2 && shown[i].proto@ == (if k.3 { "TCP"@ } else { "UDP"@ }))
        || forall|i: int| 0 <= i < shown.len() ==> stat_total(s.flow(k).unwrap()) <= info_total(#[trigger] shown[i])
}

/// The `traffic-tick` of one second: its counters, their totals, and the busiest flows.
#[derive(Clone, Debug)]
pub struct Tick {
    pub device: String,
    pub rx_v4: u64,
    pub rx_v6: u64,
    pub tx_v4: u64,
    pub tx_v6: u64,
    pub total_rx: u64,
    pub total_tx: u64,
    pub flows: Vec<FlowInfo>,
}

fn proto_name(is_tcp: bool) -> (r: String)
    ensures
        r@ == (if is_tcp { "TCP"@ } else { "UDP"@ }),
{
    if is_tcp { "TCP".to_owned() } else { "UDP".to_owned() }
}

fn family_name(is_v4: bool) -> (r: String)
    ensures
        r@ == (if is_v4 { "v4"@ } else { "v6"@ }),
{
    if is_v4 { "v4".to_owned() } else { "v6".to_owned() }
}

impl DeviceState {
    /// The busiest flows of the table (see `busiest_flows_shown`).
    pub fn tick_flows(&self) -> (r: Vec<FlowInfo>)
        ensures
            busiest_flows_shown(*self, r@),
    {
        proof {
            use_type_invariant(self);
        }
        let n = self.flows.len();
        let mut totals: Vec<u64> = Vec::new();
        let mut i: usize = 0;
        while i < n
            invariant
                n == self.flows.entries@.len(),
                i <= n,
                totals@.len() == i,
                forall|j: int| 0 <= j < i ==> #[trigger] totals@[j] == stat_total(self.flows.entries@[j].1@),
            decreases n - i,
        {
            let st = &self.flows.entries[i].1;
            totals.push(st.rx.wrapping_add(st.tx));
            i = i + 1;
        }
        let idx = busiest(&totals, TICK_FLOW_COUNT);
        let mut out: Vec<FlowInfo> = Vec::new();
        let mut t: usize = 0;
        while t < idx.len()
            invariant
                n == self.flows.entries@.len(),
                totals@.len() == n,
                forall|q: int| 0 <= q < idx@.len() ==> (#[trigger] idx@[q]) < n,
                t <= idx@.len(),
                out@.len() == t,
                forall|q: int| 0 <= q < t ==> shows_flow(
                    #[trigger] out@[q],
                    self.display@,
                    self.flows.entries@[idx@[q] as int].0@,
                    self.flows.entries@[idx@[q] as int].1@,
                ),
            decreases idx@.len() - t,
        {
            let e = &self.flows.entries[idx[t]];
            let info = FlowInfo {
                device: self.display.clone(),
                remote: e.0.remote,
                remote_port: e.0.remote_port,
                local_port: e.0.local_port,
                proto: proto_name(e.0.is_tcp),
                family: family_name(e.0.remote.is_ipv4()),
                rx: e.1.rx,
                tx: e.1.tx,
                program: e.1.program.clone(),
            };
            out.push(info);
            t = t + 1;
        }
        proof {
            reveal_strlit("TCP");
            reveal_strlit("UDP");
            let ents = self.flows.entries@;
            assert forall|q: int| 0 <= q < out@.len() implies shows_some_flow(*self, #[trigger] out@[q]) by {
                self.flows.lemma_get_at(idx@[q] as int);
                let k = ents[idx@[q] as int].0@;
                assert(self.flow(k) is Some);
            }
            assert forall|a: int, b: int| 0 <= a < b < out@.len() implies (out@[a].remote@, out@[a].remote_port, out@[a].local_port, out@[a].proto@) != (
                out@[b].remote@, out@[b].remote_port, out@[b].local_port, out@[b].proto@) by {
                let ka = ents[idx@[a] as int].0@;
                let kb = ents[idx@[b] as int].0@;
                assert(shows_flow(out@[a], self.display@, ka, ents[idx@[a] as int].1@));
                assert(shows_flow(out@[b], self.display@, kb, ents[idx@[b] as int].1@));
                if idx@[a] < idx@[b] {
                    assert(ka != kb);
                } else {
                    assert(ents[idx@[b] as int].0@ != ents[idx@[a] as int].0@);
                }
                if ka.3 != kb.3 {
                    assert("TCP"@[0] != "UDP"@[0]);
                }
            }
            assert forall|a: int, b: int| 0 <= a < b < out@.len() implies info_total(out@[a]) >= info_total(out@[b]) by {
                assert(shows_flow(out@[a], self.display@, ents[idx@[a] as int].0@, ents[idx@[a] as int].1@));
                assert(shows_flow(out@[b], self.display@, ents[idx@[b] as int].0@, ents[idx@[b] as int].1@));
                assert(totals@[idx@[a] as int] >= totals@[idx@[b] as int]);
            }
            assert forall|k: FlowKeyV| #[trigger] self.flow(k) is Some implies (exists|q: int| 0 <= q < out@.len() && (#[trigger] out@[q]).remote@ == k.0
                && out@[q].remote_port == k.1 && out@[q].local_port == k.2 && out@[q].proto@ == (if k.3 { "TCP"@ } else { "UDP"@ }))
                || forall|q: int| 0 <= q < out@.len() ==> stat_total(self.flow(k).unwrap()) <= info_total(#[trigger] out@[q]) by {
                let p = self.flows.index_of(k);
                self.flows.lemma_get_at(p);
                if idx@.contains(p as usize) {
                    let q = choose|q: int| 0 <= q < idx@.len() && idx@[q] == p as usize;
                    assert(shows_flow(out@[q], self.display@, ents[p].0@, ents[p].1@));
                } else {
                    assert forall|q: int| 0 <= q < out@.len() implies stat_total(self.flow(k).unwrap()) <= info_total(#[trigger] out@[q]) by {
                        assert(shows_flow(out@[q], self.display@, ents[idx@[q] as int].0@, ents[idx@[q] as int].1@));
                        assert(totals@[p] <= totals@[idx@[q] as int]);
                    }
                }
            }
        }
        out
    }
}

/// `after` holds the same live history as `before`.
pub open spec fn same_history(before: HistoryStore, after: HistoryStore) -> bool {
    &&& forall|k: (Seq<char>, Family, Dir, i64)| #[trigger] after.bucket(k) == before.bucket(k)
    &&& forall|k: (Seq<char>, Seq<char>, Family)| #[trigger] after.app_bucket(k) == before.app_bucket(k)
    &&& after.app_buckets() == before.app_buckets()
}

/// `after` is `before` with the per-second counters `recs` recorded for
/// `adapter`, one after the other, each into the bucket of its minute.
pub open spec fn buckets_recorded(
    before: HistoryStore,
    after: HistoryStore,
    adapter: Seq<char>,
    recs: Seq<(Family, Dir, u64)>,
) -> bool
    decreases recs.len(),
{
    if recs.len() == 0 {
        same_history(before, after)
    } else {
        exists|mid: HistoryStore, minute: i64| #[trigger]
            bucket_recorded(mid, after, adapter, recs.last().0, recs.last().1, minute, recs.last().2)
            && buckets_recorded(before, mid, adapter, recs.drop_last())
    }
}

/// `after` is `before` with the application totals `apps` recorded, one
/// after the other, each into the bucket of its hour.
pub open spec fn apps_recorded(
    before: HistoryStore,
    after: HistoryStore,
    apps: Seq<((Seq<char>, Family), (u64, u64))>,
) -> bool
    decreases apps.len(),
{
    if apps.len() == 0 {
        same_history(before, after)
    } else {
        exists|mid: HistoryStore, hour: Seq<char>| #[trigger]
            app_recorded(mid, after, hour, apps.last().0.0, apps.last().0.1, apps.last().1.0, apps.last().1.1)
            && apps_recorded(before, mid, apps.drop_last())
    }
}

/// The four counters of a second, in the order they are recorded.
pub open spec fn second_records(c: Counters) -> Seq<(Family, Dir, u64)> {
    seq![
        (Family::V4, Dir::Rx, c.rx_v4),
        (Family::V6, Dir::Rx, c.rx_v6),
        (Family::V4, Dir::Tx, c.tx_v4),
        (Family::V6, Dir::Tx, c.tx_v6),
    ]
}

/// The counter of one IP family and direction.
pub open spec fn counter_of(c: Counters, family: Family, dir: Dir) -> u64 {
    match (family, dir) {
        (Family::V4, Dir::Rx) => c.rx_v4,
        (Family::V6, Dir::Rx) => c.rx_v6,
        (Family::V4, Dir::Tx) => c.tx_v4,
        (Family::V6, Dir::Tx) => c.tx_v6,
    }
}

/// A second's counters go to the history under their own family and
/// direction: the second hands over one record for each (family, direction),
/// each carrying exactly the bytes that packets of that family and direction
/// added during the second (and no other counter moves with them).
pub proof fn lemma_second_records_by_counter(c: Counters, family: Family, dir: Dir, bytes: u64)
    ensures
        second_records(c).len() == 4,
        forall|i: int|
            0 <= i < 4 ==> (#[trigger] second_records(c)[i]).2 == counter_of(
                c,
                second_records(c)[i].0,
                second_records(c)[i].1,
            ),
        forall|i: int, j: int|
            0 <= i < j < 4 ==> ((#[trigger] second_records(c)[i]).0, second_records(c)[i].1) != (
                (#[trigger] second_records(c)[j]).0,
                second_records(c)[j].1,
            ),
        exists|i: int| 0 <= i < 4 && (#[trigger] second_records(c)[i]).0 == family && second_records(c)[i].1 == dir,
        counter_of(counters_after(c, dir, family, bytes), family, dir) == wadd(counter_of(c, family, dir), bytes),
        forall|f: Family, d: Dir|
            (f, d) != (family, dir) ==> #[trigger] counter_of(counters_after(c, dir, family, bytes), f, d)
                == counter_of(c, f, d),
{
    let r = second_records(c);
    assert(r[0].0 == Family::V4 && r[0].1 == Dir::Rx);
    assert(r[1].0 == Family::V6 && r[1].1 == Dir::Rx);
    assert(r[2].0 == Family::V4 && r[2].1 == Dir::Tx);
    assert(r[3].0 == Family::V6 && r[3].1 == Dir::Tx);
    match (family, dir) {
        (Family::V4, Dir::Rx) => assert(r[0].0 == family && r[0].1 == dir),
        (Family::V6, Dir::Rx) => assert(r[1].0 == family && r[1].1 == dir),
        (Family::V4, Dir::Tx) => assert(r[2].0 == family && r[2].1 == dir),
        (Family::V6, Dir::Tx) => assert(r[3].0 == family && r[3].1 == dir),
    }
}

/// The history after a second is handed over: without a store nothing; with
/// one, the second's four counters (zeros included) and then its
/// application totals are recorded.
pub open spec fn second_recorded(
    before: Option<HistoryStore>,
    after: Option<HistoryStore>,
    adapter: Seq<char>,
    c: Counters,
    apps: Seq<((Seq<char>, Family), (u64, u64))>,
) -> bool {
    match before {
        None => after is None,
        Some(b) => after matches Some(a) && exists|mid: HistoryStore| #[trigger]
            buckets_recorded(b, mid, adapter, second_records(c)) && apps_recorded(mid, a, apps),
    }
}

proof fn lemma_same_history_refl(h: HistoryStore)
    ensures
        same_history(h, h),
{
}

proof fn lemma_extend_buckets(
    before: HistoryStore,
    mid: HistoryStore,
    after: HistoryStore,
    adapter: Seq<char>,
    recs: Seq<(Family, Dir, u64)>,
    rec: (Family, Dir, u64),
    minute: i64,
)
    requires
        buckets_recorded(before, mid, adapter, recs),
        bucket_recorded(mid, after, adapter, rec.0, rec.1, minute, rec.2),
    ensures
        buckets_recorded(before, after, adapter, recs.push(rec)),
{
    let r2 = recs.push(rec);
    assert(r2.drop_last() =~= recs);
    assert(r2.last() == rec);
}

proof fn lemma_extend_apps(
    before: HistoryStore,
    mid: HistoryStore,
    after: HistoryStore,
    apps: Seq<((Seq<char>, Family), (u64, u64))>,
    app: ((Seq<char>, Family), (u64, u64)),
    hour: Seq<char>,
)
    requires
        apps_recorded(before, mid, apps),
        app_recorded(mid, after, hour, app.0.0, app.0.1, app.1.0, app.1.1),
    ensures
        apps_recorded(before, after, apps.push(app)),
{
    let a2 = apps.push(app);
    assert(a2.drop_last() =~= apps);
    assert(a2.last() == app);
}

/// Records one counter of the second into the store, if there is one.
fn record_counter(
    store: &mut Option<HistoryStore>,
    adapter: &str,
    family: Family,
    dir: Dir,
    bytes: u64,
    Ghost(start): Ghost<Option<HistoryStore>>,
    Ghost(recs): Ghost<Seq<(Family, Dir, u64)>>,
)
    requires
        start is None ==> *old(store) is None,
        start matches Some(b) ==> (*old(store) matches Some(m) && buckets_recorded(b, m, adapter@, recs)),
    ensures
        start is None ==> *final(store) is None,
        start matches Some(b) ==> (*final(store) matches Some(m) && buckets_recorded(
            b,
            m,
            adapter@,
            recs.push((family, dir, bytes)),
        )),
{
    let ghost mid = *store;
    crate::history::store::record(store, adapter, family, dir, bytes);
    proof {
        if let Some(b) = start {
            let minute = choose|minute: i64| #[trigger]
                bucket_recorded(mid.unwrap(), (*store).unwrap(), adapter@, family, dir, minute, bytes);
            lemma_extend_buckets(b, mid.unwrap(), (*store).unwrap(), adapter@, recs, (family, dir, bytes), minute);
        }
    }
}

impl DeviceState {
    /// Moves on to second `now`: retries the attribution of unattributed
    /// flows, hands the finished second's counters and application totals to
    /// the history store (see `second_recorded`) and resets them, and returns
    /// the second's `traffic-tick`.
    pub fn advance_second(&mut self, now: u64, cache: &PortCache, store: &mut Option<HistoryStore>) -> (tick: Tick)
        ensures
            final(self).display_name() == old(self).display_name(),
            final(self).adapter_name() == old(self).adapter_name(),
            final(self).local() == old(self).local(),
            final(self).second() == now,
            final(self).counters() == zero_counters(),
            final(self).app_totals().len() == 0,
            forall|k: (Seq<char>, Family)| #[trigger] final(self).app_total(k) is None,
            final(self).flow_count() == old(self).flow_count(),
            forall|k: FlowKeyV| #[trigger] final(self).flow(k) == reresolved_opt(*cache, k, old(self).flow(k)),
            second_recorded(*old(store), *final(store), old(self).adapter_name(), old(self).counters(), old(self).app_totals()),
            tick.device@ == old(self).display_name(),
            tick.rx_v4 == old(self).counters().rx_v4,
            tick.rx_v6 == old(self).counters().rx_v6,
            tick.tx_v4 == old(self).counters().tx_v4,
            tick.tx_v6 == old(self).counters().tx_v6,
            tick.total_rx == wadd(old(self).counters().rx_v4, old(self).counters().rx_v6),
            tick.total_tx == wadd(old(self).counters().tx_v4, old(self).counters().tx_v6),
            busiest_flows_shown(*final(self), tick.flows@),
    {
        proof {
            use_type_invariant(&*self);
        }
        self.cur_sec = now;
        let mut flows: VecMap<FlowKey, FlowStat> = VecMap::new();
        std::mem::swap(&mut flows, &mut self.flows);
        reresolve_flows(&mut flows, cache);
        self.flows = flows;
        let c = self.cur;
        self.cur = Counters { rx_v4: 0, rx_v6: 0, tx_v4: 0, tx_v6: 0 };
        let ghost start = *store;
        proof {
            if let Some(b) = start {
                lemma_same_history_refl(b);
            }
        }
        let adapter = self.adapter.as_str();
        let ghost r0: Seq<(Family, Dir, u64)> = Seq::empty();
        let ghost r1 = r0.push((Family::V4, Dir::Rx, c.rx_v4));
        let ghost r2 = r1.push((Family::V6, Dir::Rx, c.rx_v6));
        let ghost r3 = r2.push((Family::V4, Dir::Tx, c.tx_v4));
        record_counter(store, adapter, Family::V4, Dir::Rx, c.rx_v4, Ghost(start), Ghost(r0));
        record_counter(store, adapter, Family::V6, Dir::Rx, c.rx_v6, Ghost(start), Ghost(r1));
        record_counter(store, adapter, Family::V4, Dir::Tx, c.tx_v4, Ghost(start), Ghost(r2));
        record_counter(store, adapter, Family::V6, Dir::Tx, c.tx_v6, Ghost(start), Ghost(r3));
        let ghost mid = *store;
        proof {
            assert(r3.push((Family::V6, Dir::Tx, c.tx_v6)) =~= second_records(c));
            if let Some(m) = mid {
                lemma_same_history_refl(m);
            }
        }
        let mut apps: VecMap<AppKey, (u64, u64)> = VecMap::new();
        std::mem::swap(&mut apps, &mut self.app_cur);
        let ghost drained = apps.entries@.map_values(|e: (AppKey, (u64, u64))| (e.0@, e.1));
        let mut i: usize = 0;
        while i < apps.entries.len()
            invariant
                i <= apps.entries@.len(),
                drained == apps.entries@.map_values(|e: (AppKey, (u64, u64))| (e.0@, e.1)),
                mid is None ==> *store is None,
                mid matches Some(m) ==> (*store matches Some(cur) && apps_recorded(m, cur, drained.take(i as int))),
            decreases apps.entries@.len() - i,
        {
            let e = &apps.entries[i];
            let ghost before = *store;
            crate::history::store::record_app_totals(store, e.0.program.as_str(), e.0.family, e.1.0, e.1.1);
            proof {
                assert(drained.take(i + 1) =~= drained.take(i as int).push(drained[i as int]));
                if let Some(m) = mid {
                    let hour = choose|hour: Seq<char>| #[trigger]
                        app_recorded(before.unwrap(), (*store).unwrap(), hour, e.0.program@, e.0.family, e.1.0, e.1.1);
                    lemma_extend_apps(m, before.unwrap(), (*store).unwrap(), drained.take(i as int), drained[i as int], hour);
                }
            }
            i = i + 1;
        }
        proof {
            assert(drained.take(drained.len() as int) =~= drained);
            assert(self.app_totals() =~= Seq::empty());
        }
        let flows = self.tick_flows();
        Tick {
            device: self.display.clone(),
            rx_v4: c.rx_v4,
            rx_v6: c.rx_v6,
            tx_v4: c.tx_v4,
            tx_v6: c.tx_v6,
            total_rx: c.rx_v4.wrapping_add(c.rx_v6),
            total_tx: c.tx_v4.wrapping_add(c.tx_v6),
            flows,
        }
    }
}

impl DeviceState {
    /// Decodes a captured frame of link type `linktype` (see
    /// `sniffable_headers`) and accounts it, seen at second `now`.
    pub fn on_frame(&mut self, frame: &[u8], linktype: i32, now: u64, cache: &PortCache)
        ensures
            packet_accounted(
                *old(self),
                *final(self),
                if is_raw_ip_link(linktype) { ip_headers(frame@) } else { ethernet_headers(frame@) },
                frame@.len() as usize,
                now,
                *cache,
            ),
            final(self).flow_count() <= FLOW_TABLE_LIMIT,
    {
        let summary = sniffable_headers(frame, linktype);
        self.on_packet(summary, frame.len(), now, cache);
    }
}

/// Whether a capture session is running.
pub struct CaptureControl {
    running: bool,
}

impl CaptureControl {
    pub closed spec fn running(&self) -> bool {
        self.running
    }

    /// No session running.
    pub fn new() -> (r: Self)
        ensures
            !r.running(),
    {
        CaptureControl { running: false }
    }

    /// Whether a capture session is running.
    pub fn is_running(&self) -> (r: bool)
        ensures
            r == self.running(),
    {
        self.running
    }

    /// Ends the current session; returns whether one was running (and its
    /// device threads must be told to stop).
    pub fn stop(&mut self) -> (was_running: bool)
        ensures
            was_running == old(self).running(),
            !final(self).running(),
    {
        let was = self.running;
        self.running = false;
        was
    }

    /// Records a new session after the previous one was stopped: it is
    /// running exactly when at least one device thread was started.
    pub fn started(&mut self, spawned: bool)
        ensures
            final(self).running() == spawned,
    {
        self.running = spawned;
    }
}

} // verus!
