use flowlens::capture::{
    capture_targets, is_noise_device, local_addresses, matches_filter, select_devices, sniffable_headers,
    CaptureControl, DeviceInfo, DeviceState, IpAddress, NetAddrs, PacketSummary, TransportPorts,
    FLOW_TABLE_LIMIT, TICK_FLOW_COUNT,
};
use flowlens::history::store::HistoryStore;
use flowlens::history::types::{Family, Granularity};
use flowlens::port_map::{PortCache, PortKey};

const LOCAL: [u8; 4] = [192, 168, 1, 2];
const REMOTE: [u8; 4] = [8, 8, 8, 8];

fn device(name: &str, desc: Option<&str>, addrs: &[&str]) -> DeviceInfo {
    DeviceInfo {
        name: name.to_string(),
        desc: desc.map(|d| d.to_string()),
        addresses: addrs.iter().map(|a| a.to_string()).collect(),
    }
}

fn udp_packet(src: [u8; 4], dst: [u8; 4], sport: u16, dport: u16) -> PacketSummary {
    PacketSummary {
        net: Some(NetAddrs::V4(src, dst)),
        transport: Some(TransportPorts::Udp(sport, dport)),
    }
}

fn state() -> DeviceState {
    DeviceState::new("Wi-Fi".to_string(), vec![IpAddress::V4(LOCAL)], 1000)
}

#[test]
fn test_family_from_net_headers() {
    let v4 = udp_packet(LOCAL, REMOTE, 1, 2);
    assert_eq!(v4.net.map(|n| n.family()), Some(Family::V4));
    let none = PacketSummary { net: None, transport: None };
    assert_eq!(none.net.map(|n| n.family()), None);
}

#[test]
fn decodes_frames_by_link_type() {
    let mut raw = Vec::new();
    etherparse::PacketBuilder::ipv4(LOCAL, REMOTE, 64)
        .udp(5353, 53)
        .write_to_vec(&mut raw, &[1, 2, 3])
        .expect("build ip");
    let summary = sniffable_headers(&raw, 101).expect("raw ip");
    assert!(matches!(summary.net, Some(NetAddrs::V4(s, d)) if s == LOCAL && d == REMOTE));
    assert!(matches!(summary.transport, Some(TransportPorts::Udp(5353, 53))));
    assert!(sniffable_headers(&raw, 12).is_some());

    let mut frame = Vec::new();
    etherparse::PacketBuilder::ethernet2([1, 2, 3, 4, 5, 6], [7, 8, 9, 10, 11, 12])
        .ipv6([0xfe, 0x80, 0, 0, 0, 0, 0, 0, 0, 0, 0, 0, 0, 0, 0, 1], [0x20, 1, 0xd, 0xb8, 0, 0, 0, 0, 0, 0, 0, 0, 0, 0, 0, 2], 64)
        .tcp(443, 50000, 1, 1024)
        .write_to_vec(&mut frame, &[])
        .expect("build ethernet");
    let summary = sniffable_headers(&frame, 1).expect("ethernet");
    assert!(matches!(summary.net, Some(NetAddrs::V6(..))));
    assert!(matches!(summary.transport, Some(TransportPorts::Tcp(443, 50000))));
    // unknown link types are read as Ethernet
    assert!(sniffable_headers(&frame, 9999).is_some());
    // too short for an Ethernet header
    assert!(sniffable_headers(&[1, 2, 3], 1).is_none());
}

#[test]
fn noise_devices_are_hidden() {
    assert!(is_noise_device("Microsoft Wi-Fi Direct Virtual Adapter"));
    assert!(is_noise_device("Bluetooth Device (Personal Area Network)"));
    assert!(is_noise_device("WAN Miniport (IP)"));
    assert!(is_noise_device("Microsoft Kernel Debug Network Adapter"));
    assert!(!is_noise_device("Intel(R) Wi-Fi 6 AX201 160MHz"));
    assert!(!is_noise_device("Realtek PCIe GbE Family Controller"));
}

#[test]
fn device_list_is_filtered_and_deduplicated() {
    let devs = vec![
        device("eth0", Some("Realtek PCIe GbE"), &["192.168.1.2"]),
        device("tap0", Some("TAP-Windows Adapter"), &["10.8.0.2"]),
        device("tap1", Some("TAP-Windows Adapter"), &["10.9.0.2"]),
        device("bt", Some("Bluetooth Device"), &["169.254.1.1"]),
        device("idle", Some("Idle Adapter"), &[]),
        device("lo", None, &["127.0.0.1"]),
    ];
    let shown = select_devices(devs);
    let names: Vec<&str> = shown.iter().map(|d| d.name.as_str()).collect();
    assert_eq!(names, vec!["eth0", "tap0", "lo"]);
    assert_eq!(shown[2].display(), "lo");
    assert_eq!(
        local_addresses(&shown),
        vec!["192.168.1.2".to_string(), "10.8.0.2".to_string(), "127.0.0.1".to_string()]
    );
    assert!(matches_filter(&shown[0], &None));
    assert!(matches_filter(&shown[0], &Some("Realtek PCIe GbE".to_string())));
    assert!(!matches_filter(&shown[0], &Some("eth0".to_string())));
    assert!(!matches_filter(&shown[0], &Some("tap0".to_string())));
}

#[test]
fn capture_targets_follow_display_name_and_addresses() {
    let devs = vec![
        device("eth0", Some("Realtek PCIe GbE"), &["192.168.1.2"]),
        device("bt", Some("Bluetooth Device"), &["169.254.1.1"]),
        device("idle", Some("Idle Adapter"), &[]),
        device("tap0", Some("TAP-Windows Adapter"), &["10.8.0.2"]),
        device("tap1", Some("TAP-Windows Adapter"), &["10.9.0.2"]),
    ];
    let all: Vec<String> = capture_targets(devs.clone(), &None).iter().map(|d| d.name.clone()).collect();
    assert_eq!(all, vec!["eth0", "bt", "tap0", "tap1"]);
    let taps: Vec<String> = capture_targets(devs.clone(), &Some("TAP-Windows Adapter".to_string()))
        .iter()
        .map(|d| d.name.clone())
        .collect();
    assert_eq!(taps, vec!["tap0", "tap1"]);
    let idle = capture_targets(devs.clone(), &Some("Idle Adapter".to_string()));
    assert_eq!(idle.len(), 1);
    assert!(capture_targets(devs, &Some("eth0".to_string())).is_empty());
}

#[test]
fn packets_count_by_direction_and_family() {
    let cache = PortCache::new();
    let mut st = state();
    st.on_packet(Some(udp_packet(LOCAL, REMOTE, 5000, 53)), 100, 1000, &cache);
    st.on_packet(Some(udp_packet(REMOTE, LOCAL, 53, 5000)), 300, 1000, &cache);
    let v6 = PacketSummary {
        net: Some(NetAddrs::V6([1; 16], [2; 16])),
        transport: None,
    };
    st.on_packet(Some(v6), 40, 1000, &cache);
    // not IP: nothing counted
    st.on_packet(Some(PacketSummary { net: None, transport: None }), 999, 1000, &cache);
    st.on_packet(None, 999, 1000, &cache);
    let c = st.current_counters();
    assert_eq!((c.rx_v4, c.rx_v6, c.tx_v4, c.tx_v6), (300, 40, 100, 0));
    // both directions of the UDP exchange are one flow; the v6 packet has no ports
    assert_eq!(st.flows_len(), 1);
}

#[test]
fn flows_are_attributed_and_ticks_drain_the_second() {
    let mut cache = PortCache::new();
    cache.set_owner(PortKey { is_tcp: false, is_v4: true, port: 5000 }, 42);
    cache.set_name(42, "chrome.exe".to_string());
    let mut st = state();
    st.on_packet(Some(udp_packet(LOCAL, REMOTE, 5000, 53)), 100, 1000, &cache);
    st.on_packet(Some(udp_packet(REMOTE, LOCAL, 53, 6000)), 10, 1000, &cache);
    let mut store = Some(HistoryStore::open(":memory:").expect("store"));
    let tick = st.advance_second(1001, &cache, &mut store);
    assert_eq!(tick.device, "Wi-Fi");
    assert_eq!((tick.rx_v4, tick.tx_v4, tick.total_rx, tick.total_tx), (10, 100, 10, 100));
    assert_eq!(tick.flows.len(), 2);
    assert_eq!(tick.flows[0].program, "chrome.exe");
    assert_eq!(tick.flows[0].tx, 100);
    assert_eq!(tick.flows[0].proto, "UDP");
    assert_eq!(tick.flows[0].family, "v4");
    assert_eq!(tick.flows[0].local_port, 5000);
    assert_eq!(tick.flows[0].remote_port, 53);
    assert_eq!(tick.flows[1].program, "其他");
    assert_eq!(st.cur_sec(), 1001);
    let c = st.current_counters();
    assert_eq!((c.rx_v4, c.rx_v6, c.tx_v4, c.tx_v6), (0, 0, 0, 0));

    // the counters and the app totals reached the history
    let store_ref = store.as_mut().unwrap();
    store_ref.flush().expect("flush");
    let buckets = store_ref.query(Granularity::Hourly, Some("Wi-Fi")).expect("q");
    assert_eq!(buckets.len(), 1);
    assert_eq!(buckets[0].rx_v4, 10);
    assert_eq!(buckets[0].tx_v4, 100);
    let now = flowlens::clock::now_secs();
    let apps = store_ref.query_app_range(now - 3600, now + 3600).expect("apps");
    assert_eq!(apps.len(), 2);
    assert_eq!(apps[0].app, "chrome.exe");
    assert_eq!(apps[0].tx_v4, 100);
    assert_eq!(apps[1].app, "其他");
    assert_eq!(apps[1].rx_v4, 10);

    // the unknown flow is re-attributed once its port's owner is known
    cache.set_owner(PortKey { is_tcp: false, is_v4: true, port: 6000 }, 7);
    cache.set_name(7, "steam.exe".to_string());
    let mut none: Option<HistoryStore> = None;
    let tick = st.advance_second(1002, &cache, &mut none);
    assert!(none.is_none());
    assert!(tick.flows.iter().any(|f| f.program == "steam.exe" && f.rx == 10));
    assert_eq!(tick.total_rx, 0);
}

#[test]
fn ticks_show_the_busiest_flows_first() {
    let cache = PortCache::new();
    let mut st = state();
    for port in 0..30u16 {
        let bytes = (port as usize + 1) * 10;
        st.on_packet(Some(udp_packet(REMOTE, LOCAL, 53, 1000 + port)), bytes, 1000, &cache);
    }
    let tick = st.advance_second(1001, &cache, &mut None);
    assert_eq!(tick.flows.len(), TICK_FLOW_COUNT);
    assert_eq!(tick.flows[0].rx, 300);
    assert_eq!(tick.flows[0].local_port, 1029);
    for w in tick.flows.windows(2) {
        assert!(w[0].rx + w[0].tx >= w[1].rx + w[1].tx);
    }
    assert_eq!(tick.flows[TICK_FLOW_COUNT - 1].rx, 70);
}

#[test]
fn flow_table_drops_the_least_recently_seen() {
    let cache = PortCache::new();
    let mut st = state();
    for port in 0..(FLOW_TABLE_LIMIT as u16 + 1) {
        st.on_packet(Some(udp_packet(REMOTE, LOCAL, 53, port)), 1, 1000 + port as u64, &cache);
    }
    assert_eq!(st.flows_len(), FLOW_TABLE_LIMIT);
    // the flow last seen first (local port 0) is gone
    let tick = st.advance_second(5000, &cache, &mut None);
    assert_eq!(tick.flows.len(), TICK_FLOW_COUNT);
    st.on_packet(Some(udp_packet(REMOTE, LOCAL, 53, 0)), 1, 6000, &cache);
    assert_eq!(st.flows_len(), FLOW_TABLE_LIMIT);
}

#[test]
fn frames_are_decoded_and_counted() {
    let cache = PortCache::new();
    let mut st = state();
    let mut raw = Vec::new();
    etherparse::PacketBuilder::ipv4(REMOTE, LOCAL, 64)
        .tcp(443, 50000, 1, 1024)
        .write_to_vec(&mut raw, &[0; 10])
        .expect("build");
    st.on_frame(&raw, 101, 1000, &cache);
    assert_eq!(st.current_counters().rx_v4, raw.len() as u64);
    assert_eq!(st.flows_len(), 1);
}

#[test]
fn capture_control_tracks_the_session() {
    let mut ctl = CaptureControl::new();
    assert!(!ctl.is_running());
    assert!(!ctl.stop());
    ctl.started(true);
    assert!(ctl.is_running());
    assert!(ctl.stop());
    assert!(!ctl.is_running());
    ctl.started(false);
    assert!(!ctl.is_running());
}
