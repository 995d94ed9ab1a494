use flowlens::history::live::record_bucket;
use flowlens::history::types::{Dir, Family, Granularity, HistBucket};
use flowlens::vecmap::VecMap;

#[test]
fn test_labels_roundtrip() {
    for family in [Family::V4, Family::V6] {
        assert_eq!(Family::from_label(family.label()), Some(family));
    }
    for dir in [Dir::Rx, Dir::Tx] {
        assert_eq!(Dir::from_label(dir.label()), Some(dir));
    }
}

#[test]
fn labels_and_unknown_labels() {
    assert_eq!(Family::V4.label(), "v4");
    assert_eq!(Family::V6.label(), "v6");
    assert_eq!(Dir::Rx.label(), "rx");
    assert_eq!(Dir::Tx.label(), "tx");
    assert_eq!(Family::from_label("v5"), None);
    assert_eq!(Dir::from_label("RX"), None);
}

#[test]
fn windows_and_totals() {
    assert_eq!(Granularity::Hourly.window_secs(), 86400);
    assert_eq!(Granularity::Daily.window_secs(), 30 * 86400);
    let b = HistBucket { label: "x".into(), rx_v4: 1, rx_v6: 2, tx_v4: 3, tx_v6: 4 };
    assert_eq!(b.total(), 10);
}

#[test]
fn live_records_add_up() {
    let mut live = VecMap::new();
    record_bucket(&mut live, "eth0", Family::V4, Dir::Rx, 29_000_000, 100);
    record_bucket(&mut live, "eth0", Family::V4, Dir::Rx, 29_000_000, 200);
    record_bucket(&mut live, "eth0", Family::V6, Dir::Rx, 29_000_000, 7);
    assert_eq!(live.len(), 2);
    assert_eq!(live.entries[0].1.bytes, 300);
    assert_eq!(live.entries[0].1.pkts, 2);
    assert_eq!(live.entries[1].1.bytes, 7);
    assert_eq!(live.entries[1].1.pkts, 1);
}
