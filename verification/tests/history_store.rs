use flowlens::clock::now_secs;
use flowlens::history::sql::SqlParam;
use flowlens::history::store::{self, HistoryStore};
use flowlens::history::types::{Dir, Family, Granularity};

fn open_store() -> HistoryStore {
    HistoryStore::open(":memory:").expect("in-memory store")
}

#[test]
fn test_record_and_flush_accumulates() {
    let mut store = open_store();
    let adapter = "eth0";
    store.record(adapter, Family::V4, Dir::Rx, 100);
    store.record(adapter, Family::V4, Dir::Rx, 50);
    store.record(adapter, Family::V6, Dir::Tx, 10);
    store.flush().expect("flush");

    // a second flush interval for the same minute: increments add up
    store.record(adapter, Family::V4, Dir::Rx, 25);
    store.flush().expect("flush 2");

    let buckets = store.query(Granularity::Hourly, None).expect("query");
    assert_eq!(buckets.len(), 1);
    assert_eq!(buckets[0].rx_v4, 175);
    assert_eq!(buckets[0].rx_v6, 0);
    assert_eq!(buckets[0].tx_v6, 10);
    assert_eq!(buckets[0].tx_v4, 0);
}

#[test]
fn test_query_filters_by_adapter() {
    let mut store = open_store();
    store.record("eth0", Family::V4, Dir::Rx, 100);
    store.record("wlan0", Family::V4, Dir::Rx, 200);
    store.flush().expect("flush");

    assert_eq!(store.query(Granularity::Hourly, Some("eth0")).expect("q")[0].total(), 100);
    assert_eq!(store.query(Granularity::Hourly, Some("wlan0")).expect("q")[0].total(), 200);
    assert_eq!(store.query(Granularity::Hourly, None).expect("q")[0].total(), 300);
}

#[test]
fn test_daily_and_monthly_rollups() {
    let mut store = open_store();
    store.record("eth0", Family::V4, Dir::Rx, 100);
    store.record("eth0", Family::V6, Dir::Tx, 40);
    store.flush().expect("flush");

    // minute rows are pruned after the retention window; the rollups stay
    store
        .connection()
        .execute("DELETE FROM traffic_minute", [])
        .expect("prune");

    let daily = store.query(Granularity::Daily, None).expect("daily");
    assert_eq!(daily.len(), 1);
    assert_eq!(daily[0].rx_v4, 100);
    assert_eq!(daily[0].tx_v6, 40);
    assert_eq!(daily[0].label.len(), 10); // YYYY-MM-DD

    let monthly = store.query(Granularity::Monthly, None).expect("monthly");
    assert_eq!(monthly.len(), 1);
    assert_eq!(monthly[0].total(), 140);
    assert_eq!(monthly[0].label.len(), 7); // YYYY-MM
}

#[test]
fn test_day_rollup_is_replace_not_accumulate() {
    let mut store = open_store();
    store.record("eth0", Family::V4, Dir::Rx, 100);
    store.flush().expect("flush 1");
    store.record("eth0", Family::V4, Dir::Rx, 100);
    store.flush().expect("flush 2");

    let daily = store.query(Granularity::Daily, None).expect("daily");
    assert_eq!(daily[0].rx_v4, 200);
}

#[test]
fn test_app_daily_accumulates_across_flushes_and_filters_threshold() {
    let mut store = open_store();
    // 60 MB: under the 100 MB threshold, not shown yet
    store.record_app("heavy.exe", Family::V4, Dir::Rx, 60_000_000);
    store.flush().expect("flush 1");
    assert!(store.query_app_days().expect("q").is_empty());

    // another 60 MB: 120 MB in total passes the threshold
    store.record_app("heavy.exe", Family::V4, Dir::Rx, 60_000_000);
    store.record_app("heavy.exe", Family::V6, Dir::Tx, 50);
    store.flush().expect("flush 2");
    let rows = store.query_app_days().expect("q 2");
    assert_eq!(rows.len(), 1);
    assert_eq!(rows[0].app, "heavy.exe");
    assert_eq!(rows[0].rx_v4, 120_000_000);
    assert_eq!(rows[0].tx_v6, 50);

    // a small app just under the threshold is not shown
    store.record_app("small.exe", Family::V4, Dir::Tx, 99_999_999);
    store.flush().expect("flush 3");
    let rows = store.query_app_days().expect("q 3");
    assert_eq!(rows.len(), 1);
    assert_eq!(rows[0].app, "heavy.exe");
}

#[test]
fn test_app_daily_prunes_stale_subthreshold_rows() {
    let mut store = open_store();
    // yesterday's rows under the threshold are pruned, those over it stay
    store
        .connection()
        .execute_batch(
            "INSERT INTO traffic_app_day VALUES ('2000-01-01','old.exe','v4',100,0);
             INSERT INTO traffic_app_day VALUES ('2000-01-01','big.exe','v4',2000000000,0);",
        )
        .expect("seed");
    store.record_app("heavy.exe", Family::V4, Dir::Rx, 1_500_000_000);
    store.flush().expect("flush");

    let rows = store.query_app_days().expect("q");
    assert_eq!(rows.len(), 2);
    assert!(rows.iter().any(|r| r.app == "big.exe" && r.day == "2000-01-01"));
    assert!(rows.iter().any(|r| r.app == "heavy.exe" && r.rx_v4 == 1_500_000_000));
    assert!(!rows.iter().any(|r| r.app == "old.exe"));
}

#[test]
fn test_app_hour_range_query() {
    let mut store = open_store();
    store.record_app("a.exe", Family::V4, Dir::Rx, 100);
    store.record_app("a.exe", Family::V6, Dir::Tx, 30);
    store.record_app("b.exe", Family::V4, Dir::Rx, 50);
    store.flush().expect("flush");

    let now = now_secs();
    let rows = store.query_app_range(now - 3600, now + 3600).expect("range");
    assert_eq!(rows.len(), 2);
    assert_eq!(rows[0].app, "a.exe"); // 130 > 80, descending
    assert_eq!(rows[0].rx_v4, 100);
    assert_eq!(rows[0].tx_v6, 30);
    assert_eq!(rows[1].app, "b.exe");
    assert_eq!(rows[1].rx_v4, 50);

    // a range entirely in the past is empty
    let empty = store
        .query_app_range(now - 20 * 86400, now - 10 * 86400)
        .expect("old");
    assert!(empty.is_empty());

    // live buckets not yet flushed are merged in
    store.record_app("c.exe", Family::V4, Dir::Rx, 7);
    let rows = store.query_app_range(now - 300, now + 300).expect("live");
    let c = rows.iter().find(|r| r.app == "c.exe").expect("c.exe live");
    assert_eq!(c.rx_v4, 7);
}

#[test]
fn test_app_hour_day_rollup_and_threshold() {
    let mut store = open_store();
    store.record_app("big.exe", Family::V4, Dir::Rx, 150_000_000);
    store.record_app("small.exe", Family::V4, Dir::Rx, 50_000_000);
    store.flush().expect("flush");

    let days = store.query_app_days().expect("days");
    assert_eq!(days.len(), 1);
    assert_eq!(days[0].app, "big.exe");
    assert_eq!(days[0].rx_v4, 150_000_000);

    // the hourly range query has no threshold
    let now = now_secs();
    let rows = store.query_app_range(now - 3600, now + 3600).expect("range");
    assert_eq!(rows.len(), 2);
}

#[test]
fn test_query_range_hourly_and_daily() {
    let mut store = open_store();
    store.record("eth0", Family::V4, Dir::Rx, 300);
    store.flush().expect("flush");
    let now = now_secs();

    // 12 hours (at most 48 h, within retention): hourly buckets
    let series = store.query_range(now - 12 * 3600, now, None).expect("hourly");
    assert_eq!(series.granularity, "hour");
    assert_eq!(series.buckets.len(), 1);
    assert_eq!(series.buckets[0].rx_v4, 300);

    // 10 days: daily buckets from the day rollup
    let series = store
        .query_range(now - 10 * 86400, now, Some("eth0"))
        .expect("daily");
    assert_eq!(series.granularity, "day");
    assert_eq!(series.buckets.len(), 1);
    assert_eq!(series.buckets[0].rx_v4, 300);

    // the adapter filter applies
    let series = store
        .query_range(now - 12 * 3600, now, Some("nope"))
        .expect("filtered");
    assert!(series.buckets.is_empty());
}

#[test]
fn live_app_days_are_merged_before_flush() {
    let mut store = open_store();
    store.record_app("live.exe", Family::V4, Dir::Rx, 150_000_000);
    let rows = store.query_app_days().expect("live days");
    assert_eq!(rows.len(), 1);
    assert_eq!(rows[0].app, "live.exe");
    assert_eq!(rows[0].rx_v4, 150_000_000);
}

#[test]
fn zero_app_totals_record_nothing() {
    let mut store = open_store();
    store.record_app_totals("idle.exe", Family::V4, 0, 0);
    store.flush().expect("flush");
    let now = now_secs();
    assert!(store.query_app_range(now - 3600, now + 3600).expect("range").is_empty());
}

#[test]
fn global_store_functions() {
    let mut none: Option<HistoryStore> = None;
    store::record(&mut none, "eth0", Family::V4, Dir::Rx, 5);
    assert!(none.is_none());
    assert!(store::query(&none, Granularity::Hourly, None).is_empty());
    assert!(store::query_app_days(&none).is_empty());
    assert!(store::query_range(&none, 0, 10, None).is_none());
    assert!(store::query_app_range(&none, 0, 10).is_empty());
    assert!(store::flush_now(&mut none).is_ok());

    let mut some = Some(open_store());
    store::record(&mut some, "eth0", Family::V4, Dir::Rx, 5);
    store::record_app_totals(&mut some, "a.exe", Family::V6, 3, 4);
    store::flush_now(&mut some).expect("flush");
    let buckets = store::query(&some, Granularity::Hourly, Some("eth0"));
    assert_eq!(buckets.len(), 1);
    assert_eq!(buckets[0].rx_v4, 5);
    let now = now_secs();
    let rows = store::query_app_range(&some, now - 3600, now + 3600);
    assert_eq!(rows.len(), 1);
    assert_eq!(rows[0].rx_v6, 3);
    assert_eq!(rows[0].tx_v6, 4);
    let series = store::query_range(&some, now - 3600, now, None).expect("series");
    assert_eq!(series.granularity, "hour");
}

#[test]
fn unrepresentable_end_time_sets_no_upper_bound() {
    let mut s = open_store();
    s.record_app("a.exe", Family::V4, Dir::Rx, 100);
    s.flush().expect("flush");
    let r = s.query_app_range(0, i64::MAX).expect("range");
    assert_eq!(r.len(), 1);
    assert_eq!(r[0].app, "a.exe");
    assert_eq!(r[0].rx_v4, 100);

    // live buckets are bounded the same way
    s.record_app("b.exe", Family::V6, Dir::Tx, 7);
    let r = s.query_app_range(0, i64::MAX).expect("range");
    assert_eq!(r.len(), 2);

    s.record("eth0", Family::V4, Dir::Rx, 40);
    s.flush().expect("flush 2");
    let series = s.query_range(0, i64::MAX, None).expect("daily");
    assert_eq!(series.granularity, "day");
    assert_eq!(series.buckets.len(), 1);
    assert_eq!(series.buckets[0].rx_v4, 40);
}

#[test]
fn flush_plan_fixes_each_statement() {
    let p = store::flush_plan(1_000_000, "d".to_string(), "t".to_string(), "h".to_string());
    assert!(matches!(p.rollup_day.as_slice(), [SqlParam::Integer(827_200)]));
    assert!(p.rollup_month.is_empty());
    assert!(matches!(p.prune_minute.as_slice(), [SqlParam::Integer(-6_776_000)]));
    assert!(matches!(p.rollup_app_day.as_slice(), [SqlParam::Text(d)] if d == "d"));
    assert!(matches!(p.prune_app_day.as_slice(), [SqlParam::Text(t), SqlParam::Integer(100_000_000)] if t == "t"));
    assert!(matches!(p.prune_app_hour.as_slice(), [SqlParam::Text(h)] if h == "h"));
}

#[test]
fn range_params_follow_granularity() {
    let now = 10_000_000;
    let (hourly, p) = store::range_params(now - 3600, now, now, Some("eth0"), "a".to_string(), "b".to_string());
    assert!(hourly);
    assert!(matches!(p.as_slice(), [SqlParam::Text(a), SqlParam::Integer(s), SqlParam::Integer(u)] if a == "eth0" && *s == now - 3600 && *u == now));
    let (hourly, p) = store::range_params(now - 5 * 86400, now, now, None, "a".to_string(), "b".to_string());
    assert!(!hourly);
    assert!(matches!(p.as_slice(), [SqlParam::Null, SqlParam::Text(a), SqlParam::Text(b)] if a == "a" && b == "b"));
}
