//! SQLite-backed persistent store for per-adapter, per-family, per-direction
//! traffic in minute buckets, with day/month rollups and per-app hourly rows.
//!
//! Capture code records into in-memory buckets; `flush` drains them into
//! `traffic_minute` / `traffic_app_hour` and recomputes the rollups, which are
//! replaced (not accumulated) on every flush so they survive minute pruning.

use vstd::prelude::*;

use crate::clock::{local_label_of, local_now_label, now_minute, now_secs};
use crate::history::live::{
    bucket_after, app_after, day_rows_shown, merge_app_days, merge_app_range, record_app_bucket,
    record_bucket, usage_rows_shown, APP_DAY_THRESHOLD_BYTES,
};
use crate::history::sql::{
    self, AppDayRaw, AppUsageRaw, PivotRow, SqlParam,
};
use crate::history::types::{
    family_label, dir_label, AppAgg, AppDayRow, AppHourKey, AppUsageRow, BucketAgg, BucketKey,
    Dir, Family, Granularity, HistBucket, RangeSeries, window,
};
use crate::vecmap::VecMap;

verus! {

/// Minute-level details are kept for this many days; day/month rollups are kept forever.
pub const RETENTION_MINUTE_DAYS: i64 = 90;

/// Hour-level per-app details share the minute table's retention window.
pub const RETENTION_APP_HOUR_DAYS: i64 = 90;

/// Ranges spanning at most this many seconds are bucketed by hour, longer ones by day.
pub const HOUR_BUCKET_MAX_SPAN_SECS: i64 = 172800;

/// Flush cadence of the background flusher, in seconds.
pub const FLUSH_INTERVAL_SECS: u64 = 60;

pub const SCHEMA_SQL: &'static str = "CREATE TABLE IF NOT EXISTS traffic_minute (
    adapter TEXT NOT NULL,
    family  TEXT NOT NULL,
    dir     TEXT NOT NULL,
    ts      INTEGER NOT NULL,
    bytes   INTEGER NOT NULL,
    pkts    INTEGER NOT NULL,
    PRIMARY KEY (adapter, family, dir, ts)
);
CREATE INDEX IF NOT EXISTS idx_minute_ts ON traffic_minute (ts);
CREATE TABLE IF NOT EXISTS traffic_day (
    bucket  TEXT NOT NULL,
    adapter TEXT NOT NULL,
    family  TEXT NOT NULL,
    dir     TEXT NOT NULL,
    bytes   INTEGER NOT NULL,
    pkts    INTEGER NOT NULL,
    PRIMARY KEY (bucket, adapter, family, dir)
);
CREATE TABLE IF NOT EXISTS traffic_month (
    bucket  TEXT NOT NULL,
    adapter TEXT NOT NULL,
    family  TEXT NOT NULL,
    dir     TEXT NOT NULL,
    bytes   INTEGER NOT NULL,
    pkts    INTEGER NOT NULL,
    PRIMARY KEY (bucket, adapter, family, dir)
);
CREATE TABLE IF NOT EXISTS adapters (
    name       TEXT PRIMARY KEY,
    desc       TEXT,
    first_seen INTEGER NOT NULL
);
CREATE TABLE IF NOT EXISTS traffic_app_day (
    day      TEXT NOT NULL,
    app      TEXT NOT NULL,
    family   TEXT NOT NULL,
    rx_bytes INTEGER NOT NULL,
    tx_bytes INTEGER NOT NULL,
    PRIMARY KEY (day, app, family)
);
CREATE TABLE IF NOT EXISTS traffic_app_hour (
    hour     TEXT NOT NULL,
    app      TEXT NOT NULL,
    family   TEXT NOT NULL,
    rx_bytes INTEGER NOT NULL,
    tx_bytes INTEGER NOT NULL,
    PRIMARY KEY (hour, app, family)
);
CREATE INDEX IF NOT EXISTS idx_app_hour_hour ON traffic_app_hour (hour);";

pub const UPSERT_MINUTE_SQL: &'static str = "INSERT INTO traffic_minute (adapter, family, dir, ts, bytes, pkts)
     VALUES (?1, ?2, ?3, ?4, ?5, ?6)
     ON CONFLICT(adapter, family, dir, ts) DO UPDATE
     SET bytes = bytes + excluded.bytes, pkts = pkts + excluded.pkts";

/// Recomputes the day rows of every local day from the day of `?1` on, each
/// from all of that day's minute rows.
pub const ROLLUP_DAY_SQL: &'static str = "INSERT INTO traffic_day (bucket, adapter, family, dir, bytes, pkts)
     SELECT strftime('%Y-%m-%d', ts, 'unixepoch', 'localtime'), adapter, family, dir,
            SUM(bytes), SUM(pkts)
     FROM traffic_minute
     WHERE ts >= ?1 - 172800
       AND strftime('%Y-%m-%d', ts, 'unixepoch', 'localtime')
           >= strftime('%Y-%m-%d', ?1, 'unixepoch', 'localtime')
     GROUP BY 1, 2, 3, 4
     ON CONFLICT(bucket, adapter, family, dir) DO UPDATE
     SET bytes = excluded.bytes, pkts = excluded.pkts";

pub const ROLLUP_MONTH_SQL: &'static str = "INSERT INTO traffic_month (bucket, adapter, family, dir, bytes, pkts)
     SELECT substr(bucket, 1, 7), adapter, family, dir, SUM(bytes), SUM(pkts)
     FROM traffic_day
     WHERE bucket >= strftime('%Y-%m', 'now', 'localtime', '-1 month')
     GROUP BY 1, 2, 3, 4
     ON CONFLICT(bucket, adapter, family, dir) DO UPDATE
     SET bytes = excluded.bytes, pkts = excluded.pkts";

pub const PRUNE_MINUTE_SQL: &'static str = "DELETE FROM traffic_minute WHERE ts < ?1";

pub const UPSERT_APP_HOUR_SQL: &'static str = "INSERT INTO traffic_app_hour (hour, app, family, rx_bytes, tx_bytes)
     VALUES (?1, ?2, ?3, ?4, ?5)
     ON CONFLICT(hour, app, family) DO UPDATE
     SET rx_bytes = rx_bytes + excluded.rx_bytes,
         tx_bytes = tx_bytes + excluded.tx_bytes";

pub const ROLLUP_APP_DAY_SQL: &'static str = "INSERT INTO traffic_app_day (day, app, family, rx_bytes, tx_bytes)
     SELECT substr(hour, 1, 10), app, family, SUM(rx_bytes), SUM(tx_bytes)
     FROM traffic_app_hour
     WHERE hour >= ?1
     GROUP BY 1, 2, 3
     ON CONFLICT(day, app, family) DO UPDATE
     SET rx_bytes = excluded.rx_bytes, tx_bytes = excluded.tx_bytes";

pub const PRUNE_APP_DAY_SQL: &'static str = "DELETE FROM traffic_app_day
     WHERE day < ?1
       AND (day, app) IN (
           SELECT day, app FROM traffic_app_day
           GROUP BY day, app
           HAVING SUM(rx_bytes + tx_bytes) < ?2
       )";

pub const PRUNE_APP_HOUR_SQL: &'static str = "DELETE FROM traffic_app_hour WHERE hour < ?1";

pub const HOURLY_SQL: &'static str = "SELECT strftime('%Y-%m-%d %H:00', ts, 'unixepoch', 'localtime') AS bucket,
    COALESCE(SUM(CASE WHEN family = 'v4' AND dir = 'rx' THEN bytes END), 0) AS rx_v4,
    COALESCE(SUM(CASE WHEN family = 'v6' AND dir = 'rx' THEN bytes END), 0) AS rx_v6,
    COALESCE(SUM(CASE WHEN family = 'v4' AND dir = 'tx' THEN bytes END), 0) AS tx_v4,
    COALESCE(SUM(CASE WHEN family = 'v6' AND dir = 'tx' THEN bytes END), 0) AS tx_v6
 FROM traffic_minute
 WHERE ts >= ?2 AND (?1 IS NULL OR adapter = ?1)
 GROUP BY bucket
 ORDER BY bucket";

pub const DAILY_SQL: &'static str = "SELECT bucket AS bucket,
    COALESCE(SUM(CASE WHEN family = 'v4' AND dir = 'rx' THEN bytes END), 0) AS rx_v4,
    COALESCE(SUM(CASE WHEN family = 'v6' AND dir = 'rx' THEN bytes END), 0) AS rx_v6,
    COALESCE(SUM(CASE WHEN family = 'v4' AND dir = 'tx' THEN bytes END), 0) AS tx_v4,
    COALESCE(SUM(CASE WHEN family = 'v6' AND dir = 'tx' THEN bytes END), 0) AS tx_v6
 FROM traffic_day
 WHERE bucket >= strftime('%Y-%m-%d', ?2, 'unixepoch', 'localtime') AND (?1 IS NULL OR adapter = ?1)
 GROUP BY bucket
 ORDER BY bucket";

pub const MONTHLY_SQL: &'static str = "SELECT bucket AS bucket,
    COALESCE(SUM(CASE WHEN family = 'v4' AND dir = 'rx' THEN bytes END), 0) AS rx_v4,
    COALESCE(SUM(CASE WHEN family = 'v6' AND dir = 'rx' THEN bytes END), 0) AS rx_v6,
    COALESCE(SUM(CASE WHEN family = 'v4' AND dir = 'tx' THEN bytes END), 0) AS tx_v4,
    COALESCE(SUM(CASE WHEN family = 'v6' AND dir = 'tx' THEN bytes END), 0) AS tx_v6
 FROM traffic_month
 WHERE bucket >= ?2 AND (?1 IS NULL OR adapter = ?1)
 GROUP BY bucket
 ORDER BY bucket";

pub const RANGE_HOURLY_SQL: &'static str = "SELECT strftime('%Y-%m-%d %H:00', ts, 'unixepoch', 'localtime') AS bucket, COALESCE(SUM(CASE WHEN family = 'v4' AND dir = 'rx' THEN bytes END), 0) AS rx_v4, COALESCE(SUM(CASE WHEN family = 'v6' AND dir = 'rx' THEN bytes END), 0) AS rx_v6, COALESCE(SUM(CASE WHEN family = 'v4' AND dir = 'tx' THEN bytes END), 0) AS tx_v4, COALESCE(SUM(CASE WHEN family = 'v6' AND dir = 'tx' THEN bytes END), 0) AS tx_v6 FROM traffic_minute WHERE ts >= ?2 AND ts <= ?3 AND (?1 IS NULL OR adapter = ?1) GROUP BY bucket ORDER BY bucket";

pub const RANGE_DAILY_SQL: &'static str = "SELECT bucket, COALESCE(SUM(CASE WHEN family = 'v4' AND dir = 'rx' THEN bytes END), 0) AS rx_v4, COALESCE(SUM(CASE WHEN family = 'v6' AND dir = 'rx' THEN bytes END), 0) AS rx_v6, COALESCE(SUM(CASE WHEN family = 'v4' AND dir = 'tx' THEN bytes END), 0) AS tx_v4, COALESCE(SUM(CASE WHEN family = 'v6' AND dir = 'tx' THEN bytes END), 0) AS tx_v6 FROM traffic_day WHERE bucket >= ?2 AND (?3 = '' OR bucket <= ?3) AND (?1 IS NULL OR adapter = ?1) GROUP BY bucket ORDER BY bucket";

pub const APP_DAYS_SQL: &'static str = "SELECT day, app,
    COALESCE(SUM(CASE WHEN family = 'v4' THEN rx_bytes END), 0),
    COALESCE(SUM(CASE WHEN family = 'v4' THEN tx_bytes END), 0),
    COALESCE(SUM(CASE WHEN family = 'v6' THEN rx_bytes END), 0),
    COALESCE(SUM(CASE WHEN family = 'v6' THEN tx_bytes END), 0)
 FROM traffic_app_day
 GROUP BY day, app";

pub const APP_RANGE_SQL: &'static str = "SELECT app, COALESCE(SUM(CASE WHEN family = 'v4' THEN rx_bytes END), 0), COALESCE(SUM(CASE WHEN family = 'v4' THEN tx_bytes END), 0), COALESCE(SUM(CASE WHEN family = 'v6' THEN rx_bytes END), 0), COALESCE(SUM(CASE WHEN family = 'v6' THEN tx_bytes END), 0) FROM traffic_app_hour WHERE hour >= ?1 AND (?2 = '' OR hour <= ?2) GROUP BY app";

pub const ADAPTERS_SQL: &'static str = "SELECT name, desc FROM adapters ORDER BY name";

/// Errors of the history store.
#[derive(Debug)]
pub enum StoreError {
    /// SQLite reported an error.
    Sqlite(rusqlite::Error),
}

fn sql<T>(r: Result<T, rusqlite::Error>) -> (o: Result<T, StoreError>)
    ensures
        o is Ok <==> r is Ok,
        r matches Ok(v) ==> o == Ok::<T, StoreError>(v),
{
    match r {
        Ok(v) => Ok(v),
        Err(e) => Err(StoreError::Sqlite(e)),
    }
}

/// A counter as stored: itself when it fits `i64`, else `i64::MAX`.
pub open spec fn clamp_i64(v: u64) -> i64 {
    if v <= i64::MAX as u64 {
        v as i64
    } else {
        i64::MAX
    }
}

fn to_i64_clamped(v: u64) -> (r: i64)
    ensures
        r == clamp_i64(v),
{
    if v <= i64::MAX as u64 {
        v as i64
    } else {
        i64::MAX
    }
}

/// A counter read back: itself when non-negative, else 0.
pub open spec fn nonneg(v: i64) -> u64 {
    if v >= 0 {
        v as u64
    } else {
        0
    }
}

/// A counter read back that may have failed to read: 0 when it did.
pub open spec fn counter(v: Option<i64>) -> u64 {
    match v {
        Some(n) => nonneg(n),
        None => 0,
    }
}

fn read_nonneg(v: i64) -> (r: u64)
    ensures
        r == nonneg(v),
{
    if v >= 0 {
        v as u64
    } else {
        0
    }
}

fn read_counter(v: Option<i64>) -> (r: u64)
    ensures
        r == counter(v),
{
    match v {
        Some(n) => read_nonneg(n),
        None => 0,
    }
}

pub open spec fn is_text(p: SqlParam, s: Seq<char>) -> bool {
    p matches SqlParam::Text(t) && t@ == s
}

pub open spec fn is_int(p: SqlParam, i: i64) -> bool {
    p matches SqlParam::Integer(v) && v == i
}

fn text(s: &str) -> (p: SqlParam)
    ensures
        is_text(p, s@),
{
    SqlParam::Text(s.to_owned())
}

/// Whether an epoch minute can be stored as epoch seconds.
pub open spec fn minute_storable(m: i64) -> bool {
    i64::MIN <= m * 60 <= i64::MAX
}

/// `p` are the parameters that store minute bucket `key` with `agg` (see `minute_params`).
pub open spec fn minute_params_are(p: Seq<SqlParam>, key: BucketKey, agg: BucketAgg) -> bool {
    &&& p.len() == 6
    &&& is_text(p[0], key.adapter@)
    &&& is_text(p[1], family_label(key.family))
    &&& is_text(p[2], dir_label(key.dir))
    &&& is_int(p[3], (key.minute * 60) as i64)
    &&& is_int(p[4], clamp_i64(agg.bytes))
    &&& is_int(p[5], clamp_i64(agg.pkts))
}

/// `p` are the parameters that store app bucket `key` with `agg` (see `app_hour_params`).
pub open spec fn app_hour_params_are(p: Seq<SqlParam>, key: AppHourKey, agg: AppAgg) -> bool {
    &&& p.len() == 5
    &&& is_text(p[0], key.hour@)
    &&& is_text(p[1], key.app@)
    &&& is_text(p[2], family_label(key.family))
    &&& is_int(p[3], clamp_i64(agg.rx))
    &&& is_int(p[4], clamp_i64(agg.tx))
}

/// The parameters that store one drained minute bucket: adapter, family and
/// direction labels, the minute as epoch seconds, and the clamped counters.
pub fn minute_params(key: &BucketKey, agg: BucketAgg) -> (p: Vec<SqlParam>)
    requires
        minute_storable(key.minute),
    ensures
        minute_params_are(p@, *key, agg),
        p@.len() == 6,
        is_text(p@[0], key.adapter@),
        is_text(p@[1], family_label(key.family)),
        is_text(p@[2], dir_label(key.dir)),
        is_int(p@[3], (key.minute * 60) as i64),
        is_int(p@[4], clamp_i64(agg.bytes)),
        is_int(p@[5], clamp_i64(agg.pkts)),
{
    let mut p: Vec<SqlParam> = Vec::new();
    p.push(text(key.adapter.as_str()));
    p.push(text(key.family.label()));
    p.push(text(key.dir.label()));
    p.push(SqlParam::Integer(key.minute * 60));
    p.push(SqlParam::Integer(to_i64_clamped(agg.bytes)));
    p.push(SqlParam::Integer(to_i64_clamped(agg.pkts)));
    p
}

/// The parameters that store one drained hourly app bucket: hour label, app,
/// family label and the clamped counters.
pub fn app_hour_params(key: &AppHourKey, agg: AppAgg) -> (p: Vec<SqlParam>)
    ensures
        app_hour_params_are(p@, *key, agg),
        p@.len() == 5,
        is_text(p@[0], key.hour@),
        is_text(p@[1], key.app@),
        is_text(p@[2], family_label(key.family)),
        is_int(p@[3], clamp_i64(agg.rx)),
        is_int(p@[4], clamp_i64(agg.tx)),
{
    let mut p: Vec<SqlParam> = Vec::new();
    p.push(text(key.hour.as_str()));
    p.push(text(key.app.as_str()));
    p.push(text(key.family.label()));
    p.push(SqlParam::Integer(to_i64_clamped(agg.rx)));
    p.push(SqlParam::Integer(to_i64_clamped(agg.tx)));
    p
}

/// The statement of a fixed-window history query.
pub fn history_sql(g: Granularity) -> (s: &'static str)
    ensures
        s == match g {
            Granularity::Hourly => HOURLY_SQL,
            Granularity::Daily => DAILY_SQL,
            Granularity::Monthly => MONTHLY_SQL,
        },
{
    match g {
        Granularity::Hourly => HOURLY_SQL,
        Granularity::Daily => DAILY_SQL,
        Granularity::Monthly => MONTHLY_SQL,
    }
}

/// `a - b`, saturating at the bounds of `i64`.
pub open spec fn sat_sub(a: i64, b: i64) -> i64 {
    if a - b > i64::MAX {
        i64::MAX
    } else if a - b < i64::MIN {
        i64::MIN
    } else {
        (a - b) as i64
    }
}

pub fn saturating_sub_i64(a: i64, b: i64) -> (r: i64)
    ensures
        r == sat_sub(a, b),
{
    let d = a as i128 - b as i128;
    if d > i64::MAX as i128 {
        i64::MAX
    } else if d < i64::MIN as i128 {
        i64::MIN
    } else {
        d as i64
    }
}

/// The adapter filter parameter: NULL for all adapters, else the name.
fn adapter_param(adapter: Option<&str>) -> (p: SqlParam)
    ensures
        adapter is None ==> p is Null,
        adapter matches Some(a) ==> is_text(p, a@),
{
    match adapter {
        Some(a) => text(a),
        None => SqlParam::Null,
    }
}

/// The parameters of a fixed-window history query: the adapter filter, then
/// the lower bound (`now - window`, saturating; the empty text for monthly
/// queries, which read every month).
pub fn history_params(g: Granularity, now: i64, adapter: Option<&str>) -> (p: Vec<SqlParam>)
    ensures
        p@.len() == 2,
        adapter is None ==> p@[0] is Null,
        adapter matches Some(a) ==> is_text(p@[0], a@),
        g == Granularity::Monthly ==> is_text(p@[1], Seq::<char>::empty()),
        g != Granularity::Monthly ==> is_int(p@[1], sat_sub(now, window(g))),
{
    let since = saturating_sub_i64(now, g.window_secs());
    let mut p: Vec<SqlParam> = Vec::new();
    p.push(adapter_param(adapter));
    match g {
        Granularity::Monthly => p.push(SqlParam::Text(String::new())),
        _ => p.push(SqlParam::Integer(since)),
    }
    p
}

/// `v` holds the buckets of pivot rows `rows`, in order; negative counters read as 0.
pub open spec fn buckets_of(v: Seq<HistBucket>, rows: Seq<PivotRow>) -> bool {
    &&& v.len() == rows.len()
    &&& forall|i: int|
        0 <= i < v.len() ==> {
            &&& (#[trigger] v[i]).label@ == rows[i].label@
            &&& v[i].rx_v4 == nonneg(rows[i].c1)
            &&& v[i].rx_v6 == nonneg(rows[i].c2)
            &&& v[i].tx_v4 == nonneg(rows[i].c3)
            &&& v[i].tx_v6 == nonneg(rows[i].c4)
        }
}

/// Pivot rows as history buckets; negative counters read as 0.
pub fn buckets_from_rows(rows: &Vec<PivotRow>) -> (r: Vec<HistBucket>)
    ensures
        buckets_of(r@, rows@),
{
    let mut out: Vec<HistBucket> = Vec::new();
    let mut i: usize = 0;
    while i < rows.len()
        invariant
            i <= rows@.len(),
            out@.len() == i,
            forall|j: int|
                0 <= j < i ==> {
                    &&& (#[trigger] out@[j]).label@ == rows@[j].label@
                    &&& out@[j].rx_v4 == nonneg(rows@[j].c1)
                    &&& out@[j].rx_v6 == nonneg(rows@[j].c2)
                    &&& out@[j].tx_v4 == nonneg(rows@[j].c3)
                    &&& out@[j].tx_v6 == nonneg(rows@[j].c4)
                },
        decreases rows@.len() - i,
    {
        let row = &rows[i];
        out.push(
            HistBucket {
                label: row.label.clone(),
                rx_v4: read_nonneg(row.c1),
                rx_v6: read_nonneg(row.c2),
                tx_v4: read_nonneg(row.c3),
                tx_v6: read_nonneg(row.c4),
            },
        );
        i = i + 1;
    }
    out
}

/// `db` holds the per-app daily rows of the query rows `raw`, in order;
/// unreadable or negative counters read as 0.
pub open spec fn day_rows_read(db: Seq<AppDayRow>, raw: Seq<AppDayRaw>) -> bool {
    &&& db.len() == raw.len()
    &&& forall|i: int|
        0 <= i < db.len() ==> (#[trigger] db[i])@ == (
            raw[i].day@,
            raw[i].app@,
            counter(raw[i].rx_v4),
            counter(raw[i].tx_v4),
            counter(raw[i].rx_v6),
            counter(raw[i].tx_v6),
        )
}

/// `db` holds the per-app range rows of the query rows `raw`, in order;
/// unreadable or negative counters read as 0.
pub open spec fn usage_rows_read(db: Seq<AppUsageRow>, raw: Seq<AppUsageRaw>) -> bool {
    &&& db.len() == raw.len()
    &&& forall|i: int|
        0 <= i < db.len() ==> (#[trigger] db[i])@ == (
            raw[i].app@,
            counter(raw[i].rx_v4),
            counter(raw[i].tx_v4),
            counter(raw[i].rx_v6),
            counter(raw[i].tx_v6),
        )
}

/// Per-app daily rows read from the database; unreadable or negative counters read as 0.
pub fn app_day_rows(raw: &Vec<AppDayRaw>) -> (r: Vec<AppDayRow>)
    ensures
        day_rows_read(r@, raw@),
{
    let mut out: Vec<AppDayRow> = Vec::new();
    let mut i: usize = 0;
    while i < raw.len()
        invariant
            i <= raw@.len(),
            out@.len() == i,
            forall|j: int|
                0 <= j < i ==> (#[trigger] out@[j])@ == (
                    raw@[j].day@,
                    raw@[j].app@,
                    counter(raw@[j].rx_v4),
                    counter(raw@[j].tx_v4),
                    counter(raw@[j].rx_v6),
                    counter(raw@[j].tx_v6),
                ),
        decreases raw@.len() - i,
    {
        let row = &raw[i];
        out.push(
            AppDayRow {
                day: row.day.clone(),
                app: row.app.clone(),
                rx_v4: read_counter(row.rx_v4),
                tx_v4: read_counter(row.tx_v4),
                rx_v6: read_counter(row.rx_v6),
                tx_v6: read_counter(row.tx_v6),
            },
        );
        i = i + 1;
    }
    out
}

/// Per-app range rows read from the database; unreadable or negative counters read as 0.
pub fn app_usage_rows(raw: &Vec<AppUsageRaw>) -> (r: Vec<AppUsageRow>)
    ensures
        usage_rows_read(r@, raw@),
{
    let mut out: Vec<AppUsageRow> = Vec::new();
    let mut i: usize = 0;
    while i < raw.len()
        invariant
            i <= raw@.len(),
            out@.len() == i,
            forall|j: int|
                0 <= j < i ==> (#[trigger] out@[j])@ == (
                    raw@[j].app@,
                    counter(raw@[j].rx_v4),
                    counter(raw@[j].tx_v4),
                    counter(raw@[j].rx_v6),
                    counter(raw@[j].tx_v6),
                ),
        decreases raw@.len() - i,
    {
        let row = &raw[i];
        out.push(
            AppUsageRow {
                app: row.app.clone(),
                rx_v4: read_counter(row.rx_v4),
                tx_v4: read_counter(row.tx_v4),
                rx_v6: read_counter(row.rx_v6),
                tx_v6: read_counter(row.tx_v6),
            },
        );
        i = i + 1;
    }
    out
}

/// Whether a range query reads hourly buckets: the span is at most two days
/// (saturating) and the start lies within the minute retention window of `now`
/// (the window bound computed with wrapping, as the release build does).
pub open spec fn range_is_hourly(since_ts: i64, until_ts: i64, now: i64) -> bool {
    sat_sub(until_ts, since_ts) <= HOUR_BUCKET_MAX_SPAN_SECS && since_ts
        >= vstd::wrapping::i64_specs::wrapping_sub(now, 7776000i64)
}

/// `g` names the granularity a range query over [since_ts, until_ts] chooses at time `now`.
pub open spec fn range_granularity_is(g: Seq<char>, since_ts: i64, until_ts: i64, now: i64) -> bool {
    if range_is_hourly(since_ts, until_ts, now) {
        g == seq!['h', 'o', 'u', 'r']
    } else {
        g == seq!['d', 'a', 'y']
    }
}

pub fn hourly_range(since_ts: i64, until_ts: i64, now: i64) -> (r: bool)
    ensures
        r == range_is_hourly(since_ts, until_ts, now),
{
    saturating_sub_i64(until_ts, since_ts) <= HOUR_BUCKET_MAX_SPAN_SECS && since_ts
        >= now.wrapping_sub(RETENTION_MINUTE_DAYS * 86400)
}

/// The parameters of the rollup and retention statements of one flush.
pub struct FlushPlan {
    /// `ROLLUP_DAY_SQL`: the cutoff second; days from its local day on are recomputed.
    pub rollup_day: Vec<SqlParam>,
    /// `ROLLUP_MONTH_SQL`: none.
    pub rollup_month: Vec<SqlParam>,
    /// `PRUNE_MINUTE_SQL`: minute rows before this second are deleted.
    pub prune_minute: Vec<SqlParam>,
    /// `ROLLUP_APP_DAY_SQL`: app days from this hour label on are recomputed.
    pub rollup_app_day: Vec<SqlParam>,
    /// `PRUNE_APP_DAY_SQL`: today's label and the daily threshold.
    pub prune_app_day: Vec<SqlParam>,
    /// `PRUNE_APP_HOUR_SQL`: app hour rows before this label are deleted.
    pub prune_app_hour: Vec<SqlParam>,
}

/// `p` is the plan of a flush at `now` with the three labels (see `flush_plan`).
pub open spec fn is_flush_plan(
    p: FlushPlan,
    now: i64,
    day_start: Seq<char>,
    today: Seq<char>,
    hour_cutoff: Seq<char>,
) -> bool {
    &&& p.rollup_day@.len() == 1
    &&& is_int(p.rollup_day@[0], vstd::wrapping::i64_specs::wrapping_sub(now, 172800i64))
    &&& p.rollup_month@.len() == 0
    &&& p.prune_minute@.len() == 1
    &&& is_int(p.prune_minute@[0], vstd::wrapping::i64_specs::wrapping_sub(now, 7776000i64))
    &&& p.rollup_app_day@.len() == 1
    &&& is_text(p.rollup_app_day@[0], day_start)
    &&& p.prune_app_day@.len() == 2
    &&& is_text(p.prune_app_day@[0], today)
    &&& is_int(p.prune_app_day@[1], clamp_i64(APP_DAY_THRESHOLD_BYTES))
    &&& p.prune_app_hour@.len() == 1
    &&& is_text(p.prune_app_hour@[0], hour_cutoff)
}

/// A statement run against the database: its SQL text and parameters.
pub type Stmt = (Seq<char>, Seq<SqlParam>);

/// `log` upserts the drained minute buckets `drained`, one statement each, in order.
pub open spec fn minutes_logged(log: Seq<Stmt>, drained: Seq<(BucketKey, BucketAgg)>) -> bool {
    &&& log.len() == drained.len()
    &&& forall|i: int|
        0 <= i < log.len() ==> (#[trigger] log[i]).0 == UPSERT_MINUTE_SQL@ && minute_params_are(
            log[i].1,
            drained[i].0,
            drained[i].1,
        )
}

/// `log` upserts the drained app buckets `drained`, one statement each, in order.
pub open spec fn apps_logged(log: Seq<Stmt>, drained: Seq<(AppHourKey, AppAgg)>) -> bool {
    &&& log.len() == drained.len()
    &&& forall|i: int|
        0 <= i < log.len() ==> (#[trigger] log[i]).0 == UPSERT_APP_HOUR_SQL@ && app_hour_params_are(
            log[i].1,
            drained[i].0,
            drained[i].1,
        )
}

/// `log` is what a successful flush of minute buckets `minutes` and app
/// buckets `apps` with plan `p` runs: the minute upserts, the day rollup, the
/// month rollup, the minute prune, the app upserts, the app day rollup, the
/// app day prune and the app hour prune, in that order.
pub open spec fn flush_logged(
    log: Seq<Stmt>,
    minutes: Seq<(BucketKey, BucketAgg)>,
    apps: Seq<(AppHourKey, AppAgg)>,
    p: FlushPlan,
) -> bool {
    let m = minutes.len() as int;
    let a = apps.len() as int;
    &&& log.len() == m + a + 6
    &&& minutes_logged(log.subrange(0, m), minutes)
    &&& log[m] == (ROLLUP_DAY_SQL@, p.rollup_day@)
    &&& log[m + 1] == (ROLLUP_MONTH_SQL@, p.rollup_month@)
    &&& log[m + 2] == (PRUNE_MINUTE_SQL@, p.prune_minute@)
    &&& apps_logged(log.subrange(m + 3, m + 3 + a), apps)
    &&& log[m + 3 + a] == (ROLLUP_APP_DAY_SQL@, p.rollup_app_day@)
    &&& log[m + 4 + a] == (PRUNE_APP_DAY_SQL@, p.prune_app_day@)
    &&& log[m + 5 + a] == (PRUNE_APP_HOUR_SQL@, p.prune_app_hour@)
}

/// The statement parameters of a flush at epoch second `now`:
/// - the day rollup recomputes from `now - 2 days` (wrapping) on;
/// - the month rollup takes none;
/// - minute rows older than `now - RETENTION_MINUTE_DAYS days` (wrapping) are pruned;
/// - the app day rollup recomputes from `day_start`, the local label of the
///   start of the day two days ago;
/// - app day rows before `today` under `APP_DAY_THRESHOLD_BYTES` (clamped) are pruned;
/// - app hour rows before `hour_cutoff`, the local label of the start of the
///   day `RETENTION_APP_HOUR_DAYS` days ago, are pruned.
pub fn flush_plan(now: i64, day_start: String, today: String, hour_cutoff: String) -> (p: FlushPlan)
    ensures
        is_flush_plan(p, now, day_start@, today@, hour_cutoff@),
        p.rollup_day@.len() == 1,
        is_int(p.rollup_day@[0], vstd::wrapping::i64_specs::wrapping_sub(now, 172800i64)),
        p.rollup_month@.len() == 0,
        p.prune_minute@.len() == 1,
        is_int(p.prune_minute@[0], vstd::wrapping::i64_specs::wrapping_sub(now, 7776000i64)),
        p.rollup_app_day@.len() == 1,
        is_text(p.rollup_app_day@[0], day_start@),
        p.prune_app_day@.len() == 2,
        is_text(p.prune_app_day@[0], today@),
        is_int(p.prune_app_day@[1], clamp_i64(APP_DAY_THRESHOLD_BYTES)),
        p.prune_app_hour@.len() == 1,
        is_text(p.prune_app_hour@[0], hour_cutoff@),
{
    let mut rollup_day: Vec<SqlParam> = Vec::new();
    rollup_day.push(SqlParam::Integer(now.wrapping_sub(2 * 86400)));
    let mut prune_minute: Vec<SqlParam> = Vec::new();
    prune_minute.push(SqlParam::Integer(now.wrapping_sub(RETENTION_MINUTE_DAYS * 86400)));
    let mut rollup_app_day: Vec<SqlParam> = Vec::new();
    rollup_app_day.push(SqlParam::Text(day_start));
    let mut prune_app_day: Vec<SqlParam> = Vec::new();
    prune_app_day.push(SqlParam::Text(today));
    prune_app_day.push(SqlParam::Integer(to_i64_clamped(APP_DAY_THRESHOLD_BYTES)));
    let mut prune_app_hour: Vec<SqlParam> = Vec::new();
    prune_app_hour.push(SqlParam::Text(hour_cutoff));
    FlushPlan {
        rollup_day,
        rollup_month: Vec::new(),
        prune_minute,
        rollup_app_day,
        prune_app_day,
        prune_app_hour,
    }
}

/// The parameters of a range query at epoch second `now`, and whether it
/// reads hourly buckets (`range_is_hourly`): the adapter filter, then the
/// range as epoch seconds for an hourly query, or as the local day labels
/// `since_label` and `until_label` for a daily one (an empty until label sets
/// no upper bound).
pub fn range_params(
    since_ts: i64,
    until_ts: i64,
    now: i64,
    adapter: Option<&str>,
    since_label: String,
    until_label: String,
) -> (p: (bool, Vec<SqlParam>))
    ensures
        p.0 == range_is_hourly(since_ts, until_ts, now),
        p.1@.len() == 3,
        adapter is None ==> p.1@[0] is Null,
        adapter matches Some(a) ==> is_text(p.1@[0], a@),
        p.0 ==> is_int(p.1@[1], since_ts) && is_int(p.1@[2], until_ts),
        !p.0 ==> is_text(p.1@[1], since_label@) && is_text(p.1@[2], until_label@),
{
    let hourly = hourly_range(since_ts, until_ts, now);
    let mut params: Vec<SqlParam> = Vec::new();
    params.push(adapter_param(adapter));
    if hourly {
        params.push(SqlParam::Integer(since_ts));
        params.push(SqlParam::Integer(until_ts));
    } else {
        params.push(SqlParam::Text(since_label));
        params.push(SqlParam::Text(until_label));
    }
    (hourly, params)
}

/// Runs `sql` with `params` in the transaction and, when it succeeds,
/// records it in `log`.
fn execute_logged(
    tx: &rusqlite::Transaction<'_>,
    sql: &str,
    params: &Vec<SqlParam>,
    log: &mut Ghost<Seq<Stmt>>,
) -> (r: Result<(), StoreError>)
    ensures
        r is Ok ==> final(log)@ == old(log)@.push((sql@, params@)),
        r is Err ==> final(log)@ == old(log)@,
{
    match sql::execute(tx, sql, params) {
        Ok(_) => {
            *log = Ghost(log@.push((sql@, params@)));
            Ok(())
        },
        Err(e) => Err(StoreError::Sqlite(e)),
    }
}

/// The live buckets not yet flushed, keys distinct and minutes storable.
pub struct LiveBuckets {
    live: VecMap<BucketKey, BucketAgg>,
    app_live: VecMap<AppHourKey, AppAgg>,
}

impl LiveBuckets {
    #[verifier::type_invariant]
    spec fn inv(self) -> bool {
        &&& self.live.wf()
        &&& self.app_live.wf()
        &&& forall|i: int|
            0 <= i < self.live.entries@.len() ==> minute_storable(
                (#[trigger] self.live.entries@[i]).0.minute,
            )
    }

    pub closed spec fn bucket(&self, k: (Seq<char>, Family, Dir, i64)) -> Option<BucketAgg> {
        self.live.get(k)
    }

    pub closed spec fn app_bucket(&self, k: (Seq<char>, Seq<char>, Family)) -> Option<AppAgg> {
        self.app_live.get(k)
    }

    pub closed spec fn app_buckets(&self) -> Seq<(AppHourKey, AppAgg)> {
        self.app_live.entries@
    }

    pub closed spec fn minute_entries(&self) -> Seq<(BucketKey, BucketAgg)> {
        self.live.entries@
    }

    fn new() -> (r: Self)
        ensures
            forall|k: (Seq<char>, Family, Dir, i64)| #[trigger] r.bucket(k) is None,
            r.app_buckets().len() == 0,
    {
        LiveBuckets { live: VecMap::new(), app_live: VecMap::new() }
    }

    fn record_at(&mut self, adapter: &str, family: Family, dir: Dir, bytes: u64, minute: i64)
        requires
            minute_storable(minute),
        ensures
            final(self).bucket((adapter@, family, dir, minute)) == Some(
                bucket_after(old(self).bucket((adapter@, family, dir, minute)), bytes),
            ),
            forall|k: (Seq<char>, Family, Dir, i64)|
                k != (adapter@, family, dir, minute) ==> #[trigger] final(self).bucket(k) == old(
                    self,
                ).bucket(k),
            final(self).app_buckets() == old(self).app_buckets(),
    {
        proof {
            use_type_invariant(&*self);
        }
        let mut live: VecMap<BucketKey, BucketAgg> = VecMap::new();
        std::mem::swap(&mut live, &mut self.live);
        let ghost before = live;
        record_bucket(&mut live, adapter, family, dir, minute, bytes);
        proof {
            assert forall|i: int| 0 <= i < live.entries@.len() implies minute_storable(
                (#[trigger] live.entries@[i]).0.minute,
            ) by {
                let k = live.entries@[i].0@;
                live.lemma_get_at(i);
                if k != (adapter@, family, dir, minute) {
                    assert(before.get(k) == live.get(k));
                    let j = before.index_of(k);
                    before.lemma_get_at(j);
                }
            }
        }
        self.live = live;
    }

    fn record_app_at(&mut self, hour: String, app: &str, family: Family, rx: u64, tx: u64)
        ensures
            rx == 0 && tx == 0 ==> final(self).app_buckets() == old(self).app_buckets(),
            !(rx == 0 && tx == 0) ==> final(self).app_bucket((hour@, app@, family)) == Some(
                app_after(old(self).app_bucket((hour@, app@, family)), rx, tx),
            ),
            forall|k: (Seq<char>, Seq<char>, Family)|
                k != (hour@, app@, family) ==> #[trigger] final(self).app_bucket(k) == old(
                    self,
                ).app_bucket(k),
            forall|k: (Seq<char>, Family, Dir, i64)| #[trigger] final(self).bucket(k) == old(self).bucket(k),
    {
        proof {
            use_type_invariant(&*self);
        }
        let mut app_live: VecMap<AppHourKey, AppAgg> = VecMap::new();
        std::mem::swap(&mut app_live, &mut self.app_live);
        record_app_bucket(&mut app_live, hour, app, family, rx, tx);
        self.app_live = app_live;
    }

    /// Takes the minute buckets out, leaving none; the app buckets stay.
    fn drain_minutes(&mut self) -> (r: VecMap<BucketKey, BucketAgg>)
        ensures
            r.entries@ == old(self).minute_entries(),
            forall|k: (Seq<char>, Family, Dir, i64)| #[trigger] final(self).bucket(k) is None,
            final(self).app_buckets() == old(self).app_buckets(),
            forall|i: int|
                0 <= i < r.entries@.len() ==> minute_storable((#[trigger] r.entries@[i]).0.minute),
    {
        proof {
            use_type_invariant(&*self);
        }
        let mut live: VecMap<BucketKey, BucketAgg> = VecMap::new();
        std::mem::swap(&mut live, &mut self.live);
        live
    }

    /// Takes the app buckets out, leaving none; the minute buckets stay.
    fn drain_apps(&mut self) -> (r: VecMap<AppHourKey, AppAgg>)
        ensures
            r.entries@ == old(self).app_buckets(),
            forall|k: (Seq<char>, Family, Dir, i64)| #[trigger] final(self).bucket(k) == old(self).bucket(k),
            final(self).app_buckets().len() == 0,
    {
        proof {
            use_type_invariant(&*self);
        }
        let mut app_live: VecMap<AppHourKey, AppAgg> = VecMap::new();
        std::mem::swap(&mut app_live, &mut self.app_live);
        app_live
    }

    /// The bucket entries have distinct keys, hold exactly the buckets, and
    /// nothing else.
    proof fn lemma_entries(&self)
        requires
            self.inv(),
        ensures
            forall|i: int, j: int|
                0 <= i < j < self.minute_entries().len() ==> (#[trigger] self.minute_entries()[i]).0@
                    != (#[trigger] self.minute_entries()[j]).0@,
            forall|i: int|
                0 <= i < self.minute_entries().len() ==> self.bucket(
                    (#[trigger] self.minute_entries()[i]).0@,
                ) == Some(self.minute_entries()[i].1),
            forall|k: (Seq<char>, Family, Dir, i64)|
                #[trigger] self.bucket(k) is Some ==> exists|i: int|
                    0 <= i < self.minute_entries().len() && self.minute_entries()[i].0@ == k,
            forall|i: int, j: int|
                0 <= i < j < self.app_buckets().len() ==> (#[trigger] self.app_buckets()[i]).0@
                    != (#[trigger] self.app_buckets()[j]).0@,
            forall|i: int|
                0 <= i < self.app_buckets().len() ==> self.app_bucket(
                    (#[trigger] self.app_buckets()[i]).0@,
                ) == Some(self.app_buckets()[i].1),
            forall|k: (Seq<char>, Seq<char>, Family)|
                #[trigger] self.app_bucket(k) is Some ==> exists|i: int|
                    0 <= i < self.app_buckets().len() && self.app_buckets()[i].0@ == k,
    {
        assert forall|i: int| 0 <= i < self.minute_entries().len() implies self.bucket(
            (#[trigger] self.minute_entries()[i]).0@,
        ) == Some(self.minute_entries()[i].1) by {
            self.live.lemma_get_at(i);
        }
        assert forall|i: int| 0 <= i < self.app_buckets().len() implies self.app_bucket(
            (#[trigger] self.app_buckets()[i]).0@,
        ) == Some(self.app_buckets()[i].1) by {
            self.app_live.lemma_get_at(i);
        }
        assert forall|k: (Seq<char>, Family, Dir, i64)| #[trigger] self.bucket(k) is Some implies exists|i: int|
            0 <= i < self.minute_entries().len() && self.minute_entries()[i].0@ == k by {
            let i = self.live.index_of(k);
            assert(self.minute_entries()[i].0@ == k);
        }
        assert forall|k: (Seq<char>, Seq<char>, Family)| #[trigger] self.app_bucket(k) is Some implies exists|i: int|
            0 <= i < self.app_buckets().len() && self.app_buckets()[i].0@ == k by {
            let i = self.app_live.index_of(k);
            assert(self.app_buckets()[i].0@ == k);
        }
    }

    fn merged_app_days(&self, db: &Vec<AppDayRow>) -> (r: Vec<AppDayRow>)
        ensures
            day_rows_shown(r@, db@, self.app_buckets()),
    {
        proof {
            use_type_invariant(self);
        }
        merge_app_days(db, &self.app_live)
    }

    fn merged_app_range(&self, db: &Vec<AppUsageRow>, since: &String, until: &String) -> (r: Vec<AppUsageRow>)
        ensures
            usage_rows_shown(r@, db@, self.app_buckets(), since@, until@),
    {
        proof {
            use_type_invariant(self);
        }
        merge_app_range(db, &self.app_live, since, until)
    }
}

/// The persistent store: a SQLite connection, the live buckets not yet
/// flushed, and (for the proofs only) the statements it has run.
pub struct HistoryStore {
    conn: rusqlite::Connection,
    live: LiveBuckets,
    log: Ghost<Seq<Stmt>>,
}

/// `after` keeps `before`'s connection and has run no statement since.
pub open spec fn same_database(before: HistoryStore, after: HistoryStore) -> bool {
    after.db() == before.db() && after.statements() == before.statements()
}

/// `after` is `before` with one packet of `bytes` bytes added to the bucket
/// of (adapter, family, dir, minute); the app buckets are untouched.
pub open spec fn bucket_recorded(
    before: HistoryStore,
    after: HistoryStore,
    adapter: Seq<char>,
    family: Family,
    dir: Dir,
    minute: i64,
    bytes: u64,
) -> bool {
    &&& after.bucket((adapter, family, dir, minute)) == Some(
        bucket_after(before.bucket((adapter, family, dir, minute)), bytes),
    )
    &&& forall|k: (Seq<char>, Family, Dir, i64)|
        k != (adapter, family, dir, minute) ==> #[trigger] after.bucket(k) == before.bucket(k)
    &&& after.app_buckets() == before.app_buckets()
    &&& same_database(before, after)
}

/// `after` is `before` with `rx`/`tx` app bytes added to the bucket of
/// (hour, app, family), or unchanged when both are zero; the minute buckets
/// are untouched.
pub open spec fn app_recorded(
    before: HistoryStore,
    after: HistoryStore,
    hour: Seq<char>,
    app: Seq<char>,
    family: Family,
    rx: u64,
    tx: u64,
) -> bool {
    &&& rx == 0 && tx == 0 ==> after.app_buckets() == before.app_buckets()
    &&& !(rx == 0 && tx == 0) ==> after.app_bucket((hour, app, family)) == Some(
        app_after(before.app_bucket((hour, app, family)), rx, tx),
    )
    &&& forall|k: (Seq<char>, Seq<char>, Family)|
        k != (hour, app, family) ==> #[trigger] after.app_bucket(k) == before.app_bucket(k)
    &&& forall|k: (Seq<char>, Family, Dir, i64)| #[trigger] after.bucket(k) == before.bucket(k)
    &&& same_database(before, after)
}

impl HistoryStore {
    /// The live minute bucket of (adapter, family, dir, minute), if any.
    pub closed spec fn bucket(&self, k: (Seq<char>, Family, Dir, i64)) -> Option<BucketAgg> {
        self.live.bucket(k)
    }

    /// The live hourly app bucket of (hour, app, family), if any.
    pub closed spec fn app_bucket(&self, k: (Seq<char>, Seq<char>, Family)) -> Option<AppAgg> {
        self.live.app_bucket(k)
    }

    /// The live hourly app buckets, in the order they were first recorded.
    pub closed spec fn app_buckets(&self) -> Seq<(AppHourKey, AppAgg)> {
        self.live.app_buckets()
    }

    /// The SQLite connection the store holds.
    pub closed spec fn db(&self) -> rusqlite::Connection {
        self.conn
    }

    /// The statements the store has run with success since it was opened,
    /// in order, each with its SQL text and parameters.
    pub closed spec fn statements(&self) -> Seq<Stmt> {
        self.log@
    }

    /// The live minute buckets in the order they were first recorded.
    pub closed spec fn minute_entries(&self) -> Seq<(BucketKey, BucketAgg)> {
        self.live.minute_entries()
    }

    /// Opens (and creates, if needed) the store database at `path`; the
    /// special path `:memory:` opens an in-memory database.
    pub fn open(path: &str) -> (r: Result<Self, StoreError>)
        ensures
            r matches Ok(st) ==> forall|k: (Seq<char>, Family, Dir, i64)| #[trigger] st.bucket(k) is None,
            r matches Ok(st) ==> st.app_buckets().len() == 0,
            r matches Ok(st) ==> st.statements().len() == 0,
    {
        let memory = chars_eq_memory(path);
        let opened = if memory {
            sql::open_in_memory()
        } else {
            sql::open_file(path)
        };
        let conn = match opened {
            Ok(c) => c,
            Err(e) => return Err(StoreError::Sqlite(e)),
        };
        Self::with_connection(conn)
    }

    /// Wraps an existing connection: sets a 5 s busy timeout, WAL journaling
    /// and normal synchronisation, and creates the schema.
    pub fn with_connection(conn: rusqlite::Connection) -> (r: Result<Self, StoreError>)
        ensures
            r matches Ok(st) ==> forall|k: (Seq<char>, Family, Dir, i64)| #[trigger] st.bucket(k) is None,
            r matches Ok(st) ==> st.app_buckets().len() == 0,
            r matches Ok(st) ==> st.db() == conn,
            r matches Ok(st) ==> st.statements().len() == 0,
    {
        if let Err(e) = sql::busy_timeout(&conn, 5) {
            return Err(StoreError::Sqlite(e));
        }
        if let Err(e) = sql::pragma_update(&conn, "journal_mode", "WAL") {
            return Err(StoreError::Sqlite(e));
        }
        if let Err(e) = sql::pragma_update(&conn, "synchronous", "NORMAL") {
            return Err(StoreError::Sqlite(e));
        }
        if let Err(e) = sql::execute_batch(&conn, SCHEMA_SQL) {
            return Err(StoreError::Sqlite(e));
        }
        Ok(HistoryStore { conn, live: LiveBuckets::new(), log: Ghost(Seq::empty()) })
    }

    /// The underlying connection.
    pub fn connection(&self) -> (r: &rusqlite::Connection)
        ensures
            *r == self.db(),
    {
        &self.conn
    }

    /// Records one packet of `bytes` bytes into the live bucket of minute `minute`.
    pub fn record_at(&mut self, adapter: &str, family: Family, dir: Dir, bytes: u64, minute: i64)
        requires
            minute_storable(minute),
        ensures
            final(self).bucket((adapter@, family, dir, minute)) == Some(
                bucket_after(old(self).bucket((adapter@, family, dir, minute)), bytes),
            ),
            forall|k: (Seq<char>, Family, Dir, i64)|
                k != (adapter@, family, dir, minute) ==> #[trigger] final(self).bucket(k) == old(
                    self,
                ).bucket(k),
            final(self).app_buckets() == old(self).app_buckets(),
            same_database(*old(self), *final(self)),
    {
        self.live.record_at(adapter, family, dir, bytes, minute);
    }

    /// Records one packet of `bytes` bytes into the live bucket of the current minute.
    pub fn record(&mut self, adapter: &str, family: Family, dir: Dir, bytes: u64)
        ensures
            exists|minute: i64| #[trigger]
                bucket_recorded(*old(self), *final(self), adapter@, family, dir, minute, bytes),
            final(self).app_buckets() == old(self).app_buckets(),
    {
        let minute = now_minute();
        self.record_at(adapter, family, dir, bytes, minute);
        assert(bucket_recorded(*old(self), *self, adapter@, family, dir, minute, bytes));
    }

    /// Adds per-second app totals to the live bucket of hour label `hour`;
    /// nothing happens when both are zero.
    pub fn record_app_totals_at(&mut self, hour: String, app: &str, family: Family, rx: u64, tx: u64)
        ensures
            rx == 0 && tx == 0 ==> final(self).app_buckets() == old(self).app_buckets(),
            !(rx == 0 && tx == 0) ==> final(self).app_bucket((hour@, app@, family)) == Some(
                app_after(old(self).app_bucket((hour@, app@, family)), rx, tx),
            ),
            forall|k: (Seq<char>, Seq<char>, Family)|
                k != (hour@, app@, family) ==> #[trigger] final(self).app_bucket(k) == old(
                    self,
                ).app_bucket(k),
            forall|k: (Seq<char>, Family, Dir, i64)| #[trigger] final(self).bucket(k) == old(self).bucket(k),
            same_database(*old(self), *final(self)),
    {
        self.live.record_app_at(hour, app, family, rx, tx);
    }

    /// Adds per-second app totals to the live bucket of the current local hour;
    /// nothing happens when both are zero.
    pub fn record_app_totals(&mut self, app: &str, family: Family, rx: u64, tx: u64)
        ensures
            rx == 0 && tx == 0 ==> final(self).app_buckets() == old(self).app_buckets(),
            exists|hour: Seq<char>| #[trigger]
                app_recorded(*old(self), *final(self), hour, app@, family, rx, tx),
            forall|k: (Seq<char>, Family, Dir, i64)| #[trigger] final(self).bucket(k) == old(self).bucket(k),
    {
        if rx == 0 && tx == 0 {
            assert(app_recorded(*old(self), *self, Seq::empty(), app@, family, rx, tx));
            return ;
        }
        let hour = local_now_label("%Y-%m-%d %H:00");
        let ghost h = hour@;
        self.record_app_totals_at(hour, app, family, rx, tx);
        assert(app_recorded(*old(self), *self, h, app@, family, rx, tx));
    }

    /// Records one packet of an app: `bytes` count as received or sent by `dir`.
    pub fn record_app(&mut self, app: &str, family: Family, dir: Dir, bytes: u64)
        ensures
            dir == Dir::Rx ==> exists|hour: Seq<char>| #[trigger]
                app_recorded(*old(self), *final(self), hour, app@, family, bytes, 0),
            dir == Dir::Tx ==> exists|hour: Seq<char>| #[trigger]
                app_recorded(*old(self), *final(self), hour, app@, family, 0, bytes),
            bytes == 0 ==> final(self).app_buckets() == old(self).app_buckets(),
            forall|k: (Seq<char>, Family, Dir, i64)| #[trigger] final(self).bucket(k) == old(self).bucket(k),
    {
        let (rx, tx) = if dir == Dir::Rx {
            (bytes, 0)
        } else {
            (0, bytes)
        };
        self.record_app_totals(app, family, rx, tx);
    }

    /// Drains the live buckets into the database and refreshes the rollups and
    /// retention, with the statement parameters of `flush_plan` for the
    /// current time. The minute buckets are written (and empty afterwards,
    /// whatever the outcome) first; the app buckets are taken out only once
    /// the minute rows and the day/month rollups are committed, so on an
    /// earlier failure they stay for the next flush. On success the store has
    /// run exactly the statements of `flush_logged`: one upsert per live
    /// bucket (each key once), then the rollups and prunes of the plan.
    pub fn flush(&mut self) -> (r: Result<(), StoreError>)
        ensures
            forall|k: (Seq<char>, Family, Dir, i64)| #[trigger] final(self).bucket(k) is None,
            r is Ok ==> final(self).app_buckets().len() == 0,
            final(self).app_buckets().len() == 0 || final(self).app_buckets() == old(self).app_buckets(),
            final(self).statements().len() >= old(self).statements().len(),
            final(self).statements().subrange(0, old(self).statements().len() as int) == old(
                self,
            ).statements(),
            r is Ok ==> exists|p: FlushPlan, now: i64, d: Seq<char>, t: Seq<char>, h: Seq<char>|
                #![trigger is_flush_plan(p, now, d, t, h)]
                is_flush_plan(p, now, d, t, h) && flush_logged(
                    final(self).statements().subrange(
                        old(self).statements().len() as int,
                        final(self).statements().len() as int,
                    ),
                    old(self).minute_entries(),
                    old(self).app_buckets(),
                    p,
                ),
            forall|i: int, j: int|
                0 <= i < j < old(self).minute_entries().len() ==> (#[trigger] old(self).minute_entries()[i]).0@
                    != (#[trigger] old(self).minute_entries()[j]).0@,
            forall|i: int|
                0 <= i < old(self).minute_entries().len() ==> old(self).bucket(
                    (#[trigger] old(self).minute_entries()[i]).0@,
                ) == Some(old(self).minute_entries()[i].1),
            forall|k: (Seq<char>, Family, Dir, i64)|
                #[trigger] old(self).bucket(k) is Some ==> exists|i: int|
                    0 <= i < old(self).minute_entries().len() && old(self).minute_entries()[i].0@ == k,
            forall|i: int, j: int|
                0 <= i < j < old(self).app_buckets().len() ==> (#[trigger] old(self).app_buckets()[i]).0@
                    != (#[trigger] old(self).app_buckets()[j]).0@,
            forall|i: int|
                0 <= i < old(self).app_buckets().len() ==> old(self).app_bucket(
                    (#[trigger] old(self).app_buckets()[i]).0@,
                ) == Some(old(self).app_buckets()[i].1),
            forall|k: (Seq<char>, Seq<char>, Family)|
                #[trigger] old(self).app_bucket(k) is Some ==> exists|i: int|
                    0 <= i < old(self).app_buckets().len() && old(self).app_buckets()[i].0@ == k,
    {
        proof {
            use_type_invariant(&self.live);
            self.live.lemma_entries();
        }
        let ghost log0 = self.log@;
        let now = now_secs();
        let day_start = local_label_of(now.wrapping_sub(2 * 86400), "%Y-%m-%d 00:00");
        let today = local_now_label("%Y-%m-%d");
        let hour_cutoff = local_label_of(now.wrapping_sub(RETENTION_APP_HOUR_DAYS * 86400), "%Y-%m-%d 00:00");
        let ghost (d, t, h) = (day_start@, today@, hour_cutoff@);
        let plan = flush_plan(now, day_start, today, hour_cutoff);
        let drained = self.live.drain_minutes();
        if let Err(e) = Self::write_minutes(&mut self.conn, &drained, &plan, &mut self.log) {
            return Err(e);
        }
        let ghost log1 = self.log@;
        let drained_apps = self.live.drain_apps();
        let r = Self::write_apps(&mut self.conn, &drained_apps, &plan, &mut self.log);
        proof {
            let m = drained.entries@.len() as int;
            let a = drained_apps.entries@.len() as int;
            let l0 = log0.len() as int;
            let l1 = log1.len() as int;
            assert(self.log@.subrange(0, l0) =~= log0) by {
                assert forall|x: int| 0 <= x < l0 implies self.log@[x] == log0[x] by {
                    assert(self.log@[x] == self.log@.subrange(0, l1)[x]);
                    assert(log1[x] == log1.subrange(0, l0)[x]);
                }
            }
            if r is Ok {
                let part = self.log@.subrange(l0, self.log@.len() as int);
                assert(part.subrange(0, m) =~= log1.subrange(l0, l0 + m));
                assert(part.subrange(m + 3, m + 3 + a) =~= self.log@.subrange(l1, l1 + a));
                assert(part[m] == log1[l0 + m]);
                assert(part[m + 1] == log1[l0 + m + 1]);
                assert(part[m + 2] == log1[l0 + m + 2]);
                assert(part[m + 3 + a] == self.log@[l1 + a]);
                assert(part[m + 4 + a] == self.log@[l1 + a + 1]);
                assert(part[m + 5 + a] == self.log@[l1 + a + 2]);
                assert(flush_logged(part, old(self).minute_entries(), old(self).app_buckets(), plan));
                assert(is_flush_plan(plan, now, d, t, h));
            }
        }
        r
    }

    /// Upserts the drained minute buckets, then recomputes the day and month
    /// rollups and prunes old minute rows, each part in one transaction.
    fn write_minutes(
        conn: &mut rusqlite::Connection,
        drained: &VecMap<BucketKey, BucketAgg>,
        plan: &FlushPlan,
        log: &mut Ghost<Seq<Stmt>>,
    ) -> (r: Result<(), StoreError>)
        requires
            forall|i: int|
                0 <= i < drained.entries@.len() ==> minute_storable(
                    (#[trigger] drained.entries@[i]).0.minute,
                ),
        ensures
            final(log)@.len() >= old(log)@.len(),
            final(log)@.subrange(0, old(log)@.len() as int) == old(log)@,
            r is Ok ==> {
                let l0 = old(log)@.len() as int;
                let m = drained.entries@.len() as int;
                &&& final(log)@.len() == l0 + m + 3
                &&& minutes_logged(final(log)@.subrange(l0, l0 + m), drained.entries@)
                &&& final(log)@[l0 + m] == (ROLLUP_DAY_SQL@, plan.rollup_day@)
                &&& final(log)@[l0 + m + 1] == (ROLLUP_MONTH_SQL@, plan.rollup_month@)
                &&& final(log)@[l0 + m + 2] == (PRUNE_MINUTE_SQL@, plan.prune_minute@)
            },
    {
        let ghost start = log@;
        let ghost l0 = start.len() as int;
        let n = drained.len();
        if n > 0 {
            let tx = match sql::begin(conn) {
                Ok(v) => v,
                Err(e) => {
                    assert(log@.subrange(0, l0) =~= start);
                    return Err(StoreError::Sqlite(e));
                },
            };
            let mut i: usize = 0;
            while i < n
                invariant
                    n == drained.entries@.len(),
                    i <= n,
                    forall|j: int|
                        0 <= j < drained.entries@.len() ==> minute_storable(
                            (#[trigger] drained.entries@[j]).0.minute,
                        ),
                    log@.len() == l0 + i,
                    log@.subrange(0, l0) == start,
                    l0 == start.len(),
                    start == old(log)@,
                    forall|j: int|
                        0 <= j < i ==> (#[trigger] log@[l0 + j]).0 == UPSERT_MINUTE_SQL@ && minute_params_are(
                            log@[l0 + j].1,
                            drained.entries@[j].0,
                            drained.entries@[j].1,
                        ),
                decreases n - i,
            {
                let p = minute_params(&drained.entries[i].0, drained.entries[i].1);
                let ghost before = log@;
                if let Err(e) = execute_logged(&tx, UPSERT_MINUTE_SQL, &p, log) {
                    return Err(e);
                }
                proof {
                    assert(log@.subrange(0, l0) =~= before.subrange(0, l0));
                    assert forall|j: int| 0 <= j < i + 1 implies (#[trigger] log@[l0 + j]).0 == UPSERT_MINUTE_SQL@
                        && minute_params_are(log@[l0 + j].1, drained.entries@[j].0, drained.entries@[j].1) by {
                        if j < i {
                            assert(log@[l0 + j] == before[l0 + j]);
                        }
                    }
                }
                i = i + 1;
            }
            if let Err(e) = sql::commit(tx) {
                return Err(StoreError::Sqlite(e));
            }
        }
        let ghost mid = log@;
        assert(mid.subrange(l0, l0 + n) =~= mid.subrange(l0, l0 + n));
        assert(minutes_logged(mid.subrange(l0, l0 + n), drained.entries@)) by {
            assert forall|j: int| 0 <= j < n implies (#[trigger] mid.subrange(l0, l0 + n)[j]).0 == UPSERT_MINUTE_SQL@
                && minute_params_are(mid.subrange(l0, l0 + n)[j].1, drained.entries@[j].0, drained.entries@[j].1) by {
                assert(mid.subrange(l0, l0 + n)[j] == mid[l0 + j]);
            }
        }
        assert(mid.subrange(0, l0) =~= start);
        let tx = match sql::begin(conn) {
            Ok(v) => v,
            Err(e) => return Err(StoreError::Sqlite(e)),
        };
        if let Err(e) = execute_logged(&tx, ROLLUP_DAY_SQL, &plan.rollup_day, log) {
            assert(log@.subrange(0, l0) =~= mid.subrange(0, l0));
            return Err(e);
        }
        let ghost m1 = log@;
        if let Err(e) = execute_logged(&tx, ROLLUP_MONTH_SQL, &plan.rollup_month, log) {
            assert(log@.subrange(0, l0) =~= mid.subrange(0, l0));
            return Err(e);
        }
        let ghost m2 = log@;
        if let Err(e) = execute_logged(&tx, PRUNE_MINUTE_SQL, &plan.prune_minute, log) {
            assert(log@.subrange(0, l0) =~= mid.subrange(0, l0));
            return Err(e);
        }
        proof {
            assert(log@.subrange(0, l0) =~= mid.subrange(0, l0));
            assert(log@.subrange(l0, l0 + n) =~= mid.subrange(l0, l0 + n));
            assert(log@[l0 + n] == m1[l0 + n]);
            assert(log@[l0 + n + 1] == m2[l0 + n + 1]);
        }
        if let Err(e) = sql::commit(tx) {
            return Err(StoreError::Sqlite(e));
        }
        Ok(())
    }

    /// Upserts the drained hourly app buckets, then recomputes the app day
    /// rollup and prunes, each part in one transaction.
    fn write_apps(
        conn: &mut rusqlite::Connection,
        drained_apps: &VecMap<AppHourKey, AppAgg>,
        plan: &FlushPlan,
        log: &mut Ghost<Seq<Stmt>>,
    ) -> (r: Result<(), StoreError>)
        ensures
            final(log)@.len() >= old(log)@.len(),
            final(log)@.subrange(0, old(log)@.len() as int) == old(log)@,
            r is Ok ==> {
                let l0 = old(log)@.len() as int;
                let a = drained_apps.entries@.len() as int;
                &&& final(log)@.len() == l0 + a + 3
                &&& apps_logged(final(log)@.subrange(l0, l0 + a), drained_apps.entries@)
                &&& final(log)@[l0 + a] == (ROLLUP_APP_DAY_SQL@, plan.rollup_app_day@)
                &&& final(log)@[l0 + a + 1] == (PRUNE_APP_DAY_SQL@, plan.prune_app_day@)
                &&& final(log)@[l0 + a + 2] == (PRUNE_APP_HOUR_SQL@, plan.prune_app_hour@)
            },
    {
        let ghost start = log@;
        let ghost l0 = start.len() as int;
        let m = drained_apps.len();
        if m > 0 {
            let tx = match sql::begin(conn) {
                Ok(v) => v,
                Err(e) => {
                    assert(log@.subrange(0, l0) =~= start);
                    return Err(StoreError::Sqlite(e));
                },
            };
            let mut i: usize = 0;
            while i < m
                invariant
                    m == drained_apps.entries@.len(),
                    i <= m,
                    log@.len() == l0 + i,
                    log@.subrange(0, l0) == start,
                    l0 == start.len(),
                    start == old(log)@,
                    forall|j: int|
                        0 <= j < i ==> (#[trigger] log@[l0 + j]).0 == UPSERT_APP_HOUR_SQL@ && app_hour_params_are(
                            log@[l0 + j].1,
                            drained_apps.entries@[j].0,
                            drained_apps.entries@[j].1,
                        ),
                decreases m - i,
            {
                let p = app_hour_params(&drained_apps.entries[i].0, drained_apps.entries[i].1);
                let ghost before = log@;
                if let Err(e) = execute_logged(&tx, UPSERT_APP_HOUR_SQL, &p, log) {
                    return Err(e);
                }
                proof {
                    assert(log@.subrange(0, l0) =~= before.subrange(0, l0));
                    assert forall|j: int| 0 <= j < i + 1 implies (#[trigger] log@[l0 + j]).0 == UPSERT_APP_HOUR_SQL@
                        && app_hour_params_are(log@[l0 + j].1, drained_apps.entries@[j].0, drained_apps.entries@[j].1) by {
                        if j < i {
                            assert(log@[l0 + j] == before[l0 + j]);
                        }
                    }
                }
                i = i + 1;
            }
            if let Err(e) = sql::commit(tx) {
                return Err(StoreError::Sqlite(e));
            }
        }
        let ghost mid = log@;
        assert(apps_logged(mid.subrange(l0, l0 + m), drained_apps.entries@)) by {
            assert forall|j: int| 0 <= j < m implies (#[trigger] mid.subrange(l0, l0 + m)[j]).0 == UPSERT_APP_HOUR_SQL@
                && app_hour_params_are(mid.subrange(l0, l0 + m)[j].1, drained_apps.entries@[j].0, drained_apps.entries@[j].1) by {
                assert(mid.subrange(l0, l0 + m)[j] == mid[l0 + j]);
            }
        }
        assert(mid.subrange(0, l0) =~= start);
        let tx = match sql::begin(conn) {
            Ok(v) => v,
            Err(e) => return Err(StoreError::Sqlite(e)),
        };
        if let Err(e) = execute_logged(&tx, ROLLUP_APP_DAY_SQL, &plan.rollup_app_day, log) {
            assert(log@.subrange(0, l0) =~= mid.subrange(0, l0));
            return Err(e);
        }
        let ghost m1 = log@;
        if let Err(e) = execute_logged(&tx, PRUNE_APP_DAY_SQL, &plan.prune_app_day, log) {
            assert(log@.subrange(0, l0) =~= mid.subrange(0, l0));
            return Err(e);
        }
        let ghost m2 = log@;
        if let Err(e) = execute_logged(&tx, PRUNE_APP_HOUR_SQL, &plan.prune_app_hour, log) {
            assert(log@.subrange(0, l0) =~= mid.subrange(0, l0));
            return Err(e);
        }
        proof {
            assert(log@.subrange(0, l0) =~= mid.subrange(0, l0));
            assert(log@.subrange(l0, l0 + m) =~= mid.subrange(l0, l0 + m));
            assert(log@[l0 + m] == m1[l0 + m]);
            assert(log@[l0 + m + 1] == m2[l0 + m + 1]);
        }
        if let Err(e) = sql::commit(tx) {
            return Err(StoreError::Sqlite(e));
        }
        Ok(())
    }

    /// A fixed-window history query, pivoted into buckets ready for charting.
    pub fn query(&self, granularity: Granularity, adapter: Option<&str>) -> (r: Result<
        Vec<HistBucket>,
        StoreError,
    >)
        ensures
            r matches Ok(v) ==> exists|rows: Seq<PivotRow>| #[trigger] buckets_of(v@, rows),
    {
        let params = history_params(granularity, now_secs(), adapter);
        let rows = match sql::query_pivot(&self.conn, history_sql(granularity), &params) {
            Ok(v) => v,
            Err(e) => return Err(StoreError::Sqlite(e)),
        };
        let v = buckets_from_rows(&rows);
        let out: Result<Vec<HistBucket>, StoreError> = Ok(v);
        assert(out matches Ok(w) ==> buckets_of(w@, rows@));
        out
    }

    /// All adapters known to the history database: name and optional description.
    pub fn known_adapters(&self) -> Result<Vec<(String, Option<String>)>, StoreError> {
        sql(sql::query_name_desc(&self.conn, ADAPTERS_SQL))
    }

    /// Per-app daily history: the stored rows merged with the live buckets,
    /// filtered by the daily threshold, most recent day first.
    pub fn query_app_days(&self) -> (r: Result<Vec<AppDayRow>, StoreError>)
        ensures
            r matches Ok(v) ==> exists|raw: Seq<AppDayRaw>, db: Seq<AppDayRow>|
                #[trigger] day_rows_read(db, raw) && day_rows_shown(v@, db, self.app_buckets()),
    {
        let raw = match sql::query_app_days_raw(&self.conn, APP_DAYS_SQL) {
            Ok(v) => v,
            Err(e) => return Err(StoreError::Sqlite(e)),
        };
        let db = app_day_rows(&raw);
        let rows = self.live.merged_app_days(&db);
        let out: Result<Vec<AppDayRow>, StoreError> = Ok(rows);
        assert(out matches Ok(w) ==> day_rows_read(db@, raw@) && day_rows_shown(w@, db@, self.app_buckets()));
        out
    }

    /// The traffic series of an arbitrary range: hourly buckets from the
    /// minute table when the range spans at most two days and starts within
    /// the minute retention window, else daily buckets from the day table.
    pub fn query_range(&self, since_ts: i64, until_ts: i64, adapter: Option<&str>) -> (r: Result<
        RangeSeries,
        StoreError,
    >)
        ensures
            r matches Ok(s) ==> exists|now: i64| #[trigger] range_granularity_is(s.granularity@, since_ts, until_ts, now),
            r matches Ok(s) ==> exists|rows: Seq<PivotRow>| #[trigger] buckets_of(s.buckets@, rows),
    {
        let now = now_secs();
        let since_label = local_label_of(since_ts, "%Y-%m-%d");
        let until_label = local_label_of(until_ts, "%Y-%m-%d");
        let (hourly, params) = range_params(since_ts, until_ts, now, adapter, since_label, until_label);
        let stmt = if hourly {
            RANGE_HOURLY_SQL
        } else {
            RANGE_DAILY_SQL
        };
        let rows = match sql::query_pivot(&self.conn, stmt, &params) {
            Ok(v) => v,
            Err(e) => return Err(StoreError::Sqlite(e)),
        };
        let granularity = if hourly {
            proof {
                reveal_strlit("hour");
            }
            let g = "hour".to_owned();
            assert(g@ =~= seq!['h', 'o', 'u', 'r']);
            g
        } else {
            proof {
                reveal_strlit("day");
            }
            let g = "day".to_owned();
            assert(g@ =~= seq!['d', 'a', 'y']);
            g
        };
        let buckets = buckets_from_rows(&rows);
        let out: Result<RangeSeries, StoreError> = Ok(RangeSeries { granularity, buckets });
        assert(out matches Ok(w) ==> buckets_of(w.buckets@, rows@));
        assert(out matches Ok(w) ==> range_granularity_is(w.granularity@, since_ts, until_ts, now));
        out
    }

    /// Per-app traffic between two local hour labels: the stored hourly rows
    /// with `since_label <= hour <= until_label` merged with the live buckets
    /// in that range, larger totals first; an empty `until_label` sets no
    /// upper bound.
    pub fn app_range_between(&self, since_label: &String, until_label: &String) -> (r: Result<
        Vec<AppUsageRow>,
        StoreError,
    >)
        ensures
            r matches Ok(v) ==> exists|raw: Seq<AppUsageRaw>, db: Seq<AppUsageRow>|
                #[trigger] usage_rows_read(db, raw) && usage_rows_shown(
                    v@,
                    db,
                    self.app_buckets(),
                    since_label@,
                    until_label@,
                ),
    {
        let raw = match sql::query_app_usage_raw(&self.conn, APP_RANGE_SQL, since_label.as_str(), until_label.as_str()) {
            Ok(v) => v,
            Err(e) => return Err(StoreError::Sqlite(e)),
        };
        let db = app_usage_rows(&raw);
        let rows = self.live.merged_app_range(&db, since_label, until_label);
        let out: Result<Vec<AppUsageRow>, StoreError> = Ok(rows);
        assert(out matches Ok(w) ==> usage_rows_read(db@, raw@) && usage_rows_shown(
            w@,
            db@,
            self.app_buckets(),
            since_label@,
            until_label@,
        ));
        out
    }

    /// Per-app traffic of an arbitrary range: `app_range_between` the local
    /// hour labels of `since_ts` and `until_ts` (an end time with no local
    /// time sets no upper bound).
    pub fn query_app_range(&self, since_ts: i64, until_ts: i64) -> (r: Result<
        Vec<AppUsageRow>,
        StoreError,
    >)
        ensures
            r matches Ok(v) ==> exists|raw: Seq<AppUsageRaw>, db: Seq<AppUsageRow>, since: Seq<char>, until: Seq<char>|
                #[trigger] usage_rows_read(db, raw) && #[trigger] usage_rows_shown(v@, db, self.app_buckets(), since, until),
    {
        let since_label = local_label_of(since_ts, "%Y-%m-%d %H:00");
        let until_label = local_label_of(until_ts, "%Y-%m-%d %H:00");
        let r = self.app_range_between(&since_label, &until_label);
        proof {
            if r is Ok {
                let v = r->Ok_0;
                let (raw, db) = choose|raw: Seq<AppUsageRaw>, db: Seq<AppUsageRow>|
                    #[trigger] usage_rows_read(db, raw) && usage_rows_shown(
                        v@,
                        db,
                        self.app_buckets(),
                        since_label@,
                        until_label@,
                    );
                assert(usage_rows_read(db, raw) && usage_rows_shown(v@, db, self.app_buckets(), since_label@, until_label@));
            }
        }
        r
    }
}

/// Whether a path is the special in-memory database name `:memory:`.
fn chars_eq_memory(path: &str) -> (r: bool)
    ensures
        r == (path@ == seq![':', 'm', 'e', 'm', 'o', 'r', 'y', ':']),
{
    let v = crate::text::chars_of(path);
    let lit = crate::text::chars_of(":memory:");
    proof {
        reveal_strlit(":memory:");
        assert(lit@ =~= seq![':', 'm', 'e', 'm', 'o', 'r', 'y', ':']);
    }
    let r = crate::text::vec_eq(&v, &lit);
    r
}

/// Records packet bytes into the store, if there is one; nothing happens before the store exists.
pub fn record(store: &mut Option<HistoryStore>, adapter: &str, family: Family, dir: Dir, bytes: u64)
    ensures
        (*old(store)) is None ==> (*final(store)) is None,
        (*old(store)) is Some ==> (*final(store)) is Some && exists|minute: i64| #[trigger]
            bucket_recorded((*old(store)).unwrap(), (*final(store)).unwrap(), adapter@, family, dir, minute, bytes),
{
    if let Some(mut st) = store.take() {
        let ghost before = st;
        st.record(adapter, family, dir, bytes);
        let ghost m = choose|m: i64| #[trigger]
            bucket_recorded(before, st, adapter@, family, dir, m, bytes);
        *store = Some(st);
        assert(bucket_recorded((*old(store)).unwrap(), (*store).unwrap(), adapter@, family, dir, m, bytes));
    }
}

/// Records per-second app totals into the store, if there is one.
pub fn record_app_totals(store: &mut Option<HistoryStore>, app: &str, family: Family, rx: u64, tx: u64)
    ensures
        (*old(store)) is None ==> (*final(store)) is None,
        (*old(store)) is Some ==> (*final(store)) is Some && exists|hour: Seq<char>| #[trigger]
            app_recorded((*old(store)).unwrap(), (*final(store)).unwrap(), hour, app@, family, rx, tx),
{
    if let Some(mut st) = store.take() {
        let ghost before = st;
        st.record_app_totals(app, family, rx, tx);
        let ghost h = choose|h: Seq<char>| #[trigger]
            app_recorded(before, st, h, app@, family, rx, tx);
        *store = Some(st);
        assert(app_recorded((*old(store)).unwrap(), (*store).unwrap(), h, app@, family, rx, tx));
    }
}

/// A fixed-window history query: the store's `query` result; empty without
/// a store or when the query fails.
pub fn query(store: &Option<HistoryStore>, granularity: Granularity, adapter: Option<&str>) -> (r: Vec<HistBucket>)
    ensures
        store is None ==> r@.len() == 0,
        exists|rows: Seq<PivotRow>| #[trigger] buckets_of(r@, rows),
{
    let out = match store {
        Some(st) => match st.query(granularity, adapter) {
            Ok(v) => v,
            Err(_) => Vec::new(),
        },
        None => Vec::new(),
    };
    assert(out@.len() == 0 ==> buckets_of(out@, Seq::<PivotRow>::empty()));
    out
}

/// Per-app daily history: the store's `query_app_days` result; empty without
/// a store or when the query fails.
pub fn query_app_days(store: &Option<HistoryStore>) -> (r: Vec<AppDayRow>)
    ensures
        store is None ==> r@.len() == 0,
        store matches Some(st) ==> r@.len() == 0 || exists|raw: Seq<AppDayRaw>, db: Seq<AppDayRow>|
            #[trigger] day_rows_read(db, raw) && day_rows_shown(r@, db, st.app_buckets()),
{
    match store {
        Some(st) => match st.query_app_days() {
            Ok(v) => v,
            Err(_) => Vec::new(),
        },
        None => Vec::new(),
    }
}

/// The traffic series of an arbitrary range: the store's `query_range`
/// result; `None` without a store or when the query fails.
pub fn query_range(store: &Option<HistoryStore>, since_ts: i64, until_ts: i64, adapter: Option<&str>) -> (r: Option<RangeSeries>)
    ensures
        store is None ==> r is None,
        r matches Some(s) ==> exists|now: i64| #[trigger] range_granularity_is(s.granularity@, since_ts, until_ts, now),
        r matches Some(s) ==> exists|rows: Seq<PivotRow>| #[trigger] buckets_of(s.buckets@, rows),
{
    match store {
        Some(st) => match st.query_range(since_ts, until_ts, adapter) {
            Ok(v) => {
                let ghost n = choose|n: i64| #[trigger] range_granularity_is(v.granularity@, since_ts, until_ts, n);
                let out = Some(v);
                assert(out matches Some(w) ==> range_granularity_is(w.granularity@, since_ts, until_ts, n));
                out
            },
            Err(_) => None,
        },
        None => None,
    }
}

/// Per-app traffic of an arbitrary range: the store's `query_app_range`
/// result; empty without a store or when the query fails.
pub fn query_app_range(store: &Option<HistoryStore>, since_ts: i64, until_ts: i64) -> (r: Vec<AppUsageRow>)
    ensures
        store is None ==> r@.len() == 0,
        store matches Some(st) ==> r@.len() == 0 || exists|
            raw: Seq<AppUsageRaw>,
            db: Seq<AppUsageRow>,
            since: Seq<char>,
            until: Seq<char>,
        | #[trigger] usage_rows_read(db, raw) && #[trigger] usage_rows_shown(r@, db, st.app_buckets(), since, until),
{
    match store {
        Some(st) => match st.query_app_range(since_ts, until_ts) {
            Ok(v) => v,
            Err(_) => Vec::new(),
        },
        None => Vec::new(),
    }
}

/// Flushes the store now, if there is one (used on exit so that the last
/// flush interval is not lost).
pub fn flush_now(store: &mut Option<HistoryStore>) -> (r: Result<(), StoreError>)
    ensures
        (*old(store)) is None ==> (*final(store)) is None && r is Ok,
        (*old(store)) is Some ==> (*final(store)) is Some,
        (*final(store)) matches Some(st) ==> forall|k: (Seq<char>, Family, Dir, i64)| #[trigger] st.bucket(k) is None,
        r is Ok ==> ((*final(store)) matches Some(st) ==> st.app_buckets().len() == 0),
        (*final(store)) matches Some(st) ==> st.app_buckets().len() == 0 || st.app_buckets() == (*old(
            store,
        )).unwrap().app_buckets(),
{
    match store {
        Some(st) => st.flush(),
        None => Ok(()),
    }
}

} // verus!
