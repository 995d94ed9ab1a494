//! Wall-clock time: seconds since the Unix epoch, and local-time labels.
//! Both depend on the machine (its clock and time zone), so nothing is
//! promised of what they return.

use vstd::prelude::*;

use chrono::TimeZone;

verus! {

/// `std::time::SystemTime::elapsed` on `UNIX_EPOCH`: the time since the epoch,
/// `None` when the system clock is set before it. Depends on the clock; no
/// claim is made about the value.
#[verifier::external_body]
fn time_since_epoch() -> Option<std::time::Duration> {
    std::time::UNIX_EPOCH.elapsed().ok()
}

/// `std::time::Duration::as_secs`: the whole seconds of a duration. Duration
/// is opaque here, so no claim is made about the value.
#[verifier::external_body]
fn whole_secs(d: &std::time::Duration) -> u64 {
    d.as_secs()
}

/// Seconds since the Unix epoch as `i64` (the `u64` count cast with `as`),
/// 0 when the clock is before the epoch.
pub fn now_secs() -> i64 {
    match time_since_epoch() {
        Some(d) => whole_secs(&d) as i64,
        None => 0,
    }
}

/// Seconds since the Unix epoch, 0 when the clock is before the epoch.
pub fn now_secs_u64() -> u64 {
    match time_since_epoch() {
        Some(d) => whole_secs(&d),
        None => 0,
    }
}

/// The current epoch minute: `now_secs() / 60`.
pub fn now_minute() -> (m: i64)
    ensures
        i64::MIN <= m * 60 <= i64::MAX,
{
    let s = now_secs();
    let m = s / 60;
    assert(i64::MIN <= m * 60 <= i64::MAX);
    m
}

/// The local-time label formats the store uses: a day (`%Y-%m-%d`), an hour
/// (`%Y-%m-%d %H:00`) and the start of a day (`%Y-%m-%d 00:00`). chrono
/// formats each of them without error.
pub open spec fn label_format(fmt: Seq<char>) -> bool {
    ||| fmt == "%Y-%m-%d"@
    ||| fmt == "%Y-%m-%d %H:00"@
    ||| fmt == "%Y-%m-%d 00:00"@
}

/// `chrono::Local::now()` formatted with `fmt`, one of the label formats
/// (chrono's `to_string` panics on a format it cannot parse, so no other is
/// admitted). Depends on the clock and the time zone; no claim is made about
/// the text.
#[verifier::external_body]
pub(crate) fn local_now_label(fmt: &str) -> String
    requires
        label_format(fmt@),
{
    chrono::Local::now().format(fmt).to_string()
}

/// `chrono::Local.timestamp_opt(ts, 0).single()` formatted with `fmt`, one
/// of the label formats; `None` when the timestamp has no single local time.
/// Depends on the time zone; no claim is made about the text.
#[verifier::external_body]
fn local_label_at(ts: i64, fmt: &str) -> Option<String>
    requires
        label_format(fmt@),
{
    chrono::Local.timestamp_opt(ts, 0).single().map(|d| d.format(fmt).to_string())
}

/// The local-time label of epoch second `ts`, or the empty string when the
/// timestamp has no single local time (which, in the SQL text comparisons
/// it is used for, sets no bound on that side).
pub fn local_label_of(ts: i64, fmt: &str) -> (r: String)
    requires
        label_format(fmt@),
{
    match local_label_at(ts, fmt) {
        Some(s) => s,
        None => String::new(),
    }
}

} // verus!
