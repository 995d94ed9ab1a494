//! Types shared by the traffic history subsystem: live buckets accumulated
//! in memory and the aggregated rows that queries return.

use vstd::prelude::*;

use crate::text::chars_of;
use crate::vecmap::KeyEq;

verus! {

/// IP protocol version of a captured packet.
#[derive(Clone, Copy, PartialEq, Eq, Hash, Debug, Structural)]
pub enum Family {
    V4,
    V6,
}

/// Traffic direction, named after what the interface does.
#[derive(Clone, Copy, PartialEq, Eq, Hash, Debug, Structural)]
pub enum Dir {
    Rx,
    Tx,
}

/// The stored label of a family: `v4` or `v6`.
pub open spec fn family_label(f: Family) -> Seq<char> {
    match f {
        Family::V4 => seq!['v', '4'],
        Family::V6 => seq!['v', '6'],
    }
}

/// The family whose label is `s`, if any.
pub open spec fn family_of_label(s: Seq<char>) -> Option<Family> {
    if s == family_label(Family::V4) {
        Some(Family::V4)
    } else if s == family_label(Family::V6) {
        Some(Family::V6)
    } else {
        None
    }
}

/// The stored label of a direction: `rx` or `tx`.
pub open spec fn dir_label(d: Dir) -> Seq<char> {
    match d {
        Dir::Rx => seq!['r', 'x'],
        Dir::Tx => seq!['t', 'x'],
    }
}

/// The direction whose label is `s`, if any.
pub open spec fn dir_of_label(s: Seq<char>) -> Option<Dir> {
    if s == dir_label(Dir::Rx) {
        Some(Dir::Rx)
    } else if s == dir_label(Dir::Tx) {
        Some(Dir::Tx)
    } else {
        None
    }
}

/// Two-character labels compared against a view.
fn is_pair(v: &Vec<char>, a: char, b: char) -> (r: bool)
    ensures
        r == (v@ == seq![a, b]),
{
    if v.len() == 2 && v[0] == a && v[1] == b {
        assert(v@ =~= seq![a, b]);
        true
    } else {
        false
    }
}

impl Family {
    pub fn label(self) -> (r: &'static str)
        ensures
            r@ == family_label(self),
    {
        match self {
            Family::V4 => {
                proof {
                    reveal_strlit("v4");
                }
                "v4"
            },
            Family::V6 => {
                proof {
                    reveal_strlit("v6");
                }
                "v6"
            },
        }
    }

    pub fn from_label(label: &str) -> (r: Option<Family>)
        ensures
            r == family_of_label(label@),
    {
        let v = chars_of(label);
        if is_pair(&v, 'v', '4') {
            Some(Family::V4)
        } else if is_pair(&v, 'v', '6') {
            Some(Family::V6)
        } else {
            None
        }
    }
}

impl Dir {
    pub fn label(self) -> (r: &'static str)
        ensures
            r@ == dir_label(self),
    {
        match self {
            Dir::Rx => {
                proof {
                    reveal_strlit("rx");
                }
                "rx"
            },
            Dir::Tx => {
                proof {
                    reveal_strlit("tx");
                }
                "tx"
            },
        }
    }

    pub fn from_label(label: &str) -> (r: Option<Dir>)
        ensures
            r == dir_of_label(label@),
    {
        let v = chars_of(label);
        if is_pair(&v, 'r', 'x') {
            Some(Dir::Rx)
        } else if is_pair(&v, 't', 'x') {
            Some(Dir::Tx)
        } else {
            None
        }
    }
}

/// Reading back the label of a family gives the family; likewise for directions.
pub proof fn lemma_labels_roundtrip(f: Family, d: Dir)
    ensures
        family_of_label(family_label(f)) == Some(f),
        dir_of_label(dir_label(d)) == Some(d),
{
    assert(family_label(Family::V4) != family_label(Family::V6)) by {
        assert(family_label(Family::V4)[1] != family_label(Family::V6)[1]);
    }
    assert(dir_label(Dir::Rx) != dir_label(Dir::Tx)) by {
        assert(dir_label(Dir::Rx)[0] != dir_label(Dir::Tx)[0]);
    }
}

/// Key of an in-memory accumulation bucket; `minute` is the UTC epoch floored to the minute.
#[derive(Clone, Debug)]
pub struct BucketKey {
    pub adapter: String,
    pub family: Family,
    pub dir: Dir,
    pub minute: i64,
}

impl View for BucketKey {
    type V = (Seq<char>, Family, Dir, i64);

    open spec fn view(&self) -> Self::V {
        (self.adapter@, self.family, self.dir, self.minute)
    }
}

impl KeyEq for BucketKey {
    fn key_eq(&self, other: &Self) -> (r: bool) {
        self.adapter == other.adapter && self.family == other.family && self.dir == other.dir
            && self.minute == other.minute
    }
}

/// Per-app daily accumulation key: local date, process name and IP family.
#[derive(Clone, Debug)]
pub struct AppDayKey {
    /// Local date, `YYYY-MM-DD`.
    pub day: String,
    pub app: String,
    pub family: Family,
}

impl View for AppDayKey {
    type V = (Seq<char>, Seq<char>, Family);

    open spec fn view(&self) -> Self::V {
        (self.day@, self.app@, self.family)
    }
}

impl KeyEq for AppDayKey {
    fn key_eq(&self, other: &Self) -> (r: bool) {
        self.day == other.day && self.app == other.app && self.family == other.family
    }
}

/// Per-app hourly accumulation key: local hour label, process name and IP family.
#[derive(Clone, Debug)]
pub struct AppHourKey {
    /// Local hour, `YYYY-MM-DD HH:00`.
    pub hour: String,
    pub app: String,
    pub family: Family,
}

impl View for AppHourKey {
    type V = (Seq<char>, Seq<char>, Family);

    open spec fn view(&self) -> Self::V {
        (self.hour@, self.app@, self.family)
    }
}

impl KeyEq for AppHourKey {
    fn key_eq(&self, other: &Self) -> (r: bool) {
        self.hour == other.hour && self.app == other.app && self.family == other.family
    }
}

/// Received and sent bytes of one app in one day.
#[derive(Clone, Copy, Debug, Default)]
pub struct AppDayAgg {
    pub rx: u64,
    pub tx: u64,
}

/// Received and sent bytes of one app in one hour bucket.
#[derive(Clone, Copy, Debug, Default)]
pub struct AppAgg {
    pub rx: u64,
    pub tx: u64,
}

/// Accumulated counters of a single bucket.
#[derive(Clone, Copy, Debug, Default)]
pub struct BucketAgg {
    pub bytes: u64,
    pub pkts: u64,
}

/// One day of one app's traffic as returned by the daily history query.
#[derive(Clone, Debug, PartialEq)]
pub struct AppDayRow {
    /// Local date, `YYYY-MM-DD`.
    pub day: String,
    pub app: String,
    pub rx_v4: u64,
    pub tx_v4: u64,
    pub rx_v6: u64,
    pub tx_v6: u64,
}

/// One app's traffic inside a queried time range.
#[derive(Clone, Debug, PartialEq)]
pub struct AppUsageRow {
    pub app: String,
    pub rx_v4: u64,
    pub tx_v4: u64,
    pub rx_v6: u64,
    pub tx_v6: u64,
}

/// Time granularity of a history query.
#[derive(Clone, Copy, PartialEq, Eq, Debug, Structural)]
pub enum Granularity {
    /// Last 24 hours, one bucket per hour.
    Hourly,
    /// Last 30 days, one bucket per day.
    Daily,
    /// All recorded months, one bucket per month.
    Monthly,
}

/// Seconds a fixed-window query looks back: a day, thirty days, or everything.
pub open spec fn window(g: Granularity) -> i64 {
    match g {
        Granularity::Hourly => 86400i64,
        Granularity::Daily => 2592000i64,
        Granularity::Monthly => i64::MAX,
    }
}

impl Granularity {
    /// Seconds looked back from now.
    pub fn window_secs(self) -> (r: i64)
        ensures
            r == window(self),
    {
        match self {
            Granularity::Hourly => 24 * 3600,
            Granularity::Daily => 30 * 86400,
            Granularity::Monthly => i64::MAX,
        }
    }
}

/// One pivoted data point of a history query, ready for charting.
#[derive(Clone, Debug, PartialEq)]
pub struct HistBucket {
    /// Bucket start in local time: `YYYY-MM-DD HH:00`, `YYYY-MM-DD` or `YYYY-MM`.
    pub label: String,
    pub rx_v4: u64,
    pub rx_v6: u64,
    pub tx_v4: u64,
    pub tx_v6: u64,
}

impl HistBucket {
    pub open spec fn spec_total(&self) -> int {
        self.rx_v4 + self.rx_v6 + self.tx_v4 + self.tx_v6
    }

    /// All four counters together.
    pub fn total(&self) -> (r: u64)
        requires
            self.spec_total() <= u64::MAX,
        ensures
            r == self.spec_total(),
    {
        self.rx_v4 + self.rx_v6 + self.tx_v4 + self.tx_v6
    }
}

/// A series over an arbitrary time range, with the granularity that was chosen for it
/// (`hour` or `day`).
#[derive(Clone, Debug, PartialEq)]
pub struct RangeSeries {
    pub granularity: String,
    pub buckets: Vec<HistBucket>,
}

} // verus!
