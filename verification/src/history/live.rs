//! The in-memory side of the history: live buckets filled between flushes,
//! and the merge of those buckets into the rows read back from the database.

use vstd::prelude::*;
use vstd::string::StringSliceAdditionalSpecFns;

use crate::history::types::{
    AppAgg, AppDayRow, AppHourKey, AppUsageRow, BucketAgg, BucketKey, Dir, Family,
};
use crate::sorting::{sort_ranked, sorted_by_rank, Ranked};
use crate::text::{chars_of, lex_less, lex_lt, lemma_lex_irreflexive, lemma_lex_transitive};
use crate::vecmap::{KeyEq, VecMap};

verus! {

broadcast use vstd::seq_lib::group_to_multiset_ensures;

/// Per-app daily rows are kept and shown only from this many bytes a day.
pub const APP_DAY_THRESHOLD_BYTES: u64 = 100_000_000;

/// Addition modulo 2^64, as the release build adds counters.
pub open spec fn wadd(a: u64, b: u64) -> u64 {
    vstd::wrapping::u64_specs::wrapping_add(a, b)
}

/// A minute bucket after one more packet of `bytes` bytes.
pub open spec fn bucket_after(prev: Option<BucketAgg>, bytes: u64) -> BucketAgg {
    match prev {
        Some(a) => BucketAgg { bytes: wadd(a.bytes, bytes), pkts: wadd(a.pkts, 1) },
        None => BucketAgg { bytes, pkts: 1 },
    }
}

/// Records into the same bucket add up: a fresh bucket that takes packets of
/// `a` and then `b` bytes holds `a + b` bytes (wrapping) in two packets.
pub proof fn lemma_records_add_up(a: u64, b: u64)
    ensures
        bucket_after(Some(bucket_after(None, a)), b) == (BucketAgg { bytes: wadd(a, b), pkts: 2 }),
{
    assert(wadd(1, 1) == 2) by {
        assert(vstd::wrapping::u64_specs::wrapping_add(1, 1) == 2);
    }
}

/// Adds one packet of `bytes` bytes to the bucket of (adapter, family, dir, minute).
pub fn record_bucket(
    live: &mut VecMap<BucketKey, BucketAgg>,
    adapter: &str,
    family: Family,
    dir: Dir,
    minute: i64,
    bytes: u64,
)
    requires
        old(live).wf(),
    ensures
        final(live).wf(),
        final(live).get((adapter@, family, dir, minute)) == Some(
            bucket_after(old(live).get((adapter@, family, dir, minute)), bytes),
        ),
        forall|k: (Seq<char>, Family, Dir, i64)|
            k != (adapter@, family, dir, minute) ==> #[trigger] final(live).get(k) == old(
                live,
            ).get(k),
{
    let key = BucketKey { adapter: adapter.to_owned(), family, dir, minute };
    match live.find(&key) {
        Some(i) => {
            let a = live.entries[i].1;
            proof {
                live.lemma_get_at(i as int);
            }
            live.set_value(
                i,
                BucketAgg { bytes: a.bytes.wrapping_add(bytes), pkts: a.pkts.wrapping_add(1) },
            );
        },
        None => {
            live.push_new(key, BucketAgg { bytes, pkts: 1 });
        },
    }
}

/// An hourly app bucket after adding `rx` received and `tx` sent bytes.
pub open spec fn app_after(prev: Option<AppAgg>, rx: u64, tx: u64) -> AppAgg {
    match prev {
        Some(a) => AppAgg { rx: wadd(a.rx, rx), tx: wadd(a.tx, tx) },
        None => AppAgg { rx, tx },
    }
}

/// Adds `rx`/`tx` bytes to the bucket of (hour, app, family); nothing happens when both are zero.
pub fn record_app_bucket(
    live: &mut VecMap<AppHourKey, AppAgg>,
    hour: String,
    app: &str,
    family: Family,
    rx: u64,
    tx: u64,
)
    requires
        old(live).wf(),
    ensures
        final(live).wf(),
        rx == 0 && tx == 0 ==> final(live).entries@ == old(live).entries@,
        !(rx == 0 && tx == 0) ==> final(live).get((hour@, app@, family)) == Some(
            app_after(old(live).get((hour@, app@, family)), rx, tx),
        ),
        forall|k: (Seq<char>, Seq<char>, Family)|
            k != (hour@, app@, family) ==> #[trigger] final(live).get(k) == old(live).get(k),
{
    if rx == 0 && tx == 0 {
        return ;
    }
    let key = AppHourKey { hour, app: app.to_owned(), family };
    match live.find(&key) {
        Some(i) => {
            let a = live.entries[i].1;
            proof {
                live.lemma_get_at(i as int);
            }
            live.set_value(i, AppAgg { rx: a.rx.wrapping_add(rx), tx: a.tx.wrapping_add(tx) });
        },
        None => {
            live.push_new(key, AppAgg { rx, tx });
        },
    }
}

/// The local day of an hour label: its first ten bytes when they end on a
/// character boundary, otherwise the empty string.
pub open spec fn day_of_hour(h: Seq<char>) -> Seq<char> {
    let b = vstd::utf8::encode_utf8(h);
    if 10 <= b.len() && vstd::utf8::is_char_boundary(b, 10) {
        vstd::utf8::decode_utf8(b.take(10))
    } else {
        Seq::empty()
    }
}

pub fn day_of(hour: &String) -> (r: String)
    ensures
        r@ == day_of_hour(hour@),
{
    let s = hour.as_str();
    proof {
        vstd::utf8::encode_utf8_valid_utf8(hour@);
    }
    if s.is_char_boundary(10) {
        let (a, _b) = s.split_at(10);
        proof {
            vstd::utf8::encode_utf8_decode_utf8(a@);
            assert(a.spec_bytes() =~= vstd::utf8::encode_utf8(hour@).take(10));
        }
        a.to_owned()
    } else {
        String::new()
    }
}

/// View of a daily row: (day, app, rx_v4, tx_v4, rx_v6, tx_v6).
pub type DayRowV = (Seq<char>, Seq<char>, u64, u64, u64, u64);

impl View for AppDayRow {
    type V = DayRowV;

    open spec fn view(&self) -> DayRowV {
        (self.day@, self.app@, self.rx_v4, self.tx_v4, self.rx_v6, self.tx_v6)
    }
}

pub open spec fn day_row_total(v: DayRowV) -> int {
    v.2 + v.3 + v.4 + v.5
}

/// Daily rows: most recent day first; within a day, larger totals first;
/// equal totals by app name.
impl Ranked for AppDayRow {
    open spec fn ranks_before(&self, other: &Self) -> bool {
        ||| lex_lt(other.day@, self.day@)
        ||| self.day@ == other.day@ && day_row_total(self@) > day_row_total(other@)
        ||| self.day@ == other.day@ && day_row_total(self@) == day_row_total(other@) && lex_lt(
            self.app@,
            other.app@,
        )
    }

    proof fn lemma_irreflexive(a: &Self) {
        lemma_lex_irreflexive(a.day@);
        lemma_lex_irreflexive(a.app@);
    }

    proof fn lemma_transitive(a: &Self, b: &Self, c: &Self) {
        if lex_lt(b.day@, a.day@) && lex_lt(c.day@, b.day@) {
            lemma_lex_transitive(c.day@, b.day@, a.day@);
        }
        if lex_lt(a.app@, b.app@) && lex_lt(b.app@, c.app@) {
            lemma_lex_transitive(a.app@, b.app@, c.app@);
        }
    }

    fn before(&self, other: &Self) -> (r: bool) {
        let d1 = chars_of(self.day.as_str());
        let d2 = chars_of(other.day.as_str());
        if lex_less(&d2, &d1) {
            return true;
        }
        if self.day != other.day {
            return false;
        }
        let t1 = self.rx_v4 as u128 + self.tx_v4 as u128 + self.rx_v6 as u128 + self.tx_v6 as u128;
        let t2 = other.rx_v4 as u128 + other.tx_v4 as u128 + other.rx_v6 as u128
            + other.tx_v6 as u128;
        if t1 != t2 {
            return t1 > t2;
        }
        let a1 = chars_of(self.app.as_str());
        let a2 = chars_of(other.app.as_str());
        lex_less(&a1, &a2)
    }
}

/// Key of a merged daily row.
pub struct DayApp {
    pub day: String,
    pub app: String,
}

impl View for DayApp {
    type V = (Seq<char>, Seq<char>);

    open spec fn view(&self) -> Self::V {
        (self.day@, self.app@)
    }
}

impl KeyEq for DayApp {
    fn key_eq(&self, other: &Self) -> (r: bool) {
        self.day == other.day && self.app == other.app
    }
}

pub open spec fn day_key(v: DayRowV) -> (Seq<char>, Seq<char>) {
    (v.0, v.1)
}

/// Rows read from the database, by (day, app); a later row replaces an earlier one.
pub open spec fn db_days(rows: Seq<AppDayRow>) -> Map<(Seq<char>, Seq<char>), DayRowV>
    decreases rows.len(),
{
    if rows.len() == 0 {
        Map::empty()
    } else {
        db_days(rows.drop_last()).insert(day_key(rows.last()@), rows.last()@)
    }
}

/// A row with `a` added to the counters of `family`.
pub open spec fn add_family_day(v: DayRowV, family: Family, a: AppAgg) -> DayRowV {
    match family {
        Family::V4 => (v.0, v.1, wadd(v.2, a.rx), wadd(v.3, a.tx), v.4, v.5),
        Family::V6 => (v.0, v.1, v.2, v.3, wadd(v.4, a.rx), wadd(v.5, a.tx)),
    }
}

/// `m` with one live hourly bucket folded into the row of its day and app.
pub open spec fn add_live_day(
    m: Map<(Seq<char>, Seq<char>), DayRowV>,
    k: AppHourKey,
    a: AppAgg,
) -> Map<(Seq<char>, Seq<char>), DayRowV> {
    let key = (day_of_hour(k.hour@), k.app@);
    let base = if m.dom().contains(key) {
        m[key]
    } else {
        (key.0, key.1, 0u64, 0u64, 0u64, 0u64)
    };
    m.insert(key, add_family_day(base, k.family, a))
}

/// Database rows with every live bucket folded in, in bucket order.
pub open spec fn merged_days(db: Seq<AppDayRow>, live: Seq<(AppHourKey, AppAgg)>) -> Map<
    (Seq<char>, Seq<char>),
    DayRowV,
>
    decreases live.len(),
{
    if live.len() == 0 {
        db_days(db)
    } else {
        add_live_day(merged_days(db, live.drop_last()), live.last().0, live.last().1)
    }
}

/// The table `vm` holds exactly the rows of `m`, each under its own key.
pub open spec fn day_table_agrees(
    vm: VecMap<DayApp, AppDayRow>,
    m: Map<(Seq<char>, Seq<char>), DayRowV>,
) -> bool {
    &&& vm.wf()
    &&& forall|i: int|
        0 <= i < vm.entries@.len() ==> day_key((#[trigger] vm.entries@[i]).1@)
            == vm.entries@[i].0@
    &&& forall|k: (Seq<char>, Seq<char>)| #[trigger]
        m.dom().contains(k) <==> vm.contains_key(k)
    &&& forall|k: (Seq<char>, Seq<char>)|
        vm.contains_key(k) ==> (#[trigger] vm.get(k)).unwrap()@ == m[k]
}

fn copy_day_row(r: &AppDayRow) -> (c: AppDayRow)
    ensures
        c@ == r@,
{
    AppDayRow {
        day: r.day.clone(),
        app: r.app.clone(),
        rx_v4: r.rx_v4,
        tx_v4: r.tx_v4,
        rx_v6: r.rx_v6,
        tx_v6: r.tx_v6,
    }
}

/// Puts `row` under its key, replacing what was there.
fn put_day_row(vm: &mut VecMap<DayApp, AppDayRow>, row: AppDayRow, Ghost(m): Ghost<
    Map<(Seq<char>, Seq<char>), DayRowV>,
>)
    requires
        day_table_agrees(*old(vm), m),
    ensures
        day_table_agrees(*final(vm), m.insert(day_key(row@), row@)),
{
    let key = DayApp { day: row.day.clone(), app: row.app.clone() };
    let ghost m2 = m.insert(day_key(row@), row@);
    match vm.find(&key) {
        Some(i) => {
            let ghost old_vm = *vm;
            vm.set_value(i, row);
            proof {
                assert forall|j: int| 0 <= j < vm.entries@.len() implies day_key(
                    (#[trigger] vm.entries@[j]).1@,
                ) == vm.entries@[j].0@ by {
                    if j != i {
                        assert(vm.entries@[j] == old_vm.entries@[j]);
                    }
                }
                assert forall|k: (Seq<char>, Seq<char>)| #[trigger]
                    m2.dom().contains(k) <==> vm.contains_key(k) by {
                    if k != key@ {
                        assert(vm.get(k) == old_vm.get(k));
                    }
                }
                assert forall|k: (Seq<char>, Seq<char>)| vm.contains_key(k) implies (
                #[trigger] vm.get(k)).unwrap()@ == m2[k] by {
                    if k != key@ {
                        assert(vm.get(k) == old_vm.get(k));
                    }
                }
            }
        },
        None => {
            let ghost old_vm = *vm;
            vm.push_new(key, row);
            proof {
                assert forall|j: int| 0 <= j < vm.entries@.len() implies day_key(
                    (#[trigger] vm.entries@[j]).1@,
                ) == vm.entries@[j].0@ by {
                    if j < old_vm.entries@.len() {
                        assert(vm.entries@[j] == old_vm.entries@[j]);
                    }
                }
                assert forall|k: (Seq<char>, Seq<char>)| #[trigger]
                    m2.dom().contains(k) <==> vm.contains_key(k) by {
                    if k != key@ {
                        assert(vm.get(k) == old_vm.get(k));
                    }
                }
                assert forall|k: (Seq<char>, Seq<char>)| vm.contains_key(k) implies (
                #[trigger] vm.get(k)).unwrap()@ == m2[k] by {
                    if k != key@ {
                        assert(vm.get(k) == old_vm.get(k));
                    }
                }
            }
        },
    }
}

/// Reads the database rows into a table keyed by (day, app).
fn db_day_table(db: &Vec<AppDayRow>) -> (vm: VecMap<DayApp, AppDayRow>)
    ensures
        day_table_agrees(vm, db_days(db@)),
{
    let mut vm: VecMap<DayApp, AppDayRow> = VecMap::new();
    let mut i: usize = 0;
    while i < db.len()
        invariant
            i <= db@.len(),
            day_table_agrees(vm, db_days(db@.take(i as int))),
        decreases db@.len() - i,
    {
        let row = copy_day_row(&db[i]);
        proof {
            assert(db@.take(i as int + 1).drop_last() =~= db@.take(i as int));
        }
        put_day_row(&mut vm, row, Ghost(db_days(db@.take(i as int))));
        i = i + 1;
    }
    proof {
        assert(db@.take(db@.len() as int) =~= db@);
    }
    vm
}

/// Folds every live hourly bucket into the row of its day and app.
fn fold_live_days(
    vm: &mut VecMap<DayApp, AppDayRow>,
    Ghost(db): Ghost<Seq<AppDayRow>>,
    live: &VecMap<AppHourKey, AppAgg>,
)
    requires
        day_table_agrees(*old(vm), db_days(db)),
    ensures
        day_table_agrees(*final(vm), merged_days(db, live.entries@)),
{
    let n = live.entries.len();
    let mut j: usize = 0;
    proof {
        assert(live.entries@.take(0) =~= Seq::<(AppHourKey, AppAgg)>::empty());
    }
    while j < n
        invariant
            n == live.entries@.len(),
            j <= n,
            day_table_agrees(*vm, merged_days(db, live.entries@.take(j as int))),
        decreases n - j,
    {
        let ghost m = merged_days(db, live.entries@.take(j as int));
        proof {
            assert(live.entries@.take(j as int + 1).drop_last() =~= live.entries@.take(j as int));
        }
        let k = &live.entries[j].0;
        let a = live.entries[j].1;
        let day = day_of(&k.hour);
        let key = DayApp { day: day.clone(), app: k.app.clone() };
        let base = match vm.find(&key) {
            Some(p) => {
                proof {
                    vm.lemma_get_at(p as int);
                }
                copy_day_row(&vm.entries[p].1)
            },
            None => AppDayRow { day, app: k.app.clone(), rx_v4: 0, tx_v4: 0, rx_v6: 0, tx_v6: 0 },
        };
        let row = match k.family {
            Family::V4 => AppDayRow {
                rx_v4: base.rx_v4.wrapping_add(a.rx),
                tx_v4: base.tx_v4.wrapping_add(a.tx),
                ..base
            },
            Family::V6 => AppDayRow {
                rx_v6: base.rx_v6.wrapping_add(a.rx),
                tx_v6: base.tx_v6.wrapping_add(a.tx),
                ..base
            },
        };
        put_day_row(vm, row, Ghost(m));
        j = j + 1;
    }
    proof {
        assert(live.entries@.take(n as int) =~= live.entries@);
    }
}

/// The rows of the table whose total reaches the daily threshold.
fn day_rows_over_threshold(vm: &VecMap<DayApp, AppDayRow>, Ghost(m): Ghost<
    Map<(Seq<char>, Seq<char>), DayRowV>,
>) -> (kept: Vec<AppDayRow>)
    requires
        day_table_agrees(*vm, m),
    ensures
        forall|q: int|
            0 <= q < kept@.len() ==> m.dom().contains(day_key((#[trigger] kept@[q])@))
                && m[day_key(kept@[q]@)] == kept@[q]@ && day_row_total(kept@[q]@)
                >= APP_DAY_THRESHOLD_BYTES,
        forall|k: (Seq<char>, Seq<char>)|
            m.dom().contains(k) && day_row_total(#[trigger] m[k]) >= APP_DAY_THRESHOLD_BYTES
                ==> exists|q: int| 0 <= q < kept@.len() && day_key(kept@[q]@) == k,
        forall|q1: int, q2: int|
            0 <= q1 < q2 < kept@.len() ==> day_key((#[trigger] kept@[q1])@) != day_key(
                (#[trigger] kept@[q2])@,
            ),
{
    let mut kept: Vec<AppDayRow> = Vec::new();
    let mut p: usize = 0;
    let vn = vm.entries.len();
    while p < vn
        invariant
            vn == vm.entries@.len(),
            p <= vn,
            day_table_agrees(*vm, m),
            forall|q: int|
                0 <= q < kept@.len() ==> exists|e: int|
                    0 <= e < p && vm.entries@[e].1@ == (#[trigger] kept@[q])@,
            forall|e: int|
                0 <= e < p && day_row_total((#[trigger] vm.entries@[e]).1@)
                    >= APP_DAY_THRESHOLD_BYTES ==> exists|q: int|
                    0 <= q < kept@.len() && kept@[q]@ == vm.entries@[e].1@,
            forall|q1: int, q2: int|
                0 <= q1 < q2 < kept@.len() ==> day_key((#[trigger] kept@[q1])@) != day_key(
                    (#[trigger] kept@[q2])@,
                ),
            forall|q: int|
                0 <= q < kept@.len() ==> day_row_total((#[trigger] kept@[q])@)
                    >= APP_DAY_THRESHOLD_BYTES,
        decreases vn - p,
    {
        let row = &vm.entries[p].1;
        let total = row.rx_v4 as u128 + row.tx_v4 as u128 + row.rx_v6 as u128
            + row.tx_v6 as u128;
        if total >= APP_DAY_THRESHOLD_BYTES as u128 {
            let c = copy_day_row(row);
            let ghost before = kept@;
            kept.push(c);
            proof {
                assert forall|q1: int, q2: int| 0 <= q1 < q2 < kept@.len() implies day_key(
                    (#[trigger] kept@[q1])@,
                ) != day_key((#[trigger] kept@[q2])@) by {
                    if q2 == kept@.len() - 1 {
                        let e = choose|e: int|
                            0 <= e < p && vm.entries@[e].1@ == (#[trigger] before[q1])@;
                        assert(vm.entries@[e].0@ != vm.entries@[p as int].0@);
                    } else {
                        assert(kept@[q1] == before[q1]);
                        assert(kept@[q2] == before[q2]);
                    }
                }
                assert forall|q: int| 0 <= q < kept@.len() implies exists|e: int|
                    0 <= e < p + 1 && vm.entries@[e].1@ == (#[trigger] kept@[q])@ by {
                    if q == kept@.len() - 1 {
                        assert(vm.entries@[p as int].1@ == kept@[q]@);
                    } else {
                        assert(kept@[q] == before[q]);
                    }
                }
                assert forall|e: int|
                    0 <= e < p + 1 && day_row_total((#[trigger] vm.entries@[e]).1@)
                        >= APP_DAY_THRESHOLD_BYTES implies exists|q: int|
                    0 <= q < kept@.len() && kept@[q]@ == vm.entries@[e].1@ by {
                    if e == p {
                        assert(kept@[kept@.len() - 1]@ == vm.entries@[e].1@);
                    } else {
                        let q = choose|q: int|
                            0 <= q < before.len() && before[q]@ == vm.entries@[e].1@;
                        assert(kept@[q] == before[q]);
                    }
                }
            }
        }
        p = p + 1;
    }
    proof {
        assert forall|q: int|
            0 <= q < kept@.len() implies m.dom().contains(day_key((#[trigger] kept@[q])@))
            && m[day_key(kept@[q]@)] == kept@[q]@ && day_row_total(kept@[q]@)
            >= APP_DAY_THRESHOLD_BYTES by {
            let e = choose|e: int| 0 <= e < vn && vm.entries@[e].1@ == (#[trigger] kept@[q])@;
            vm.lemma_get_at(e);
            let k = vm.entries@[e].0@;
            assert(vm.contains_key(k));
            assert(vm.get(k).unwrap()@ == m[k]);
        }
        assert forall|k: (Seq<char>, Seq<char>)|
            m.dom().contains(k) && day_row_total(#[trigger] m[k]) >= APP_DAY_THRESHOLD_BYTES
            implies exists|q: int| 0 <= q < kept@.len() && day_key(kept@[q]@) == k by {
            let e = vm.index_of(k);
            vm.lemma_get_at(e);
        }
    }
    kept
}

/// A permutation of rows with distinct keys keeps its keys distinct.
proof fn lemma_permuted_day_rows(kept: Seq<AppDayRow>, r: Seq<AppDayRow>)
    requires
        r.to_multiset() == kept.to_multiset(),
        forall|q1: int, q2: int|
            0 <= q1 < q2 < kept.len() ==> day_key((#[trigger] kept[q1])@) != day_key(
                (#[trigger] kept[q2])@,
            ),
    ensures
        forall|i: int| 0 <= i < r.len() ==> kept.contains(#[trigger] r[i]),
        forall|q: int| 0 <= q < kept.len() ==> r.contains(#[trigger] kept[q]),
        forall|i: int, j: int|
            0 <= i < j < r.len() ==> day_key((#[trigger] r[i])@) != day_key((#[trigger] r[j])@),
{
    assert forall|i: int| 0 <= i < r.len() implies kept.contains(#[trigger] r[i]) by {
        assert(r.to_multiset().count(r[i]) > 0);
    }
    assert forall|q: int| 0 <= q < kept.len() implies r.contains(#[trigger] kept[q]) by {
        assert(kept.to_multiset().count(kept[q]) > 0);
    }
    assert(kept.no_duplicates()) by {
        assert forall|a: int, b: int| 0 <= a < kept.len() && 0 <= b < kept.len() && a != b implies kept[a] != kept[b] by {
            if a < b {
                assert(day_key(kept[a]@) != day_key(kept[b]@));
            } else {
                assert(day_key(kept[b]@) != day_key(kept[a]@));
            }
        }
    }
    kept.lemma_multiset_has_no_duplicates();
    assert forall|i: int, j: int|
        0 <= i < j < r.len() implies day_key((#[trigger] r[i])@) != day_key(
            (#[trigger] r[j])@,
        ) by {
        let qi = choose|q: int| 0 <= q < kept.len() && kept[q] == r[i];
        let qj = choose|q: int| 0 <= q < kept.len() && kept[q] == r[j];
        if qi == qj {
            assert(r.remove(j)[i] == r[i]);
            assert(r.remove(j).contains(r[i]));
            assert(r.remove(j).to_multiset().count(r[i]) > 0);
            assert(r.to_multiset().count(r[i]) >= 2);
        } else if qi < qj {
            assert(day_key(kept[qi]@) != day_key(kept[qj]@));
        } else {
            assert(day_key(kept[qj]@) != day_key(kept[qi]@));
        }
    }
}

/// `r` is what the daily history shows for database rows `db` and live
/// buckets `live`: exactly the merged (day, app) rows that reach the daily
/// threshold, one per (day, app), in rank order.
pub open spec fn day_rows_shown(
    r: Seq<AppDayRow>,
    db: Seq<AppDayRow>,
    live: Seq<(AppHourKey, AppAgg)>,
) -> bool {
    &&& forall|i: int|
        0 <= i < r.len() ==> merged_days(db, live).dom().contains(day_key((#[trigger] r[i])@))
            && merged_days(db, live)[day_key(r[i]@)] == r[i]@ && day_row_total(r[i]@)
            >= APP_DAY_THRESHOLD_BYTES
    &&& forall|k: (Seq<char>, Seq<char>)|
        merged_days(db, live).dom().contains(k) && day_row_total(
            #[trigger] merged_days(db, live)[k],
        ) >= APP_DAY_THRESHOLD_BYTES ==> exists|i: int| 0 <= i < r.len() && day_key(r[i]@) == k
    &&& forall|i: int, j: int|
        0 <= i < j < r.len() ==> day_key((#[trigger] r[i])@) != day_key((#[trigger] r[j])@)
    &&& sorted_by_rank(r)
}

/// The daily rows to show: the database rows merged with the live buckets,
/// without the (day, app) pairs under the daily threshold, most recent day
/// first, then by total traffic, then by app name.
pub fn merge_app_days(db: &Vec<AppDayRow>, live: &VecMap<AppHourKey, AppAgg>) -> (r: Vec<AppDayRow>)
    requires
        live.wf(),
    ensures
        day_rows_shown(r@, db@, live.entries@),
{
    let ghost m = merged_days(db@, live.entries@);
    let mut vm = db_day_table(db);
    fold_live_days(&mut vm, Ghost(db@), live);
    let kept = day_rows_over_threshold(&vm, Ghost(m));
    let ghost ks = kept@;
    let r = sort_ranked(kept);
    proof {
        lemma_permuted_day_rows(ks, r@);
        assert forall|k: (Seq<char>, Seq<char>)|
            m.dom().contains(k) && day_row_total(#[trigger] m[k]) >= APP_DAY_THRESHOLD_BYTES
            implies exists|i: int| 0 <= i < r@.len() && day_key(r@[i]@) == k by {
            let q = choose|q: int| 0 <= q < ks.len() && day_key(ks[q]@) == k;
            assert(r@.contains(ks[q]));
        }
    }
    r
}

/// View of a range row: (app, rx_v4, tx_v4, rx_v6, tx_v6).
pub type UsageRowV = (Seq<char>, u64, u64, u64, u64);

impl View for AppUsageRow {
    type V = UsageRowV;

    open spec fn view(&self) -> UsageRowV {
        (self.app@, self.rx_v4, self.tx_v4, self.rx_v6, self.tx_v6)
    }
}

pub open spec fn usage_total(v: UsageRowV) -> int {
    v.1 + v.2 + v.3 + v.4
}

/// Range rows: larger totals first.
impl Ranked for AppUsageRow {
    open spec fn ranks_before(&self, other: &Self) -> bool {
        usage_total(self@) > usage_total(other@)
    }

    proof fn lemma_irreflexive(a: &Self) {
    }

    proof fn lemma_transitive(a: &Self, b: &Self, c: &Self) {
    }

    fn before(&self, other: &Self) -> (r: bool) {
        let t1 = self.rx_v4 as u128 + self.tx_v4 as u128 + self.rx_v6 as u128 + self.tx_v6 as u128;
        let t2 = other.rx_v4 as u128 + other.tx_v4 as u128 + other.rx_v6 as u128
            + other.tx_v6 as u128;
        t1 > t2
    }
}

/// Key of a merged range row: the app name.
pub struct AppName {
    pub app: String,
}

impl View for AppName {
    type V = Seq<char>;

    open spec fn view(&self) -> Seq<char> {
        self.app@
    }
}

impl KeyEq for AppName {
    fn key_eq(&self, other: &Self) -> (r: bool) {
        self.app == other.app
    }
}

/// Rows read from the database, by app; a later row replaces an earlier one.
pub open spec fn db_apps(rows: Seq<AppUsageRow>) -> Map<Seq<char>, UsageRowV>
    decreases rows.len(),
{
    if rows.len() == 0 {
        Map::empty()
    } else {
        db_apps(rows.drop_last()).insert(rows.last()@.0, rows.last()@)
    }
}

/// Whether an hour label lies within [since, until] in label order; an empty
/// `until` (an end time with no local time) sets no upper bound.
pub open spec fn hour_in_range(hour: Seq<char>, since: Seq<char>, until: Seq<char>) -> bool {
    !lex_lt(hour, since) && (until.len() == 0 || !lex_lt(until, hour))
}

pub open spec fn add_family_usage(v: UsageRowV, family: Family, a: AppAgg) -> UsageRowV {
    match family {
        Family::V4 => (v.0, wadd(v.1, a.rx), wadd(v.2, a.tx), v.3, v.4),
        Family::V6 => (v.0, v.1, v.2, wadd(v.3, a.rx), wadd(v.4, a.tx)),
    }
}

/// `m` with one live hourly bucket folded into its app's row, when the bucket
/// lies within the range.
pub open spec fn add_live_app(
    m: Map<Seq<char>, UsageRowV>,
    k: AppHourKey,
    a: AppAgg,
    since: Seq<char>,
    until: Seq<char>,
) -> Map<Seq<char>, UsageRowV> {
    if hour_in_range(k.hour@, since, until) {
        let base = if m.dom().contains(k.app@) {
            m[k.app@]
        } else {
            (k.app@, 0u64, 0u64, 0u64, 0u64)
        };
        m.insert(k.app@, add_family_usage(base, k.family, a))
    } else {
        m
    }
}

/// Database rows with the live buckets of the range folded in, in bucket order.
pub open spec fn merged_apps(
    db: Seq<AppUsageRow>,
    live: Seq<(AppHourKey, AppAgg)>,
    since: Seq<char>,
    until: Seq<char>,
) -> Map<Seq<char>, UsageRowV>
    decreases live.len(),
{
    if live.len() == 0 {
        db_apps(db)
    } else {
        add_live_app(
            merged_apps(db, live.drop_last(), since, until),
            live.last().0,
            live.last().1,
            since,
            until,
        )
    }
}

pub open spec fn app_table_agrees(vm: VecMap<AppName, AppUsageRow>, m: Map<Seq<char>, UsageRowV>) -> bool {
    &&& vm.wf()
    &&& forall|i: int|
        0 <= i < vm.entries@.len() ==> (#[trigger] vm.entries@[i]).1@.0 == vm.entries@[i].0@
    &&& forall|k: Seq<char>| #[trigger] m.dom().contains(k) <==> vm.contains_key(k)
    &&& forall|k: Seq<char>| vm.contains_key(k) ==> (#[trigger] vm.get(k)).unwrap()@ == m[k]
}

fn copy_usage_row(r: &AppUsageRow) -> (c: AppUsageRow)
    ensures
        c@ == r@,
{
    AppUsageRow {
        app: r.app.clone(),
        rx_v4: r.rx_v4,
        tx_v4: r.tx_v4,
        rx_v6: r.rx_v6,
        tx_v6: r.tx_v6,
    }
}

fn put_usage_row(vm: &mut VecMap<AppName, AppUsageRow>, row: AppUsageRow, Ghost(m): Ghost<
    Map<Seq<char>, UsageRowV>,
>)
    requires
        app_table_agrees(*old(vm), m),
    ensures
        app_table_agrees(*final(vm), m.insert(row@.0, row@)),
{
    let key = AppName { app: row.app.clone() };
    let ghost m2 = m.insert(row@.0, row@);
    let ghost old_vm = *vm;
    match vm.find(&key) {
        Some(i) => {
            vm.set_value(i, row);
            proof {
                assert forall|j: int| 0 <= j < vm.entries@.len() implies (
                #[trigger] vm.entries@[j]).1@.0 == vm.entries@[j].0@ by {
                    if j != i {
                        assert(vm.entries@[j] == old_vm.entries@[j]);
                    }
                }
            }
        },
        None => {
            vm.push_new(key, row);
            proof {
                assert forall|j: int| 0 <= j < vm.entries@.len() implies (
                #[trigger] vm.entries@[j]).1@.0 == vm.entries@[j].0@ by {
                    if j < old_vm.entries@.len() {
                        assert(vm.entries@[j] == old_vm.entries@[j]);
                    }
                }
            }
        },
    }
    proof {
        assert forall|k: Seq<char>| #[trigger] m2.dom().contains(k) <==> vm.contains_key(k) by {
            if k != key@ {
                assert(vm.get(k) == old_vm.get(k));
            }
        }
        assert forall|k: Seq<char>| vm.contains_key(k) implies (#[trigger] vm.get(k)).unwrap()@
            == m2[k] by {
            if k != key@ {
                assert(vm.get(k) == old_vm.get(k));
            }
        }
    }
}

fn db_app_table(db: &Vec<AppUsageRow>) -> (vm: VecMap<AppName, AppUsageRow>)
    ensures
        app_table_agrees(vm, db_apps(db@)),
{
    let mut vm: VecMap<AppName, AppUsageRow> = VecMap::new();
    let mut i: usize = 0;
    while i < db.len()
        invariant
            i <= db@.len(),
            app_table_agrees(vm, db_apps(db@.take(i as int))),
        decreases db@.len() - i,
    {
        let row = copy_usage_row(&db[i]);
        proof {
            assert(db@.take(i as int + 1).drop_last() =~= db@.take(i as int));
        }
        put_usage_row(&mut vm, row, Ghost(db_apps(db@.take(i as int))));
        i = i + 1;
    }
    proof {
        assert(db@.take(db@.len() as int) =~= db@);
    }
    vm
}

fn fold_live_apps(
    vm: &mut VecMap<AppName, AppUsageRow>,
    Ghost(db): Ghost<Seq<AppUsageRow>>,
    live: &VecMap<AppHourKey, AppAgg>,
    since: &String,
    until: &String,
)
    requires
        app_table_agrees(*old(vm), db_apps(db)),
    ensures
        app_table_agrees(*final(vm), merged_apps(db, live.entries@, since@, until@)),
{
    let n = live.entries.len();
    let s = chars_of(since.as_str());
    let u = chars_of(until.as_str());
    let mut j: usize = 0;
    while j < n
        invariant
            n == live.entries@.len(),
            j <= n,
            s@ == since@,
            u@ == until@,
            app_table_agrees(*vm, merged_apps(db, live.entries@.take(j as int), since@, until@)),
        decreases n - j,
    {
        let ghost m = merged_apps(db, live.entries@.take(j as int), since@, until@);
        proof {
            assert(live.entries@.take(j as int + 1).drop_last() =~= live.entries@.take(j as int));
        }
        let k = &live.entries[j].0;
        let a = live.entries[j].1;
        let h = chars_of(k.hour.as_str());
        if !(lex_less(&h, &s) || (u.len() > 0 && lex_less(&u, &h))) {
            let key = AppName { app: k.app.clone() };
            let base = match vm.find(&key) {
                Some(p) => {
                    proof {
                        vm.lemma_get_at(p as int);
                    }
                    copy_usage_row(&vm.entries[p].1)
                },
                None => AppUsageRow { app: k.app.clone(), rx_v4: 0, tx_v4: 0, rx_v6: 0, tx_v6: 0 },
            };
            let row = match k.family {
                Family::V4 => AppUsageRow {
                    rx_v4: base.rx_v4.wrapping_add(a.rx),
                    tx_v4: base.tx_v4.wrapping_add(a.tx),
                    ..base
                },
                Family::V6 => AppUsageRow {
                    rx_v6: base.rx_v6.wrapping_add(a.rx),
                    tx_v6: base.tx_v6.wrapping_add(a.tx),
                    ..base
                },
            };
            put_usage_row(vm, row, Ghost(m));
        }
        j = j + 1;
    }
    proof {
        assert(live.entries@.take(n as int) =~= live.entries@);
    }
}

fn all_usage_rows(vm: &VecMap<AppName, AppUsageRow>, Ghost(m): Ghost<Map<Seq<char>, UsageRowV>>) -> (rows: Vec<AppUsageRow>)
    requires
        app_table_agrees(*vm, m),
    ensures
        forall|q: int|
            0 <= q < rows@.len() ==> m.dom().contains((#[trigger] rows@[q])@.0) && m[rows@[q]@.0]
                == rows@[q]@,
        forall|k: Seq<char>|
            #[trigger] m.dom().contains(k) ==> exists|q: int| 0 <= q < rows@.len() && rows@[q]@.0 == k,
        forall|q1: int, q2: int|
            0 <= q1 < q2 < rows@.len() ==> (#[trigger] rows@[q1])@.0 != (#[trigger] rows@[q2])@.0,
{
    let mut rows: Vec<AppUsageRow> = Vec::new();
    let mut p: usize = 0;
    let vn = vm.entries.len();
    while p < vn
        invariant
            vn == vm.entries@.len(),
            p <= vn,
            app_table_agrees(*vm, m),
            rows@.len() == p,
            forall|q: int| 0 <= q < p ==> (#[trigger] rows@[q])@ == vm.entries@[q].1@,
        decreases vn - p,
    {
        let c = copy_usage_row(&vm.entries[p].1);
        rows.push(c);
        p = p + 1;
    }
    proof {
        assert forall|q: int| 0 <= q < rows@.len() implies m.dom().contains(
            (#[trigger] rows@[q])@.0,
        ) && m[rows@[q]@.0] == rows@[q]@ by {
            vm.lemma_get_at(q);
        }
        assert forall|k: Seq<char>| #[trigger] m.dom().contains(k) implies exists|q: int|
            0 <= q < rows@.len() && rows@[q]@.0 == k by {
            let e = vm.index_of(k);
            vm.lemma_get_at(e);
            assert(rows@[e]@.0 == k);
        }
        assert forall|q1: int, q2: int| 0 <= q1 < q2 < rows@.len() implies (
        #[trigger] rows@[q1])@.0 != (#[trigger] rows@[q2])@.0 by {
            assert(vm.entries@[q1].0@ != vm.entries@[q2].0@);
        }
    }
    rows
}

proof fn lemma_permuted_usage_rows(kept: Seq<AppUsageRow>, r: Seq<AppUsageRow>)
    requires
        r.to_multiset() == kept.to_multiset(),
        forall|q1: int, q2: int|
            0 <= q1 < q2 < kept.len() ==> (#[trigger] kept[q1])@.0 != (#[trigger] kept[q2])@.0,
    ensures
        forall|i: int| 0 <= i < r.len() ==> kept.contains(#[trigger] r[i]),
        forall|q: int| 0 <= q < kept.len() ==> r.contains(#[trigger] kept[q]),
        forall|i: int, j: int| 0 <= i < j < r.len() ==> (#[trigger] r[i])@.0 != (#[trigger] r[j])@.0,
{
    assert forall|i: int| 0 <= i < r.len() implies kept.contains(#[trigger] r[i]) by {
        assert(r.to_multiset().count(r[i]) > 0);
    }
    assert forall|q: int| 0 <= q < kept.len() implies r.contains(#[trigger] kept[q]) by {
        assert(kept.to_multiset().count(kept[q]) > 0);
    }
    assert(kept.no_duplicates()) by {
        assert forall|a: int, b: int|
            0 <= a < kept.len() && 0 <= b < kept.len() && a != b implies kept[a] != kept[b] by {
            if a < b {
                assert(kept[a]@.0 != kept[b]@.0);
            } else {
                assert(kept[b]@.0 != kept[a]@.0);
            }
        }
    }
    kept.lemma_multiset_has_no_duplicates();
    assert forall|i: int, j: int| 0 <= i < j < r.len() implies (#[trigger] r[i])@.0 != (
    #[trigger] r[j])@.0 by {
        let qi = choose|q: int| 0 <= q < kept.len() && kept[q] == r[i];
        let qj = choose|q: int| 0 <= q < kept.len() && kept[q] == r[j];
        if qi == qj {
            assert(r.remove(j)[i] == r[i]);
            assert(r.remove(j).contains(r[i]));
            assert(r.remove(j).to_multiset().count(r[i]) > 0);
            assert(r.to_multiset().count(r[i]) >= 2);
        } else if qi < qj {
            assert(kept[qi]@.0 != kept[qj]@.0);
        } else {
            assert(kept[qj]@.0 != kept[qi]@.0);
        }
    }
}

/// `r` is what a range query shows for database rows `db`, live buckets
/// `live` and the range [since, until]: exactly the merged app rows, one per
/// app, larger totals first.
pub open spec fn usage_rows_shown(
    r: Seq<AppUsageRow>,
    db: Seq<AppUsageRow>,
    live: Seq<(AppHourKey, AppAgg)>,
    since: Seq<char>,
    until: Seq<char>,
) -> bool {
    &&& forall|i: int|
        0 <= i < r.len() ==> merged_apps(db, live, since, until).dom().contains(
            (#[trigger] r[i])@.0,
        ) && merged_apps(db, live, since, until)[r[i]@.0] == r[i]@
    &&& forall|k: Seq<char>|
        #[trigger] merged_apps(db, live, since, until).dom().contains(k) ==> exists|i: int|
            0 <= i < r.len() && r[i]@.0 == k
    &&& forall|i: int, j: int| 0 <= i < j < r.len() ==> (#[trigger] r[i])@.0 != (#[trigger] r[j])@.0
    &&& sorted_by_rank(r)
}

/// The per-app rows of a range: the database rows merged with the live
/// buckets whose hour label lies within [since, until], larger totals first.
pub fn merge_app_range(
    db: &Vec<AppUsageRow>,
    live: &VecMap<AppHourKey, AppAgg>,
    since: &String,
    until: &String,
) -> (r: Vec<AppUsageRow>)
    requires
        live.wf(),
    ensures
        usage_rows_shown(r@, db@, live.entries@, since@, until@),
{
    let ghost m = merged_apps(db@, live.entries@, since@, until@);
    let mut vm = db_app_table(db);
    fold_live_apps(&mut vm, Ghost(db@), live, since, until);
    let rows = all_usage_rows(&vm, Ghost(m));
    let ghost ks = rows@;
    let r = sort_ranked(rows);
    proof {
        lemma_permuted_usage_rows(ks, r@);
        assert forall|k: Seq<char>| #[trigger] m.dom().contains(k) implies exists|i: int|
            0 <= i < r@.len() && r@[i]@.0 == k by {
            let q = choose|q: int| 0 <= q < ks.len() && ks[q]@.0 == k;
            assert(r@.contains(ks[q]));
        }
    }
    r
}

} // verus!
