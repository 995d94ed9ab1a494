//! Live per-adapter network I/O from the OS counters: works without
//! administrator rights and without the packet capture. The application
//! reads the counters once per second; this module turns each reading into
//! bytes moved since the previous one.

use vstd::prelude::*;

use crate::history::live::wadd;
use crate::sorting::{sort_ranked, Ranked};
use crate::vecmap::VecMap;

verus! {

broadcast use vstd::seq_lib::group_to_multiset_ensures;

/// The cumulative byte counters of one adapter as the OS reports them.
#[derive(Clone, Debug)]
pub struct CounterReading {
    pub name: String,
    pub total_rx: u64,
    pub total_tx: u64,
}

/// The bytes an adapter moved since the previous reading, and its totals.
#[derive(Clone, Debug)]
pub struct AdapterDelta {
    pub name: String,
    pub rx_bytes: u64,
    pub tx_bytes: u64,
    pub total_rx: u64,
    pub total_tx: u64,
}

/// View of a delta: (name, rx bytes, tx bytes, total rx, total tx).
pub type AdapterDeltaV = (Seq<char>, u64, u64, u64, u64);

impl View for AdapterDelta {
    type V = AdapterDeltaV;

    open spec fn view(&self) -> AdapterDeltaV {
        (self.name@, self.rx_bytes, self.tx_bytes, self.total_rx, self.total_tx)
    }
}

/// An adapter's total traffic, both directions, wrapping.
pub open spec fn delta_total(d: AdapterDelta) -> u64 {
    wadd(d.total_rx, d.total_tx)
}

/// A delta with its position in the reading, so that busier adapters come
/// first and adapters with equal totals keep the reading's order.
struct PlacedDelta {
    delta: AdapterDelta,
    pos: usize,
}

impl Ranked for PlacedDelta {
    closed spec fn ranks_before(&self, other: &Self) -> bool {
        ||| delta_total(self.delta) > delta_total(other.delta)
        ||| delta_total(self.delta) == delta_total(other.delta) && self.pos < other.pos
    }

    proof fn lemma_irreflexive(a: &Self) {
    }

    proof fn lemma_transitive(a: &Self, b: &Self, c: &Self) {
    }

    fn before(&self, other: &Self) -> (r: bool) {
        let a = self.delta.total_rx.wrapping_add(self.delta.total_tx);
        let b = other.delta.total_rx.wrapping_add(other.delta.total_tx);
        a > b || (a == b && self.pos < other.pos)
    }
}

/// `r` is `v` rearranged, busiest adapter first, adapters with equal totals
/// in `v`'s order: `r[i]` is `v[pos[i]]`, each position taken once.
pub open spec fn busiest_first(r: Seq<AdapterDelta>, v: Seq<AdapterDelta>, pos: Seq<int>) -> bool {
    &&& r.len() == v.len()
    &&& pos.len() == v.len()
    &&& forall|i: int| 0 <= i < r.len() ==> 0 <= #[trigger] pos[i] < v.len() && r[i] == v[pos[i]]
    &&& forall|i: int, j: int| 0 <= i < j < r.len() ==> #[trigger] pos[i] != #[trigger] pos[j]
    &&& forall|i: int, j: int|
        0 <= i < j < r.len() ==> delta_total(#[trigger] r[i]) > delta_total(#[trigger] r[j]) || (
        delta_total(r[i]) == delta_total(r[j]) && pos[i] < pos[j])
}

/// Orders deltas busiest first, keeping the given order among equal totals.
pub fn rank_busiest_first(v: Vec<AdapterDelta>) -> (r: Vec<AdapterDelta>)
    ensures
        exists|pos: Seq<int>| #[trigger] busiest_first(r@, v@, pos),
{
    let ghost all = v@;
    let n = v.len();
    let mut rest = v;
    let mut tagged: Vec<PlacedDelta> = Vec::new();
    let mut i: usize = 0;
    while rest.len() > 0
        invariant
            n == all.len(),
            i <= n,
            rest@ == all.skip(i as int),
            tagged@.len() == i,
            forall|k: int| 0 <= k < i ==> (#[trigger] tagged@[k]).delta == all[k] && tagged@[k].pos == k,
        decreases rest@.len(),
    {
        let d = rest.remove(0);
        assert(d == all[i as int]);
        assert(rest@ =~= all.skip(i + 1));
        tagged.push(PlacedDelta { delta: d, pos: i });
        i = i + 1;
    }
    let ghost tg = tagged@;
    let sorted = sort_ranked(tagged);
    let ghost st = sorted@;
    proof {
        assert(tg.no_duplicates()) by {
            assert forall|a: int, b: int| 0 <= a < tg.len() && 0 <= b < tg.len() && a != b implies tg[a] != tg[b] by {
                assert(tg[a].pos == a && tg[b].pos == b);
            }
        }
        tg.lemma_multiset_has_no_duplicates();
        st.lemma_multiset_has_no_duplicates_conv();
        assert forall|q: int| 0 <= q < st.len() implies 0 <= (#[trigger] st[q]).pos < n && tg[st[q].pos as int] == st[q] by {
            assert(st.contains(st[q]));
            assert(st.to_multiset().count(st[q]) > 0);
            assert(tg.contains(st[q]));
            let w = choose|w: int| 0 <= w < tg.len() && tg[w] == st[q];
            assert(tg[w].pos == w);
        }
    }
    let mut rest2 = sorted;
    let mut out: Vec<AdapterDelta> = Vec::new();
    let mut j: usize = 0;
    while rest2.len() > 0
        invariant
            st.len() == n,
            j <= n,
            rest2@ == st.skip(j as int),
            out@.len() == j,
            forall|k: int| 0 <= k < j ==> (#[trigger] out@[k]) == st[k].delta,
        decreases rest2@.len(),
    {
        let x = rest2.remove(0);
        assert(x == st[j as int]);
        assert(rest2@ =~= st.skip(j + 1));
        out.push(x.delta);
        j = j + 1;
    }
    proof {
        let pos = Seq::new(n as nat, |k: int| st[k].pos as int);
        assert forall|a: int, b: int| 0 <= a < b < out@.len() implies #[trigger] pos[a] != #[trigger] pos[b] by {
            if pos[a] == pos[b] {
                assert(st[a] == tg[pos[a]]);
                assert(st[b] == tg[pos[b]]);
            }
        }
        assert forall|a: int, b: int| 0 <= a < b < out@.len() implies delta_total(#[trigger] out@[a]) > delta_total(
            #[trigger] out@[b],
        ) || (delta_total(out@[a]) == delta_total(out@[b]) && pos[a] < pos[b]) by {
            assert(!st[b].ranks_before(&st[a]));
            assert(pos[a] != pos[b]);
        }
        assert(busiest_first(out@, all, pos));
    }
    out
}

/// Live input/output rates of one network adapter, in bytes per second.
#[derive(Clone, Debug, Default)]
pub struct AdapterIo {
    pub name: String,
    pub rx_speed: u64,
    pub tx_speed: u64,
    pub total_rx: u64,
    pub total_tx: u64,
}

/// `a - b`, or 0 when `b` is larger.
pub open spec fn sat_sub(a: u64, b: u64) -> u64 {
    if a >= b { (a - b) as u64 } else { 0 }
}

/// The delta of a reading given the adapter's previous totals: what the
/// counters grew by (0 where they went back), nothing for an adapter seen
/// for the first time.
pub open spec fn delta_of(prev: Option<(u64, u64)>, name: Seq<char>, rx: u64, tx: u64) -> AdapterDeltaV {
    match prev {
        Some(p) => (name, sat_sub(rx, p.0), sat_sub(tx, p.1), rx, tx),
        None => (name, 0, 0, rx, tx),
    }
}

/// The totals of the last reading of adapter `name`, if any.
pub open spec fn last_reading(rs: Seq<CounterReading>, name: Seq<char>) -> Option<(u64, u64)>
    decreases rs.len(),
{
    if rs.len() == 0 {
        None
    } else if rs.last().name@ == name {
        Some((rs.last().total_rx, rs.last().total_tx))
    } else {
        last_reading(rs.drop_last(), name)
    }
}

/// The totals of each adapter at the previous reading.
pub struct IoMeter {
    last_totals: VecMap<String, (u64, u64)>,
}

impl IoMeter {
    #[verifier::type_invariant]
    spec fn wf(&self) -> bool {
        self.last_totals.wf()
    }

    /// The totals of adapter `name` at the previous reading.
    pub closed spec fn last_total(&self, name: Seq<char>) -> Option<(u64, u64)> {
        self.last_totals.get(name)
    }

    /// No reading yet.
    pub fn new() -> (r: Self)
        ensures
            forall|k: Seq<char>| #[trigger] r.last_total(k) is None,
    {
        IoMeter { last_totals: VecMap::new() }
    }

    /// Turns a reading of all adapters into what each moved since the
    /// previous reading (see `delta_of`), busiest adapter first (adapters
    /// with equal totals in the reading's order), and keeps
    /// the reading for the next time.
    pub fn snapshot(&mut self, readings: Vec<CounterReading>) -> (r: Vec<AdapterDelta>)
        ensures
            forall|k: Seq<char>| #[trigger] final(self).last_total(k) == last_reading(readings@, k),
            r@.len() == readings@.len(),
            exists|v: Seq<AdapterDelta>, pos: Seq<int>| {
                &&& v.len() == readings@.len()
                &&& forall|i: int| 0 <= i < v.len() ==> (#[trigger] v[i])@ == delta_of(
                    old(self).last_total(readings@[i].name@),
                    readings@[i].name@,
                    readings@[i].total_rx,
                    readings@[i].total_tx,
                )
                &&& #[trigger] busiest_first(r@, v, pos)
            },
    {
        proof {
            use_type_invariant(&*self);
        }
        let mut current: VecMap<String, (u64, u64)> = VecMap::new();
        let mut out: Vec<AdapterDelta> = Vec::new();
        let mut i: usize = 0;
        assert(readings@.take(0) =~= Seq::<CounterReading>::empty());
        while i < readings.len()
            invariant
                i <= readings@.len(),
                self.last_totals.wf(),
                self.last_totals == old(self).last_totals,
                current.wf(),
                forall|k: Seq<char>| #[trigger] current.get(k) == last_reading(readings@.take(i as int), k),
                out@.len() == i,
                forall|j: int| 0 <= j < i ==> (#[trigger] out@[j])@ == delta_of(
                    old(self).last_total(readings@[j].name@),
                    readings@[j].name@,
                    readings@[j].total_rx,
                    readings@[j].total_tx,
                ),
            decreases readings@.len() - i,
        {
            let rd = &readings[i];
            let (rx_bytes, tx_bytes) = match self.last_totals.find(&rd.name) {
                Some(j) => {
                    proof {
                        self.last_totals.lemma_get_at(j as int);
                    }
                    let (prx, ptx) = self.last_totals.entries[j].1;
                    (rd.total_rx.saturating_sub(prx), rd.total_tx.saturating_sub(ptx))
                },
                None => (0u64, 0u64),
            };
            out.push(AdapterDelta {
                name: rd.name.clone(),
                rx_bytes,
                tx_bytes,
                total_rx: rd.total_rx,
                total_tx: rd.total_tx,
            });
            match current.find(&rd.name) {
                Some(j) => current.set_value(j, (rd.total_rx, rd.total_tx)),
                None => current.push_new(rd.name.clone(), (rd.total_rx, rd.total_tx)),
            }
            proof {
                let pre = readings@.take(i as int);
                let post = readings@.take(i + 1);
                assert(post.drop_last() =~= pre);
                assert(post.last() == readings@[i as int]);
            }
            i = i + 1;
        }
        self.last_totals = current;
        proof {
            assert(readings@.take(readings@.len() as int) =~= readings@);
        }
        rank_busiest_first(out)
    }
}

/// The live I/O of an adapter: its delta's totals and the given rates.
pub fn adapter_io(d: &AdapterDelta, rx_speed: u64, tx_speed: u64) -> (r: AdapterIo)
    ensures
        r.name@ == d.name@,
        r.rx_speed == rx_speed,
        r.tx_speed == tx_speed,
        r.total_rx == d.total_rx,
        r.total_tx == d.total_tx,
{
    AdapterIo { name: d.name.clone(), rx_speed, tx_speed, total_rx: d.total_rx, total_tx: d.total_tx }
}

} // verus!
