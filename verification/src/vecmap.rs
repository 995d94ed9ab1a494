//! A small association list with distinct keys: the in-memory tables of the
//! library (live traffic buckets, flow tables, merged query rows) keep their
//! entries in insertion order and look keys up by their view.

use vstd::prelude::*;

verus! {

/// Keys that can be compared by their view at run time.
pub trait KeyEq: View + Sized {
    fn key_eq(&self, other: &Self) -> (r: bool)
        ensures
            r == (self@ == other@),
    ;
}

impl KeyEq for u32 {
    fn key_eq(&self, other: &Self) -> (r: bool) {
        *self == *other
    }
}

impl KeyEq for String {
    fn key_eq(&self, other: &Self) -> (r: bool) {
        *self == *other
    }
}

/// Entries in insertion order; `wf` says that no two of them share a key.
pub struct VecMap<K, V> {
    pub entries: Vec<(K, V)>,
}

impl<K: KeyEq, V> VecMap<K, V> {
    pub open spec fn wf(&self) -> bool {
        forall|i: int, j: int|
            0 <= i < j < self.entries@.len() ==> (#[trigger] self.entries@[i]).0@ != (
            #[trigger] self.entries@[j]).0@
    }

    pub open spec fn contains_key(&self, k: K::V) -> bool {
        exists|i: int| 0 <= i < self.entries@.len() && (#[trigger] self.entries@[i]).0@ == k
    }

    pub open spec fn index_of(&self, k: K::V) -> int {
        choose|i: int| 0 <= i < self.entries@.len() && (#[trigger] self.entries@[i]).0@ == k
    }

    /// The value stored under `k`, if any.
    pub open spec fn get(&self, k: K::V) -> Option<V> {
        if self.contains_key(k) {
            Some(self.entries@[self.index_of(k)].1)
        } else {
            None
        }
    }

    pub proof fn lemma_get_at(&self, i: int)
        requires
            self.wf(),
            0 <= i < self.entries@.len(),
        ensures
            self.contains_key(self.entries@[i].0@),
            self.index_of(self.entries@[i].0@) == i,
            self.get(self.entries@[i].0@) == Some(self.entries@[i].1),
    {
        let k = self.entries@[i].0@;
        assert(self.contains_key(k));
        let j = self.index_of(k);
        if j != i {
            if j < i {
                assert(self.entries@[j].0@ != self.entries@[i].0@);
            } else {
                assert(self.entries@[i].0@ != self.entries@[j].0@);
            }
        }
    }

    pub fn new() -> (r: Self)
        ensures
            r.wf(),
            r.entries@.len() == 0,
            forall|k: K::V| #[trigger] r.get(k) == None::<V>,
    {
        VecMap { entries: Vec::new() }
    }

    pub fn len(&self) -> (n: usize)
        ensures
            n == self.entries@.len(),
    {
        self.entries.len()
    }

    /// Position of the entry with key `k`.
    pub fn find(&self, k: &K) -> (r: Option<usize>)
        requires
            self.wf(),
        ensures
            match r {
                Some(i) => i < self.entries@.len() && self.entries@[i as int].0@ == k@
                    && self.index_of(k@) == i as int,
                None => !self.contains_key(k@),
            },
            r is Some <==> self.contains_key(k@),
    {
        let n = self.entries.len();
        let mut i: usize = 0;
        while i < n
            invariant
                n == self.entries@.len(),
                i <= n,
                self.wf(),
                forall|j: int| 0 <= j < i ==> (#[trigger] self.entries@[j]).0@ != k@,
            decreases n - i,
        {
            if self.entries[i].0.key_eq(k) {
                proof {
                    self.lemma_get_at(i as int);
                }
                return Some(i);
            }
            i = i + 1;
        }
        None
    }

    /// Replaces the value at position `i`, keeping its key.
    pub fn set_value(&mut self, i: usize, v: V)
        requires
            old(self).wf(),
            i < old(self).entries@.len(),
        ensures
            final(self).wf(),
            final(self).entries@.len() == old(self).entries@.len(),
            final(self).entries@[i as int].0 == old(self).entries@[i as int].0,
            final(self).entries@[i as int].1 == v,
            forall|j: int|
                0 <= j < old(self).entries@.len() && j != i ==> final(self).entries@[j] == old(
                    self,
                ).entries@[j],
            final(self).get(old(self).entries@[i as int].0@) == Some(v),
            forall|k: K::V|
                k != old(self).entries@[i as int].0@ ==> #[trigger] final(self).get(k) == old(
                    self,
                ).get(k),
    {
        let ghost old_self = *self;
        let ghost ki = self.entries@[i as int].0@;
        let e = self.entries.remove(i);
        let (key, _) = e;
        self.entries.insert(i, (key, v));
        assert(self.entries@ =~= old_self.entries@.update(i as int, (old_self.entries@[i as int].0, v)));
        assert(self.wf()) by {
            assert forall|a: int, b: int| 0 <= a < b < self.entries@.len() implies (
            #[trigger] self.entries@[a]).0@ != (#[trigger] self.entries@[b]).0@ by {
                assert(self.entries@[a].0 == old_self.entries@[a].0);
                assert(self.entries@[b].0 == old_self.entries@[b].0);
            }
        }
        proof {
            self.lemma_get_at(i as int);
            assert forall|k: K::V| k != ki implies #[trigger] self.get(k) == old_self.get(k) by {
                if old_self.contains_key(k) {
                    let j = old_self.index_of(k);
                    old_self.lemma_get_at(j);
                    assert(self.entries@[j].0@ == k);
                    self.lemma_get_at(j);
                } else {
                    if self.contains_key(k) {
                        let j = self.index_of(k);
                        assert(old_self.entries@[j].0@ == k);
                    }
                }
            }
        }
    }

    /// Appends an entry under a key that is not yet present.
    pub fn push_new(&mut self, k: K, v: V)
        requires
            old(self).wf(),
            !old(self).contains_key(k@),
        ensures
            final(self).wf(),
            final(self).entries@ == old(self).entries@.push((k, v)),
            final(self).get(k@) == Some(v),
            forall|k2: K::V| k2 != k@ ==> #[trigger] final(self).get(k2) == old(self).get(k2),
    {
        let ghost old_self = *self;
        let ghost kv = k@;
        self.entries.push((k, v));
        let ghost n: int = old_self.entries@.len() as int;
        assert(self.wf()) by {
            assert forall|a: int, b: int| 0 <= a < b < self.entries@.len() implies (
            #[trigger] self.entries@[a]).0@ != (#[trigger] self.entries@[b]).0@ by {
                if b == n {
                    assert(old_self.entries@[a].0@ != kv);
                } else {
                    assert(self.entries@[a] == old_self.entries@[a]);
                    assert(self.entries@[b] == old_self.entries@[b]);
                }
            }
        }
        proof {
            self.lemma_get_at(n);
            assert forall|k2: K::V| k2 != kv implies #[trigger] self.get(k2) == old_self.get(
                k2,
            ) by {
                if old_self.contains_key(k2) {
                    let j = old_self.index_of(k2);
                    old_self.lemma_get_at(j);
                    assert(self.entries@[j] == old_self.entries@[j]);
                    self.lemma_get_at(j);
                } else {
                    if self.contains_key(k2) {
                        let j = self.index_of(k2);
                        assert(j < n);
                        assert(old_self.entries@[j] == self.entries@[j]);
                    }
                }
            }
        }
    }

    /// Removes the entry at position `i`.
    pub fn remove_at(&mut self, i: usize) -> (r: (K, V))
        requires
            old(self).wf(),
            i < old(self).entries@.len(),
        ensures
            final(self).wf(),
            r == old(self).entries@[i as int],
            final(self).entries@ == old(self).entries@.remove(i as int),
            final(self).get(r.0@) is None,
            forall|k: K::V| k != r.0@ ==> #[trigger] final(self).get(k) == old(self).get(k),
    {
        let ghost old_self = *self;
        let r = self.entries.remove(i);
        let ghost ki = r.0@;
        proof {
            assert forall|a: int, b: int| 0 <= a < b < self.entries@.len() implies (
            #[trigger] self.entries@[a]).0@ != (#[trigger] self.entries@[b]).0@ by {
                let aa = if a < i { a } else { a + 1 };
                let bb = if b < i { b } else { b + 1 };
                assert(self.entries@[a] == old_self.entries@[aa]);
                assert(self.entries@[b] == old_self.entries@[bb]);
            }
            if self.contains_key(ki) {
                let j = self.index_of(ki);
                let jj = if j < i { j } else { j + 1 };
                assert(self.entries@[j] == old_self.entries@[jj]);
                if jj < i {
                    assert(old_self.entries@[jj].0@ != old_self.entries@[i as int].0@);
                } else {
                    assert(old_self.entries@[i as int].0@ != old_self.entries@[jj].0@);
                }
            }
            assert forall|k: K::V| k != ki implies #[trigger] self.get(k) == old_self.get(k) by {
                if old_self.contains_key(k) {
                    let j = old_self.index_of(k);
                    old_self.lemma_get_at(j);
                    assert(j != i);
                    let jn = if j < i { j } else { j - 1 };
                    assert(self.entries@[jn] == old_self.entries@[j]);
                    self.lemma_get_at(jn);
                } else {
                    if self.contains_key(k) {
                        let j = self.index_of(k);
                        let jj = if j < i { j } else { j + 1 };
                        assert(old_self.entries@[jj] == self.entries@[j]);
                    }
                }
            }
        }
        r
    }
}

} // verus!
