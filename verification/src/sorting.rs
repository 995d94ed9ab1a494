//! Ordering of result rows: a selection sort over a strict "ranks before"
//! relation, proved to return a permutation of its input in rank order.

use vstd::prelude::*;
use vstd::multiset::Multiset;

verus! {

broadcast use vstd::seq_lib::group_to_multiset_ensures;

/// A strict order used to arrange result rows: `a.ranks_before(b)` when `a`
/// must come before `b`.
pub trait Ranked: Sized {
    spec fn ranks_before(&self, other: &Self) -> bool;

    proof fn lemma_irreflexive(a: &Self)
        ensures
            !a.ranks_before(a),
    ;

    proof fn lemma_transitive(a: &Self, b: &Self, c: &Self)
        requires
            a.ranks_before(b),
            b.ranks_before(c),
        ensures
            a.ranks_before(c),
    ;

    fn before(&self, other: &Self) -> (r: bool)
        ensures
            r == self.ranks_before(other),
    ;
}

/// No element ranks before an element that precedes it.
pub open spec fn sorted_by_rank<T: Ranked>(s: Seq<T>) -> bool {
    forall|i: int, j: int| #![trigger s[i], s[j]] 0 <= i < j < s.len() ==> !s[j].ranks_before(&s[i])
}

/// Arranges `v` in rank order; the result holds exactly the elements of `v`.
pub fn sort_ranked<T: Ranked>(v: Vec<T>) -> (r: Vec<T>)
    ensures
        r@.to_multiset() == v@.to_multiset(),
        r@.len() == v@.len(),
        sorted_by_rank(r@),
{
    let ghost orig = v@;
    let mut rem = v;
    let mut out: Vec<T> = Vec::new();
    while rem.len() > 0
        invariant
            out@.to_multiset().add(rem@.to_multiset()) == orig.to_multiset(),
            out@.len() + rem@.len() == orig.len(),
            sorted_by_rank(out@),
            forall|i: int, j: int| #![trigger rem@[j], out@[i]]
                0 <= i < out@.len() && 0 <= j < rem@.len() ==> !rem@[j].ranks_before(&out@[i]),
        decreases rem@.len(),
    {
        let n = rem.len();
        let mut m: usize = 0;
        let mut k: usize = 1;
        proof {
            T::lemma_irreflexive(&rem@[0]);
        }
        while k < n
            invariant
                n == rem@.len(),
                m < k <= n,
                forall|q: int| #![trigger rem@[q]] 0 <= q < k ==> !rem@[q].ranks_before(&rem@[m as int]),
            decreases n - k,
        {
            if rem[k].before(&rem[m]) {
                proof {
                    assert forall|q: int| #![trigger rem@[q]] 0 <= q < k + 1 implies !rem@[q].ranks_before(&rem@[k as int]) by {
                        if q == k {
                            T::lemma_irreflexive(&rem@[k as int]);
                        } else if rem@[q].ranks_before(&rem@[k as int]) {
                            T::lemma_transitive(&rem@[q], &rem@[k as int], &rem@[m as int]);
                        }
                    }
                }
                m = k;
            }
            k = k + 1;
        }
        let ghost rem_before = rem@;
        let ghost out_before = out@;
        let x = rem.remove(m);
        proof {
            assert(rem_before.remove(m as int).to_multiset() == rem_before.to_multiset().remove(x));
            assert(out_before.push(x).to_multiset() == out_before.to_multiset().insert(x));
            assert(rem_before.to_multiset().contains(x)) by {
                assert(rem_before[m as int] == x);
                assert(rem_before.contains(x));
            }
        }
        out.push(x);
        proof {
            assert(out@.to_multiset().add(rem@.to_multiset()) =~= orig.to_multiset());
            assert forall|i: int, j: int| #![trigger out@[i], out@[j]] 0 <= i < j < out@.len() implies !out@[j].ranks_before(&out@[i]) by {
                if j == out@.len() - 1 {
                    assert(out@[j] == rem_before[m as int]);
                    assert(out@[i] == out_before[i]);
                } else {
                    assert(out@[j] == out_before[j]);
                    assert(out@[i] == out_before[i]);
                }
            }
            assert forall|i: int, j: int| #![trigger rem@[j], out@[i]]
                0 <= i < out@.len() && 0 <= j < rem@.len() implies !rem@[j].ranks_before(&out@[i]) by {
                let jj = if j < m { j } else { j + 1 };
                assert(rem@[j] == rem_before[jj]);
                if i == out@.len() - 1 {
                    assert(out@[i] == rem_before[m as int]);
                } else {
                    assert(out@[i] == out_before[i]);
                }
            }
        }
    }
    proof {
        assert(rem@.to_multiset() =~= Multiset::<T>::empty());
        assert(out@.to_multiset().add(Multiset::<T>::empty()) =~= out@.to_multiset());
    }
    out
}

} // verus!
