//! Ascending order on round-trip times, and a sort that is proved to
//! produce it.

use vstd::prelude::*;
use vstd::relations::sorted_by;
use vstd::seq_lib::*;

verus! {

/// The order on round-trip times: smaller first.
pub open spec fn at_most() -> spec_fn(u64, u64) -> bool {
    |a: u64, b: u64| a <= b
}

/// No element of `s` is followed by a smaller one.
pub open spec fn in_order(s: Seq<u64>) -> bool {
    forall|i: int, j: int| 0 <= i <= j < s.len() ==> s[i] <= s[j]
}

/// The elements of `s`, each as often as it occurs in `s`, smallest first.
pub open spec fn ascending(s: Seq<u64>) -> Seq<u64> {
    s.sort_by(at_most())
}

/// `ascending(s)` is in order and is a rearrangement of `s`.
pub proof fn lemma_ascending(s: Seq<u64>)
    ensures
        in_order(ascending(s)),
        ascending(s).to_multiset() == s.to_multiset(),
        ascending(s).len() == s.len(),
{
    broadcast use group_to_multiset_ensures;

    s.lemma_sort_by_ensures(at_most());
    let a = ascending(s);
    assert(a.len() == a.to_multiset().len() && s.len() == s.to_multiset().len());
    assert forall|i: int, j: int| 0 <= i <= j < a.len() implies a[i] <= a[j] by {
        if i < j {
            assert(at_most()(a[i], a[j]));
        }
    }
}

/// `ascending(s)` is the only rearrangement of `s` that is in order.
pub proof fn lemma_ascending_unique(s: Seq<u64>, t: Seq<u64>)
    requires
        in_order(t),
        t.to_multiset() == s.to_multiset(),
    ensures
        t == ascending(s),
{
    lemma_ascending(s);
    let a = ascending(s);
    assert(sorted_by(t, at_most())) by {
        assert forall|i: int, j: int| 0 <= i < j < t.len() implies #[trigger] at_most()(
            t[i],
            t[j],
        ) by {}
    }
    s.lemma_sort_by_ensures(at_most());
    lemma_sorted_unique(t, a, at_most());
}

/// Rearranging a sequence does not change its ascending order.
pub proof fn lemma_ascending_of_rearranged(s: Seq<u64>, t: Seq<u64>)
    requires
        s.to_multiset() == t.to_multiset(),
    ensures
        ascending(s) == ascending(t),
{
    lemma_ascending(t);
    lemma_ascending_unique(s, ascending(t));
}

/// A copy of `v` in ascending order; `v` itself is left as it is.
pub fn sorted_copy(v: &[u64]) -> (r: Vec<u64>)
    ensures
        r@ == ascending(v@),
{
    let mut r: Vec<u64> = Vec::new();
    let mut i: usize = 0;
    assert(v@.take(0) =~= r@);
    while i < v.len()
        invariant
            0 <= i <= v.len(),
            in_order(r@),
            r@.to_multiset() == v@.take(i as int).to_multiset(),
        decreases v.len() - i,
    {
        broadcast use group_to_multiset_ensures;

        let x: u64 = v[i];
        let mut p: usize = 0;
        while p < r.len() && r[p] <= x
            invariant
                0 <= p <= r.len(),
                forall|k: int| 0 <= k < p ==> r@[k] <= x,
            decreases r.len() - p,
        {
            p += 1;
        }
        let ghost before = r@;
        r.insert(p, x);
        proof {
            assert(v@.take(i + 1) == v@.take(i as int).push(x));
            assert forall|a: int, b: int| 0 <= a <= b < r@.len() implies r@[a] <= r@[b] by {
                if b < p {
                    assert(r@[a] == before[a] && r@[b] == before[b]);
                } else if b == p {
                    if a < p {
                        assert(r@[a] == before[a]);
                    }
                } else {
                    assert(r@[b] == before[b - 1]);
                    assert(x < before[p as int]);
                    if a < p {
                        assert(r@[a] == before[a]);
                    } else if a > p {
                        assert(r@[a] == before[a - 1]);
                    }
                }
            }
        }
        i += 1;
    }
    proof {
        assert(v@.take(v.len() as int) == v@);
        lemma_ascending_unique(v@, r@);
    }
    r
}

} // verus!
