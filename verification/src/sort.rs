//! Sorting of times, proved equal to the mathematical sort.

use vstd::prelude::*;
use vstd::relations::*;
use vstd::seq_lib::*;

verus! {

/// The order by which times are ranked: smaller is better.
pub open spec fn ascending() -> spec_fn(u64, u64) -> bool {
    |a: u64, b: u64| a <= b
}

/// The times of `s` from best to worst.
pub open spec fn ranked(s: Seq<u64>) -> Seq<u64> {
    s.sort_by(ascending())
}

/// `ranked(s)` is ordered and holds exactly the times of `s`, each as often
/// as `s` does.
pub proof fn lemma_ranked(s: Seq<u64>)
    ensures
        sorted_by(ranked(s), ascending()),
        ranked(s).to_multiset() == s.to_multiset(),
        ranked(s).len() == s.len(),
        forall|i: int, j: int| 0 <= i <= j < s.len() ==> ranked(s)[i] <= ranked(s)[j],
{
    broadcast use group_to_multiset_ensures;

    s.lemma_sort_by_ensures(ascending());
    let r = ranked(s);
    s.to_multiset_ensures();
    r.to_multiset_ensures();
    assert forall|i: int, j: int| 0 <= i <= j < s.len() implies r[i] <= r[j] by {
        if i < j {
            assert(ascending()(r[i], r[j]));
        }
    }
}

/// Merges two ordered runs into one.
fn merge(left: &Vec<u64>, right: &Vec<u64>) -> (out: Vec<u64>)
    requires
        sorted_by(left@, ascending()),
        sorted_by(right@, ascending()),
    ensures
        sorted_by(out@, ascending()),
        out@.to_multiset() == left@.to_multiset().add(right@.to_multiset()),
{
    broadcast use group_to_multiset_ensures;
    broadcast use vstd::multiset::group_multiset_axioms;

    let mut out: Vec<u64> = Vec::new();
    let mut i: usize = 0;
    let mut j: usize = 0;
    assert(left@.take(0).to_multiset().add(right@.take(0).to_multiset()) =~= out@.to_multiset());
    while i < left.len() || j < right.len()
        invariant
            i <= left.len(),
            j <= right.len(),
            sorted_by(left@, ascending()),
            sorted_by(right@, ascending()),
            sorted_by(out@, ascending()),
            out@.to_multiset() == left@.take(i as int).to_multiset().add(
                right@.take(j as int).to_multiset(),
            ),
            forall|k: int| 0 <= k < out.len() && i < left.len() ==> out[k] <= left[i as int],
            forall|k: int| 0 <= k < out.len() && j < right.len() ==> out[k] <= right[j as int],
        decreases left.len() - i + right.len() - j,
    {
        let from_left = if j >= right.len() {
            true
        } else if i >= left.len() {
            false
        } else {
            left[i] <= right[j]
        };
        let ghost before = out@;
        if from_left {
            let t = left[i];
            proof {
                let taken = left@.take(i as int);
                assert(left@.take(i + 1) =~= taken.push(t));
                to_multiset_build(taken, t);
                to_multiset_build(out@, t);
                assert(out@.push(t).to_multiset() =~= taken.push(t).to_multiset().add(
                    right@.take(j as int).to_multiset(),
                ));
                if i + 1 < left.len() {
                    assert(ascending()(left[i as int], left[i + 1]));
                }
            }
            out.push(t);
            i += 1;
        } else {
            let t = right[j];
            proof {
                let taken = right@.take(j as int);
                assert(right@.take(j + 1) =~= taken.push(t));
                to_multiset_build(taken, t);
                to_multiset_build(out@, t);
                assert(out@.push(t).to_multiset() =~= left@.take(i as int).to_multiset().add(
                    taken.push(t).to_multiset(),
                ));
                if j + 1 < right.len() {
                    assert(ascending()(right[j as int], right[j + 1]));
                }
            }
            out.push(t);
            j += 1;
        }
        proof {
            let t = out@.last();
            assert(out@ == before.push(t));
            assert forall|a: int, b: int| 0 <= a < b < out.len() implies ascending()(
                out[a],
                out[b],
            ) by {
                if b < before.len() {
                    assert(ascending()(before[a], before[b]));
                }
            }
        }
    }
    proof {
        assert(left@.take(i as int) =~= left@);
        assert(right@.take(j as int) =~= right@);
    }
    out
}

/// Sorts the times at positions `lo..hi` of `v` into a new vector.
fn sort_range(v: &Vec<u64>, lo: usize, hi: usize) -> (out: Vec<u64>)
    requires
        lo <= hi <= v.len(),
    ensures
        sorted_by(out@, ascending()),
        out@.to_multiset() == v@.subrange(lo as int, hi as int).to_multiset(),
    decreases hi - lo,
{
    broadcast use group_to_multiset_ensures;

    let mut out: Vec<u64> = Vec::new();
    if hi - lo == 0 {
        assert(v@.subrange(lo as int, hi as int) =~= out@);
        out
    } else if hi - lo == 1 {
        out.push(v[lo]);
        assert(v@.subrange(lo as int, hi as int) =~= out@);
        out
    } else {
        let mid = lo + (hi - lo) / 2;
        let left = sort_range(v, lo, mid);
        let right = sort_range(v, mid, hi);
        proof {
            assert(v@.subrange(lo as int, hi as int) =~= v@.subrange(lo as int, mid as int)
                + v@.subrange(mid as int, hi as int));
            lemma_multiset_commutative(
                v@.subrange(lo as int, mid as int),
                v@.subrange(mid as int, hi as int),
            );
        }
        merge(&left, &right)
    }
}

/// Returns the times of `v` from best to worst.
pub fn sort_times(v: &Vec<u64>) -> (out: Vec<u64>)
    ensures
        out@ == ranked(v@),
{
    let out = sort_range(v, 0, v.len());
    proof {
        assert(v@.subrange(0, v.len() as int) =~= v@);
        v@.lemma_sort_by_ensures(ascending());
        lemma_sorted_unique(out@, ranked(v@), ascending());
    }
    out
}

} // verus!
