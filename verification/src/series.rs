//! The mathematics of the statistics, over sequences of outcomes.
//!
//! An outcome is the effective time of one solve in milliseconds, or `None`
//! for a DNF.

use crate::record::Record;
use crate::sort::{lemma_ranked, ranked};
use crate::stats_type::{conventional_trim, StatsType};
use vstd::prelude::*;

verus! {

/// The outcome of each record, in order.
pub open spec fn outcomes(records: Seq<Record>) -> Seq<Option<u64>> {
    records.map_values(|r: Record| r.outcome())
}

/// The times of the finished solves, in order; DNFs are left out.
pub open spec fn finished(outcomes: Seq<Option<u64>>) -> Seq<u64>
    decreases outcomes.len(),
{
    if outcomes.len() == 0 {
        Seq::empty()
    } else {
        let rest = finished(outcomes.drop_last());
        match outcomes.last() {
            Some(t) => rest.push(t),
            None => rest,
        }
    }
}

/// How many of the outcomes are DNFs.
pub open spec fn dnf_count(outcomes: Seq<Option<u64>>) -> nat
    decreases outcomes.len(),
{
    if outcomes.len() == 0 {
        0
    } else {
        dnf_count(outcomes.drop_last()) + if outcomes.last().is_none() {
            1nat
        } else {
            0nat
        }
    }
}

/// The sum of the times.
pub open spec fn total(times: Seq<u64>) -> nat
    decreases times.len(),
{
    if times.len() == 0 {
        0
    } else {
        total(times.drop_last()) + times.last() as nat
    }
}

/// The arithmetic mean of the times, rounded down; undefined for no times.
pub open spec fn mean(times: Seq<u64>) -> Option<nat> {
    if times.len() == 0 {
        None
    } else {
        Some(total(times) / times.len())
    }
}

/// The trimmed average of a window: rank the outcomes with every DNF behind
/// every time, set aside the `trim` best and the `trim` worst, and take the
/// mean of what is left. It is undefined when trimming would leave nothing,
/// or when a DNF would be left among the outcomes to average.
pub open spec fn trimmed_mean(window: Seq<Option<u64>>, trim: nat) -> Option<nat> {
    if 2 * trim < window.len() && dnf_count(window) <= trim {
        mean(ranked(finished(window)).subrange(trim as int, window.len() - trim))
    } else {
        None
    }
}

/// The statistic of the given kind at position `i`, or `None` where it is
/// undefined.
pub open spec fn rolling(outcomes: Seq<Option<u64>>, kind: StatsType, i: int) -> Option<nat> {
    if 0 <= i < outcomes.len() {
        match kind {
            StatsType::Single => match outcomes[i] {
                Some(t) => Some(t as nat),
                None => None,
            },
            StatsType::AverageOfN(window, trim) => if window <= i + 1 {
                trimmed_mean(outcomes.subrange(i + 1 - window, i + 1), trim as nat)
            } else {
                None
            },
            StatsType::CumulativeMean => mean(finished(outcomes.take(i + 1))),
            StatsType::CumulativeAverage => trimmed_mean(
                outcomes.take(i + 1),
                conventional_trim((i + 1) as nat),
            ),
        }
    } else {
        None
    }
}

/// `m` is the smallest of the times.
pub open spec fn is_minimum(times: Seq<u64>, m: u64) -> bool {
    times.contains(m) && forall|j: int| 0 <= j < times.len() ==> m <= times[j]
}

/// `m` is the largest of the times.
pub open spec fn is_maximum(times: Seq<u64>, m: u64) -> bool {
    times.contains(m) && forall|j: int| 0 <= j < times.len() ==> times[j] <= m
}

/// A computed value, read as a natural number.
pub open spec fn widen(value: Option<u64>) -> Option<nat> {
    match value {
        Some(v) => Some(v as nat),
        None => None,
    }
}

pub proof fn lemma_finished_push(outcomes: Seq<Option<u64>>, last: Option<u64>)
    ensures
        finished(outcomes.push(last)) == match last {
            Some(t) => finished(outcomes).push(t),
            None => finished(outcomes),
        },
        dnf_count(outcomes.push(last)) == dnf_count(outcomes) + if last.is_none() {
            1nat
        } else {
            0nat
        },
{
    assert(outcomes.push(last).drop_last() =~= outcomes);
}

/// Every outcome is either a finished time or a DNF.
pub proof fn lemma_finished_len(outcomes: Seq<Option<u64>>)
    ensures
        finished(outcomes).len() + dnf_count(outcomes) == outcomes.len(),
    decreases outcomes.len(),
{
    if outcomes.len() > 0 {
        lemma_finished_len(outcomes.drop_last());
    }
}

pub proof fn lemma_total_push(times: Seq<u64>, last: u64)
    ensures
        total(times.push(last)) == total(times) + last,
{
    assert(times.push(last).drop_last() =~= times);
}

/// A sum of `n` times is at most `n` times the largest value a time can have.
pub proof fn lemma_total_bound(times: Seq<u64>)
    ensures
        total(times) <= times.len() * u64::MAX,
    decreases times.len(),
{
    if times.len() > 0 {
        lemma_total_bound(times.drop_last());
        assert((times.len() - 1) * u64::MAX + u64::MAX == times.len() * u64::MAX)
            by (nonlinear_arith);
    }
}

/// A mean is no larger than the largest value a time can have.
pub proof fn lemma_mean_bound(times: Seq<u64>)
    ensures
        mean(times) matches Some(m) ==> m <= u64::MAX,
{
    if times.len() > 0 {
        lemma_total_bound(times);
        let n = times.len() as int;
        let t = total(times) as int;
        assert(t / n <= u64::MAX) by (nonlinear_arith)
            requires
                n > 0,
                0 <= t <= n * u64::MAX,
        ;
    }
}

/// The statistic of one solve is the average of a window of one with nothing
/// trimmed.
pub proof fn lemma_single_is_window_of_one(outcomes: Seq<Option<u64>>, i: int)
    ensures
        rolling(outcomes, StatsType::Single, i) == rolling(
            outcomes,
            StatsType::AverageOfN(1, 0),
            i,
        ),
{
    if 0 <= i < outcomes.len() {
        let window = outcomes.subrange(i, i + 1);
        assert(window.drop_last() =~= Seq::<Option<u64>>::empty());
        assert(finished(window.drop_last()) =~= Seq::<u64>::empty());
        assert(dnf_count(window.drop_last()) == 0);
        match outcomes[i] {
            Some(t) => {
                let times = finished(window);
                assert(times =~= seq![t]);
                lemma_ranked(times);
                let kept = ranked(times).subrange(0, 1);
                assert(ranked(times).to_multiset().count(t) > 0) by {
                    assert(times[0] == t);
                    times.to_multiset_ensures();
                }
                ranked(times).to_multiset_ensures();
                assert(ranked(times).contains(t));
                assert(kept =~= seq![t]);
                assert(kept.drop_last() =~= Seq::<u64>::empty());
                assert(total(kept.drop_last()) == 0);
                assert(total(kept) == t);
            },
            None => {},
        }
    }
}

/// The window that ends at position `i` is defined exactly when it lies
/// within the session, trimming leaves something, and no more DNFs fall in
/// it than are trimmed at one end.
pub proof fn lemma_rolling_defined(outcomes: Seq<Option<u64>>, kind: StatsType, i: int)
    ensures
        rolling(outcomes, kind, i).is_some() <==> 0 <= i < outcomes.len() && match kind {
            StatsType::Single => outcomes[i].is_some(),
            StatsType::AverageOfN(window, trim) => {
                &&& 2 * trim < window <= i + 1
                &&& dnf_count(outcomes.subrange(i + 1 - window, i + 1)) <= trim
            },
            StatsType::CumulativeMean => dnf_count(outcomes.take(i + 1)) < i + 1,
            StatsType::CumulativeAverage => dnf_count(outcomes.take(i + 1)) <= conventional_trim(
                (i + 1) as nat,
            ),
        },
{
    if 0 <= i < outcomes.len() {
        let prefix = outcomes.take(i + 1);
        lemma_finished_len(prefix);
        match kind {
            StatsType::AverageOfN(window, trim) => {
                if window <= i + 1 {
                    let w = outcomes.subrange(i + 1 - window, i + 1);
                    lemma_finished_len(w);
                    lemma_ranked(finished(w));
                }
            },
            StatsType::CumulativeAverage => {
                lemma_ranked(finished(prefix));
            },
            _ => {},
        }
    }
}

} // verus!
