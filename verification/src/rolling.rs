//! Rolling statistics: the statistic of a given kind at one position.

use crate::record::Record;
use crate::series::{
    finished, lemma_finished_len, lemma_finished_push, lemma_mean_bound, lemma_total_bound,
    lemma_total_push, mean, outcomes, rolling, total, trimmed_mean, widen,
};
use crate::sort::{lemma_ranked, sort_times};
use crate::stats_type::{trim_for, StatsType};
use vstd::prelude::*;

verus! {

/// Collects the times of the finished solves at positions `lo..hi`.
pub(crate) fn finished_times(records: &Vec<Record>, lo: usize, hi: usize) -> (times: Vec<u64>)
    requires
        lo <= hi <= records.len(),
    ensures
        times@ == finished(outcomes(records@).subrange(lo as int, hi as int)),
{
    let ghost all = outcomes(records@);
    let mut times: Vec<u64> = Vec::new();
    let mut i: usize = lo;
    assert(all.subrange(lo as int, lo as int) =~= Seq::empty());
    while i < hi
        invariant
            lo <= i <= hi <= records.len(),
            all == outcomes(records@),
            times@ == finished(all.subrange(lo as int, i as int)),
        decreases hi - i,
    {
        let outcome = records[i].effective_time();
        proof {
            lemma_finished_push(all.subrange(lo as int, i as int), outcome);
            assert(all.subrange(lo as int, i + 1) =~= all.subrange(lo as int, i as int).push(
                outcome,
            ));
        }
        if let Some(t) = outcome {
            times.push(t);
        }
        i += 1;
    }
    times
}

/// The mean of the times at positions `lo..hi`, rounded down.
pub(crate) fn mean_of(times: &Vec<u64>, lo: usize, hi: usize) -> (m: Option<u64>)
    requires
        lo <= hi <= times.len(),
    ensures
        widen(m) == mean(times@.subrange(lo as int, hi as int)),
{
    if lo == hi {
        return None;
    }
    let mut sum: u128 = 0;
    let mut k: usize = lo;
    assert(times@.subrange(lo as int, lo as int) =~= Seq::empty());
    while k < hi
        invariant
            lo <= k <= hi <= times.len(),
            sum == total(times@.subrange(lo as int, k as int)),
        decreases hi - k,
    {
        proof {
            let so_far = times@.subrange(lo as int, k as int);
            lemma_total_push(so_far, times[k as int]);
            assert(times@.subrange(lo as int, k + 1) =~= so_far.push(times[k as int]));
            lemma_total_bound(times@.subrange(lo as int, k + 1));
            assert((k + 1 - lo) * u64::MAX <= u128::MAX) by (nonlinear_arith)
                requires
                    0 <= k + 1 - lo <= u64::MAX,
            ;
        }
        sum = sum + times[k] as u128;
        k += 1;
    }
    proof {
        lemma_mean_bound(times@.subrange(lo as int, hi as int));
    }
    Some((sum / ((hi - lo) as u128)) as u64)
}

/// The trimmed average of the records at positions `lo..hi`.
pub(crate) fn window_average(records: &Vec<Record>, lo: usize, hi: usize, trim: usize) -> (m:
    Option<u64>)
    requires
        lo <= hi <= records.len(),
    ensures
        widen(m) == trimmed_mean(outcomes(records@).subrange(lo as int, hi as int), trim as nat),
{
    let width = hi - lo;
    if width <= trim || width - trim <= trim {
        return None;
    }
    let times = finished_times(records, lo, hi);
    proof {
        lemma_finished_len(outcomes(records@).subrange(lo as int, hi as int));
    }
    if width - times.len() > trim {
        return None;
    }
    let ranked_times = sort_times(&times);
    proof {
        lemma_ranked(times@);
    }
    mean_of(&ranked_times, trim, width - trim)
}

/// The statistic of the given kind at position `i`.
///
/// `Single` is the solve's own effective time. `AverageOfN(window, trim)` is
/// the trimmed average of the `window` solves that end at `i`.
/// `CumulativeMean` is the mean of the finished solves up to `i`, and
/// `CumulativeAverage` the trimmed average of every solve up to `i`. The
/// result is `None` wherever the statistic is undefined, and for a position
/// outside the records.
pub fn rolling_statistic(records: &Vec<Record>, kind: &StatsType, i: usize) -> (value: Option<u64>)
    ensures
        widen(value) == rolling(outcomes(records@), *kind, i as int),
{
    if i >= records.len() {
        return None;
    }
    match kind {
        StatsType::Single => records[i].effective_time(),
        StatsType::AverageOfN(window, trim) => {
            if *window <= i + 1 {
                window_average(records, i + 1 - *window, i + 1, *trim)
            } else {
                None
            }
        },
        StatsType::CumulativeMean => {
            let times = finished_times(records, 0, i + 1);
            proof {
                assert(times@.subrange(0, times.len() as int) =~= times@);
            }
            mean_of(&times, 0, times.len())
        },
        StatsType::CumulativeAverage => window_average(records, 0, i + 1, trim_for(i + 1)),
    }
}

} // verus!
