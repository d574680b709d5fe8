//! Grouping: the mean of the solves in each fixed span of elapsed time.

use crate::record::Record;
use crate::series::{
    finished, lemma_mean_bound, lemma_total_bound, lemma_total_push, mean, outcomes, total, widen,
};
use crate::stats_type::StatsType;
use vstd::prelude::*;

verus! {

/// The solves of one span of elapsed time.
#[derive(Clone, Copy, Debug, PartialEq, Eq)]
pub struct Bucket {
    /// Where the span starts, in milliseconds since the first record.
    pub start: u64,
    /// Where the span ends, in milliseconds since the first record; the end
    /// itself belongs to the next span.
    pub end: u64,
    /// The mean of the effective times of the finished solves in the span,
    /// or `None` when there is none.
    pub value: Option<u64>,
    /// How many finished solves the span holds.
    pub count: usize,
}

/// The records are in the order of their timestamps.
pub open spec fn chronological(records: Seq<Record>) -> bool {
    forall|i: int, j: int|
        0 <= i <= j < records.len() ==> records[i].timestamp <= records[j].timestamp
}

/// Milliseconds from the first record to the record at position `i`.
pub open spec fn elapsed_ms(records: Seq<Record>, i: int) -> int {
    (records[i].timestamp - records[0].timestamp) * 1000
}

/// Milliseconds from the first record to the last.
pub open spec fn span_ms(records: Seq<Record>) -> int {
    if records.len() == 0 {
        0
    } else {
        elapsed_ms(records, records.len() - 1)
    }
}

/// The record at position `i` falls into bucket `k`, which spans the elapsed
/// times from `k * interval` up to, but not including, `(k + 1) * interval`.
pub open spec fn in_bucket(records: Seq<Record>, interval: int, k: int, i: int) -> bool {
    k * interval <= elapsed_ms(records, i) < (k + 1) * interval
}

/// The effective times of the finished solves among the first `upto` records
/// that fall into bucket `k`, in order.
pub open spec fn bucket_times(records: Seq<Record>, interval: int, k: int, upto: int) -> Seq<u64>
    decreases upto,
{
    if upto <= 0 {
        Seq::empty()
    } else {
        let rest = bucket_times(records, interval, k, upto - 1);
        match records[upto - 1].outcome() {
            Some(t) => if in_bucket(records, interval, k, upto - 1) {
                rest.push(t)
            } else {
                rest
            },
            None => rest,
        }
    }
}

/// How many buckets it takes to reach the last record.
pub open spec fn bucket_total(records: Seq<Record>, interval: int) -> int {
    span_ms(records) / interval + 1
}

/// `bucket` is bucket `k` of the records: it has the bounds of that span,
/// counts the finished solves in it and holds their mean.
pub open spec fn is_bucket(bucket: Bucket, records: Seq<Record>, interval: int, k: int) -> bool {
    let times = bucket_times(records, interval, k, records.len() as int);
    &&& bucket.start == k * interval
    &&& bucket.end == (k + 1) * interval
    &&& bucket.count == times.len()
    &&& widen(bucket.value) == mean(times)
}

/// `buckets` is the grouping of the records: the buckets from the first up
/// to the one that holds the last record, in order.
pub open spec fn is_grouping(buckets: Seq<Bucket>, records: Seq<Record>, interval: int) -> bool {
    &&& buckets.len() == bucket_total(records, interval)
    &&& forall|k: int|
        0 <= k < buckets.len() ==> is_bucket(#[trigger] buckets[k], records, interval, k)
}

/// There is something to group: the records span at least one interval and
/// some bucket holds a finished solve.
pub open spec fn groupable(records: Seq<Record>, interval: int) -> bool {
    &&& records.len() > 0
    &&& interval > 0
    &&& span_ms(records) >= interval
    &&& exists|k: int|
        0 <= k < bucket_total(records, interval) && (#[trigger] bucket_times(
            records,
            interval,
            k,
            records.len() as int,
        )).len() > 0
}

/// The buckets of a grouping follow one another without gap or overlap: each
/// is a proper span, and ends where the next starts.
pub proof fn lemma_buckets_contiguous(
    buckets: Seq<Bucket>,
    records: Seq<Record>,
    interval: int,
    k: int,
)
    requires
        is_grouping(buckets, records, interval),
        interval > 0,
        0 <= k < buckets.len(),
    ensures
        buckets[k].start < buckets[k].end,
        buckets[k].end - buckets[k].start == interval,
        k + 1 < buckets.len() ==> buckets[k].end == buckets[k + 1].start,
        k == 0 ==> buckets[k].start == 0,
{
    assert(is_bucket(buckets[k], records, interval, k));
    assert((k + 1) * interval == k * interval + interval) by (nonlinear_arith);
    assert(k == 0 ==> k * interval == 0) by (nonlinear_arith);
    if k + 1 < buckets.len() {
        assert(is_bucket(buckets[k + 1], records, interval, k + 1));
    }
}

/// Every record of a chronological session falls into exactly one bucket,
/// and that bucket is one of the grouping.
pub proof fn lemma_record_in_one_bucket(records: Seq<Record>, interval: int, i: int)
    requires
        chronological(records),
        interval > 0,
        0 <= i < records.len(),
    ensures
        0 <= elapsed_ms(records, i) / interval < bucket_total(records, interval),
        forall|k: int|
            in_bucket(records, interval, k, i) <==> k == elapsed_ms(records, i) / interval,
{
    let e = elapsed_ms(records, i);
    let s = span_ms(records);
    assert(0 <= e <= s);
    assert(0 <= e / interval <= s / interval) by (nonlinear_arith)
        requires
            0 <= e <= s,
            interval > 0,
    ;
    assert forall|k: int| in_bucket(records, interval, k, i) <==> k == e / interval by {
        lemma_bucket_index(e, interval, k);
    }
}

/// Some bucket of the grouping holds a finished solve exactly when the
/// session holds one: the buckets are all empty only if every solve is a
/// DNF.
pub proof fn lemma_some_bucket_filled(records: Seq<Record>, interval: int)
    requires
        chronological(records),
        interval > 0,
    ensures
        finished(outcomes(records)).len() > 0 <==> exists|k: int|
            0 <= k < bucket_total(records, interval) && (#[trigger] bucket_times(
                records,
                interval,
                k,
                records.len() as int,
            )).len() > 0,
{
    let n = records.len() as int;
    if finished(outcomes(records)).len() > 0 {
        lemma_finished_has_source(outcomes(records));
        let i = choose|i: int| 0 <= i < n && (#[trigger] outcomes(records)[i]).is_some();
        let k = elapsed_ms(records, i) / interval;
        lemma_record_in_one_bucket(records, interval, i);
        assert(in_bucket(records, interval, k, i));
        lemma_bucket_times_holds(records, interval, k, i, n);
    }
    if exists|k: int|
        0 <= k < bucket_total(records, interval) && (#[trigger] bucket_times(
            records,
            interval,
            k,
            n,
        )).len() > 0 {
        let k = choose|k: int|
            0 <= k < bucket_total(records, interval) && (#[trigger] bucket_times(
                records,
                interval,
                k,
                n,
            )).len() > 0;
        lemma_bucket_times_has_source(records, interval, k, n);
        let i = choose|i: int| 0 <= i < n && (#[trigger] records[i]).outcome().is_some();
        assert(outcomes(records)[i].is_some());
        lemma_finished_holds(outcomes(records), i);
    }
}

/// Where there is a finished time, some outcome is not a DNF.
proof fn lemma_finished_has_source(outcomes: Seq<Option<u64>>)
    requires
        finished(outcomes).len() > 0,
    ensures
        exists|i: int| 0 <= i < outcomes.len() && (#[trigger] outcomes[i]).is_some(),
    decreases outcomes.len(),
{
    if outcomes.last().is_some() {
        assert(outcomes[outcomes.len() - 1].is_some());
    } else {
        lemma_finished_has_source(outcomes.drop_last());
        let i = choose|i: int|
            0 <= i < outcomes.drop_last().len() && (#[trigger] outcomes.drop_last()[i]).is_some();
        assert(outcomes[i].is_some());
    }
}

/// An outcome that is not a DNF gives a finished time.
proof fn lemma_finished_holds(outcomes: Seq<Option<u64>>, i: int)
    requires
        0 <= i < outcomes.len(),
        outcomes[i].is_some(),
    ensures
        finished(outcomes).len() > 0,
    decreases outcomes.len(),
{
    if i < outcomes.len() - 1 {
        lemma_finished_holds(outcomes.drop_last(), i);
    }
}

/// Where a bucket holds a time, some record is finished.
proof fn lemma_bucket_times_has_source(records: Seq<Record>, interval: int, k: int, upto: int)
    requires
        0 <= upto <= records.len(),
        bucket_times(records, interval, k, upto).len() > 0,
    ensures
        exists|i: int| 0 <= i < upto && (#[trigger] records[i]).outcome().is_some(),
    decreases upto,
{
    if records[upto - 1].outcome().is_some() {
    } else {
        lemma_bucket_times_has_source(records, interval, k, upto - 1);
    }
}

/// A finished solve in bucket `k` gives the bucket a time.
proof fn lemma_bucket_times_holds(records: Seq<Record>, interval: int, k: int, i: int, upto: int)
    requires
        0 <= i < upto,
        records[i].outcome().is_some(),
        in_bucket(records, interval, k, i),
    ensures
        bucket_times(records, interval, k, upto).len() > 0,
    decreases upto,
{
    if i < upto - 1 {
        lemma_bucket_times_holds(records, interval, k, i, upto - 1);
    }
}

/// An elapsed time lies in span `k` exactly when dividing it by the interval
/// gives `k`.
proof fn lemma_bucket_index(e: int, interval: int, k: int)
    requires
        interval > 0,
    ensures
        (k * interval <= e < (k + 1) * interval) <==> k == e / interval,
{
    assert((k * interval <= e < (k + 1) * interval) <==> k == e / interval) by (nonlinear_arith)
        requires
            interval > 0,
    ;
}

/// Records outside bucket `k` add nothing to its times.
proof fn lemma_bucket_times_skip(records: Seq<Record>, interval: int, k: int, from: int, to: int)
    requires
        0 <= from <= to,
        forall|j: int| from <= j < to ==> !in_bucket(records, interval, k, j),
    ensures
        bucket_times(records, interval, k, to) == bucket_times(records, interval, k, from),
    decreases to - from,
{
    if from < to {
        lemma_bucket_times_skip(records, interval, k, from, to - 1);
    }
}

/// Groups the records by elapsed time and takes the mean of each group.
///
/// Bucket `k` spans the elapsed times from `k * interval` up to, but not
/// including, `(k + 1) * interval`, measured in milliseconds from the first
/// record. Within a bucket every kind of statistic comes down to the
/// arithmetic mean of the effective times of the finished solves: no window
/// is trimmed there, so the kind does not change the result. A bucket without
/// a finished solve holds `None`, not zero.
///
/// The result is `None` when there is not enough to group: no records, an
/// interval of zero, records that span less than one interval, or no
/// finished solve in any bucket.
pub fn grouping(records: &Vec<Record>, interval: u64, _kind: &StatsType) -> (grid: Option<
    Vec<Bucket>,
>)
    requires
        chronological(records@),
    ensures
        grid.is_some() <==> groupable(records@, interval as int),
        grid matches Some(buckets) ==> is_grouping(buckets@, records@, interval as int),
{
    let n = records.len();
    if n == 0 || interval == 0 {
        return None;
    }
    let origin = records[0].timestamp;
    let span: u64 = (records[n - 1].timestamp - origin) as u64 * 1000;
    if span < interval {
        return None;
    }
    let last: u64 = span / interval;
    let ghost step = interval as int;
    let mut buckets: Vec<Bucket> = Vec::new();
    let mut any = false;
    let mut i: usize = 0;
    let mut k: u64 = 0;
    while k <= last
        invariant
            n == records.len(),
            n > 0,
            chronological(records@),
            origin == records[0].timestamp,
            step == interval,
            interval > 0,
            span == span_ms(records@),
            last == span / interval,
            interval <= span < 0x1_0000_0000 * 1000,
            k <= last + 1,
            i <= n,
            buckets.len() == k,
            forall|j: int| 0 <= j < i ==> elapsed_ms(records@, j) < k * step,
            forall|j: int| i <= j < n ==> elapsed_ms(records@, j) >= k * step,
            forall|b: int| 0 <= b < k ==> is_bucket(#[trigger] buckets[b], records@, step, b),
            any <==> exists|b: int|
                0 <= b < k && (#[trigger] bucket_times(records@, step, b, n as int)).len() > 0,
        decreases last + 1 - k,
    {
        proof {
            assert(k * step <= span && (k + 1) * step == k * step + step) by (nonlinear_arith)
                requires
                    0 <= k <= span / (step as u64),
                    step > 0,
                    step == interval,
            ;
        }
        let start: u64 = k * interval;
        let end: u64 = start + interval;
        let mut sum: u128 = 0;
        let mut count: usize = 0;
        let ghost lo = i;
        proof {
            assert forall|j: int| 0 <= j < lo implies !in_bucket(records@, step, k as int, j) by {}
            lemma_bucket_times_skip(records@, step, k as int, 0, lo as int);
        }
        while i < n && (records[i].timestamp - origin) as u64 * 1000 < end
            invariant
                n == records.len(),
                chronological(records@),
                origin == records[0].timestamp,
                lo <= i <= n,
                start == k * step,
                end == (k + 1) * step,
                forall|j: int| 0 <= j < i ==> elapsed_ms(records@, j) < end,
                forall|j: int| i <= j < n ==> elapsed_ms(records@, j) >= start,
                sum == total(bucket_times(records@, step, k as int, i as int)),
                count == bucket_times(records@, step, k as int, i as int).len(),
                count <= i,
            decreases n - i,
        {
            let ghost so_far = bucket_times(records@, step, k as int, i as int);
            assert(in_bucket(records@, step, k as int, i as int));
            if let Some(t) = records[i].effective_time() {
                proof {
                    lemma_total_push(so_far, t);
                    lemma_total_bound(so_far.push(t));
                    assert(so_far.push(t).len() * u64::MAX <= u128::MAX) by (nonlinear_arith)
                        requires
                            so_far.push(t).len() <= usize::MAX,
                    ;
                }
                sum = sum + t as u128;
                count = count + 1;
            }
            i += 1;
        }
        proof {
            assert forall|j: int| i <= j < n implies !in_bucket(records@, step, k as int, j) by {
                assert(elapsed_ms(records@, i as int) >= end);
                assert(records@[i as int].timestamp <= records@[j].timestamp);
            }
            lemma_bucket_times_skip(records@, step, k as int, i as int, n as int);
            lemma_mean_bound(bucket_times(records@, step, k as int, n as int));
        }
        let value = if count == 0 {
            None
        } else {
            Some((sum / (count as u128)) as u64)
        };
        let ghost before = buckets@;
        buckets.push(Bucket { start, end, value, count });
        proof {
            assert(forall|b: int| 0 <= b < k ==> buckets@[b] == before[b]);
            assert(is_bucket(buckets@[k as int], records@, step, k as int));
        }
        any = any || count > 0;
        k += 1;
    }
    proof {
        assert(bucket_total(records@, step) == k);
    }
    if any {
        Some(buckets)
    } else {
        None
    }
}

} // verus!
