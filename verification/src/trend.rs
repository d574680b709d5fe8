//! Trend series: the statistic at every position, with gaps where it is
//! undefined.

use crate::pb::never_defined;
use crate::record::Record;
use crate::rolling::rolling_statistic;
use crate::series::{outcomes, rolling, widen};
use crate::stats_type::StatsType;
use vstd::prelude::*;

verus! {

/// One point of a trend series.
#[derive(Clone, Copy, Debug, PartialEq, Eq)]
pub struct TrendPoint {
    /// The position of the record.
    pub position: usize,
    /// The statistic there in milliseconds, or `None` for a gap.
    pub value: Option<u64>,
}

/// `points` is the trend series of the outcomes: one point for each
/// position, in order, with the statistic there or a gap.
pub open spec fn is_trend(points: Seq<TrendPoint>, outcomes: Seq<Option<u64>>, kind: StatsType)
    -> bool {
    &&& points.len() == outcomes.len()
    &&& forall|i: int|
        0 <= i < points.len() ==> (#[trigger] points[i]).position == i && widen(points[i].value)
            == rolling(outcomes, kind, i)
}

/// The outcomes and the kind of statistic determine the trend series: any
/// two series for them are the same, point for point.
pub proof fn lemma_trend_is_determined(
    first: Seq<TrendPoint>,
    second: Seq<TrendPoint>,
    outcomes: Seq<Option<u64>>,
    kind: StatsType,
)
    requires
        is_trend(first, outcomes, kind),
        is_trend(second, outcomes, kind),
    ensures
        first == second,
{
    assert forall|i: int| 0 <= i < first.len() implies first[i] == second[i] by {
        assert(first[i].position == second[i].position);
        assert(widen(first[i].value) == widen(second[i].value));
    }
    assert(first =~= second);
}

/// The trend series of the statistic of the given kind.
///
/// The result is `None` exactly when the statistic is defined nowhere;
/// otherwise it holds one point for every record.
pub fn trend(records: &Vec<Record>, kind: &StatsType) -> (series: Option<Vec<TrendPoint>>)
    ensures
        series.is_none() <==> never_defined(outcomes(records@), *kind),
        series matches Some(points) ==> is_trend(points@, outcomes(records@), *kind),
{
    let ghost all = outcomes(records@);
    let n = records.len();
    let mut points: Vec<TrendPoint> = Vec::new();
    let mut defined = false;
    let mut i: usize = 0;
    while i < n
        invariant
            i <= n,
            n == records.len(),
            all == outcomes(records@),
            points.len() == i,
            forall|j: int|
                0 <= j < i ==> (#[trigger] points[j]).position == j && widen(points[j].value)
                    == rolling(all, *kind, j),
            !defined ==> forall|j: int|
                0 <= j < i ==> (#[trigger] rolling(all, *kind, j)).is_none(),
            defined ==> exists|j: int| 0 <= j < i && (#[trigger] rolling(all, *kind, j)).is_some(),
        decreases n - i,
    {
        let value = rolling_statistic(records, kind, i);
        if value.is_some() {
            defined = true;
            assert(rolling(all, *kind, i as int).is_some());
        }
        points.push(TrendPoint { position: i, value });
        i += 1;
    }
    if defined {
        Some(points)
    } else {
        None
    }
}

} // verus!
