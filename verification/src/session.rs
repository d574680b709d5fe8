//! A session: an ordered list of records with its identity, and the queries
//! over it.

use crate::classify::{
    is_overview, is_solve_states, overview, solve_states, Overview, SolveStates,
};
use crate::comments::{commented_records, is_commented_list};
use crate::grouping::{chronological, groupable, grouping, is_grouping, Bucket};
use crate::pb::{is_history, never_defined, pb_breakers, PBEntry};
use crate::record::Record;
use crate::rolling::rolling_statistic;
use crate::series::{outcomes, rolling, widen};
use crate::stats_type::StatsType;
use crate::trend::{is_trend, trend, TrendPoint};
use vstd::prelude::*;

verus! {

/// The solves of one sitting, in the order in which they were made.
///
/// A session is built once and never changes. Its records are always in the
/// order of their timestamps.
pub struct Session {
    id: u64,
    name: String,
    records: Vec<Record>,
}

impl View for Session {
    type V = Seq<Record>;

    closed spec fn view(&self) -> Seq<Record> {
        self.records@
    }
}

/// Whether the records are in the order of their timestamps.
pub fn is_chronological(records: &Vec<Record>) -> (b: bool)
    ensures
        b == chronological(records@),
{
    let n = records.len();
    if n == 0 {
        return true;
    }
    let mut i: usize = 1;
    while i < n
        invariant
            1 <= i <= n,
            n == records.len(),
            forall|a: int, b: int| 0 <= a <= b < i ==> records[a].timestamp <= records[b].timestamp,
        decreases n - i,
    {
        if records[i - 1].timestamp > records[i].timestamp {
            return false;
        }
        i += 1;
    }
    true
}

impl Session {
    #[verifier::type_invariant]
    spec fn in_order(&self) -> bool {
        chronological(self.records@)
    }

    /// The number that identifies the session.
    pub closed spec fn spec_id(&self) -> u64 {
        self.id
    }

    /// The name of the session.
    pub closed spec fn spec_name(&self) -> Seq<char> {
        self.name@
    }

    /// Builds a session from records in chronological order; `None` when
    /// some record is older than one before it.
    pub fn new(id: u64, name: String, records: Vec<Record>) -> (session: Option<Session>)
        ensures
            session.is_some() <==> chronological(records@),
            session matches Some(s) ==> s@ == records@ && s.spec_id() == id && s.spec_name()
                == name@,
    {
        if is_chronological(&records) {
            Some(Session { id, name, records })
        } else {
            None
        }
    }

    #[verifier::when_used_as_spec(spec_id)]
    pub fn id(&self) -> (id: u64)
        ensures
            id == self.spec_id(),
    {
        self.id
    }

    pub fn name(&self) -> (name: &String)
        ensures
            name@ == self.spec_name(),
    {
        &self.name
    }

    /// The records, in chronological order.
    pub fn records(&self) -> (records: &Vec<Record>)
        ensures
            records@ == self@,
            chronological(records@),
    {
        proof {
            use_type_invariant(self);
        }
        &self.records
    }

    /// The number of records.
    pub fn len(&self) -> (n: usize)
        ensures
            n == self@.len(),
    {
        self.records.len()
    }

    /// Counts the solves under each judgement; the three counts add up to
    /// the number of records.
    pub fn solve_states(&self) -> (states: SolveStates)
        ensures
            is_solve_states(states, self@),
            states.ok + states.plus2 + states.dnf == self@.len() <= usize::MAX,
    {
        solve_states(&self.records)
    }

    /// Best, worst, mean and average of the session.
    pub fn overview(&self) -> (o: Overview)
        ensures
            is_overview(o, self@),
    {
        overview(&self.records)
    }

    /// The statistic of the given kind at position `i`.
    pub fn rolling_statistic(&self, kind: &StatsType, i: usize) -> (value: Option<u64>)
        ensures
            widen(value) == rolling(outcomes(self@), *kind, i as int),
    {
        rolling_statistic(&self.records, kind, i)
    }

    /// The personal-best history of the statistic of the given kind, or
    /// `None` when the statistic is defined nowhere.
    pub fn pb_breakers(&self, kind: &StatsType) -> (history: Option<Vec<PBEntry>>)
        ensures
            history.is_none() <==> never_defined(outcomes(self@), *kind),
            history matches Some(entries) ==> entries.len() > 0 && is_history(
                entries@,
                self@,
                *kind,
                self@.len() as int,
            ),
    {
        pb_breakers(&self.records, kind)
    }

    /// The grouping of the session by spans of `interval` milliseconds, or
    /// `None` when there is not enough to group.
    pub fn grouping(&self, interval: u64, kind: &StatsType) -> (grid: Option<Vec<Bucket>>)
        ensures
            grid.is_some() <==> groupable(self@, interval as int),
            grid matches Some(buckets) ==> is_grouping(buckets@, self@, interval as int),
    {
        proof {
            use_type_invariant(self);
        }
        grouping(&self.records, interval, kind)
    }

    /// The trend series of the statistic of the given kind, or `None` when
    /// the statistic is defined nowhere.
    pub fn trend(&self, kind: &StatsType) -> (series: Option<Vec<TrendPoint>>)
        ensures
            series.is_none() <==> never_defined(outcomes(self@), *kind),
            series matches Some(points) ==> is_trend(points@, outcomes(self@), *kind),
    {
        trend(&self.records, kind)
    }

    /// The records that carry a comment, each with its position.
    pub fn commented_records(&self) -> (list: Vec<(usize, Record)>)
        ensures
            is_commented_list(list@, self@),
    {
        commented_records(&self.records)
    }
}

} // verus!
