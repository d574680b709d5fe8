//! Solve-state counts and the overview of a session.

use crate::record::{Penalty, Record};
use crate::rolling::{finished_times, mean_of, window_average};
use crate::series::{
    finished, is_maximum, is_minimum, lemma_finished_push, mean, outcomes, rolling, trimmed_mean,
    widen,
};
use crate::stats_type::{conventional_trim, trim_for, StatsType};
use vstd::prelude::*;

verus! {

/// How many solves of a session fall under each judgement.
#[derive(Clone, Copy, Debug, PartialEq, Eq)]
pub struct SolveStates {
    /// Solves without penalty.
    pub ok: usize,
    /// Solves with two seconds added.
    pub plus2: usize,
    /// Solves that did not finish.
    pub dnf: usize,
}

/// Best, worst, mean and average of a session, each `None` where undefined.
#[derive(Clone, Copy, Debug, PartialEq, Eq)]
pub struct Overview {
    /// The smallest effective time; DNFs are ignored.
    pub best: Option<u64>,
    /// The largest effective time; DNFs are ignored.
    pub worst: Option<u64>,
    /// The mean of the effective times of the finished solves.
    pub mean: Option<u64>,
    /// The trimmed average of all solves.
    pub average: Option<u64>,
}

/// How many of the records carry the given penalty.
pub open spec fn count_with(records: Seq<Record>, penalty: Penalty) -> nat
    decreases records.len(),
{
    if records.len() == 0 {
        0
    } else {
        count_with(records.drop_last(), penalty) + if records.last().penalty == penalty {
            1nat
        } else {
            0nat
        }
    }
}

/// `count` out of `total` in hundredths of a percent, rounded to the nearest
/// hundredth with ties going to the even one; undefined out of nothing.
pub open spec fn share(count: nat, total: nat) -> Option<nat> {
    if total == 0 {
        None
    } else {
        let scaled = count * 10000;
        let quotient = scaled / total;
        let rest = scaled % total;
        if 2 * rest > total || (2 * rest == total && quotient % 2 == 1) {
            Some(quotient + 1)
        } else {
            Some(quotient)
        }
    }
}

/// `states` counts the records under each judgement.
pub open spec fn is_solve_states(states: SolveStates, records: Seq<Record>) -> bool {
    &&& states.ok == count_with(records, Penalty::Clean)
    &&& states.plus2 == count_with(records, Penalty::PlusTwo)
    &&& states.dnf == count_with(records, Penalty::Dnf)
}

/// `o` is the overview of the records: best and worst over the finished
/// solves, their mean, and the trimmed average of all the solves.
pub open spec fn is_overview(o: Overview, records: Seq<Record>) -> bool {
    let times = finished(outcomes(records));
    &&& match o.best {
        Some(m) => is_minimum(times, m),
        None => times.len() == 0,
    }
    &&& match o.worst {
        Some(m) => is_maximum(times, m),
        None => times.len() == 0,
    }
    &&& widen(o.mean) == mean(times)
    &&& widen(o.average) == trimmed_mean(outcomes(records), conventional_trim(records.len()))
}

/// The mean and the average of an overview are the cumulative mean and the
/// cumulative average at the last position.
pub proof fn lemma_overview_is_last_rolling(o: Overview, records: Seq<Record>)
    requires
        is_overview(o, records),
    ensures
        widen(o.mean) == rolling(outcomes(records), StatsType::CumulativeMean, records.len() - 1),
        widen(o.average) == rolling(
            outcomes(records),
            StatsType::CumulativeAverage,
            records.len() - 1,
        ),
{
    let all = outcomes(records);
    assert(all.take(records.len() as int) =~= all);
    if records.len() == 0 {
        assert(finished(all) =~= Seq::<u64>::empty());
    }
}

/// Every record carries exactly one of the three penalties, so the three
/// counts add up to the number of records.
pub proof fn lemma_counts_partition(records: Seq<Record>)
    ensures
        count_with(records, Penalty::Clean) + count_with(records, Penalty::PlusTwo) + count_with(
            records,
            Penalty::Dnf,
        ) == records.len(),
    decreases records.len(),
{
    if records.len() > 0 {
        lemma_counts_partition(records.drop_last());
    }
}

/// Counts the solves under each judgement.
pub fn solve_states(records: &Vec<Record>) -> (states: SolveStates)
    ensures
        is_solve_states(states, records@),
        states.ok + states.plus2 + states.dnf == records.len(),
{
    let mut ok: usize = 0;
    let mut plus2: usize = 0;
    let mut dnf: usize = 0;
    let mut i: usize = 0;
    while i < records.len()
        invariant
            i <= records.len(),
            ok == count_with(records@.take(i as int), Penalty::Clean),
            plus2 == count_with(records@.take(i as int), Penalty::PlusTwo),
            dnf == count_with(records@.take(i as int), Penalty::Dnf),
            ok + plus2 + dnf == i,
        decreases records.len() - i,
    {
        proof {
            assert(records@.take(i + 1).drop_last() =~= records@.take(i as int));
        }
        match records[i].penalty {
            Penalty::Clean => {
                ok += 1;
            },
            Penalty::PlusTwo => {
                plus2 += 1;
            },
            Penalty::Dnf => {
                dnf += 1;
            },
        }
        i += 1;
    }
    proof {
        assert(records@.take(i as int) =~= records@);
    }
    SolveStates { ok, plus2, dnf }
}

/// `count` out of `total` in hundredths of a percent.
fn percentage(count: usize, total: usize) -> (p: Option<u64>)
    requires
        count <= total,
    ensures
        widen(p) == share(count as nat, total as nat),
        p matches Some(v) ==> v <= 10000,
{
    if total == 0 {
        return None;
    }
    let scaled: u128 = count as u128 * 10000;
    let quotient: u128 = scaled / (total as u128);
    let rest: u128 = scaled % (total as u128);
    proof {
        let c = count as int;
        let t = total as int;
        assert((c * 10000) / t <= 10000 && (c == t ==> (c * 10000) % t == 0 && (c * 10000) / t
            == 10000) && (c < t ==> (c * 10000) / t < 10000 || (c * 10000) % t == 0))
            by (nonlinear_arith)
            requires
                0 <= c <= t,
                t > 0,
        ;
    }
    let up = 2 * rest > total as u128 || (2 * rest == total as u128 && quotient % 2 == 1);
    if up {
        Some((quotient + 1) as u64)
    } else {
        Some(quotient as u64)
    }
}

impl SolveStates {
    /// The number of solves counted.
    pub open spec fn sum(&self) -> nat {
        (self.ok + self.plus2 + self.dnf) as nat
    }

    /// The share of `+2` solves among all solves, DNFs included, in
    /// hundredths of a percent; `None` where nothing was counted or the
    /// counts do not fit the machine.
    pub fn plus2_percentage(&self) -> (p: Option<u64>)
        ensures
            self.sum() <= usize::MAX ==> widen(p) == share(self.plus2 as nat, self.sum()),
            self.sum() > usize::MAX ==> p.is_none(),
    {
        match self.total() {
            Some(total) => percentage(self.plus2, total),
            None => None,
        }
    }

    /// The share of DNFs among all solves, in hundredths of a percent;
    /// `None` where nothing was counted or the counts do not fit the machine.
    pub fn dnf_percentage(&self) -> (p: Option<u64>)
        ensures
            self.sum() <= usize::MAX ==> widen(p) == share(self.dnf as nat, self.sum()),
            self.sum() > usize::MAX ==> p.is_none(),
    {
        match self.total() {
            Some(total) => percentage(self.dnf, total),
            None => None,
        }
    }

    /// The number of solves counted, where it fits the machine.
    pub fn total(&self) -> (n: Option<usize>)
        ensures
            self.sum() <= usize::MAX ==> n == Some(self.sum() as usize),
            self.sum() > usize::MAX ==> n.is_none(),
    {
        match self.ok.checked_add(self.plus2) {
            Some(partial) => partial.checked_add(self.dnf),
            None => None,
        }
    }
}

/// Best, worst, mean and average of the records.
///
/// Best and worst range over the finished solves only and are `None` when
/// there is none; so is the mean. The average is the trimmed average of all
/// the solves. All four are `None` for no records.
pub fn overview(records: &Vec<Record>) -> (o: Overview)
    ensures
        is_overview(o, records@),
{
    let n = records.len();
    let ghost all = outcomes(records@);
    let mut best: Option<u64> = None;
    let mut worst: Option<u64> = None;
    let mut i: usize = 0;
    while i < n
        invariant
            i <= n,
            n == records.len(),
            all == outcomes(records@),
            match best {
                Some(m) => is_minimum(finished(all.take(i as int)), m),
                None => finished(all.take(i as int)).len() == 0,
            },
            match worst {
                Some(m) => is_maximum(finished(all.take(i as int)), m),
                None => finished(all.take(i as int)).len() == 0,
            },
        decreases n - i,
    {
        let outcome = records[i].effective_time();
        let ghost before = finished(all.take(i as int));
        proof {
            lemma_finished_push(all.take(i as int), outcome);
            assert(all.take(i + 1) =~= all.take(i as int).push(outcome));
        }
        if let Some(t) = outcome {
            let ghost after = before.push(t);
            assert(after[before.len() as int] == t);
            assert(forall|j: int| 0 <= j < before.len() ==> after[j] == before[j]);
            best = match best {
                Some(m) => {
                    let ghost at = choose|j: int| 0 <= j < before.len() && before[j] == m;
                    assert(after[at] == m);
                    if t < m {
                        Some(t)
                    } else {
                        Some(m)
                    }
                },
                None => Some(t),
            };
            worst = match worst {
                Some(m) => {
                    let ghost at = choose|j: int| 0 <= j < before.len() && before[j] == m;
                    assert(after[at] == m);
                    if t > m {
                        Some(t)
                    } else {
                        Some(m)
                    }
                },
                None => Some(t),
            };
        }
        i += 1;
    }
    let times = finished_times(records, 0, n);
    proof {
        assert(all.take(n as int) =~= all);
        assert(all.subrange(0, n as int) =~= all);
        assert(times@.subrange(0, times.len() as int) =~= times@);
    }
    let mean = mean_of(&times, 0, times.len());
    let average = window_average(records, 0, n, trim_for(n));
    Overview { best, worst, mean, average }
}

} // verus!
