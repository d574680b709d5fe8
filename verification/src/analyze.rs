//! Analyzing sessions: for each session and each analysis asked for, the
//! values to show or the notice to give in their place.

use crate::classify::{is_overview, is_solve_states, share, Overview, SolveStates};
use crate::comments::is_commented_list;
use crate::grouping::{groupable, is_grouping, Bucket};
use crate::pb::{is_history, never_defined, PBEntry};
use crate::record::Record;
use crate::series::{outcomes, widen};
use crate::session::Session;
use crate::stats_type::StatsType;
use crate::trend::{is_trend, TrendPoint};
use vstd::prelude::*;

verus! {

/// An analysis that can be asked of a session.
#[derive(Clone, Copy, Debug, PartialEq, Eq, Structural)]
pub enum Analyze {
    /// Best, worst, mean and average, and the solve-state counts.
    Overview,
    /// The personal-best history of a statistic.
    PbHistory(StatsType),
    /// The grouping of a statistic by spans of so many milliseconds.
    Grouping(StatsType, u64),
    /// The trend of a statistic.
    Trending(StatsType),
    /// The records that carry a comment.
    Commented,
}

/// Why an analysis has nothing to show.
#[derive(Clone, Copy, Debug, PartialEq, Eq, Structural)]
pub enum Notice {
    /// The statistic is defined nowhere in the session.
    NotEnoughRecords(StatsType),
    /// The session holds too little to group by spans of so many
    /// milliseconds.
    GroupingFailed(u64),
    /// No record carries a comment.
    NoCommentedRecord,
}

/// The outcome of one analysis of one session.
#[derive(Debug, PartialEq, Eq)]
pub enum Section {
    Overview {
        overview: Overview,
        states: SolveStates,
        /// The share of `+2` solves in hundredths of a percent.
        plus2_share: Option<u64>,
        /// The share of DNFs in hundredths of a percent.
        dnf_share: Option<u64>,
    },
    PbHistory { kind: StatsType, entries: Vec<PBEntry> },
    Grouping { kind: StatsType, interval: u64, buckets: Vec<Bucket> },
    Trending { kind: StatsType, points: Vec<TrendPoint> },
    Commented { list: Vec<(usize, Record)> },
    Notice(Notice),
}

/// `section` is the outcome of the analysis `option` of the records.
///
/// An overview is always given; its shares are out of all the records, DNFs
/// included, and undefined for no records. Every other analysis gives its
/// values where there are any, and otherwise the notice that says why not.
pub open spec fn is_section(section: Section, records: Seq<Record>, option: Analyze) -> bool {
    match option {
        Analyze::Overview => section matches Section::Overview {
            overview,
            states,
            plus2_share,
            dnf_share,
        } && {
            &&& is_overview(overview, records)
            &&& is_solve_states(states, records)
            &&& widen(plus2_share) == share(states.plus2 as nat, records.len())
            &&& widen(dnf_share) == share(states.dnf as nat, records.len())
        },
        Analyze::PbHistory(kind) => if never_defined(outcomes(records), kind) {
            section == Section::Notice(Notice::NotEnoughRecords(kind))
        } else {
            section matches Section::PbHistory { kind: shown, entries } && {
                &&& shown == kind
                &&& entries.len() > 0
                &&& is_history(entries@, records, kind, records.len() as int)
            }
        },
        Analyze::Grouping(kind, interval) => if groupable(records, interval as int) {
            section matches Section::Grouping { kind: shown, interval: step, buckets } && {
                &&& shown == kind
                &&& step == interval
                &&& is_grouping(buckets@, records, interval as int)
            }
        } else {
            section == Section::Notice(Notice::GroupingFailed(interval))
        },
        Analyze::Trending(kind) => if never_defined(outcomes(records), kind) {
            section == Section::Notice(Notice::NotEnoughRecords(kind))
        } else {
            section matches Section::Trending { kind: shown, points } && {
                &&& shown == kind
                &&& is_trend(points@, outcomes(records), kind)
            }
        },
        Analyze::Commented => if exists|i: int|
            0 <= i < records.len() && (#[trigger] records[i]).comment.is_some() {
            section matches Section::Commented { list } && {
                &&& list.len() > 0
                &&& is_commented_list(list@, records)
            }
        } else {
            section == Section::Notice(Notice::NoCommentedRecord)
        },
    }
}

/// `report` holds, for each session in order, the outcome of each analysis
/// in order.
pub open spec fn is_report(
    report: Seq<Vec<Section>>,
    sessions: Seq<Session>,
    options: Seq<Analyze>,
) -> bool {
    &&& report.len() == sessions.len()
    &&& forall|s: int|
        0 <= s < report.len() ==> {
            &&& (#[trigger] report[s]).len() == options.len()
            &&& forall|a: int|
                0 <= a < options.len() ==> is_section(
                    #[trigger] report[s][a],
                    sessions[s]@,
                    options[a],
                )
        }
}

/// Carries out one analysis of one session.
pub fn analyze_section(session: &Session, option: &Analyze) -> (section: Section)
    ensures
        is_section(section, session@, *option),
{
    match option {
        Analyze::Overview => {
            let overview = session.overview();
            let states = session.solve_states();
            assert(states.sum() == session@.len());
            let plus2_share = states.plus2_percentage();
            let dnf_share = states.dnf_percentage();
            Section::Overview { overview, states, plus2_share, dnf_share }
        },
        Analyze::PbHistory(kind) => match session.pb_breakers(kind) {
            Some(entries) => Section::PbHistory { kind: *kind, entries },
            None => Section::Notice(Notice::NotEnoughRecords(*kind)),
        },
        Analyze::Grouping(kind, interval) => match session.grouping(*interval, kind) {
            Some(buckets) => Section::Grouping { kind: *kind, interval: *interval, buckets },
            None => Section::Notice(Notice::GroupingFailed(*interval)),
        },
        Analyze::Trending(kind) => match session.trend(kind) {
            Some(points) => Section::Trending { kind: *kind, points },
            None => Section::Notice(Notice::NotEnoughRecords(*kind)),
        },
        Analyze::Commented => {
            let list = session.commented_records();
            if list.len() > 0 {
                proof {
                    let at = list@[0].0 as int;
                    assert(session@[at].comment.is_some());
                }
                Section::Commented { list }
            } else {
                proof {
                    assert forall|i: int| 0 <= i < session@.len() implies (
                    #[trigger] session@[i]).comment.is_none() by {
                        if session@[i].comment.is_some() {
                            let k = choose|k: int|
                                0 <= k < list@.len() && (#[trigger] list@[k]).0 == i;
                        }
                    }
                }
                Section::Notice(Notice::NoCommentedRecord)
            }
        },
    }
}

/// Carries out every analysis asked for on one session, in the order asked.
///
/// One analysis having nothing to show leaves the others as they are: its
/// place holds a notice.
pub fn analyze_session(session: &Session, options: &[Analyze]) -> (sections: Vec<Section>)
    ensures
        sections.len() == options.len(),
        forall|a: int|
            0 <= a < options.len() ==> is_section(#[trigger] sections[a], session@, options[a]),
{
    let mut sections: Vec<Section> = Vec::new();
    let mut a: usize = 0;
    while a < options.len()
        invariant
            a <= options.len(),
            sections.len() == a,
            forall|q: int| 0 <= q < a ==> is_section(#[trigger] sections[q], session@, options[q]),
        decreases options.len() - a,
    {
        let section = analyze_section(session, &options[a]);
        sections.push(section);
        a += 1;
    }
    sections
}

/// Carries out every analysis asked for on every session.
pub fn analyze(sessions: &Vec<Session>, options: &[Analyze]) -> (report: Vec<Vec<Section>>)
    ensures
        is_report(report@, sessions@, options@),
{
    let mut report: Vec<Vec<Section>> = Vec::new();
    let mut s: usize = 0;
    while s < sessions.len()
        invariant
            s <= sessions.len(),
            report.len() == s,
            forall|p: int|
                0 <= p < s ==> {
                    &&& (#[trigger] report[p]).len() == options.len()
                    &&& forall|a: int|
                        0 <= a < options.len() ==> is_section(
                            #[trigger] report[p][a],
                            sessions[p]@,
                            options[a],
                        )
                },
        decreases sessions.len() - s,
    {
        let sections = analyze_session(&sessions[s], options);
        report.push(sections);
        s += 1;
    }
    report
}

} // verus!
