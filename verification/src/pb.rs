//! Personal-best history: the positions at which a statistic reaches a value
//! lower than any before.

use crate::label::{readable, readable_text};
use crate::record::Record;
use crate::rolling::rolling_statistic;
use crate::series::{outcomes, rolling};
use crate::stats_type::StatsType;
use vstd::prelude::*;

verus! {

/// One personal best.
#[derive(Debug, PartialEq, Eq)]
pub struct PBEntry {
    /// The position of the record at which the best was set.
    pub index: usize,
    /// The value of the statistic there, in milliseconds.
    pub value: u64,
    /// The value as text.
    pub label: String,
    /// The record itself, for the `Single` statistic.
    pub record: Option<Record>,
}

/// The statistic is undefined at every position.
pub open spec fn never_defined(outcomes: Seq<Option<u64>>, kind: StatsType) -> bool {
    forall|i: int| 0 <= i < outcomes.len() ==> (#[trigger] rolling(outcomes, kind, i)).is_none()
}

/// Position `i` is the first at which the statistic is defined.
pub open spec fn first_defined(outcomes: Seq<Option<u64>>, kind: StatsType, i: int) -> bool {
    &&& rolling(outcomes, kind, i).is_some()
    &&& forall|j: int| 0 <= j < i ==> (#[trigger] rolling(outcomes, kind, j)).is_none()
}

/// The statistic at position `i` is defined and strictly less than at every
/// earlier position where it is defined.
pub open spec fn sets_best(outcomes: Seq<Option<u64>>, kind: StatsType, i: int) -> bool {
    rolling(outcomes, kind, i) matches Some(v) && forall|j: int|
        0 <= j < i ==> (#[trigger] rolling(outcomes, kind, j) matches Some(u) ==> v < u)
}

/// `entry` describes the personal best set at its position.
pub open spec fn describes_best(entry: PBEntry, records: Seq<Record>, kind: StatsType) -> bool {
    &&& entry.index < records.len()
    &&& sets_best(outcomes(records), kind, entry.index as int)
    &&& rolling(outcomes(records), kind, entry.index as int) == Some(entry.value as nat)
    &&& entry.label@ == readable_text(entry.value as nat)
    &&& entry.record == if kind == StatsType::Single {
        Some(records[entry.index as int])
    } else {
        None
    }
}

/// `entries` is the personal-best history of the first `upto` records: one
/// entry for each position that sets a best, in the order of the positions.
pub open spec fn is_history(
    entries: Seq<PBEntry>,
    records: Seq<Record>,
    kind: StatsType,
    upto: int,
) -> bool {
    &&& forall|k: int|
        0 <= k < entries.len() ==> (#[trigger] entries[k]).index < upto && describes_best(
            entries[k],
            records,
            kind,
        )
    &&& forall|k: int, l: int|
        0 <= k < l < entries.len() ==> (#[trigger] entries[k]).index < (#[trigger] entries[l]).index
    &&& forall|i: int|
        0 <= i < upto && #[trigger] sets_best(outcomes(records), kind, i) ==> exists|k: int|
            0 <= k < entries.len() && (#[trigger] entries[k]).index == i
}

/// A personal-best history strictly rises in position and strictly falls in
/// value.
pub proof fn lemma_history_descends(
    entries: Seq<PBEntry>,
    records: Seq<Record>,
    kind: StatsType,
    k: int,
    l: int,
)
    requires
        is_history(entries, records, kind, records.len() as int),
        0 <= k < l < entries.len(),
    ensures
        entries[k].index < entries[l].index,
        entries[k].value > entries[l].value,
{
    assert(describes_best(entries[k], records, kind));
    assert(describes_best(entries[l], records, kind));
    assert(rolling(outcomes(records), kind, entries[k].index as int).is_some());
}

/// A personal-best history starts at the first position where the statistic
/// is defined, with the value it has there.
pub proof fn lemma_history_starts_at_first_defined(
    entries: Seq<PBEntry>,
    records: Seq<Record>,
    kind: StatsType,
    first: int,
)
    requires
        is_history(entries, records, kind, records.len() as int),
        first_defined(outcomes(records), kind, first),
    ensures
        entries.len() > 0,
        entries[0].index == first,
        rolling(outcomes(records), kind, first) == Some(entries[0].value as nat),
{
    let all = outcomes(records);
    assert(sets_best(all, kind, first)) by {
        assert forall|j: int| 0 <= j < first implies (#[trigger] rolling(all, kind, j) matches Some(
            u,
        ) ==> rolling(all, kind, first).unwrap() < u) by {
            assert(rolling(all, kind, j).is_none());
        }
    }
    let k = choose|k: int| 0 <= k < entries.len() && (#[trigger] entries[k]).index == first;
    assert(describes_best(entries[0], records, kind));
    if k > 0 {
        assert(entries[0].index < entries[k].index);
        assert(rolling(all, kind, entries[0].index as int).is_none());
    }
}

/// The personal-best history of the statistic of the given kind.
///
/// The records are scanned in order. The first position where the statistic
/// is defined gives the first entry; after that a position gives an entry
/// when its value is strictly less than every earlier defined value. The
/// result is `None` exactly when the statistic is defined nowhere, and is
/// never an empty history.
pub fn pb_breakers(records: &Vec<Record>, kind: &StatsType) -> (history: Option<Vec<PBEntry>>)
    ensures
        history.is_none() <==> never_defined(outcomes(records@), *kind),
        history matches Some(entries) ==> entries.len() > 0 && is_history(
            entries@,
            records@,
            *kind,
            records.len() as int,
        ),
{
    let ghost all = outcomes(records@);
    let n = records.len();
    let mut entries: Vec<PBEntry> = Vec::new();
    let mut best: Option<u64> = None;
    let mut i: usize = 0;
    while i < n
        invariant
            i <= n,
            n == records.len(),
            all == outcomes(records@),
            best.is_none() <==> entries.len() == 0,
            best.is_none() ==> forall|j: int|
                0 <= j < i ==> (#[trigger] rolling(all, *kind, j)).is_none(),
            best matches Some(b) ==> {
                &&& forall|j: int|
                    0 <= j < i ==> (#[trigger] rolling(all, *kind, j) matches Some(u) ==> b <= u)
                &&& exists|j: int| 0 <= j < i && #[trigger] rolling(all, *kind, j) == Some(b as nat)
            },
            is_history(entries@, records@, *kind, i as int),
        decreases n - i,
    {
        let ghost before = entries@;
        let value = rolling_statistic(records, kind, i);
        if let Some(v) = value {
            let better = match best {
                Some(b) => v < b,
                None => true,
            };
            if better {
                let record = match kind {
                    StatsType::Single => Some(records[i].clone()),
                    _ => None,
                };
                let entry = PBEntry { index: i, value: v, label: readable(v), record };
                proof {
                    assert(sets_best(all, *kind, i as int));
                    assert(describes_best(entry, records@, *kind));
                }
                entries.push(entry);
                best = Some(v);
                proof {
                    let after = entries@;
                    assert(forall|k: int| 0 <= k < before.len() ==> after[k] == before[k]);
                    assert(after[before.len() as int].index == i);
                    assert forall|p: int|
                        0 <= p < i + 1 && #[trigger] sets_best(all, *kind, p) implies exists|
                        k: int,
                    |
                        0 <= k < after.len() && (#[trigger] after[k]).index == p by {
                        if p < i {
                            let k = choose|k: int|
                                0 <= k < before.len() && (#[trigger] before[k]).index == p;
                            assert(after[k].index == p);
                        } else {
                            assert(after[before.len() as int].index == p);
                        }
                    }
                    assert(rolling(all, *kind, i as int) == Some(v as nat));
                }
            } else {
                proof {
                    let b = best.unwrap();
                    let j = choose|j: int|
                        0 <= j < i && #[trigger] rolling(all, *kind, j) == Some(b as nat);
                    assert(!sets_best(all, *kind, i as int));
                }
            }
        }
        i += 1;
    }
    if entries.len() == 0 {
        None
    } else {
        proof {
            let b = best.unwrap();
            let j = choose|j: int| 0 <= j < n && #[trigger] rolling(all, *kind, j) == Some(b as nat);
            assert(rolling(all, *kind, j).is_some());
        }
        Some(entries)
    }
}

} // verus!
