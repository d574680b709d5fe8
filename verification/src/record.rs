//! One solve attempt and its effective time.

use vstd::prelude::*;

verus! {

/// Milliseconds added to the raw time of a solve judged `PlusTwo`.
pub const PLUS_TWO_MS: u64 = 2000;

/// How a solve was judged.
#[derive(Clone, Copy, Debug, PartialEq, Eq, Structural)]
pub enum Penalty {
    /// The solve counts with its raw time.
    Clean,
    /// The solve counts with two seconds added.
    PlusTwo,
    /// The solve has no valid completion time.
    Dnf,
}

/// One solve attempt.
#[derive(Debug, PartialEq, Eq)]
pub struct Record {
    /// Raw elapsed time in milliseconds.
    pub time_ms: u32,
    /// How the solve was judged.
    pub penalty: Penalty,
    /// Seconds since the Unix epoch at which the solve was recorded.
    pub timestamp: u32,
    /// What the solver noted about the solve, if anything.
    pub comment: Option<String>,
}

impl Record {
    /// The effective time in milliseconds, or `None` for a DNF.
    pub open spec fn outcome(&self) -> Option<u64> {
        match self.penalty {
            Penalty::Clean => Some(self.time_ms as u64),
            Penalty::PlusTwo => Some((self.time_ms + PLUS_TWO_MS) as u64),
            Penalty::Dnf => None,
        }
    }

    /// Puts a record together from its parts.
    pub fn new(time_ms: u32, penalty: Penalty, timestamp: u32, comment: Option<String>) -> (r:
        Record)
        ensures
            r.time_ms == time_ms,
            r.penalty == penalty,
            r.timestamp == timestamp,
            r.comment == comment,
    {
        Record { time_ms, penalty, timestamp, comment }
    }

    /// The time that counts for this solve: the raw time, plus two seconds
    /// under a `PlusTwo`, and nothing at all for a DNF.
    pub fn effective_time(&self) -> (t: Option<u64>)
        ensures
            t == self.outcome(),
    {
        match self.penalty {
            Penalty::Clean => Some(self.time_ms as u64),
            Penalty::PlusTwo => Some(self.time_ms as u64 + PLUS_TWO_MS),
            Penalty::Dnf => None,
        }
    }

    /// Whether the solve carries a comment.
    pub fn has_comment(&self) -> (b: bool)
        ensures
            b == self.comment.is_some(),
    {
        self.comment.is_some()
    }
}

impl Clone for Record {
    fn clone(&self) -> (r: Self)
        ensures
            r == *self,
    {
        let comment = match &self.comment {
            Some(text) => Some(text.clone()),
            None => None,
        };
        Record {
            time_ms: self.time_ms,
            penalty: self.penalty,
            timestamp: self.timestamp,
            comment,
        }
    }
}

} // verus!
