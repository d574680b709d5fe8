//! The kinds of statistic that can be asked of a session.

use vstd::prelude::*;

verus! {

/// A kind of statistic.
#[derive(Clone, Copy, Debug, PartialEq, Eq, Structural)]
pub enum StatsType {
    /// One solve's own effective time.
    Single,
    /// The average of the last `.0` solves after the `.1` best and the `.1`
    /// worst of them are set aside.
    AverageOfN(usize, usize),
    /// The mean of every finished solve so far.
    CumulativeMean,
    /// The average of every solve so far, trimmed as a window of that size
    /// conventionally is.
    CumulativeAverage,
}

/// How many solves are conventionally set aside at each end of a window.
pub open spec fn conventional_trim(window: nat) -> nat {
    if window >= 5 {
        1
    } else {
        0
    }
}

impl StatsType {
    /// The average of `window` solves with the conventional trim.
    pub fn average_of(window: usize) -> (kind: StatsType)
        ensures
            kind == StatsType::AverageOfN(window, conventional_trim(window as nat) as usize),
    {
        StatsType::AverageOfN(window, trim_for(window))
    }
}

/// Computes `conventional_trim`.
pub fn trim_for(window: usize) -> (trim: usize)
    ensures
        trim == conventional_trim(window as nat),
{
    if window >= 5 {
        1
    } else {
        0
    }
}

} // verus!
