//! Statistics engine for cube-timer session logs.
//!
//! A [`session::Session`] owns an ordered list of solve records and answers
//! read-only queries over it: solve-state counts and an overview, rolling
//! statistics, personal-best history, time-bucketed grouping and trend series.
//! Every query is a pure function of the record list and its parameters, and
//! every "undefined" result is an explicit `None`, never a zero.
//!
//! The statistics are defined in [`series`] as mathematical functions over
//! sequences of outcomes; the functions that compute them are proved to
//! return exactly those values.

pub mod analyze;
pub mod classify;
pub mod comments;
pub mod grouping;
pub mod label;
pub mod naming;
pub mod pb;
pub mod record;
pub mod rolling;
pub mod series;
pub mod session;
pub mod sort;
pub mod stats_type;
pub mod trend;
