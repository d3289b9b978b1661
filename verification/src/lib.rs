//! Round-trip times to a set of targets, measured in bursts of echo probes.
//!
//! The crate holds the two parts of such a measurement that can be reasoned
//! about: the summary of a burst ([`stats`]), in exact fractions
//! ([`ratio`]) over times that are sorted by a proved sort ([`order`]), and
//! the schedule of a run ([`schedule`]), which says probe by probe what is
//! to happen next. Sending a probe, reading the clock and writing a record
//! are left to the caller.

pub mod order;
pub mod ratio;
pub mod schedule;
pub mod stats;
