//! Loose date/time description parsing.
//!
//! A candidate string (empty for "now", a bare year, a unix timestamp in
//! seconds or milliseconds, a weekday name, or a month name) is resolved
//! against a reference "now" into a concrete calendar date/time.

pub mod calendar;
pub mod cli;
pub mod datetime;
pub mod format;
pub mod intstr;
pub mod names;
pub mod parsers;
