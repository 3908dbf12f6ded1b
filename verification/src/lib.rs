//! Verified core of a CI result-reporting tool.
//!
//! The library normalizes raw job-table rows into typed job records,
//! parses error-summary streams, filters and aggregates job batches
//! (group-by-test, two-revision comparison, pass-rate tallies), and
//! encodes/decodes the on-disk cache metadata with a proved round trip.
//! Network and file I/O live outside the library; the functions here
//! take and return plain values.

pub mod batch;
pub mod codec;
pub mod compare;
pub mod filters;
pub mod grouping;
pub mod jsonval;
pub mod models;
pub mod normalize;
pub mod pattern;
pub mod revision;
pub mod seqs;
pub mod similar;
pub mod text;
