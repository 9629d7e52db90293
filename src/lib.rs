//! Timestamp extraction from free-form log lines and aggregation of the
//! extracted instants into fixed-width time buckets.
//!
//! Instants are microseconds since the Unix epoch, in UTC, and bucket widths
//! are whole microseconds, so fractional widths down to a microsecond keep
//! their own buckets. Bucket keys round down, also before the epoch.
//!
//! Automatic widths aim for at most fifteen buckets over the observed span
//! and snap up to the first rung of the ladder 0.1 s, 1 s, 1 min, 5 min,
//! 15 min, 1 h, 6 h, 1 day, then whole days; before any instant is seen the
//! width is one minute.
//!
//! A line's timestamp is the first that parses among candidate substrings
//! taken in a fixed class order, each tried against a fixed table of
//! formats; formats without a year or a date are completed with the current
//! year or date.

pub mod bucket;
pub mod cli;
pub mod error;
pub mod pattern;
pub mod processor;
pub mod scan;
pub mod text;
pub mod timestamp;

pub use cli::Args;
