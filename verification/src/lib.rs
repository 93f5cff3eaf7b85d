//! Verified core of a load-balancer access-log frequency ranker.
//!
//! The library discovers which log files fall inside an optional
//! time-of-day window (judging by a timestamp embedded in the file name),
//! tokenizes each log line into its positional fields, binds the fields to
//! a typed record, counts a derived key per line in a frequency table,
//! merges worker-local tables into one total, and ranks the merged counts.
//! File and directory I/O, thread scheduling and command-line handling live
//! outside the library; the library receives plain values and returns plain
//! values, with contracts on every public function.

pub mod chars;
pub mod laws;
pub mod log;
pub mod pipeline;
pub mod ranker;
pub mod table;
pub mod timewindow;
pub mod tokenizer;

pub use chars::parse_i64;
