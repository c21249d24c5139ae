//! A golden-file regression harness for two small data-structure problems.
//!
//! The harness resolves paired input/expected-output fixtures, parses the
//! input into integer records, replays the recorded queries against the
//! structure under test, and compares the collected results line by line
//! against the expected output.

pub mod adapters;
pub mod freq_struct;
pub mod max_struct;
pub mod outputs;
pub mod parse;
pub mod report;
