//! Drives a UCI chess engine through its line protocol and aggregates the
//! telemetry of each search into exact summary statistics.
//!
//! - `text`: whitespace, tokens, search, and decimal numbers over characters.
//! - `protocol`: the commands that are sent and the reading of progress and
//!   terminal lines.
//! - `driver`: the handshake and the batch of searches as state machines.
//! - `fens`: the supplier of positions.
//! - `engine_result`: the record of one search.
//! - `analyzer`: the collector of records.
//! - `stats`: means, variance, extremes, branching samples and the mate
//!   histogram of a sequence of records.
//! - `wide`: 256-bit integers for the variance.
//! - `report`: the rows of the accumulation file and their bytes.
//! - `config`: the configuration from the command line.
//!
//! Nothing here performs input or output: the caller owns the engine
//! process and the files, sends what a state machine tells it to send, and
//! hands back what it read.

pub mod analyzer;
pub mod config;
pub mod driver;
pub mod engine_result;
pub mod fens;
pub mod protocol;
pub mod report;
pub mod stats;
pub mod text;
pub mod wide;
