//! A line filter that collapses each run of adjacent matching lines into one
//! line, in the manner of `uniq`, and can prefix each line it keeps with the
//! length of its run.
//!
//! Lines are byte sequences that keep their terminator. Two lines match when
//! they hold the same content once a trailing `\n` or `\r\n` is set aside.
//!
//! [`process_read_write`] filters a whole input at once. [`PendingRun`] takes
//! one line at a time and hands back each run as it ends, for callers that
//! read and write as they go. [`parse_config`] reads a [`Config`] from a
//! command line.

pub mod config;
pub mod laws;
pub mod line;
pub mod process;
pub mod render;
pub mod run;

pub use config::{config_from_matches, input_failure, parse_config, ArgsError, Config};
pub use process::{process_read_write, ProcessError};
pub use run::{PendingRun, Run};
