//! The decisions of the long-running command-line watchers and
//! cadences: what each poll or tick streams, dispatches or ends.

pub mod sleep;
pub mod clock;
pub mod cadence;
pub mod argv;
pub mod edits;
pub mod bash_writes;
pub mod reason_lint;
pub mod test_report;
pub mod utc;
