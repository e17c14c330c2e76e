//! Logging helpers: a line renderer for structured events and the retention
//! rules of a directory of per-run log files.

pub mod format;
pub mod retention;
