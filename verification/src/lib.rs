//! Verified conversion of MariaDB slow-query logs into tabular rows.
//!
//! The library classifies each log line into its structural role, folds the
//! classified lines into one in-progress record at a time, decides when a
//! record is complete and must be emitted, and maps a completed record into
//! a fixed column layout, extracting embedded `SET timestamp` and `use`
//! directives from the query text on the way.  Reading the log and writing
//! the rows out stay with the caller.

pub mod classify;
pub mod cleanup;
pub mod convert;
pub mod record;
pub mod text;
pub mod timefmt;
