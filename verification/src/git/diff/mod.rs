//! Changes and history.

pub mod commit_log;
pub mod types;
