//! Plugins: what is said to them, what they may do, and which are installed.

pub mod guard;
pub mod host;
pub mod protocol;
pub mod registry;
