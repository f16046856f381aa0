//! What the repository holds: its working tree, its changes, its history.

pub mod clone;
pub mod diff;
pub mod tree;
