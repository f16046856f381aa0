//! What runs beside a repository: panes, snapshots and watchers.

pub mod emulator;
pub mod modes;
pub mod order;
pub mod snapshot;
pub mod snapshot_watch;
pub mod terminal;
pub mod tree_watch;
