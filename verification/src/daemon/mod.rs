//! The process that owns the sessions, and what its clients say to it.

pub mod client;
pub mod clients;
pub mod detach;
pub mod frame;
pub mod lock;
pub mod protocol;
pub mod serve;
pub mod socket;
pub mod terminals;
