//! What belongs to the machine rather than to the session.

pub mod logging;
