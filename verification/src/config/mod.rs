//! What the configuration file can say.

pub mod layout;
