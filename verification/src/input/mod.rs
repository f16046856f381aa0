//! Keys, and what they ask for.

pub mod key;
pub mod routing;
