//! What the attached terminal does, tick by tick.

pub mod event_loop;
