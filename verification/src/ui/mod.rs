//! State and geometry of what is drawn.

pub mod geometry;
pub mod gutter;
pub mod hint_bar;
pub mod log_view;
pub mod project_tab;
pub mod search;
pub mod tree_view;
