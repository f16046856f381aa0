pub mod app;
pub mod application;
pub mod backend;
pub mod cli;
pub mod config;
pub mod daemon;
pub mod git;
pub mod home;
pub mod input;
pub mod native;
pub mod paths;
pub mod platform;
pub mod plugin;
pub mod runtime;
pub mod sorting;
pub mod text;
pub mod textmap;
pub mod ui;
