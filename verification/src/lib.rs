//! Decision logic of a terminal download manager.

pub mod app;
pub mod cli;
pub mod clock;
pub mod download;
pub mod file;
pub mod ids;
pub mod ipc;
pub mod script;
pub mod text;
pub mod text_map;
pub mod web;
