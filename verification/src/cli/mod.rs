//! What the command line does.

pub mod batch;
pub mod bridge;
pub mod config;
pub mod folder;
pub mod handler;
pub mod output;
pub mod report;
pub mod show;
