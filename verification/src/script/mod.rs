//! Scripts that listen to what happens to downloads.

pub mod engine;
pub mod error;
pub mod events;
pub mod executor;
pub mod loader;
