//! Settings of the application and of its folders.

pub mod config;
pub mod keybindings;
pub mod settings;
