//! Naming and placing files.

pub mod manager;
pub mod metadata;
pub mod naming;
pub mod path;
