//! Messages between the program and its helpers.

pub mod pipe_server;
pub mod protocol;
