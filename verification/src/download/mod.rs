//! Download tasks, queues and the rules that move them along.

pub mod attempt;
pub mod circuit_breaker;
pub mod completion_log;
pub mod folder_queue;
pub mod history;
pub mod http_client;
pub mod http_errors;
pub mod manager;
pub mod queue;
pub mod task;
