//! Registry binding chat threads to coding-agent sessions, with the
//! configuration lookups the daemon performs around it.

pub mod config;
pub mod error;
pub mod models;
pub mod session_manager;
pub mod time;
