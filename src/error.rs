use vstd::prelude::*;

use crate::models::SessionId;

verus! {

/// Errors of the registry and of the configuration lookups.
#[derive(Debug)]
pub enum CockpitError {
    ProjectNotFound(String),
    SessionNotFound(SessionId),
    /// No session is bound to this (channel, thread) pair.
    ThreadNotBound(String, String),
    /// A freshly drawn identifier is already in use.
    DuplicateSessionId(SessionId),
    AgentNotFound(String),
    CommandNotFound(String),
    ProcessError(String),
    ConfigError(String),
    SlackError(String),
    GitHubError(String),
    Io(String),
    YamlError(String),
    /// The registry could not be reached (a lock was poisoned).
    Internal(String),
}

} // verus!
