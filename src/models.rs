use vstd::prelude::*;

use crate::time::Timestamp;

verus! {

/// A project (a local repository) bound to a chat channel.
pub struct Project {
    pub id: String,
    pub channel_name: String,
    /// Filesystem path of the repository.
    pub path: String,
    pub default_agent_id: String,
    pub github: Option<GitHubRepoConfig>,
}

/// Code-hosting repository settings used for pull requests.
pub struct GitHubRepoConfig {
    pub owner: String,
    pub repo: String,
    pub default_base_branch: String,
}

/// A command-line coding agent.
pub struct Agent {
    pub id: String,
    pub kind: AgentKind,
    pub command: Vec<String>,
    pub working_dir_mode: WorkingDirMode,
}

/// How an agent is run.
#[derive(Clone, Copy, Debug, PartialEq, Eq, Structural)]
pub enum AgentKind {
    Cli,
}

/// Where an agent's working directory comes from.
pub enum WorkingDirMode {
    /// The project's own path.
    Project,
    /// A fixed path.
    Fixed(String),
}

/// Identifier of a session: the 128 bits of a random UUID.
#[derive(Clone, Copy, Debug, PartialEq, Eq, Structural, Hash)]
pub struct SessionId {
    pub value: u128,
}

/// Lifecycle state of a session.
#[derive(Clone, Copy, Debug, PartialEq, Eq, Structural)]
pub enum SessionStatus {
    Active,
    Ended,
}

/// One chat thread in which an agent works.
#[derive(Debug)]
pub struct Session {
    pub id: SessionId,
    pub project_id: String,
    pub slack_channel: String,
    pub slack_thread_ts: String,
    pub active_agent_id: String,
    pub status: SessionStatus,
    pub created_at: Timestamp,
    pub updated_at: Timestamp,
}

impl Clone for Session {
    fn clone(&self) -> (r: Self)
        ensures
            r == *self,
    {
        Session {
            id: self.id,
            project_id: self.project_id.clone(),
            slack_channel: self.slack_channel.clone(),
            slack_thread_ts: self.slack_thread_ts.clone(),
            active_agent_id: self.active_agent_id.clone(),
            status: self.status,
            created_at: self.created_at,
            updated_at: self.updated_at,
        }
    }
}

/// A pull request opened from a session's work.
#[derive(Debug)]
pub struct PullRequestRef {
    pub project_id: String,
    pub session_id: SessionId,
    pub number: u64,
    pub url: String,
    pub head_branch: String,
    pub base_branch: String,
    pub created_at: Timestamp,
    pub updated_at: Timestamp,
}

impl Clone for PullRequestRef {
    fn clone(&self) -> (r: Self)
        ensures
            r == *self,
    {
        PullRequestRef {
            project_id: self.project_id.clone(),
            session_id: self.session_id,
            number: self.number,
            url: self.url.clone(),
            head_branch: self.head_branch.clone(),
            base_branch: self.base_branch.clone(),
            created_at: self.created_at,
            updated_at: self.updated_at,
        }
    }
}

/// An argument of a command file.
pub struct CommandArg {
    pub name: String,
    pub arg_type: String,
    pub required: bool,
    pub description: Option<String>,
}

/// A command defined in a project's command directory.
pub struct CommandDefinition {
    pub id: String,
    pub title: String,
    pub description: Option<String>,
    pub category: Option<String>,
    pub args: Vec<CommandArg>,
    /// Markdown instructions.
    pub body: String,
}

} // verus!
