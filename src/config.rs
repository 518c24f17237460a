use vstd::prelude::*;

use crate::error::CockpitError;
use crate::models::{Agent, GitHubRepoConfig, Project};

verus! {

/// The daemon's configuration: projects, agents and chat credentials.
pub struct Config {
    pub projects: Vec<Project>,
    pub agents: Vec<Agent>,
    pub slack_bot_token: String,
    pub slack_app_token: String,
    pub slack_allowed_user_id: String,
    pub github_token: Option<String>,
}

impl Config {
    /// The first project bound to chat channel `channel`.
    pub fn get_project_by_channel(&self, channel: &str) -> (r: Result<&Project, CockpitError>)
        ensures
            match r {
                Ok(p) => exists|i: int|
                    0 <= i < self.projects@.len() && self.projects@[i] == *p
                        && p.channel_name@ == channel@ && forall|j: int|
                        0 <= j < i ==> (#[trigger] self.projects@[j]).channel_name@ != channel@,
                Err(e) => {
                    &&& forall|i: int|
                        0 <= i < self.projects@.len() ==> (#[trigger] self.projects@[i]).channel_name@
                            != channel@
                    &&& e matches CockpitError::ProjectNotFound(c) && c@ == channel@
                },
            },
    {
        let key = channel.to_owned();
        let mut i: usize = 0;
        while i < self.projects.len()
            invariant
                i <= self.projects@.len(),
                key@ == channel@,
                forall|j: int| 0 <= j < i ==> (#[trigger] self.projects@[j]).channel_name@ != channel@,
            decreases self.projects.len() - i,
        {
            if self.projects[i].channel_name == key {
                return Ok(&self.projects[i]);
            }
            i = i + 1;
        }
        Err(CockpitError::ProjectNotFound(key))
    }

    /// The first project with identifier `project_id`.
    pub fn get_project(&self, project_id: &str) -> (r: Result<&Project, CockpitError>)
        ensures
            match r {
                Ok(p) => exists|i: int|
                    0 <= i < self.projects@.len() && self.projects@[i] == *p && p.id@ == project_id@
                        && forall|j: int| 0 <= j < i ==> (#[trigger] self.projects@[j]).id@ != project_id@,
                Err(e) => {
                    &&& forall|i: int|
                        0 <= i < self.projects@.len() ==> (#[trigger] self.projects@[i]).id@ != project_id@
                    &&& e matches CockpitError::ProjectNotFound(c) && c@ == project_id@
                },
            },
    {
        let key = project_id.to_owned();
        let mut i: usize = 0;
        while i < self.projects.len()
            invariant
                i <= self.projects@.len(),
                key@ == project_id@,
                forall|j: int| 0 <= j < i ==> (#[trigger] self.projects@[j]).id@ != project_id@,
            decreases self.projects.len() - i,
        {
            if self.projects[i].id == key {
                return Ok(&self.projects[i]);
            }
            i = i + 1;
        }
        Err(CockpitError::ProjectNotFound(key))
    }

    /// The first agent with identifier `agent_id`.
    pub fn get_agent(&self, agent_id: &str) -> (r: Result<&Agent, CockpitError>)
        ensures
            match r {
                Ok(a) => exists|i: int|
                    0 <= i < self.agents@.len() && self.agents@[i] == *a && a.id@ == agent_id@
                        && forall|j: int| 0 <= j < i ==> (#[trigger] self.agents@[j]).id@ != agent_id@,
                Err(e) => {
                    &&& forall|i: int|
                        0 <= i < self.agents@.len() ==> (#[trigger] self.agents@[i]).id@ != agent_id@
                    &&& e matches CockpitError::AgentNotFound(c) && c@ == agent_id@
                },
            },
    {
        let key = agent_id.to_owned();
        let mut i: usize = 0;
        while i < self.agents.len()
            invariant
                i <= self.agents@.len(),
                key@ == agent_id@,
                forall|j: int| 0 <= j < i ==> (#[trigger] self.agents@[j]).id@ != agent_id@,
            decreases self.agents.len() - i,
        {
            if self.agents[i].id == key {
                return Ok(&self.agents[i]);
            }
            i = i + 1;
        }
        Err(CockpitError::AgentNotFound(key))
    }
}

/// The path `path` resolved against `base` (`path` itself when absolute).
pub uninterp spec fn joined_path(base: Seq<char>, path: Seq<char>) -> Seq<char>;

/// Relies on std::path::Path::join: `path` appended to `base`, or `path`
/// alone when it is absolute; both come from text, so reading the result
/// back as text loses nothing.
#[verifier::external_body]
fn join_path(base: &str, path: &str) -> (r: String)
    ensures
        r@ == joined_path(base@, path@),
{
    std::path::Path::new(base).join(path).to_string_lossy().into_owned()
}

/// The project that a configuration entry `id` describes: its channel is
/// named after it, and its path is `path` resolved against `base_dir`.
pub fn project_from_entry(
    base_dir: &str,
    id: String,
    path: &str,
    default_agent_id: String,
    github: Option<GitHubRepoConfig>,
) -> (r: Project)
    ensures
        r.id == id,
        r.channel_name == id,
        r.path@ == joined_path(base_dir@, path@),
        r.default_agent_id == default_agent_id,
        r.github == github,
{
    let channel_name = id.clone();
    Project { id, channel_name, path: join_path(base_dir, path), default_agent_id, github }
}

} // verus!
