use cockpit_coder::config::{project_from_entry, Config};
use cockpit_coder::error::CockpitError;
use cockpit_coder::models::{Agent, AgentKind, GitHubRepoConfig, Project, WorkingDirMode};

fn config_with(projects: Vec<Project>, agents: Vec<Agent>) -> Config {
    Config {
        projects,
        agents,
        slack_bot_token: "test".to_string(),
        slack_app_token: "test".to_string(),
        slack_allowed_user_id: "test".to_string(),
        github_token: None,
    }
}

#[test]
fn test_project_lookup() {
    let projects = vec![Project {
        id: "test-project".to_string(),
        channel_name: "test-project".to_string(),
        path: "/tmp/test".to_string(),
        default_agent_id: "alpha-agent".to_string(),
        github: None,
    }];
    let config = config_with(projects, Vec::new());

    assert!(config.get_project_by_channel("test-project").is_ok());
    assert!(config.get_project_by_channel("nonexistent").is_err());
}

#[test]
fn project_lookup_by_id_and_channel() {
    let projects = vec![
        project_from_entry("/srv", "alpha".to_string(), "alpha", "alpha-agent".to_string(), None),
        project_from_entry(
            "/srv",
            "beta".to_string(),
            "repos/beta",
            "beta-agent".to_string(),
            Some(GitHubRepoConfig {
                owner: "o".to_string(),
                repo: "r".to_string(),
                default_base_branch: "main".to_string(),
            }),
        ),
    ];
    let config = config_with(projects, Vec::new());
    let beta = config.get_project("beta").unwrap();
    assert_eq!(beta.default_agent_id, "beta-agent");
    assert_eq!(beta.path, "/srv/repos/beta");
    let alpha = config.get_project_by_channel("alpha").unwrap();
    assert_eq!(alpha.id, "alpha");
    match config.get_project("gamma") {
        Err(CockpitError::ProjectNotFound(name)) => assert_eq!(name, "gamma"),
        _ => panic!("expected ProjectNotFound"),
    }
}

#[test]
fn project_entry_resolves_path() {
    let p = project_from_entry("/base", "proj".to_string(), "code/proj", "agent".to_string(), None);
    assert_eq!(p.id, "proj");
    assert_eq!(p.channel_name, "proj");
    assert_eq!(p.path, "/base/code/proj");
    let abs = project_from_entry("/base", "abs".to_string(), "/elsewhere", "agent".to_string(), None);
    assert_eq!(abs.path, "/elsewhere");
}

#[test]
fn agent_lookup() {
    let agents = vec![
        Agent {
            id: "alpha-agent".to_string(),
            kind: AgentKind::Cli,
            command: vec!["alpha".to_string()],
            working_dir_mode: WorkingDirMode::Project,
        },
        Agent {
            id: "beta-agent".to_string(),
            kind: AgentKind::Cli,
            command: vec!["beta".to_string(), "--quiet".to_string()],
            working_dir_mode: WorkingDirMode::Fixed("/work".to_string()),
        },
    ];
    let config = config_with(Vec::new(), agents);
    let beta = config.get_agent("beta-agent").unwrap();
    assert_eq!(beta.command.len(), 2);
    match config.get_agent("gamma-agent") {
        Err(CockpitError::AgentNotFound(name)) => assert_eq!(name, "gamma-agent"),
        _ => panic!("expected AgentNotFound"),
    }
    assert!(config.get_project("alpha-agent").is_err());
}
