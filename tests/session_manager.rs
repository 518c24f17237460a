use cockpit_coder::error::CockpitError;
use cockpit_coder::models::{PullRequestRef, SessionId, SessionStatus};
use cockpit_coder::session_manager::SessionManager;
use cockpit_coder::time::Timestamp;

const HOUR_NANOS: i64 = 3_600_000_000_000;

fn at(secs: i64) -> Timestamp {
    Timestamp { secs, nanos: 0 }
}

fn pr_for(session_id: SessionId, number: u64) -> PullRequestRef {
    PullRequestRef {
        project_id: "p".to_string(),
        session_id,
        number,
        url: format!("https://example.com/pr/{}", number),
        head_branch: "feature".to_string(),
        base_branch: "main".to_string(),
        created_at: at(1),
        updated_at: at(1),
    }
}

#[test]
fn test_session_lifecycle() {
    let mut manager = SessionManager::new();

    let session = manager
        .create_session(
            "test-project".to_string(),
            "test-channel".to_string(),
            "1234.5678".to_string(),
            "alpha-agent".to_string(),
        )
        .unwrap();

    let retrieved = manager.get_session(session.id).unwrap();
    assert_eq!(retrieved.id, session.id);

    let by_thread = manager.get_by_thread("test-channel", "1234.5678").unwrap();
    assert_eq!(by_thread.id, session.id);

    manager
        .update_active_agent(session.id, "beta-agent".to_string())
        .unwrap();
    let updated = manager.get_session(session.id).unwrap();
    assert_eq!(updated.active_agent_id, "beta-agent");

    manager.update_status(session.id, SessionStatus::Ended).unwrap();
    let ended = manager.get_session(session.id).unwrap();
    assert_eq!(ended.status, SessionStatus::Ended);
}

#[test]
fn test_cleanup() {
    let mut manager = SessionManager::new();

    let session = manager
        .create_session(
            "test".to_string(),
            "channel".to_string(),
            "thread".to_string(),
            "agent".to_string(),
        )
        .unwrap();

    manager.update_status(session.id, SessionStatus::Ended).unwrap();

    let cleaned = manager.cleanup_ended(HOUR_NANOS);
    assert_eq!(cleaned, 0);

    let cleaned = manager.cleanup_ended(0);
    assert_eq!(cleaned, 1);
}

#[test]
fn scenario_full_session() {
    let mut m = SessionManager::default();
    let s = m
        .create_session("p".to_string(), "c1".to_string(), "t1".to_string(), "alpha-agent".to_string())
        .unwrap();
    assert_eq!(m.get_by_thread("c1", "t1").unwrap().id, s.id);
    m.update_active_agent(s.id, "beta-agent".to_string()).unwrap();
    assert_eq!(m.get_session(s.id).unwrap().active_agent_id, "beta-agent");
    m.update_status(s.id, SessionStatus::Ended).unwrap();
    assert!(m.list_active().iter().all(|x| x.id != s.id));
    assert_eq!(m.cleanup_ended(0), 1);
    assert!(matches!(m.get_session(s.id), Err(CockpitError::SessionNotFound(id)) if id == s.id));
}

#[test]
fn get_returns_created_fields() {
    let mut m = SessionManager::new();
    let id = SessionId { value: 42 };
    let s = m
        .create_session_at(id, at(100), "proj".to_string(), "ch".to_string(), "th".to_string(), "ag".to_string())
        .unwrap();
    let g = m.get_session(id).unwrap();
    assert_eq!(g.id, id);
    assert_eq!(g.project_id, "proj");
    assert_eq!(g.slack_channel, "ch");
    assert_eq!(g.slack_thread_ts, "th");
    assert_eq!(g.active_agent_id, "ag");
    assert_eq!(g.status, SessionStatus::Active);
    assert_eq!(g.created_at, at(100));
    assert_eq!(g.updated_at, s.created_at);
}

#[test]
fn clock_and_random_ids_fill_sessions() {
    let mut m = SessionManager::new();
    let a = m.create_session("p".to_string(), "c".to_string(), "t".to_string(), "x".to_string()).unwrap();
    let b = m.create_session("p".to_string(), "c".to_string(), "u".to_string(), "x".to_string()).unwrap();
    assert_ne!(a.id, b.id);
    assert_ne!(a.id.value, 0);
    assert!(a.created_at.secs > 1_600_000_000);
    assert_eq!(a.created_at, a.updated_at);
}

#[test]
fn duplicate_identifier_is_refused() {
    let mut m = SessionManager::new();
    let id = SessionId { value: 7 };
    m.create_session_at(id, at(1), "p".to_string(), "c".to_string(), "t".to_string(), "a".to_string())
        .unwrap();
    let r = m.create_session_at(id, at(2), "q".to_string(), "d".to_string(), "u".to_string(), "b".to_string());
    assert!(matches!(r, Err(CockpitError::DuplicateSessionId(x)) if x == id));
    assert!(m.get_by_thread("d", "u").is_err());
    assert_eq!(m.get_session(id).unwrap().project_id, "p");
}

#[test]
fn second_create_on_thread_takes_it_over() {
    let mut m = SessionManager::new();
    let a = SessionId { value: 1 };
    let b = SessionId { value: 2 };
    m.create_session_at(a, at(1), "p".to_string(), "c".to_string(), "t".to_string(), "x".to_string()).unwrap();
    assert_eq!(m.get_by_thread("c", "t").unwrap().id, a);
    m.create_session_at(b, at(2), "p".to_string(), "c".to_string(), "t".to_string(), "y".to_string()).unwrap();
    assert_eq!(m.get_by_thread("c", "t").unwrap().id, b);
    assert_eq!(m.get_session(a).unwrap().id, a);
}

#[test]
fn unbound_thread_is_its_own_error() {
    let m = SessionManager::new();
    match m.get_by_thread("nowhere", "0.0") {
        Err(CockpitError::ThreadNotBound(c, t)) => {
            assert_eq!(c, "nowhere");
            assert_eq!(t, "0.0");
        }
        _ => panic!("expected ThreadNotBound"),
    }
}

#[test]
fn updates_never_move_time_back() {
    let mut m = SessionManager::new();
    let id = SessionId { value: 9 };
    m.create_session_at(id, at(500), "p".to_string(), "c".to_string(), "t".to_string(), "x".to_string()).unwrap();
    m.update_active_agent_at(id, "y".to_string(), at(400)).unwrap();
    let s = m.get_session(id).unwrap();
    assert_eq!(s.updated_at, at(500));
    assert_eq!(s.active_agent_id, "y");
    m.update_status_at(id, SessionStatus::Ended, at(600)).unwrap();
    assert_eq!(m.get_session(id).unwrap().updated_at, at(600));
    m.update_status_at(id, SessionStatus::Active, at(550)).unwrap();
    let s = m.get_session(id).unwrap();
    assert_eq!(s.updated_at, at(600));
    assert_eq!(s.status, SessionStatus::Active);
    assert_eq!(s.created_at, at(500));
}

#[test]
fn updates_of_unknown_session_fail() {
    let mut m = SessionManager::new();
    let id = SessionId { value: 3 };
    assert!(matches!(m.update_active_agent(id, "a".to_string()), Err(CockpitError::SessionNotFound(x)) if x == id));
    assert!(matches!(m.update_status(id, SessionStatus::Ended), Err(CockpitError::SessionNotFound(x)) if x == id));
}

#[test]
fn list_active_filters_ended() {
    let mut m = SessionManager::new();
    for v in 1..=3u128 {
        m.create_session_at(SessionId { value: v }, at(1), "p".to_string(), "c".to_string(), format!("t{}", v), "x".to_string())
            .unwrap();
    }
    m.update_status_at(SessionId { value: 2 }, SessionStatus::Ended, at(2)).unwrap();
    let mut ids: Vec<u128> = m.list_active().iter().map(|s| s.id.value).collect();
    ids.sort();
    assert_eq!(ids, vec![1, 3]);
    assert!(SessionManager::new().list_active().is_empty());
}

#[test]
fn sweep_respects_window() {
    let mut m = SessionManager::new();
    let id = SessionId { value: 11 };
    m.create_session_at(id, at(1000), "p".to_string(), "c".to_string(), "t".to_string(), "x".to_string()).unwrap();
    m.update_status_at(id, SessionStatus::Ended, at(1000)).unwrap();
    assert_eq!(m.cleanup_ended_at(at(1000), 0), 0);
    assert_eq!(m.cleanup_ended_at(at(1000 + 3599), HOUR_NANOS), 0);
    assert_eq!(m.cleanup_ended_at(at(1000 + 3601), HOUR_NANOS), 1);
    assert!(m.get_session(id).is_err());
}

#[test]
fn sweep_keeps_active_sessions() {
    let mut m = SessionManager::new();
    let id = SessionId { value: 12 };
    m.create_session_at(id, at(1), "p".to_string(), "c".to_string(), "t".to_string(), "x".to_string()).unwrap();
    assert_eq!(m.cleanup_ended_at(at(1_000_000), 0), 0);
    assert!(m.get_session(id).is_ok());
    assert_eq!(m.cleanup_ended_at(at(1_000_000), i64::MIN), 0);
}

#[test]
fn sweep_clears_index_and_prs() {
    let mut m = SessionManager::new();
    let old = SessionId { value: 21 };
    let keep = SessionId { value: 22 };
    m.create_session_at(old, at(10), "p".to_string(), "c".to_string(), "t1".to_string(), "x".to_string()).unwrap();
    m.create_session_at(keep, at(10), "p".to_string(), "c".to_string(), "t2".to_string(), "x".to_string()).unwrap();
    m.set_pr_ref(pr_for(old, 5)).unwrap();
    m.set_pr_ref(pr_for(keep, 6)).unwrap();
    m.update_status_at(old, SessionStatus::Ended, at(20)).unwrap();
    assert_eq!(m.cleanup_ended_at(at(30), 0), 1);
    assert!(m.get_by_thread("c", "t1").is_err());
    assert!(matches!(m.get_pr_ref(old), Err(CockpitError::SessionNotFound(x)) if x == old));
    assert_eq!(m.get_pr_ref(keep).unwrap().number, 6);
    assert_eq!(m.get_by_thread("c", "t2").unwrap().id, keep);
}

#[test]
fn pr_ref_upsert() {
    let mut m = SessionManager::new();
    let id = SessionId { value: 31 };
    assert!(m.get_pr_ref(id).is_err());
    m.set_pr_ref(pr_for(id, 1)).unwrap();
    m.set_pr_ref(pr_for(id, 2)).unwrap();
    let pr = m.get_pr_ref(id).unwrap();
    assert_eq!(pr.number, 2);
    assert_eq!(pr.url, "https://example.com/pr/2");
}

#[test]
fn timestamp_arithmetic() {
    let t = Timestamp { secs: 2, nanos: 5 };
    assert_eq!(t.as_nanos(), 2_000_000_005);
    assert_eq!(Timestamp { secs: -1, nanos: 0 }.as_nanos(), -1_000_000_000);
    assert_eq!(t.later_of(at(3)), at(3));
    assert_eq!(at(3).later_of(t), at(3));
    assert_eq!(t.later_of(t), t);
}
