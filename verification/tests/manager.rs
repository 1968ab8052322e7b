use std::sync::{Arc, Mutex};
use std::time::{Duration, Instant};

use codeg::clock::Stamp;
use codeg::error::AcpError;
use codeg::manager::{
    delivery, spawn_handshake_timeout, Connection, ConnectionManager, ConnectionStatus,
    HandshakeWaitOutcome, SpawnDedupKey, SpawnPlan, WorkingDir, MAX_IDLE_NANOS,
    SPAWN_HANDSHAKE_TIMEOUT_SECS,
};
use codeg::models::AgentType;

const NOW: Stamp = Stamp { secs: 1_000_000, nanos: 0 };
const SECOND: i128 = 1_000_000_000;

fn dir(path: &str) -> WorkingDir {
    WorkingDir { components: path.split('/').map(|c| c.as_bytes().to_vec()).collect() }
}

fn connection(id: &str) -> Connection {
    Connection {
        id: id.to_string(),
        agent_type: AgentType::ClaudeCode,
        owner_window_label: "test-window".to_string(),
        status: ConnectionStatus::Connected,
        working_dir: None,
        external_id: None,
        conversation_id: None,
        last_activity_at: NOW,
        pending_permission: false,
    }
}

fn resumable(id: &str, working_dir: &str) -> Connection {
    Connection {
        working_dir: Some(dir(working_dir)),
        external_id: Some("ext-1".to_string()),
        ..connection(id)
    }
}

fn backdated(id: &str, secs_ago: i64) -> Connection {
    Connection {
        last_activity_at: Stamp { secs: NOW.secs - secs_ago, nanos: 0 },
        ..connection(id)
    }
}

fn manager(connections: Vec<Connection>) -> ConnectionManager {
    let mut mgr = ConnectionManager::new(None);
    for c in connections {
        mgr.insert_connection(c);
    }
    mgr
}

#[test]
fn get_state_returns_arc_for_known_connection() {
    let mgr = manager(vec![connection("c1")]);
    assert_eq!(mgr.get_state("c1").expect("state should be found").id, "c1");
}

#[test]
fn get_state_returns_none_for_unknown_connection() {
    let mgr = ConnectionManager::new(None);
    assert!(mgr.get_state("does-not-exist").is_none());
}

#[test]
fn find_connection_by_conversation_id_matches_when_bound() {
    let mgr = manager(vec![
        Connection { conversation_id: Some(42), ..connection("c1") },
        connection("c2"),
    ]);
    assert_eq!(mgr.find_connection_by_conversation_id(42).expect("should find c1"), "c1");
    assert!(mgr.find_connection_by_conversation_id(999).is_none());
}

#[test]
fn find_connection_for_reuse_returns_none_when_session_id_is_none() {
    let mgr = manager(vec![resumable("c1", "/tmp/reuse")]);
    let found =
        mgr.find_connection_for_reuse(AgentType::ClaudeCode, Some(&dir("/tmp/reuse")), None);
    assert!(found.is_none(), "no session_id means we never dedup speculative connects");
}

#[test]
fn spawn_agent_reuses_existing_connection_when_session_id_matches() {
    let existing_id = "preexisting-conn";
    let working_dir = dir("/tmp/reuse-match");
    let mgr = manager(vec![resumable(existing_id, "/tmp/reuse-match")]);
    let find = |agent, path: &WorkingDir, session: &str| {
        mgr.find_connection_for_reuse(agent, Some(path), Some(session))
    };
    assert_eq!(find(AgentType::ClaudeCode, &working_dir, "ext-1").as_deref(), Some(existing_id));
    assert!(find(AgentType::ClaudeCode, &working_dir, "other-ext").is_none());
    assert!(find(AgentType::ClaudeCode, &dir("/tmp/different"), "ext-1").is_none());
    assert!(find(AgentType::Codex, &working_dir, "ext-1").is_none());
    match mgr.plan_spawn(AgentType::ClaudeCode, Some(&working_dir), Some("ext-1")) {
        SpawnPlan::Reuse(id) => assert_eq!(id, existing_id),
        other => panic!("expected reuse, got {other:?}"),
    }
}

#[test]
fn find_connection_for_reuse_skips_disconnected_or_errored() {
    let working_dir = dir("/tmp/torn-down");
    for status in [ConnectionStatus::Disconnected, ConnectionStatus::Error] {
        let mgr = manager(vec![Connection { status, ..resumable("torn", "/tmp/torn-down") }]);
        assert!(
            mgr.find_connection_for_reuse(
                AgentType::ClaudeCode,
                Some(&working_dir),
                Some("ext-1")
            )
            .is_none(),
            "a connection that is over must not be reused"
        );
    }
}

#[test]
fn sweep_idle_disconnects_idle_connected_connections() {
    let mut mgr = manager(vec![backdated("stale", 600)]);
    assert_eq!(mgr.sweep_idle(300 * SECOND, NOW), vec!["stale".to_string()]);
    assert!(mgr.get_state("stale").is_none(), "Idle connection must be removed after sweep");
}

#[test]
fn sweep_idle_skips_recently_active_connection() {
    let mut mgr = manager(vec![connection("fresh")]);
    assert!(mgr.sweep_idle(300 * SECOND, NOW).is_empty());
    assert!(mgr.get_state("fresh").is_some());
}

#[test]
fn sweep_idle_skips_prompting_connection() {
    let mut mgr = manager(vec![Connection {
        status: ConnectionStatus::Prompting,
        ..backdated("prompting", 600)
    }]);
    assert!(mgr.sweep_idle(300 * SECOND, NOW).is_empty());
    assert!(mgr.get_state("prompting").is_some());
}

#[test]
fn sweep_idle_skips_pending_permission() {
    let mut mgr = manager(vec![Connection {
        pending_permission: true,
        ..backdated("permission", 600)
    }]);
    assert!(
        mgr.sweep_idle(300 * SECOND, NOW).is_empty(),
        "Connection with pending permission must not be swept (user is mid-decision)"
    );
    assert!(mgr.get_state("permission").is_some());
}

#[test]
fn sweep_idle_picks_only_qualifying_subset() {
    let mut mgr = manager(vec![
        backdated("a", 600),
        connection("b"),
        Connection { status: ConnectionStatus::Prompting, ..backdated("c", 600) },
    ]);
    assert_eq!(mgr.sweep_idle(300 * SECOND, NOW).len(), 1);
    assert!(mgr.get_state("a").is_none());
    assert!(mgr.get_state("b").is_some());
    assert!(mgr.get_state("c").is_some());
}

#[test]
fn sweep_idle_takes_the_exact_timeout_and_no_uncountable_one() {
    let mut mgr = manager(vec![backdated("edge", 300)]);
    assert!(mgr.sweep_idle(300 * SECOND + 1, NOW).is_empty());
    assert!(mgr.sweep_idle(MAX_IDLE_NANOS + 1, NOW).is_empty());
    assert_eq!(mgr.sweep_idle(300 * SECOND, NOW).len(), 1);
}

#[test]
fn touch_protects_from_the_sweep() {
    let mut mgr = manager(vec![
        backdated("a", 600),
        Connection { status: ConnectionStatus::Error, ..backdated("b", 600) },
    ]);
    assert!(mgr.touch("a", NOW));
    assert!(!mgr.touch("b", NOW), "a dead connection is not resurrected");
    assert!(!mgr.touch("missing", NOW));
    assert!(mgr.sweep_idle(300 * SECOND, NOW).is_empty());
}

#[test]
fn spawn_locks_are_shared_across_clone_ref() {
    let key = |session: &str| SpawnDedupKey {
        agent_type: AgentType::ClaudeCode,
        working_dir: Some(dir("/tmp/dedup-test")),
        session_id: session.to_string(),
    };
    let mgr = Arc::new(Mutex::new(ConnectionManager::new(None)));
    let cloned = Arc::clone(&mgr);
    let first = mgr.lock().unwrap().spawn_lock(key("ext-shared"));
    let other = mgr.lock().unwrap().spawn_lock(key("ext-other"));
    assert_ne!(first, other);
    assert_eq!(
        cloned.lock().unwrap().spawn_lock(key("ext-shared")),
        first,
        "spawn_locks must be shared between original and clone_ref"
    );
}

/// Waits for the signal that a session has begun.
fn wait_for_session_started(
    fire: impl FnOnce(tokio::sync::oneshot::Sender<()>) -> Option<tokio::sync::oneshot::Sender<()>>,
    timeout: Duration,
) -> (HandshakeWaitOutcome, Duration) {
    let runtime = tokio::runtime::Builder::new_current_thread().enable_time().build().unwrap();
    runtime.block_on(async {
        let (tx, rx) = tokio::sync::oneshot::channel();
        let _kept = fire(tx);
        let start = Instant::now();
        let signal = match tokio::time::timeout(timeout, rx).await {
            Ok(begun) => Some(begun.is_ok()),
            Err(_) => None,
        };
        (HandshakeWaitOutcome::of_signal(signal), start.elapsed())
    })
}

#[test]
fn wait_for_session_started_returns_ready_when_sender_fires() {
    let fire = |tx: tokio::sync::oneshot::Sender<()>| {
        tokio::spawn(async move {
            let _ = tx.send(());
        });
        None
    };
    let (outcome, elapsed) = wait_for_session_started(fire, Duration::from_millis(500));
    assert_eq!(outcome, HandshakeWaitOutcome::Ready);
    assert_eq!(outcome.as_str(), "ready");
    assert!(
        elapsed < Duration::from_millis(500),
        "Ready outcome must resolve well before timeout, got {elapsed:?}"
    );
}

#[test]
fn wait_for_session_started_returns_aborted_when_sender_drops() {
    let fire = |tx: tokio::sync::oneshot::Sender<()>| {
        drop(tx);
        None
    };
    let (outcome, elapsed) = wait_for_session_started(fire, Duration::from_millis(500));
    assert_eq!(outcome, HandshakeWaitOutcome::Aborted);
    assert_eq!(outcome.as_str(), "aborted");
    assert!(
        elapsed < Duration::from_millis(500),
        "Aborted outcome must resolve well before timeout, got {elapsed:?}"
    );
}

#[test]
fn wait_for_session_started_returns_timed_out_when_neither_happens() {
    let (outcome, elapsed) = wait_for_session_started(Some, Duration::from_millis(40));
    assert_eq!(outcome, HandshakeWaitOutcome::TimedOut);
    assert_eq!(outcome.as_str(), "timeout");
    assert!(
        elapsed >= Duration::from_millis(40),
        "TimedOut must wait at least the full timeout, got {elapsed:?}"
    );
}

#[test]
fn spawn_handshake_timeout_from_env_uses_default_when_unset() {
    assert_eq!(spawn_handshake_timeout(None), SPAWN_HANDSHAKE_TIMEOUT_SECS);
    assert_eq!(spawn_handshake_timeout(Some("5")), 5);
    assert_eq!(
        spawn_handshake_timeout(Some("garbage")),
        SPAWN_HANDSHAKE_TIMEOUT_SECS,
        "invalid value falls back to default"
    );
    assert_eq!(ConnectionManager::new(Some("5")).handshake_timeout_secs(), 5);
}

#[test]
fn with_spawn_handshake_timeout_overrides_default_for_tests() {
    let mgr = ConnectionManager::with_spawn_handshake_timeout(7);
    assert_eq!(mgr.handshake_timeout_secs(), 7);
}

#[test]
fn new_agents_get_random_ids() {
    let mgr = ConnectionManager::new(None);
    let SpawnPlan::Spawn { id, wait } = mgr.plan_spawn(AgentType::Codex, None, None) else {
        panic!("nothing to reuse");
    };
    assert!(!wait, "a fresh session is not waited for");
    assert_eq!(id.len(), 36);
    assert_eq!(id.matches('-').count(), 4);
    assert_eq!(id.chars().nth(14), Some('4'));
    let SpawnPlan::Spawn { id: other, wait } = mgr.plan_spawn(AgentType::Codex, None, Some("s"))
    else {
        panic!("nothing to reuse");
    };
    assert!(wait);
    assert_ne!(id, other);
}

#[test]
fn connections_are_taken_out() {
    let mut mgr = manager(vec![
        connection("a"),
        Connection { owner_window_label: "other".to_string(), ..connection("b") },
        connection("c"),
    ]);
    let listed: Vec<String> = mgr.list_connections().into_iter().map(|i| i.id).collect();
    assert_eq!(listed, ["a", "b", "c"]);
    assert!(mgr.disconnect("a").is_ok());
    match mgr.disconnect("a") {
        Err(AcpError::ConnectionNotFound(id)) => assert_eq!(id, "a"),
        other => panic!("{other:?}"),
    }
    assert!(mgr.require_connection("a").is_err());
    assert_eq!(mgr.disconnect_by_owner_window("other"), vec!["b".to_string()]);
    assert_eq!(mgr.disconnect_all(), vec!["c".to_string()]);
    assert!(mgr.list_connections().is_empty());
}

#[test]
fn inserting_replaces_the_same_id() {
    let mut mgr = manager(vec![connection("a"), connection("b")]);
    mgr.insert_connection(Connection { conversation_id: Some(5), ..connection("a") });
    assert_eq!(mgr.list_connections().len(), 2);
    assert_eq!(mgr.require_connection("a").unwrap().conversation_id, Some(5));
}

#[test]
fn delivery_fails_when_the_process_is_gone() {
    assert!(delivery(true).is_ok());
    assert!(matches!(delivery(false), Err(AcpError::ProcessExited)));
}
