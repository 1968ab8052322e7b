use std::sync::Arc;

use codeg::bridge::{
    counted_evictions, emit_event, emit_with_state, should_broadcast, Destination, EventEmitter,
};
use codeg::clock::Stamp;
use codeg::error::AcpError;
use codeg::flows::{
    begin_fork, cancel_marked, cancel_told, fork_replied, fork_result, fork_rows, next_prompt,
    CancelStep, ForkReply, ForkSource, PromptEvent, PromptStep, PromptTarget,
};
use codeg::models::{AgentType, ConversationStatus};

#[derive(Debug, PartialEq)]
enum Event {
    Linked(i32, i32),
    Status(i32, ConversationStatus),
}

/// A database, a session and an agent that only exist in memory.
#[derive(Default)]
struct World {
    rows: Vec<(i32, ConversationStatus)>,
    external_ids: Vec<(i32, String)>,
    conversation_id: Option<i32>,
    external_id: Option<String>,
    seq: u64,
    events: Vec<(u64, Event)>,
    agent_alive: bool,
    database_down: bool,
}

impl World {
    fn emit(&mut self, event: Event) {
        let (envelope, _) =
            emit_with_state(&mut self.seq, "conn", event, EventEmitter::web_only());
        if let Event::Linked(id, _) = envelope.payload {
            self.conversation_id = Some(id);
        }
        self.events.push((envelope.seq, envelope.payload));
    }

    fn mark(&mut self, id: i32, status: ConversationStatus) -> Result<(), String> {
        if self.database_down {
            return Err("database is down".to_string());
        }
        let row = self.rows.iter_mut().find(|r| r.0 == id).ok_or("no row")?;
        row.1 = status;
        Ok(())
    }

    fn create(&mut self) -> Result<i32, String> {
        if self.database_down {
            return Err("database is down".to_string());
        }
        let id = 100 + self.rows.len() as i32;
        self.rows.push((id, ConversationStatus::PendingReview));
        Ok(id)
    }

    /// What comes of a step; `None` where it is the last.
    fn carry_out(&mut self, step: &PromptStep) -> Option<PromptEvent> {
        Some(match step {
            PromptStep::ReadLink => PromptEvent::Link(self.conversation_id.is_some()),
            PromptStep::CreateRow { .. } => PromptEvent::Created(self.create()),
            PromptStep::EmitLinked { conversation_id, folder_id } => {
                self.emit(Event::Linked(*conversation_id, *folder_id));
                PromptEvent::Emitted
            }
            PromptStep::ReadIds => PromptEvent::Ids {
                conversation_id: self.conversation_id,
                external_id_known: self.external_id.is_some(),
            },
            PromptStep::SaveExternalId { conversation_id } => {
                let id = self.external_id.clone().unwrap();
                self.external_ids.push((*conversation_id, id));
                PromptEvent::Saved(Ok(()))
            }
            PromptStep::ReadTarget => PromptEvent::Target(self.conversation_id),
            PromptStep::MarkInProgress { conversation_id } => {
                PromptEvent::Saved(self.mark(*conversation_id, ConversationStatus::InProgress))
            }
            PromptStep::EmitInProgress { conversation_id } => {
                self.emit(Event::Status(*conversation_id, ConversationStatus::InProgress));
                PromptEvent::Emitted
            }
            PromptStep::Send { .. } => PromptEvent::Sent(if self.agent_alive {
                Ok(())
            } else {
                Err(AcpError::ProcessExited)
            }),
            PromptStep::MarkCancelled { conversation_id, .. } => {
                PromptEvent::Saved(self.mark(*conversation_id, ConversationStatus::Cancelled))
            }
            PromptStep::EmitCancelled { conversation_id, .. } => {
                self.emit(Event::Status(*conversation_id, ConversationStatus::Cancelled));
                PromptEvent::Emitted
            }
            PromptStep::Finish(_) => return None,
        })
    }

    fn send(
        &mut self,
        folder_id: Option<i32>,
        conversation_id: Option<i32>,
    ) -> Result<(), AcpError> {
        let target = PromptTarget { folder_id, conversation_id };
        let mut step = PromptStep::ReadLink;
        while let Some(event) = self.carry_out(&step) {
            step = next_prompt(target, step, event);
        }
        match step {
            PromptStep::Finish(result) => result,
            other => panic!("{other:?}"),
        }
    }
}

#[test]
fn send_prompt_linked_creates_conversation_on_first_call_only() {
    let mut world = World::default();
    let _ = world.send(Some(7), None);
    let first_id = world.conversation_id.expect("conversation_id should be set");
    assert_eq!(world.events[0].1, Event::Linked(first_id, 7));
    let _ = world.send(Some(7), None);
    assert_eq!(world.conversation_id, Some(first_id));
    assert_eq!(world.rows.len(), 1);
}

#[test]
fn send_prompt_linked_errors_when_no_folder_id() {
    let mut world = World::default();
    match world.send(None, None) {
        Err(AcpError::Protocol(message)) => {
            assert_eq!(message, "folder_id required for new conversation row")
        }
        other => panic!("{other:?}"),
    }
    assert!(world.events.is_empty());
}

#[test]
fn send_prompt_linked_uses_caller_conversation_id_when_provided() {
    let mut world = World {
        rows: vec![(42, ConversationStatus::PendingReview)],
        ..World::default()
    };
    let _ = world.send(Some(7), Some(42));
    assert_eq!(world.rows.len(), 1, "no new row should be created");
    assert_eq!(world.conversation_id, Some(42));
    assert_eq!(world.events[0].1, Event::Linked(42, 7));
}

#[test]
fn send_prompt_linked_rejects_conversation_id_without_folder_id() {
    let mut world = World::default();
    let err = world.send(None, Some(42)).expect_err("should reject");
    match err {
        AcpError::Protocol(message) => {
            assert_eq!(message, "conversation_id provided without folder_id")
        }
        other => panic!("{other:?}"),
    }
    assert!(world.events.is_empty());
}

#[test]
fn linked_session_ignores_what_the_sender_names() {
    for (folder_id, conversation_id) in
        [(None, None), (None, Some(9)), (Some(8), None), (Some(8), Some(9))]
    {
        let mut world = World {
            rows: vec![(42, ConversationStatus::PendingReview)],
            conversation_id: Some(42),
            agent_alive: true,
            ..World::default()
        };
        assert!(world.send(folder_id, conversation_id).is_ok());
        assert_eq!(world.conversation_id, Some(42));
        assert_eq!(world.rows, [(42, ConversationStatus::InProgress)]);
        assert_eq!(world.events.len(), 1);
    }
}

#[test]
fn send_prompt_linked_caller_id_is_noop_when_already_linked() {
    let mut world = World {
        rows: vec![(42, ConversationStatus::PendingReview)],
        conversation_id: Some(42),
        ..World::default()
    };
    let _ = world.send(Some(7), Some(42));
    assert_eq!(world.rows.len(), 1);
    let events: Vec<&Event> = world.events.iter().map(|e| &e.1).collect();
    assert_eq!(
        events,
        [
            &Event::Status(42, ConversationStatus::InProgress),
            &Event::Status(42, ConversationStatus::Cancelled)
        ]
    );
}

#[test]
fn send_prompt_linked_writes_in_progress_and_emits_event() {
    let mut world = World::default();
    let _ = world.send(Some(7), None);
    let id = world.conversation_id.unwrap();
    let events: Vec<&Event> = world.events.iter().map(|e| &e.1).collect();
    assert_eq!(
        events,
        [
            &Event::Linked(id, 7),
            &Event::Status(id, ConversationStatus::InProgress),
            &Event::Status(id, ConversationStatus::Cancelled)
        ]
    );
    assert!(world.events.windows(2).all(|w| w[1].0 > w[0].0));
    assert_eq!(world.rows[0].1, ConversationStatus::Cancelled);

    world.rows[0].1 = ConversationStatus::PendingReview;
    let _ = world.send(Some(7), None);
    assert_eq!(world.events[3].1, Event::Status(id, ConversationStatus::InProgress));
    assert_eq!(world.events[4].1, Event::Status(id, ConversationStatus::Cancelled));
    assert_eq!(world.rows[0].1, ConversationStatus::Cancelled);
}

/// Sends a prompt while others do: the session's lock is held until the prompt is over,
/// and between any two steps the other senders have their turn.
async fn send_beside_others(
    world: Arc<tokio::sync::Mutex<World>>,
    prompt_lock: Arc<tokio::sync::Mutex<()>>,
    target: PromptTarget,
) {
    let _guard = prompt_lock.lock().await;
    let mut step = PromptStep::ReadLink;
    loop {
        let event = world.lock().await.carry_out(&step);
        let Some(event) = event else {
            return;
        };
        step = next_prompt(target, step, event);
        tokio::task::yield_now().await;
    }
}

#[test]
fn send_prompt_linked_serializes_concurrent_callers() {
    let runtime = tokio::runtime::Builder::new_multi_thread().worker_threads(4).build().unwrap();
    let world = Arc::new(tokio::sync::Mutex::new(World::default()));
    let prompt_lock = Arc::new(tokio::sync::Mutex::new(()));
    let target = PromptTarget { folder_id: Some(7), conversation_id: None };
    runtime.block_on(async {
        let first =
            tokio::spawn(send_beside_others(world.clone(), prompt_lock.clone(), target));
        let second =
            tokio::spawn(send_beside_others(world.clone(), prompt_lock.clone(), target));
        first.await.unwrap();
        second.await.unwrap();
    });
    let world = world.blocking_lock();
    assert_eq!(
        world.rows.len(),
        1,
        "exactly one new conversation row across two concurrent send_prompt_linked"
    );
    let links = world.events.iter().filter(|e| matches!(e.1, Event::Linked(..))).count();
    assert_eq!(links, 1);
    assert_eq!(world.conversation_id, Some(world.rows[0].0));
}

#[test]
fn send_prompt_linked_rolls_back_to_cancelled_on_send_failure() {
    let mut world = World::default();
    let result = world.send(Some(7), None);
    assert!(
        matches!(result, Err(AcpError::ProcessExited)),
        "the send error must propagate up to the caller; got {result:?}"
    );
    assert_eq!(world.events.len(), 3);
    assert_eq!(world.rows[0].1, ConversationStatus::Cancelled);
}

#[test]
fn prompt_reaches_a_living_agent() {
    let mut world = World {
        agent_alive: true,
        external_id: Some("S1".to_string()),
        ..World::default()
    };
    assert!(world.send(Some(7), None).is_ok());
    assert_eq!(world.rows[0].1, ConversationStatus::InProgress);
    assert_eq!(world.external_ids, vec![(100, "S1".to_string())]);
    assert_eq!(world.events.len(), 2);
}

#[test]
fn prompt_fails_with_the_database() {
    let mut world = World { database_down: true, agent_alive: true, ..World::default() };
    match world.send(Some(7), None) {
        Err(AcpError::Protocol(message)) => assert_eq!(message, "database is down"),
        other => panic!("{other:?}"),
    }
    assert!(world.events.is_empty());
}

#[test]
fn cancel_marks_only_what_is_in_progress() {
    assert!(matches!(
        cancel_told(false, Some(1)),
        CancelStep::Finish(Err(AcpError::ProcessExited))
    ));
    assert!(matches!(cancel_told(true, None), CancelStep::Finish(Ok(()))));
    assert!(matches!(
        cancel_told(true, Some(1)),
        CancelStep::MarkIfInProgress { conversation_id: 1 }
    ));
    assert!(matches!(
        cancel_marked(1, Some(true)),
        CancelStep::EmitCancelled { conversation_id: 1 }
    ));
    assert!(matches!(cancel_marked(1, Some(false)), CancelStep::Finish(Ok(()))));
    assert!(matches!(cancel_marked(1, None), CancelStep::Finish(Ok(()))));
}

const NOW: Stamp = Stamp { secs: 1_700_000_000, nanos: 5 };

fn source(title: Option<&str>, branch: Option<&str>) -> ForkSource {
    ForkSource {
        folder_id: 7,
        title: title.map(str::to_string),
        agent_type: AgentType::ClaudeCode,
        git_branch: branch.map(str::to_string),
    }
}

fn reply() -> ForkReply {
    ForkReply {
        forked_session_id: "session-S2".to_string(),
        original_session_id: "session-S1".to_string(),
    }
}

#[test]
fn fork_session_writes_atomic_two_row_layout() {
    let (current, sibling) = fork_rows(source(Some("Original Topic"), Some("feature/x")), &reply(), NOW);
    assert_eq!(current.external_id, "session-S2");
    assert_eq!(current.title.as_deref(), Some("[Fork] Original Topic"));
    assert_eq!(sibling.external_id, "session-S1");
    assert_eq!(sibling.title.as_deref(), Some("Original Topic"));
    assert_eq!(sibling.status.as_str(), "pending_review");
    assert_eq!(sibling.folder_id, 7);
    assert_eq!(sibling.git_branch.as_deref(), Some("feature/x"));
    assert_eq!(sibling.message_count, 0);
    assert!(sibling.model.is_none());
    assert!(sibling.parent_id.is_none());
    assert!(sibling.deleted_at.is_none());
    assert_eq!((sibling.created_at, sibling.updated_at), (NOW, NOW));
    assert_eq!(current.updated_at, NOW);
    let result = fork_result(reply(), 9);
    assert_eq!(result.forked_session_id, "session-S2");
    assert_eq!(result.original_session_id, "session-S1");
    assert_eq!(result.sibling_conversation_id, 9);
}

#[test]
fn fork_session_strips_existing_fork_prefix_without_stacking() {
    let (current, sibling) = fork_rows(source(Some("[Fork] Topic"), None), &reply(), NOW);
    assert_eq!(current.title.as_deref(), Some("[Fork] Topic"));
    assert_eq!(sibling.title.as_deref(), Some("Topic"));
}

#[test]
fn fork_session_strips_no_space_fork_prefix() {
    let (current, _) = fork_rows(source(Some("[Fork]NoSpaceTitle"), None), &reply(), NOW);
    assert_eq!(current.title.as_deref(), Some("[Fork] NoSpaceTitle"));
}

#[test]
fn fork_session_rejects_unbound_connection() {
    match begin_fork(None) {
        Err(AcpError::Protocol(message)) => {
            assert!(message.contains("linked conversation row"), "got: {message}")
        }
        other => panic!("{other:?}"),
    }
    assert_eq!(begin_fork(Some(3)).unwrap(), 3);
}

#[test]
fn fork_without_title_keeps_none() {
    let (current, sibling) = fork_rows(source(None, None), &reply(), NOW);
    assert!(current.title.is_none());
    assert!(sibling.title.is_none());
}

#[test]
fn fork_needs_an_answer() {
    assert!(matches!(fork_replied(false, None), Err(AcpError::ProcessExited)));
    match fork_replied(true, None) {
        Err(AcpError::Protocol(m)) => assert_eq!(m, "Fork reply channel closed"),
        other => panic!("{other:?}"),
    }
    match fork_replied(true, Some(Err(AcpError::protocol("unsupported")))) {
        Err(AcpError::Protocol(m)) => assert_eq!(m, "unsupported"),
        other => panic!("{other:?}"),
    }
    assert!(fork_replied(true, Some(Ok(reply()))).is_ok());
}

#[test]
fn events_go_to_those_who_listen() {
    let desktop = EventEmitter::Tauri { broadcaster: true, bus: false };
    let route = emit_event(desktop, true, 1);
    assert!(route.web_view && route.web_clients);
    let route = emit_event(desktop, true, 0);
    assert!(route.web_view && !route.web_clients);
    assert!(!emit_event(desktop, false, 1).web_view);
    let route = emit_event(EventEmitter::WebOnly, true, 2);
    assert!(!route.web_view && route.web_clients);
    let route = emit_event(EventEmitter::Noop, true, 2);
    assert!(!route.web_view && !route.web_clients);
    assert!(should_broadcast(true, 1));
    assert!(!should_broadcast(true, 0));
}

#[test]
fn events_of_a_connection_are_numbered() {
    let own = [Destination::State, Destination::Recent, Destination::Stream];
    let mut seq = 0;
    let (first, to) = emit_with_state(&mut seq, "c1", "a", EventEmitter::WebOnly);
    assert_eq!((first.seq, first.connection_id.as_str(), first.payload), (1, "c1", "a"));
    assert_eq!(to[..3], own);
    assert_eq!(to[3..], [Destination::Bus]);
    assert_eq!(counted_evictions(EventEmitter::WebOnly, 2), 2);
    let (second, to) = emit_with_state(&mut seq, "c1", "b", EventEmitter::Noop);
    assert_eq!(second.seq, 2);
    assert_eq!(to, own);
    assert_eq!(counted_evictions(EventEmitter::Noop, 2), 0);
    let desktop = EventEmitter::Tauri { broadcaster: true, bus: true };
    assert!(desktop.acp_event_bus() && desktop.metrics());
    let (third, to) = emit_with_state(&mut seq, "c1", "c", desktop);
    assert_eq!(third.seq, 3);
    assert_eq!(to[3..], [Destination::WebView, Destination::Bus]);
}
