use codeg::clock::Stamp;
use codeg::conversations::{
    agents_to_list, begin_load, branch_of_text, candidate_read, candidates_listed,
    compute_folders, compute_stats, detect_git_branch, folder_not_found,
    list_conversations_sync, loaded_conversation, match_candidate, message_count_of,
    parse_error_to_app_error, record_read, requested_status, sidebar_data, task_failed,
    took_place_in_folder, Candidate, ConversationTask, ListedConversation, LoadStep, ParseError,
};
use codeg::error::{AppCommandError, AppErrorCode};
use codeg::models::{AgentType, ConversationStatus, ConversationSummary};

fn summary(agent_type: AgentType, id: &str, started: i64, messages: u32) -> ConversationSummary {
    ConversationSummary {
        agent_type,
        id: id.to_string(),
        title: Some(format!("Title {id}")),
        folder_path: Some("/work/app".to_string()),
        folder_name: Some("app".to_string()),
        git_branch: None,
        model: None,
        started_at: Stamp { secs: started, nanos: 0 },
        message_count: messages,
    }
}

fn listed(summary: ConversationSummary) -> ListedConversation {
    ListedConversation { summary, in_folder: false }
}

fn ids(list: &[ConversationSummary]) -> Vec<&str> {
    list.iter().map(|c| c.id.as_str()).collect()
}

fn sample() -> Vec<Option<Vec<ListedConversation>>> {
    vec![
        Some(vec![
            listed(summary(AgentType::ClaudeCode, "a", 10, 5)),
            listed(summary(AgentType::ClaudeCode, "b", 30, 1)),
            listed(summary(AgentType::ClaudeCode, "a", 99, 9)),
        ]),
        None,
        Some(vec![listed(summary(AgentType::Codex, "a", 20, 5))]),
    ]
}

#[test]
fn listing_sorts_as_asked() {
    assert_eq!(ids(&list_conversations_sync(sample(), None, false, None)), ["b", "a", "a"]);
    let oldest = list_conversations_sync(sample(), None, false, Some("oldest"));
    assert_eq!(ids(&oldest), ["a", "a", "b"]);
    assert_eq!(oldest[0].agent_type, AgentType::ClaudeCode);
    let by_messages = list_conversations_sync(sample(), None, false, Some("messages"));
    assert_eq!(by_messages[0].agent_type, AgentType::ClaudeCode, "equal counts keep their order");
    assert_eq!(by_messages[1].agent_type, AgentType::Codex);
    assert_eq!(by_messages[2].id, "b");
    let unknown = list_conversations_sync(sample(), None, false, Some("random"));
    assert_eq!(ids(&unknown), ["b", "a", "a"]);
}

#[test]
fn listing_keeps_the_first_of_duplicates() {
    let all = list_conversations_sync(sample(), None, false, None);
    assert_eq!(all.len(), 3);
    assert!(all.iter().all(|c| c.started_at.secs != 99));
}

#[test]
fn listing_searches_every_field_whatever_the_case() {
    let found = list_conversations_sync(sample(), Some("TITLE B"), false, None);
    assert_eq!(ids(&found), ["b"]);
    assert_eq!(list_conversations_sync(sample(), Some("WORK/APP"), false, None).len(), 3);
    assert!(list_conversations_sync(sample(), Some("nothing"), false, None).is_empty());
    let branch = ConversationSummary {
        git_branch: Some("Straße".to_string()),
        title: None,
        ..summary(AgentType::Gemini, "g", 1, 1)
    };
    let model = ConversationSummary {
        model: Some("Big-Model".to_string()),
        folder_name: None,
        ..summary(AgentType::Gemini, "m", 1, 1)
    };
    let listings = vec![Some(vec![listed(branch), listed(model)])];
    assert_eq!(ids(&list_conversations_sync(listings, Some("STRASSE"), false, None)), [""; 0]);
    let branch = ConversationSummary {
        git_branch: Some("Feature/X".to_string()),
        ..summary(AgentType::Gemini, "g", 1, 1)
    };
    let listings = vec![Some(vec![listed(branch)])];
    assert_eq!(ids(&list_conversations_sync(listings, Some("feature/x"), false, None)), ["g"]);
}

#[test]
fn listing_keeps_to_the_folder() {
    let inside = ListedConversation {
        summary: summary(AgentType::Codex, "in", 1, 1),
        in_folder: true,
    };
    let outside = listed(summary(AgentType::Codex, "out", 2, 1));
    let all = vec![Some(vec![inside, outside])];
    assert_eq!(ids(&list_conversations_sync(all, None, true, None)), ["in"]);
}

#[test]
fn agents_are_listed_in_their_order() {
    assert_eq!(agents_to_list(Some(AgentType::Gemini)), vec![AgentType::Gemini]);
    assert_eq!(
        agents_to_list(None),
        vec![
            AgentType::ClaudeCode,
            AgentType::Codex,
            AgentType::OpenCode,
            AgentType::Gemini,
            AgentType::OpenClaw,
            AgentType::Cline
        ]
    );
}

fn mixed() -> Vec<ConversationSummary> {
    let nowhere = ConversationSummary {
        folder_path: None,
        folder_name: None,
        ..summary(AgentType::Cline, "x", 1, 4)
    };
    let lib = |agent, id: &str| ConversationSummary {
        folder_path: Some("/work/lib".to_string()),
        folder_name: Some("lib".to_string()),
        ..summary(agent, id, 1, 3)
    };
    vec![
        nowhere,
        lib(AgentType::Codex, "1"),
        lib(AgentType::ClaudeCode, "2"),
        lib(AgentType::Codex, "3"),
    ]
}

#[test]
fn folders_are_counted() {
    let folders = compute_folders(&mixed());
    assert_eq!(folders.len(), 2);
    assert_eq!(folders[0].path, "/work/lib");
    assert_eq!(folders[0].name, "lib");
    assert_eq!(folders[0].conversation_count, 3);
    assert_eq!(folders[0].agent_types, vec![AgentType::Codex, AgentType::ClaudeCode]);
    assert_eq!(folders[1].path, "unknown");
    assert_eq!(folders[1].name, "unknown");
    assert!(compute_folders(&Vec::new()).is_empty());
}

#[test]
fn stats_are_counted() {
    let stats = compute_stats(&mixed());
    assert_eq!(stats.total_conversations, 4);
    assert_eq!(stats.total_messages, 13);
    assert_eq!(stats.by_agent.len(), 3);
    assert_eq!(stats.by_agent[0].agent_type, AgentType::Codex);
    assert_eq!(stats.by_agent[0].conversation_count, 2);
    assert_eq!(stats.by_agent[1].agent_type, AgentType::Cline);
    let sidebar = sidebar_data(&mixed());
    assert_eq!(sidebar.folders.len(), 2);
    assert_eq!(sidebar.stats.total_messages, 13);
}

fn candidate(in_folder: bool, secs: i64) -> Candidate {
    Candidate { in_folder, started_at: Stamp { secs, nanos: 0 } }
}

#[test]
fn the_closest_candidate_is_taken() {
    let created = Stamp { secs: 1000, nanos: 0 };
    let list = vec![
        candidate(false, 1000),
        candidate(true, 1100),
        candidate(true, 950),
        candidate(true, 1050),
    ];
    assert_eq!(match_candidate(&list, created), Some(2), "of two equally close, the first");
    assert_eq!(match_candidate(&vec![candidate(true, 1300)], created), None);
    assert_eq!(match_candidate(&vec![candidate(true, 1299)], created), Some(0));
    assert_eq!(match_candidate(&vec![candidate(true, 701)], created), Some(0));
    assert_eq!(match_candidate(&vec![candidate(true, 700)], created), None);
    let almost = Candidate { in_folder: true, started_at: Stamp { secs: 700, nanos: 1 } };
    assert_eq!(match_candidate(&vec![almost], created), Some(0), "whole seconds count");
    assert_eq!(match_candidate(&Vec::new(), created), None);
}

#[test]
fn differences_agree_with_the_calendar() {
    let cases = [
        ("2026-03-01T00:00:00Z", "2026-02-28T23:59:59.5Z"),
        ("2026-03-01T00:00:00.25Z", "2026-03-01T00:00:03Z"),
        ("2016-12-31T23:59:60.5Z", "2016-12-31T23:59:58Z"),
        ("2017-01-01T00:00:01Z", "2016-12-31T23:59:60.5Z"),
        ("2016-12-31T23:59:59Z", "2016-12-31T23:59:60.5Z"),
    ];
    for (a, b) in cases {
        let x = chrono::DateTime::parse_from_rfc3339(a).unwrap();
        let y = chrono::DateTime::parse_from_rfc3339(b).unwrap();
        let stamp = |t: &str| codeg::clock::parse_rfc3339(t).unwrap();
        for (p, q, s, t) in [(x, y, a, b), (y, x, b, a)] {
            let expected = (p - q).num_nanoseconds().unwrap() as i128;
            assert_eq!(stamp(s).nanos_from(stamp(t)), expected, "{s} - {t}");
            let seconds = (p - q).num_seconds().unsigned_abs() as i128;
            assert_eq!(stamp(s).seconds_from(stamp(t)), seconds, "{s} - {t}");
        }
    }
}

#[test]
fn loading_falls_back_to_the_closest_record() {
    assert!(matches!(begin_load(false), LoadStep::FinishEmpty));
    assert!(matches!(begin_load(true), LoadStep::ReadRecord));
    assert!(matches!(record_read(AgentType::Codex, Ok(())), LoadStep::Finish));
    let missing = || Err(ParseError::ConversationNotFound("x".to_string()));
    for agent in [AgentType::OpenClaw, AgentType::Cline, AgentType::Gemini] {
        assert!(matches!(record_read(agent, missing()), LoadStep::ListCandidates));
    }
    for agent in [AgentType::ClaudeCode, AgentType::Codex, AgentType::OpenCode] {
        assert!(matches!(record_read(agent, missing()), LoadStep::FinishEmpty));
    }
    match record_read(AgentType::Gemini, Err(ParseError::InvalidData("bad".to_string()))) {
        LoadStep::Fail(e) => assert_eq!(e.message, "Invalid conversation data"),
        other => panic!("{other:?}"),
    }
    let created = Stamp { secs: 1000, nanos: 0 };
    let list = vec![candidate(false, 1000), candidate(true, 1001)];
    assert!(matches!(candidates_listed(Some(&list), created), LoadStep::ReadCandidate(1)));
    assert!(matches!(candidates_listed(None, created), LoadStep::FinishEmpty));
    assert!(matches!(candidate_read(1, true), LoadStep::FinishAs(1)));
    assert!(matches!(candidate_read(1, false), LoadStep::FinishEmpty));
}

#[test]
fn parse_errors_are_reported() {
    let report = |e| {
        let error: AppCommandError = parse_error_to_app_error(e);
        (error.code, error.message, error.detail)
    };
    let text = |s: &str| s.to_string();
    assert_eq!(
        report(ParseError::ConversationNotFound(text("c9"))),
        (AppErrorCode::NotFound, text("Conversation not found"), Some(text("c9")))
    );
    assert_eq!(
        report(ParseError::Json(text("eof"))),
        (AppErrorCode::InvalidInput, text("Failed to parse conversation file"), Some(text("eof")))
    );
    assert_eq!(
        report(ParseError::Db(text("locked"))),
        (AppErrorCode::DatabaseError, text("Database operation failed"), Some(text("locked")))
    );
    assert_eq!(
        report(ParseError::Io(AppCommandError::io_error("gone"))),
        (AppErrorCode::IoError, text("gone"), None)
    );
}

#[test]
fn create_conversation_core_non_git_path_yields_no_branch() {
    let branch = detect_git_branch(false, b"");
    assert!(branch.is_none(), "expected None for a non-git path, got {branch:?}");
}

#[test]
fn branches_are_read_from_git() {
    assert_eq!(detect_git_branch(true, b"feature/x\n").as_deref(), Some("feature/x"));
    assert_eq!(detect_git_branch(true, b"HEAD\n"), None);
    assert_eq!(detect_git_branch(true, b"\n"), None);
    assert_eq!(detect_git_branch(false, b"main\n"), None);
    assert_eq!(detect_git_branch(true, b"a\xff\n").as_deref(), Some("a\u{fffd}"));
    assert_eq!(branch_of_text("  main "), Some("main".to_string()));
}

#[test]
fn update_conversation_status_core_invalid_string_errors() {
    let error = requested_status("not-a-real-status", "unknown variant".to_string())
        .expect_err("garbage status must error before touching the DB");
    assert_eq!(error.code, AppErrorCode::InvalidInput);
    assert!(error.message.to_lowercase().contains("invalid"));
    assert_eq!(error.detail.as_deref(), Some("unknown variant"));
    for status in [
        ConversationStatus::InProgress,
        ConversationStatus::PendingReview,
        ConversationStatus::Completed,
        ConversationStatus::Cancelled,
    ] {
        assert_eq!(requested_status(status.as_str(), String::new()).unwrap(), status);
    }
}

#[test]
fn import_local_conversations_core_missing_folder_errors() {
    let error = folder_not_found(999_999);
    assert_eq!(error.code, AppErrorCode::NotFound);
    assert_eq!(error.message, "Folder not found");
    assert_eq!(error.detail.as_deref(), Some("folder_id=999999"));
    assert_eq!(folder_not_found(-1).detail.as_deref(), Some("folder_id=-1"));
}

#[test]
fn broken_tasks_are_reported() {
    let error = task_failed(ConversationTask::Stats, "panicked".to_string());
    assert_eq!(error.code, AppErrorCode::TaskExecutionFailed);
    assert_eq!(error.message, "Failed to compute conversation stats");
    assert_eq!(error.detail.as_deref(), Some("panicked"));
}

#[test]
fn loaded_conversation_counts_its_turns() {
    let detail = loaded_conversation("row", vec!["q", "a", "q"], Some(7));
    assert_eq!(detail.row, "row");
    assert_eq!(detail.message_count, 3);
    assert_eq!(detail.turns, ["q", "a", "q"]);
    assert_eq!(detail.session_stats, Some(7));
    let empty = loaded_conversation((), Vec::<u8>::new(), None::<()>);
    assert_eq!(empty.message_count, 0);
    assert_eq!(message_count_of(u32::MAX as usize), u32::MAX);
}

#[test]
fn unknown_folder_is_no_match() {
    assert!(took_place_in_folder(Some(true)));
    assert!(!took_place_in_folder(Some(false)));
    assert!(!took_place_in_folder(None));
}
