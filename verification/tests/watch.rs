use std::collections::HashSet;
use std::hash::{Hash, Hasher};

use codeg::accounting::BackgroundSettledInfo;
use codeg::clock::{parse_rfc3339, Stamp};
use codeg::json::{parse_json, Json};
use codeg::ledger::{PromptInputBlock, PromptLedger, LEDGER_CAP, LEDGER_TTL_NANOS};
use codeg::models::AgentType;
use codeg::transcript::{
    baseline_offset_since, capture_tag, conversation_timestamp, is_meta_message,
    record_dates_from, slash_command_display, turn_initiator_text, user_record_text,
    CONTEXT_CONTINUATION_PREFIX,
};
use codeg::watch::{
    has_watch, turn_id, BackgroundActivity, EpisodeChange, FeedPlan, FileStat, StatOutcome,
    WatchState, Watcher, FORCE_ROTATE_MESSAGES, MAX_EPISODE_MESSAGES, POLL_ACTIVE_NANOS,
    POLL_IDLE_NANOS, RECENT_ACTIVITY_NANOS,
};

const MAX_AGE: u64 = 3_600_000_000_000;

fn record_text(ledger: &mut PromptLedger, text: &str, now: u64) {
    ledger.record_prompt_blocks(&[PromptInputBlock::Text { text: text.to_string() }], now);
}

/// A transcript that only exists in memory.
#[derive(Clone, Default)]
struct Transcript {
    bytes: Vec<u8>,
    writes: i64,
}

impl Transcript {
    fn write_lines(&mut self, lines: &[&str]) {
        for line in lines {
            self.append_raw(line);
            self.append_raw("\n");
        }
    }

    fn append_raw(&mut self, chunk: &str) {
        self.bytes.extend_from_slice(chunk.as_bytes());
        self.writes += 1;
    }

    fn truncate(&mut self) {
        self.bytes.clear();
        self.writes += 1;
    }

    fn stat(&self) -> FileStat {
        FileStat {
            modified: Some(Stamp { secs: self.writes, nanos: 0 }),
            len: self.bytes.len() as u64,
        }
    }
}

/// Drives a watch: every assistant record becomes a message and a turn of its own, and
/// user records render as nothing.
struct Driver {
    ws: WatchState,
    ledger: PromptLedger,
    file: Transcript,
    messages: Vec<String>,
    now: u64,
}

impl Driver {
    fn with_file(file: Transcript) -> Driver {
        let mut ws = WatchState::new();
        ws.rearm("s1", epoch("2020-01-01T00:00:00Z"));
        ws.adopt_file(Some(0), None);
        Driver { ws, ledger: PromptLedger::shared(), file, messages: Vec::new(), now: 0 }
    }

    fn discovering(file: Transcript, since: &str) -> Driver {
        let mut driver = Driver::with_file(file);
        driver.rearm("s1", since);
        driver
    }

    fn rearm(&mut self, session: &str, since: &str) {
        self.ws.rearm(session, epoch(since));
        self.messages.clear();
        let bytes = self.file.bytes.clone();
        self.ws.adopt_file(Some(bytes.len() as u64), Some(&bytes));
    }

    fn collect(&mut self, tick: &mut codeg::watch::Tick) {
        let Some(base) = self.ws.episode_base() else { return };
        if self.messages.is_empty() {
            return;
        }
        let hashes = self
            .messages
            .iter()
            .enumerate()
            .map(|(i, text)| {
                let mut hasher = std::collections::hash_map::DefaultHasher::new();
                (turn_id(base, i), text).hash(&mut hasher);
                hasher.finish()
            })
            .collect();
        self.ws.collect_changed_turns(&hashes, tick);
    }

    fn tick(&mut self) -> Option<BackgroundActivity> {
        self.now += 1;
        let mut tick = self.ws.begin_tick(self.now, MAX_AGE)?;
        assert!(self.ws.is_located());
        if let StatOutcome::ReadFrom(offset) = self.ws.observe_stat(Some(self.file.stat())) {
            let fresh = self.file.bytes[offset as usize..].to_vec();
            let lines = self.ws.read_new_lines(&fresh, self.now);
            for line in &lines {
                let open = self.messages.len();
                let plan =
                    self.ws.process_line(line, &mut self.ledger, self.now, open, &mut tick);
                self.apply(plan, line, &mut tick);
            }
            if !lines.is_empty() {
                self.collect(&mut tick);
            }
        }
        self.ws.finish_tick(tick)
    }

    fn apply(&mut self, plan: FeedPlan, line: &str, tick: &mut codeg::watch::Tick) {
        if plan.flush {
            self.collect(tick);
        }
        self.ws.change_episode(plan.change);
        if !matches!(plan.change, EpisodeChange::Keep) {
            self.messages.clear();
        }
        if plan.feed && line.contains("\"type\":\"assistant\"") {
            self.messages.push(line.to_string());
        }
    }
}

fn agent_ack(agent_id: &str) -> String {
    format!(
        r#"{{"type":"user","timestamp":"2026-07-07T03:46:14.514Z","uuid":"u-ack-{agent_id}","message":{{"role":"user","content":[{{"tool_use_id":"toolu_01","type":"tool_result","content":[{{"type":"text","text":"Async agent launched successfully. agentId: {agent_id}"}}]}}]}},"toolUseResult":{{"isAsync":true,"status":"async_launched","agentId":"{agent_id}","description":"Run pnpm build"}}}}"#
    )
}

fn bash_ack(task_id: &str) -> String {
    format!(
        r#"{{"type":"user","timestamp":"2026-07-07T03:46:15.000Z","uuid":"u-bash-{task_id}","message":{{"role":"user","content":[{{"tool_use_id":"toolu_02","type":"tool_result","content":"Command running in background with ID: {task_id}."}}]}},"toolUseResult":{{"stdout":"","stderr":"","interrupted":false,"backgroundTaskId":"{task_id}"}}}}"#
    )
}

fn notification(task_id: &str, status: &str) -> String {
    let inner = format!(
        "<task-notification>\\n<task-id>{task_id}</task-id>\\n<tool-use-id>toolu_01</tool-use-id>\\n<status>{status}</status>\\n<summary>Agent \\\"Run pnpm build\\\" finished</summary>\\n<result>Build OK</result>\\n</task-notification>"
    );
    format!(
        r#"{{"type":"user","timestamp":"2026-07-07T03:47:00.000Z","uuid":"u-note-{task_id}","isSidechain":false,"message":{{"role":"user","content":"{inner}"}}}}"#
    )
}

fn assistant_text(uuid: &str, text: &str) -> String {
    format!(
        r#"{{"type":"assistant","timestamp":"2026-07-07T03:47:08.000Z","uuid":"{uuid}","message":{{"role":"assistant","model":"sonnet-5","content":[{{"type":"text","text":"{text}"}}]}}}}"#
    )
}

fn user_prompt_array(uuid: &str, text: &str) -> String {
    format!(
        r#"{{"type":"user","timestamp":"2026-07-07T03:48:00.000Z","uuid":"{uuid}","message":{{"role":"user","content":[{{"type":"text","text":"{text}"}}]}}}}"#
    )
}

fn cron_prompt(text: &str) -> String {
    format!(
        r#"{{"type":"user","timestamp":"2026-07-07T03:49:00.000Z","uuid":"u-cron","isMeta":true,"userType":"external","message":{{"role":"user","content":"{text}"}}}}"#
    )
}

fn send_message(uuid: &str, to: &str) -> String {
    format!(
        r#"{{"type":"assistant","timestamp":"2026-07-07T03:52:00.000Z","uuid":"{uuid}","message":{{"role":"assistant","content":[{{"type":"tool_use","id":"toolu_03","name":"SendMessage","input":{{"to":"{to}","summary":"continue","message":"go on"}}}}]}}}}"#
    )
}

fn epoch(ts: &str) -> Stamp {
    parse_rfc3339(ts).unwrap()
}

fn value(text: &str) -> Json {
    parse_json(text).unwrap()
}

#[test]
fn force_rotates_a_single_giant_turn_and_bounds_the_episode() {
    let mut driver = Driver::with_file(Transcript::default());
    let mut lines: Vec<String> = vec![cron_prompt("iterate forever")];
    for i in 0..(FORCE_ROTATE_MESSAGES + 3) {
        lines.push(assistant_text(&format!("a-{i}"), "chunk"));
    }
    let refs: Vec<&str> = lines.iter().map(String::as_str).collect();
    driver.file.write_lines(&refs);

    let event = driver.tick().expect("turns event");

    let buffered = driver.messages.len();
    assert!(
        buffered < FORCE_ROTATE_MESSAGES,
        "episode must be bounded after force-rotation, still holds {buffered}"
    );
    let bases: HashSet<&str> = event
        .turns
        .iter()
        .map(|id| id.rsplit_once('-').expect("bg id shape").0)
        .collect();
    assert!(
        bases.len() >= 2,
        "expected pre- and post-rotation id namespaces, got {bases:?}"
    );
    let unique: HashSet<&String> = event.turns.iter().collect();
    assert_eq!(
        event.turns.len(),
        unique.len(),
        "turn ids must be unique across the forced rotation"
    );
    assert_eq!(event.turns.len(), FORCE_ROTATE_MESSAGES + 3);
}

#[test]
fn episode_is_reported_before_a_sent_turn_ends_it() {
    let mut driver = Driver::with_file(Transcript::default());
    record_text(&mut driver.ledger, "sent", 0);
    driver.file.write_lines(&[
        &cron_prompt("again"),
        &assistant_text("a1", "done"),
        &user_prompt_array("u1", "sent"),
        &assistant_text("a2", "on it"),
    ]);
    let event = driver.tick().expect("the autonomous turn surfaces");
    assert_eq!(event.turns.len(), 1);
    assert!(driver.ws.episode_base().is_none());
}

#[test]
fn rotation_flushes_under_the_old_base_before_it_opens_another() {
    let mut ws = WatchState::new();
    ws.rearm("s1", epoch("2020-01-01T00:00:00Z"));
    let mut ledger = PromptLedger::shared();
    let mut tick = ws.begin_tick(0, MAX_AGE).unwrap();
    let first = value(&cron_prompt("again"));
    let plan = ws.process_record(&first, &mut ledger, 0, 0, &mut tick);
    assert_eq!(plan, FeedPlan { flush: false, change: EpisodeChange::Open, feed: true });
    ws.change_episode(plan.change);
    let plan = ws.process_record(&first, &mut ledger, 0, MAX_EPISODE_MESSAGES - 1, &mut tick);
    assert_eq!(plan, FeedPlan { flush: false, change: EpisodeChange::Keep, feed: true });
    let plan = ws.process_record(&first, &mut ledger, 0, MAX_EPISODE_MESSAGES, &mut tick);
    assert_eq!(plan, FeedPlan { flush: true, change: EpisodeChange::Open, feed: true });
    assert_eq!(ws.episode_base(), Some(1));
    ws.change_episode(plan.change);
    assert_eq!(ws.episode_base(), Some(2));
    let reply = value(&assistant_text("a", "x"));
    let plan = ws.process_record(&reply, &mut ledger, 0, FORCE_ROTATE_MESSAGES, &mut tick);
    assert_eq!(plan, FeedPlan { flush: true, change: EpisodeChange::Open, feed: true });
}

#[test]
fn baseline_offset_since_finds_first_record_at_or_after_epoch() {
    let mut file = Transcript::default();
    let first = agent_ack("agent1");
    file.write_lines(&[&first, &notification("agent1", "completed")]);

    assert_eq!(
        baseline_offset_since(&file.bytes, epoch("2026-07-07T03:46:30.000Z")),
        first.len() as u64 + 1
    );
    assert_eq!(baseline_offset_since(&file.bytes, epoch("2020-01-01T00:00:00Z")), 0);
    let full = file.bytes.len() as u64;
    assert_eq!(baseline_offset_since(&file.bytes, epoch("2030-01-01T00:00:00Z")), full);
    file.append_raw(r#"{"type":"user","half"#);
    assert_eq!(baseline_offset_since(&file.bytes, epoch("2030-01-01T00:00:00Z")), full);
}

#[test]
fn baseline_skips_fork_head_metadata_and_lands_on_the_first_new_turn() {
    let queue_op =
        r#"{"type":"queue-operation","timestamp":"2026-07-07T03:50:00.100Z","uuid":"q-1"}"#;
    let copied_user = r#"{"type":"user","timestamp":"2026-07-07T03:46:00.000Z","uuid":"u-hi","message":{"role":"user","content":[{"type":"text","text":"hi"}]}}"#;
    let copied_asst = r#"{"type":"assistant","timestamp":"2026-07-07T03:46:05.000Z","uuid":"a-hi","message":{"role":"assistant","content":[{"type":"text","text":"Hi!"}]}}"#;
    let new_user = r#"{"type":"user","timestamp":"2026-07-07T03:50:10.000Z","uuid":"u-hello","message":{"role":"user","content":[{"type":"text","text":"hello"}]}}"#;
    let mut file = Transcript::default();
    file.write_lines(&[queue_op, copied_user, copied_asst, new_user]);

    let new_turn_offset = (queue_op.len() + 1) as u64
        + (copied_user.len() + 1) as u64
        + (copied_asst.len() + 1) as u64;
    assert_eq!(
        baseline_offset_since(&file.bytes, epoch("2026-07-07T03:50:00.000Z")),
        new_turn_offset,
        "fork-time head metadata must not drag the copied history past the baseline"
    );
}

#[test]
fn baseline_passes_over_what_cannot_be_read() {
    let mut bytes = b"\xff\xfe\nnot json\n".to_vec();
    let undated = r#"{"type":"user","timestamp":"yesterday"}"#;
    bytes.extend_from_slice(undated.as_bytes());
    bytes.push(b'\n');
    let end = bytes.len() as u64;
    bytes.extend_from_slice(agent_ack("x").as_bytes());
    bytes.push(b'\n');
    assert_eq!(baseline_offset_since(&bytes, epoch("2020-01-01T00:00:00Z")), end);
    assert_eq!(baseline_offset_since(b"", epoch("2020-01-01T00:00:00Z")), 0);
}

#[test]
fn adopt_with_trailing_partial_line_keeps_it_ahead_of_the_baseline() {
    let mut file = Transcript::default();
    file.write_lines(&[&notification("older", "completed")]);
    let ack = agent_ack("agentY");
    let (head, tail) = ack.split_at(ack.len() / 2);
    file.append_raw(head);

    let mut driver = Driver::discovering(file, "2030-01-01T00:00:00Z");
    assert!(driver.tick().is_none());
    driver.file.append_raw(tail);
    driver.file.append_raw("\n");
    let event = driver.tick().expect("ack event");
    assert_eq!(event.outstanding, 1, "mid-flush ack must survive discovery");
}

#[test]
fn post_fork_records_written_before_the_watcher_notices_still_process() {
    let mut file = Transcript::default();
    file.write_lines(&[&agent_ack("agentX")]);
    let mut driver = Driver::with_file(file);
    let _ = driver.tick();
    driver.file.write_lines(&[&notification("agentX", "completed")]);
    let _ = driver.tick();

    driver.file.write_lines(&[&send_message("a-send3", "agentX")]);
    driver.rearm("s2", "2026-07-07T03:50:00.000Z");
    let event = driver.tick().expect("resume event");
    assert_eq!(
        event.outstanding, 1,
        "a resume written before the watcher noticed the fork must re-arm"
    );
}

#[test]
fn settled_ids_survive_rearm_so_post_fork_resume_rearms() {
    let mut file = Transcript::default();
    file.write_lines(&[&agent_ack("agentX")]);
    let mut driver = Driver::with_file(file);
    let _ = driver.tick();
    driver.file.write_lines(&[&notification("agentX", "completed")]);
    assert_eq!(driver.tick().unwrap().outstanding, 0);

    driver.rearm("s2", "2030-01-01T00:00:00Z");
    assert!(driver.tick().is_none(), "copied history must not re-account");

    driver.file.write_lines(&[&send_message("a-send2", "agentX")]);
    assert_eq!(driver.tick().unwrap().outstanding, 1, "post-fork resume must re-arm");

    driver.file.write_lines(&[&notification("agentX", "completed")]);
    let event = driver.tick().unwrap();
    assert_eq!(event.outstanding, 0);
    assert_eq!(event.settled.len(), 1);
}

#[test]
fn pre_discovery_records_are_accounted_and_ledger_consumed() {
    let mut file = Transcript::default();
    file.write_lines(&[
        &user_prompt_array("u1", "do the thing"),
        &assistant_text("a1", "launching"),
        &agent_ack("agentX"),
    ]);
    let mut driver = Driver::discovering(file, "2020-01-01T00:00:00Z");
    record_text(&mut driver.ledger, "do the thing", 0);

    let event = driver.tick().expect("accounting event");
    assert_eq!(event.outstanding, 1, "pre-discovery ack must register");
    assert!(event.settled.is_empty());
    assert!(
        event.turns.is_empty(),
        "the codeg-sent prompt classifies foreground — the wire renders it"
    );

    driver.file.write_lines(&[&cron_prompt("do the thing"), &assistant_text("a2", "pass")]);
    let event = driver.tick().expect("turns event");
    assert!(
        !event.turns.is_empty(),
        "same-text refire must surface — a stale ledger entry would swallow it"
    );
}

#[test]
fn resume_baselines_at_eof_and_skips_historical_acks() {
    let mut file = Transcript::default();
    file.write_lines(&[&agent_ack("stale-old")]);
    let mut driver = Driver::discovering(file, "2030-01-01T00:00:00Z");
    assert!(driver.tick().is_none(), "pure history yields no event");

    driver.file.write_lines(&[&cron_prompt("new pass"), &assistant_text("a9", "hi")]);
    let event = driver.tick().expect("turns event");
    assert_eq!(event.outstanding, 0, "historical ack must NOT register");
    assert_eq!(event.turns.len(), 1);
}

#[test]
fn acks_register_outstanding_without_rendering_turns() {
    let mut driver = Driver::with_file(Transcript::default());
    driver.file.write_lines(&[&agent_ack("agent1"), &bash_ack("bash1")]);
    let event = driver.tick().expect("accounting event");
    assert!(event.turns.is_empty(), "acks are tool-result records, not turns");
    assert_eq!(event.outstanding, 2);
    assert!(event.settled.is_empty());
    assert!(event.watermark > 0);
    assert_eq!(event.session_id, "s1");
    assert!(driver.tick().is_none());
}

#[test]
fn notification_settles_and_surfaces_the_response_turn() {
    let mut file = Transcript::default();
    file.write_lines(&[&agent_ack("agent1")]);
    let mut driver = Driver::with_file(file);
    let _ = driver.tick();

    driver.file.write_lines(&[
        &notification("agent1", "completed"),
        &assistant_text("a1", "Build finished cleanly."),
    ]);
    let event = driver.tick().expect("settle event");
    assert_eq!(event.outstanding, 0);
    let settled: &Vec<BackgroundSettledInfo> = &event.settled;
    assert_eq!(settled.len(), 1);
    assert_eq!(settled[0].task_id, "agent1");
    assert_eq!(settled[0].status, "completed");
    assert_eq!(settled[0].summary.as_deref(), Some("Agent \"Run pnpm build\" finished"));
    assert_eq!(event.turns.len(), 1);
    assert!(event.turns[0].starts_with("bg-"));
}

#[test]
fn codeg_sent_prompt_is_foreground_and_not_surfaced() {
    let mut driver = Driver::with_file(Transcript::default());
    record_text(&mut driver.ledger, "修复登录 bug", 0);
    driver.file.write_lines(&[
        &user_prompt_array("u1", "修复登录 bug"),
        &assistant_text("a1", "On it."),
    ]);
    assert!(driver.tick().is_none(), "foreground turn must not surface as overlay");
}

#[test]
fn same_text_refire_without_ledger_entry_is_background() {
    let mut driver = Driver::with_file(Transcript::default());
    record_text(&mut driver.ledger, "查询武汉当前天气", 0);
    driver.file.write_lines(&[
        &user_prompt_array("u1", "查询武汉当前天气"),
        &assistant_text("a1", "24°C 多云"),
    ]);
    assert!(driver.tick().is_none());

    driver.file.write_lines(&[
        &cron_prompt("查询武汉当前天气"),
        &assistant_text("a2", "25°C 晴"),
    ]);
    let event = driver.tick().expect("cron turn surfaces");
    assert_eq!(event.turns.len(), 1, "cron assistant response renders as overlay");
}

#[test]
fn meta_array_expansion_does_not_flip_mode() {
    let mut driver = Driver::with_file(Transcript::default());
    record_text(&mut driver.ledger, "/init", 0);
    let command_record = r#"{"type":"user","timestamp":"2026-07-07T03:50:00.000Z","uuid":"u-cmd","message":{"role":"user","content":"<command-name>/init</command-name><command-message>init</command-message><command-args></command-args>"}}"#;
    let expansion = r#"{"type":"user","timestamp":"2026-07-07T03:50:00.100Z","uuid":"u-exp","isMeta":true,"message":{"role":"user","content":[{"type":"text","text":"Please analyze this codebase..."}]}}"#;
    driver.file.write_lines(&[
        command_record,
        expansion,
        &assistant_text("a1", "Analyzing..."),
    ]);
    assert!(driver.tick().is_none(), "slash command turn is foreground end-to-end");
}

#[test]
fn growing_turn_reemits_with_same_id_and_partial_lines_carry() {
    let mut driver = Driver::with_file(Transcript::default());
    driver.file.write_lines(&[&notification("t1", "completed")]);
    let _ = driver.tick();

    driver.file.write_lines(&[&assistant_text("a1", "step one")]);
    let first = driver.tick().expect("first turn");
    assert_eq!(first.turns.len(), 1);
    let id1 = first.turns[0].clone();

    let more = assistant_text("a2", "step two");
    let (head, tail) = more.split_at(more.len() / 2);
    driver.file.append_raw(head);
    assert!(driver.tick().is_none(), "partial line must not parse");

    driver.file.append_raw(tail);
    driver.file.append_raw("\n");
    let second = driver.tick().expect("completed line surfaces");
    assert_eq!(second.turns.len(), 1);
    assert_ne!(second.turns[0], id1);
    assert!(second.turns[0].starts_with("bg-"));
}

#[test]
fn truncation_rebaselines_without_stale_turns() {
    let mut file = Transcript::default();
    file.write_lines(&[&notification("t1", "completed")]);
    let mut driver = Driver::with_file(file);
    let _ = driver.tick();

    driver.file.truncate();
    if let Some(event) = driver.tick() {
        assert!(event.turns.is_empty());
        assert!(event.settled.is_empty());
        assert_eq!(event.watermark, 0);
    }
    assert_eq!(driver.ws.watermark(), 0);
    driver.file.write_lines(&[&assistant_text("a9", "after rewrite")]);
    assert!(driver.tick().is_none());
}

#[test]
fn send_message_rearms_settled_task() {
    let mut file = Transcript::default();
    file.write_lines(&[&agent_ack("agentX")]);
    let mut driver = Driver::with_file(file);
    let _ = driver.tick();

    driver.file.write_lines(&[&notification("agentX", "completed")]);
    assert_eq!(driver.tick().unwrap().outstanding, 0);

    driver.file.write_lines(&[&send_message("a-send", "agentX")]);
    assert_eq!(
        driver.tick().unwrap().outstanding,
        1,
        "resumed sub-agent re-arms the keep-alive"
    );
}

#[test]
fn ledger_prefix_matches_and_consumes_once() {
    let mut ledger = PromptLedger::shared();
    record_text(&mut ledger, "deploy the app", 0);
    assert!(ledger.consume_matching("deploy the app\n<system-hint>extra</system-hint>", 1));
    assert!(
        !ledger.consume_matching("deploy the app", 1),
        "an entry is consumed exactly once"
    );
}

#[test]
fn initiator_classification_ground_rules() {
    assert!(turn_initiator_text(&value(&agent_ack("x"))).is_none());
    assert!(turn_initiator_text(&value(&notification("x", "completed")))
        .unwrap()
        .starts_with("<task-notification>"));
    assert_eq!(
        turn_initiator_text(&value(&cron_prompt("check weather"))).as_deref(),
        Some("check weather")
    );
    let cont = format!(
        r#"{{"type":"user","uuid":"u-cont","message":{{"role":"user","content":"{}..."}}}}"#,
        CONTEXT_CONTINUATION_PREFIX
    );
    assert!(turn_initiator_text(&value(&cont)).is_none());
    let cmd = r#"{"type":"user","uuid":"u-cmd","message":{"role":"user","content":"<command-name>/init</command-name><command-args>now</command-args>"}}"#;
    assert_eq!(turn_initiator_text(&value(cmd)).as_deref(), Some("/init now"));
}

#[test]
fn ledger_forgets_old_and_surplus_prompts() {
    let mut ledger = PromptLedger::shared();
    record_text(&mut ledger, "stale", 0);
    assert!(!ledger.consume_matching("stale", LEDGER_TTL_NANOS));
    record_text(&mut ledger, "first", 0);
    for i in 0..LEDGER_CAP {
        record_text(&mut ledger, &format!("later {i}."), 0);
    }
    assert!(!ledger.consume_matching("first", 1));
    assert!(ledger.consume_matching("later 0.", 1));
    assert!(!ledger.consume_matching("   ", 1));
}

#[test]
fn ledger_records_the_first_text_block() {
    let mut ledger = PromptLedger::shared();
    ledger.record_prompt_blocks(
        &[
            PromptInputBlock::Attachment,
            PromptInputBlock::Text { text: "  ".to_string() },
            PromptInputBlock::Text { text: " look \n".to_string() },
            PromptInputBlock::Text { text: "second".to_string() },
        ],
        0,
    );
    assert!(!ledger.consume_matching("second", 0));
    assert!(ledger.consume_matching("look at this", 0));
    ledger.record_prompt_blocks(&[PromptInputBlock::Attachment], 0);
    assert!(!ledger.consume_matching("anything", 0));
}

#[test]
fn texts_of_records() {
    let blocks = value(
        r#"{"type":"user","message":{"content":[{"type":"text","text":"a"},{"type":"image"},{"type":"text","text":"b"}]}}"#,
    );
    assert_eq!(user_record_text(&blocks).as_deref(), Some("a\nb"));
    assert!(user_record_text(&value(&assistant_text("a", "x"))).is_none());
    assert!(user_record_text(&value(r#"{"type":"user","message":{"content":[]}}"#)).is_none());
    assert!(is_meta_message(&value(&cron_prompt("x"))));
    assert!(!is_meta_message(&value(&user_prompt_array("u", "x"))));
    assert_eq!(capture_tag("<a> x </a><a>y</a>", "<a>", "</a>").as_deref(), Some("x"));
    assert_eq!(capture_tag("<a>  </a>", "<a>", "</a>"), None);
    assert_eq!(capture_tag("</a><a>x", "<a>", "</a>"), None);
    assert_eq!(slash_command_display("plain"), None);
}

#[test]
fn dates_of_records() {
    let ack = value(&agent_ack("x"));
    assert_eq!(conversation_timestamp(&ack), Some("2026-07-07T03:46:14.514Z"));
    assert!(record_dates_from(&ack, epoch("2026-07-07T03:46:14.514Z")));
    assert!(record_dates_from(&ack, epoch("2026-07-07T05:46:14.514+02:00")));
    assert!(!record_dates_from(&ack, epoch("2026-07-07T03:46:14.515Z")));
    assert!(conversation_timestamp(&value(r#"{"type":"mode","timestamp":"x"}"#)).is_none());
    assert_eq!(parse_rfc3339("1970-01-01T00:00:01.5Z"), Some(Stamp { secs: 1, nanos: 500_000_000 }));
    assert_eq!(parse_rfc3339("soon"), None);
}

#[test]
fn old_tasks_expire_and_are_reported() {
    let mut driver = Driver::with_file(Transcript::default());
    driver.file.write_lines(&[&agent_ack("agent1")]);
    assert_eq!(driver.tick().unwrap().outstanding, 1);
    driver.now += MAX_AGE;
    let event = driver.tick().expect("expiry is reported");
    assert_eq!(event.outstanding, 0);
    assert!(event.settled.is_empty());
}

#[test]
fn cadence_follows_tasks_and_activity() {
    let mut driver = Driver::with_file(Transcript::default());
    assert_eq!(driver.ws.poll_delay(0), POLL_IDLE_NANOS);
    driver.file.write_lines(&[&cron_prompt("x")]);
    let _ = driver.tick();
    assert_eq!(driver.ws.poll_delay(driver.now), POLL_ACTIVE_NANOS);
    assert_eq!(driver.ws.poll_delay(driver.now + RECENT_ACTIVITY_NANOS), POLL_IDLE_NANOS);
    driver.file.write_lines(&[&bash_ack("b")]);
    let _ = driver.tick();
    assert_eq!(driver.ws.poll_delay(driver.now + RECENT_ACTIVITY_NANOS), POLL_ACTIVE_NANOS);
}

#[test]
fn lost_file_is_looked_for_again() {
    let mut driver = Driver::with_file(Transcript::default());
    assert!(driver.ws.is_located());
    assert_eq!(driver.ws.observe_stat(None), StatOutcome::Lost);
    assert!(!driver.ws.is_located());
    assert!(WatchState::new().begin_tick(0, MAX_AGE).is_none());
}

#[test]
fn lines_that_are_not_text_count_toward_the_watermark() {
    let mut ws = WatchState::new();
    assert_eq!(ws.read_new_lines(b"\xff\xfe\nab", 5), Vec::<String>::new());
    assert_eq!(ws.watermark(), 3);
    assert_eq!(ws.read_new_lines(b"c\nd\n", 6), vec!["abc".to_string(), "d".to_string()]);
    assert_eq!(ws.watermark(), 9);
}

#[test]
fn watcher_turns_to_sessions() {
    let spawned = epoch("2026-01-01T00:00:00Z");
    let changed = epoch("2026-01-02T00:00:00Z");
    let now = epoch("2026-01-03T00:00:00Z");
    let mut watcher = Watcher::new(spawned);
    assert!(!watcher.follow_session(None, None, now));
    assert!(watcher.follow_session(Some("s1"), Some(changed), now));
    assert!(watcher.state.watches("s1"));
    let old = r#"{"type":"user","timestamp":"2026-01-01T12:00:00Z"}"#;
    let bytes = format!("{old}\n").into_bytes();
    watcher.state.adopt_file(Some(bytes.len() as u64), Some(&bytes));
    assert_eq!(watcher.state.watermark(), 0, "first session: since the connection was made");
    assert!(watcher.follow_session(Some("s1"), Some(changed), now));
    assert!(watcher.state.is_located(), "same session: nothing changes");
    assert!(watcher.follow_session(Some("s2"), Some(changed), now));
    watcher.state.adopt_file(Some(bytes.len() as u64), Some(&bytes));
    assert_eq!(watcher.state.watermark(), bytes.len() as u64, "later: since the session changed");
    watcher.reset();
    assert!(!watcher.state.watches("s2"));
    assert!(watcher.armed_before);
}

#[test]
fn only_one_agent_is_watched() {
    assert!(has_watch(AgentType::ClaudeCode));
    assert!(!has_watch(AgentType::Codex));
    assert_eq!(turn_id(120, 3), "bg-120-3");
}

#[test]
fn read_offset_counts_lines_and_what_is_carried_over() {
    let mut state = WatchState::new();
    assert_eq!(state.read_offset(), Some(0));
    assert!(state.has_base_left());
    let lines = state.read_new_lines(b"one\ntw", 5);
    assert_eq!(lines, ["one"]);
    assert_eq!(state.watermark(), 4);
    assert_eq!(state.read_offset(), Some(6));
    assert_eq!(state.read_new_lines(b"o\n", 6), ["two"]);
    assert_eq!(state.read_offset(), Some(8));
}

#[test]
fn episode_bases_rise_also_where_nothing_was_read() {
    let mut state = WatchState::new();
    assert_eq!(state.next_episode_base(), 1);
    assert_eq!(state.next_episode_base(), 2);
    state.read_new_lines(b"0123456789\n", 5);
    assert_eq!(state.next_episode_base(), 11);
    assert_eq!(state.next_episode_base(), 12);
    state.change_episode(EpisodeChange::Open);
    assert_eq!(state.episode_base(), Some(13));
    state.adopt_file(Some(u64::MAX), None);
    assert_eq!(state.next_episode_base(), u64::MAX);
    assert!(!state.has_base_left());
}
