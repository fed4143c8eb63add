use symphony_rs::config::ServiceConfig;
use symphony_rs::domain::{AgentUpdate, AttemptStatus, Issue, IssueBlockerRef};
use symphony_rs::environment::Environment;
use symphony_rs::json::{empty_object, json_text, number_value, parse_json, text_value, JsonValue};
use symphony_rs::accounting::{
    get_token_usage, search_rate_limits, status_from_event, TokenKind,
};
use symphony_rs::orchestrator::{failure_backoff_ms, EligibilityBlockReason, Orchestrator};
use symphony_rs::timestamp::Timestamp;

fn orchestrator() -> Orchestrator {
    let mut config = ServiceConfig::default(&Environment::new("/tmp"));
    config.tracker.project_slug = Some("demo".to_string());
    Orchestrator::new(config)
}

fn at(seconds: i64) -> Timestamp {
    Timestamp::new(seconds, 0).expect("valid")
}

fn issue(id: &str, priority: Option<i64>, created: i64, state: &str) -> Issue {
    let mut issue = Issue::example_at(at(created), at(created));
    issue.id = id.to_string();
    issue.identifier = format!("X-{}", id);
    issue.priority = priority;
    issue.state = state.to_string();
    issue
}

fn update(event: &str, usage: Option<JsonValue>) -> AgentUpdate {
    AgentUpdate {
        event: event.to_string(),
        timestamp: at(5),
        session_id: Some("s".to_string()),
        thread_id: None,
        turn_id: Some("t".to_string()),
        codex_app_server_pid: None,
        worker_host: None,
        last_message: Some("m".to_string()),
        usage,
        rate_limits: None,
        payload: None,
    }
}

#[test]
fn retries_use_exponential_backoff_with_cap() {
    assert_eq!(failure_backoff_ms(1, 300_000), 10_000);
    assert_eq!(failure_backoff_ms(2, 300_000), 20_000);
    assert_eq!(failure_backoff_ms(6, 300_000), 300_000);
    assert_eq!(failure_backoff_ms(0, 300_000), 10_000);
    assert_eq!(failure_backoff_ms(11, u64::MAX), 10_240_000);
    assert_eq!(failure_backoff_ms(u32::MAX, u64::MAX), 10_240_000);
}

#[test]
fn blocked_todo_issue_is_not_dispatchable() {
    let orchestrator = orchestrator();
    let mut issue = Issue::example();
    issue.blocked_by = vec![IssueBlockerRef {
        id: Some("blocker".to_string()),
        identifier: Some("ABC-1".to_string()),
        state: Some("In Progress".to_string()),
    }];

    assert!(orchestrator.block_reason(&issue).is_some());
    assert_eq!(orchestrator.block_reason(&issue), Some(EligibilityBlockReason::TodoBlocked));
}

#[test]
fn every_reason_not_to_start_is_given() {
    let mut o = orchestrator();
    let one = issue("1", None, 0, "Todo");
    assert_eq!(o.block_reason(&one), None);
    let mut blank = one.clone();
    blank.id = " ".to_string();
    assert_eq!(o.block_reason(&blank), Some(EligibilityBlockReason::MissingRequiredFields));
    assert_eq!(
        o.block_reason(&issue("1", None, 0, " DONE")),
        Some(EligibilityBlockReason::TerminalState(" DONE".to_string()))
    );
    assert_eq!(
        o.block_reason(&issue("1", None, 0, "Review")),
        Some(EligibilityBlockReason::InactiveState("Review".to_string()))
    );
    o.config.agent.max_concurrent_agents_by_state.insert("todo".to_string(), 1);
    o.mark_running(one.clone(), None, None, at(1));
    assert_eq!(o.block_reason(&one), Some(EligibilityBlockReason::AlreadyRunning));
    assert_eq!(
        o.block_reason(&issue("2", None, 0, "TODO")),
        Some(EligibilityBlockReason::NoStateSlots { state: "TODO".to_string(), limit: 1 })
    );
    assert!(o.take_running_entry("1").is_some());
    assert_eq!(o.block_reason(&one), Some(EligibilityBlockReason::AlreadyClaimed));
    o.release_claim("1");
    assert_eq!(o.block_reason(&one), None);
    o.state.max_concurrent_agents = 0;
    assert_eq!(o.block_reason(&one), Some(EligibilityBlockReason::NoGlobalSlots));
    assert_eq!(o.available_global_slots(), 0);
}

#[test]
fn selection_goes_by_priority_age_and_identifier() {
    let o = orchestrator();
    let mut unknown_age = issue("f", Some(1), 0, "Todo");
    unknown_age.created_at = None;
    let issues = vec![
        issue("a", None, 1, "Todo"),
        issue("b", Some(2), 1, "Todo"),
        issue("c", Some(1), 9, "Todo"),
        issue("e", Some(1), 3, "Todo"),
        issue("d", Some(1), 3, "Todo"),
        unknown_age,
        issue("z", Some(0), 1, "Done"),
    ];
    let ids: Vec<String> =
        o.select_dispatch_candidates(&issues).iter().map(|issue| issue.id.clone()).collect();
    assert_eq!(ids, vec!["f", "d", "e", "c", "b", "a"]);
}

#[test]
fn selection_keeps_to_all_limits() {
    let mut o = orchestrator();
    o.state.max_concurrent_agents = 4;
    o.config.agent.max_concurrent_agents_by_state.insert("todo".to_string(), 2);
    o.mark_running(issue("r", None, 0, "todo"), None, None, at(0));
    let issues = vec![
        issue("1", Some(1), 0, "Todo"),
        issue("2", Some(2), 0, "Todo"),
        issue("3", Some(3), 0, "In Progress"),
        issue("4", Some(4), 0, "In Progress"),
        issue("5", Some(5), 0, "In Progress"),
        issue("r", Some(0), 0, "Todo"),
    ];
    let ids: Vec<String> =
        o.select_dispatch_candidates(&issues).iter().map(|issue| issue.id.clone()).collect();
    assert_eq!(ids, vec!["1", "3", "4"]);
    assert_eq!(o.running_issue_count_for_state(" TODO "), 1);
}

#[test]
fn ties_stay_in_the_order_of_the_list() {
    let o = orchestrator();
    let mut second = issue("1", Some(1), 0, "Todo");
    second.id = "other".to_string();
    let issues = vec![second, issue("1", Some(1), 0, "Todo")];
    let ids: Vec<String> =
        o.select_dispatch_candidates(&issues).iter().map(|issue| issue.id.clone()).collect();
    assert_eq!(ids, vec!["other", "1"]);
}

#[test]
fn updates_are_taken_in() {
    let mut o = orchestrator();
    o.mark_running(issue("1", None, 0, "Todo"), Some(2), Some("h".to_string()), at(0));
    assert_eq!(o.running_entry("1").expect("entry").status, AttemptStatus::PreparingWorkspace);
    o.update_runtime_info("1", None, "/w".to_string());
    let entry = o.running_entry("1").expect("entry");
    assert_eq!(entry.workspace_path, Some("/w".to_string()));
    assert_eq!(entry.worker_host, None);
    assert_eq!(entry.status, AttemptStatus::RunningBeforeRunHook);
    let usage = empty_object()
        .with("input_tokens", number_value(10))
        .with("outputTokens", text_value(" 4 "))
        .with("total", number_value(14));
    let started = update("session_started", Some(usage));
    assert!(o.can_integrate("1", &started));
    o.integrate_update("1", &started);
    o.integrate_update("1", &started);
    let session = &o.running_entry("1").expect("entry").live_session;
    assert_eq!(session.codex_input_tokens, 10);
    assert_eq!(session.codex_output_tokens, 4);
    assert_eq!(session.codex_total_tokens, 14);
    assert_eq!(session.turn_count, 2);
    assert_eq!(session.session_id, Some("s".to_string()));
    assert_eq!(session.thread_id, None);
    assert_eq!(o.state.codex_totals.total_tokens, 14);
    let lower = empty_object().with("total_tokens", number_value(5));
    o.integrate_update("1", &update("turn_completed", Some(lower)));
    let more = empty_object().with("total_tokens", number_value(8));
    o.integrate_update("1", &update("turn_failed", Some(more)));
    let entry = o.running_entry("1").expect("entry");
    assert_eq!(entry.live_session.codex_total_tokens, 17);
    assert_eq!(entry.status, AttemptStatus::Failed);
    assert_eq!(o.state.codex_totals.total_tokens, 17);
    o.integrate_update("unknown", &update("notification", None));
    assert_eq!(o.running_issue_ids(), vec!["1"]);
}

#[test]
fn counts_that_would_overflow_are_seen_before() {
    let mut o = orchestrator();
    o.mark_running(issue("1", None, 0, "Todo"), None, None, at(0));
    o.state.codex_totals.input_tokens = u64::MAX;
    let usage = empty_object().with("input_tokens", number_value(1));
    assert!(!o.can_integrate("1", &update("notification", Some(usage))));
    assert!(o.can_integrate("1", &update("notification", None)));
    assert!(o.can_integrate("2", &update("notification", None)));
}

#[test]
fn events_leave_their_status() {
    assert_eq!(status_from_event("session_started"), AttemptStatus::RunningTurn);
    assert_eq!(status_from_event("turn_completed"), AttemptStatus::Succeeded);
    assert_eq!(status_from_event("tool_call_failed"), AttemptStatus::Failed);
    assert_eq!(status_from_event("approval_required"), AttemptStatus::Failed);
    assert_eq!(status_from_event("turn_cancelled"), AttemptStatus::Canceled);
    assert_eq!(status_from_event("turn_input_required"), AttemptStatus::TurnInputRequired);
    assert_eq!(status_from_event("anything"), AttemptStatus::RunningTurn);
}

#[test]
fn the_first_known_key_decides_a_count() {
    let usage = empty_object()
        .with("prompt_tokens", text_value("x"))
        .with("inputTokens", number_value(3));
    assert_eq!(get_token_usage(&usage, TokenKind::Input), None);
    assert_eq!(get_token_usage(&usage, TokenKind::Output), None);
    let usage = empty_object().with("totalTokens", number_value(3));
    assert_eq!(get_token_usage(&usage, TokenKind::Total), Some(3));
}

#[test]
fn rate_limits_are_found_in_order() {
    let value = parse_json("{\"b\":{\"limit_id\":2},\"a\":[1,{\"x\":{\"limit_id\":1}}]}").expect("json");
    let found = search_rate_limits(&value).expect("limits");
    assert_eq!(json_text(&found), "{\"limit_id\":1}");
    assert!(search_rate_limits(&parse_json("[1,{\"a\":2}]").expect("json")).is_none());
    let mut o = orchestrator();
    o.mark_running(issue("1", None, 0, "Todo"), None, None, at(0));
    let mut told = update("notification", None);
    told.payload = Some(value);
    o.integrate_update("1", &told);
    assert_eq!(o.state.codex_rate_limits.as_ref().map(json_text), Some("{\"limit_id\":1}".to_string()));
    told.rate_limits = Some(text_value("own"));
    o.integrate_update("1", &told);
    o.integrate_update("1", &update("notification", None));
    assert_eq!(o.state.codex_rate_limits.as_ref().map(json_text), Some("\"own\"".to_string()));
}

#[test]
fn retries_come_out_when_they_are_due() {
    let mut o = orchestrator();
    o.schedule_failure_retry(&issue("b", None, 0, "Todo"), 2, 1_000, Some("e".to_string()), None, None);
    o.schedule_continuation_retry(&issue("a", None, 0, "Todo"), 1_000, Some("h".to_string()), Some("/w".to_string()));
    assert!(o.state.claimed.contains("a"));
    assert!(o.take_due_retries(1_999).is_empty());
    let due = o.take_due_retries(2_000);
    assert_eq!(due.len(), 1);
    assert_eq!(due[0].issue_id, "a");
    assert_eq!(due[0].attempt, 1);
    assert_eq!(due[0].workspace_path, Some("/w".to_string()));
    assert!(o.take_due_retries(20_999).is_empty());
    o.schedule_continuation_retry(&issue("a", None, 0, "Todo"), 0, None, None);
    let due = o.take_due_retries(21_000);
    let ids: Vec<String> = due.iter().map(|entry| entry.issue_id.clone()).collect();
    assert_eq!(ids, vec!["a", "b"]);
    assert_eq!(due[1].due_at_ms, 21_000);
    assert_eq!(due[1].error, Some("e".to_string()));
    assert!(o.take_due_retries(u64::MAX).is_empty());
}

#[test]
fn runtime_is_added_up() {
    let mut o = orchestrator();
    o.mark_running(issue("1", None, 0, "Todo"), None, None, at(100));
    let entry = o.take_running_entry("1").expect("entry");
    o.record_runtime_seconds_at(&entry, at(130));
    o.record_runtime_seconds_at(&entry, at(50));
    assert_eq!(o.state.codex_totals.runtime_seconds, 30);
    o.record_runtime_seconds(&entry);
    assert!(o.state.codex_totals.runtime_seconds > 1_000_000_000);
    o.record_completion("1");
    assert!(o.state.completed.contains("1"));
}

#[test]
fn a_new_configuration_is_taken_over() {
    let mut o = orchestrator();
    let mut config = o.config.clone();
    config.polling.interval_ms = 7;
    config.agent.max_concurrent_agents = 3;
    o.mark_running(issue("1", None, 0, "Todo"), None, None, at(0));
    o.refresh_runtime_config(config);
    assert_eq!(o.state.poll_interval_ms, 7);
    assert_eq!(o.available_global_slots(), 2);
    let mut changed = issue("1", Some(9), 0, "In Progress");
    changed.title = "New".to_string();
    o.refresh_running_issue(changed);
    o.refresh_running_issue(issue("2", None, 0, "Todo"));
    assert_eq!(o.running_entry("1").expect("entry").issue.title, "New");
    assert_eq!(o.running_issue_ids(), vec!["1"]);
    let counts = o.running_counts_by_state();
    assert_eq!(counts.get("in progress"), Some(&1));
    assert_eq!(counts.len(), 1);
}
