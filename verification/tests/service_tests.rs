use symphony_rs::config::ServiceConfig;
use symphony_rs::domain::{AgentUpdate, AttemptStatus, Issue, RetryEntry};
use symphony_rs::environment::Environment;
use symphony_rs::json::parse_json;
use symphony_rs::runner::{RunnerExitStatus, WorkerRuntimeInfo};
use symphony_rs::service::{
    current_time_ms, issue_of_retry, needs_reload, retryable_issue, RetryStep, ServiceEvent,
    SymphonyService, WorkspaceRemoval,
};
use symphony_rs::timestamp::Timestamp;
use symphony_rs::tracker::TrackerError;
use symphony_rs::workflow::WorkflowLoader;

fn at(seconds: i64) -> Timestamp {
    Timestamp::new(seconds, 0).expect("valid")
}

fn service() -> SymphonyService {
    let mut config = ServiceConfig::default(&Environment::new("/tmp"));
    config.tracker.project_slug = Some("demo".to_string());
    config.tracker.api_key = Some("key".to_string());
    let workflow = WorkflowLoader::parse("Work").expect("workflow");
    SymphonyService::from_workflow("WORKFLOW.md".to_string(), workflow, config)
}

fn issue(id: &str, state: &str) -> Issue {
    let mut issue = Issue::example_at(at(0), at(0));
    issue.id = id.to_string();
    issue.identifier = format!("X-{}", id);
    issue.state = state.to_string();
    issue
}

fn with_hosts(limit: Option<usize>) -> SymphonyService {
    let mut s = service();
    s.config.worker.ssh_hosts = vec!["a".to_string(), "b".to_string()];
    s.config.worker.max_concurrent_agents_per_host = limit;
    s
}

#[test]
fn attempts_that_end_are_settled() {
    let mut s = service();
    for id in ["1", "2", "3"] {
        assert!(s.dispatch_issue(issue(id, "Todo"), Some(1), None, at(100), 0).is_some());
    }
    let exit = |id: &str, status: RunnerExitStatus| ServiceEvent::Exit { issue_id: id.to_string(), status };
    let event = exit("1", RunnerExitStatus::Completed);
    assert!(s.can_handle(&event, &at(110)));
    s.handle_event(event, at(110), 5_000);
    assert!(s.orchestrator.state.completed.contains("1"));
    assert_eq!(s.orchestrator.state.retry_attempts.get("1").map(|r| (r.attempt, r.due_at_ms)), Some((1, 6_000)));
    s.handle_event(exit("2", RunnerExitStatus::Cancelled("c".to_string())), at(110), 5_000);
    assert!(!s.orchestrator.state.claimed.contains("2"));
    s.handle_event(exit("3", RunnerExitStatus::Failed("e".to_string())), at(110), 5_000);
    let retry = s.orchestrator.state.retry_attempts.get("3").expect("retry");
    assert_eq!((retry.attempt, retry.due_at_ms), (2, 25_000));
    assert_eq!(retry.error, Some("e".to_string()));
    assert_eq!(s.orchestrator.state.codex_totals.runtime_seconds, 30);
    assert!(s.orchestrator.running_issue_ids().is_empty());
    s.handle_event(exit("3", RunnerExitStatus::Completed), at(110), 5_000);
    assert!(!s.orchestrator.state.completed.contains("3"));
}

#[test]
fn reports_of_attempts_are_taken_in() {
    let mut s = service();
    assert!(s.dispatch_issue(issue("1", "Todo"), None, None, at(100), 0).is_some());
    s.handle_event(
        ServiceEvent::RuntimeInfo {
            issue_id: "1".to_string(),
            info: WorkerRuntimeInfo { worker_host: None, workspace_path: "/w".to_string() },
        },
        at(0),
        0,
    );
    let update = AgentUpdate {
        event: "turn_completed".to_string(),
        timestamp: at(200),
        session_id: None,
        thread_id: None,
        turn_id: None,
        codex_app_server_pid: None,
        worker_host: None,
        last_message: None,
        usage: None,
        rate_limits: None,
        payload: None,
    };
    s.handle_event(ServiceEvent::Update { issue_id: "1".to_string(), update }, at(0), 0);
    let entry = s.orchestrator.running_entry("1").expect("entry");
    assert_eq!(entry.workspace_path, Some("/w".to_string()));
    assert_eq!(entry.status, AttemptStatus::Succeeded);
    assert_eq!(entry.live_session.last_codex_timestamp, Some(at(200)));
}

#[test]
fn stalled_attempts_are_told_to_stop() {
    let mut s = service();
    assert!(s.dispatch_issue(issue("1", "Todo"), None, None, at(100), 0).is_some());
    assert!(s.dispatch_issue(issue("2", "Todo"), None, None, at(300), 0).is_some());
    assert!(s.can_cancel_stalled(&at(401)));
    s.orchestrator.state.codex_totals.runtime_seconds = u64::MAX - 300;
    assert!(s.can_cancel_stalled(&at(400)));
    assert!(!s.can_cancel_stalled(&at(401)));
    s.config.codex.stall_timeout_ms = 0;
    assert!(s.can_cancel_stalled(&at(401)));
    s.config.codex.stall_timeout_ms = 300_000;
    s.orchestrator.state.codex_totals.runtime_seconds = u64::MAX - 301;
    let stopped = s.cancel_stalled_runs(at(401), 1_000);
    assert_eq!(s.orchestrator.state.codex_totals.runtime_seconds, u64::MAX);
    assert_eq!(stopped.len(), 1);
    assert_eq!(stopped[0].issue_id, "1");
    assert!(stopped[0].removal.is_none());
    let retry = s.orchestrator.state.retry_attempts.get("1").expect("retry");
    assert_eq!(retry.error, Some("stalled for 301000ms without codex activity".to_string()));
    assert_eq!(retry.attempt, 1);
    assert_eq!(s.orchestrator.running_issue_ids(), vec!["2"]);
    assert!(s.externally_cancelled.contains("1"));
    s.handle_exit("1", RunnerExitStatus::Failed("late".to_string()), at(500), 0);
    assert!(!s.externally_cancelled.contains("1"));
    assert_eq!(s.orchestrator.state.retry_attempts.get("1").and_then(|r| r.error.clone()),
        Some("stalled for 301000ms without codex activity".to_string()));
    s.config.codex.stall_timeout_ms = 0;
    assert!(s.cancel_stalled_runs(at(9_999), 0).is_empty());
}

#[test]
fn the_tracker_decides_what_goes_on() {
    let mut s = service();
    for id in ["1", "2", "3", "4", "5"] {
        assert!(s.dispatch_issue(issue(id, "Todo"), None, None, at(0), 0).is_some());
    }
    s.orchestrator.update_runtime_info("1", Some("h".to_string()), "/w1".to_string());
    let mut unassigned = issue("3", "Todo");
    unassigned.assigned_to_worker = false;
    let mut renamed = issue("4", "In Progress");
    renamed.title = "New".to_string();
    let fetched = vec![issue("1", "Done"), issue("2", "Review"), unassigned, renamed];
    let ids = s.orchestrator.running_issue_ids();
    s.orchestrator.state.codex_totals.runtime_seconds = u64::MAX - 39;
    assert!(!s.can_reconcile(&ids, &fetched, &at(10)));
    s.orchestrator.state.codex_totals.runtime_seconds = u64::MAX - 40;
    assert!(s.can_reconcile(&ids, &fetched, &at(10)));
    let stopped = s.reconcile_running_issues(&ids, &fetched, at(10), 0);
    assert_eq!(s.orchestrator.state.codex_totals.runtime_seconds, u64::MAX);
    let told: Vec<String> = stopped.iter().map(|run| run.issue_id.clone()).collect();
    assert_eq!(told, vec!["1", "2", "3", "5"]);
    assert_eq!(
        stopped[0].removal,
        Some(WorkspaceRemoval::Path { path: "/w1".to_string(), worker_host: Some("h".to_string()) })
    );
    assert!(stopped[1].removal.is_none());
    assert_eq!(s.orchestrator.running_issue_ids(), vec!["4"]);
    assert_eq!(s.orchestrator.running_entry("4").expect("entry").issue.title, "New");
    assert!(!s.orchestrator.state.claimed.contains("2"));
    assert!(s.orchestrator.state.retry_attempts.get("2").is_none());
    assert!(s.externally_cancelled.contains("5"));
}

#[test]
fn workspaces_without_a_path_are_removed_by_issue() {
    let mut s = service();
    assert!(s.dispatch_issue(issue("1", "Todo"), None, None, at(0), 0).is_some());
    let stopped = s.cancel_running_issue("1", true, None, at(0), 0);
    assert_eq!(
        stopped.removal,
        Some(WorkspaceRemoval::Issue { identifier: "X-1".to_string(), worker_host: None })
    );
    let stopped = s.cancel_running_issue("1", true, None, at(0), 0);
    assert!(stopped.removal.is_none());
}

#[test]
fn hosts_are_chosen_by_load() {
    let mut s = with_hosts(Some(1));
    assert_eq!(service().select_worker_host(Some("a")), Some(None));
    assert_eq!(s.select_worker_host(None), Some(Some("a".to_string())));
    assert_eq!(s.select_worker_host(Some("b")), Some(Some("b".to_string())));
    assert_eq!(s.select_worker_host(Some("z")), Some(Some("a".to_string())));
    let request = s.dispatch_issue(issue("1", "Todo"), None, None, at(0), 0).expect("request");
    assert_eq!(request.worker_host, Some("a".to_string()));
    assert_eq!(request.config, s.config);
    assert_eq!(request.workflow, s.workflow);
    assert_eq!(s.running_worker_host_count("a"), 1);
    assert!(!s.worker_host_slots_available("a"));
    assert_eq!(s.select_worker_host(Some("a")), Some(Some("b".to_string())));
    assert!(s.dispatch_issue(issue("2", "Todo"), None, None, at(0), 0).is_some());
    assert_eq!(s.select_worker_host(None), None);
    assert!(s.dispatch_issue(issue("3", "Todo"), None, None, at(0), 0).is_none());
    assert!(!s.orchestrator.state.claimed.contains("3"));
    assert!(s.dispatch_issue(issue("3", "Todo"), Some(1), Some("a".to_string()), at(0), 0).is_none());
    let retry = s.orchestrator.state.retry_attempts.get("3").expect("retry");
    assert_eq!(retry.attempt, 2);
    assert_eq!(retry.due_at_ms, 20_000);
    assert_eq!(retry.error, Some("no available worker capacity".to_string()));
    assert_eq!(retry.worker_host, Some("a".to_string()));
    let unlimited = with_hosts(None);
    assert!(unlimited.worker_host_slots_available("a"));
}

#[test]
fn new_work_is_started() {
    let mut s = service();
    let issues = vec![issue("1", "Todo"), issue("2", "Done"), issue("3", "In Progress")];
    let requests = s.dispatch_new_work(&issues, at(0), 0);
    let ids: Vec<String> = requests.iter().map(|r| r.issue.id.clone()).collect();
    assert_eq!(ids, vec!["1", "3"]);
    assert!(s.dispatch_new_work(&issues, at(0), 0).is_empty());
    assert_eq!(s.orchestrator.running_issue_ids(), vec!["1", "3"]);
    let mut unready = service();
    unready.config.tracker.api_key = None;
    assert!(unready.dispatch_new_work(&issues, at(0), 0).is_empty());
}

fn retry(id: &str, path: Option<&str>) -> RetryEntry {
    RetryEntry {
        issue_id: id.to_string(),
        identifier: format!("X-{}", id),
        attempt: 3,
        due_at_ms: 0,
        error: None,
        worker_host: Some("h".to_string()),
        workspace_path: path.map(|p| p.to_string()),
    }
}

#[test]
fn due_retries_are_settled() {
    let mut s = service();
    s.orchestrator.schedule_continuation_retry(&issue("1", "Todo"), 0, None, None);
    let candidates = vec![issue("1", "Todo"), issue("2", "Todo"), issue("1", "Review")];
    let found = s.begin_retry(&retry("1", None), &candidates).expect("candidate");
    assert_eq!(found.state, "Review");
    assert!(!s.orchestrator.state.claimed.contains("1"));
    assert!(s.orchestrator.state.retry_attempts.get("1").is_none());
    assert!(s.begin_retry(&retry("9", None), &candidates).is_none());
    match s.settle_retry(retry("1", Some("/w")), Some(issue("1", "Done")), 0) {
        RetryStep::Remove(removal) => assert_eq!(
            removal,
            WorkspaceRemoval::Path { path: "/w".to_string(), worker_host: Some("h".to_string()) }
        ),
        _ => panic!("a removal"),
    }
    match s.settle_retry(retry("1", None), Some(issue("1", "Todo")), 0) {
        RetryStep::Start { issue, attempt, worker_host } => {
            assert_eq!(issue.id, "1");
            assert_eq!(attempt, 3);
            assert_eq!(worker_host, Some("h".to_string()));
        }
        _ => panic!("a start"),
    }
    s.orchestrator.state.max_concurrent_agents = 0;
    assert!(matches!(s.settle_retry(retry("1", Some("/w")), Some(issue("1", "Todo")), 1_000), RetryStep::Settled));
    let put_off = s.orchestrator.state.retry_attempts.get("1").expect("retry");
    assert_eq!(put_off.attempt, 4);
    assert_eq!(put_off.due_at_ms, 81_000);
    assert_eq!(put_off.error, Some("no available orchestrator slots".to_string()));
    assert!(matches!(s.settle_retry(retry("1", None), Some(issue("1", "Review")), 0), RetryStep::Settled));
    assert!(s.orchestrator.state.retry_attempts.get("1").is_none());
    assert!(matches!(s.settle_retry(retry("1", None), None, 0), RetryStep::Settled));
    assert!(retryable_issue(&s.config, &issue("1", "Todo")));
    assert!(!retryable_issue(&s.config, &issue("1", "Done")));
}

#[test]
fn workflows_are_read_again() {
    assert!(needs_reload(None, (0, 0)));
    assert!(needs_reload(Some((1, 5)), (1, 6)));
    assert!(needs_reload(Some((0, 9)), (1, 0)));
    assert!(!needs_reload(Some((1, 5)), (1, 5)));
    let mut s = service();
    let message = s.reload(Err("bad".to_string())).expect("message");
    assert_eq!(message, "workflow reload failed; keeping last known good config: bad");
    let mut config = s.config.clone();
    config.polling.interval_ms = 9;
    let workflow = WorkflowLoader::parse("Other").expect("workflow");
    assert!(s.reload(Ok((workflow, config))).is_none());
    assert_eq!(s.workflow.prompt_template, "Other");
    assert_eq!(s.orchestrator.state.poll_interval_ms, 9);
    assert_eq!(s.orchestrator.config.polling.interval_ms, 9);
}

#[test]
fn snapshots_show_the_state() {
    let mut s = service();
    assert!(s.dispatch_issue(issue("1", "Todo"), None, None, at(0), 0).is_some());
    let snapshot = s.snapshot();
    assert_eq!(snapshot.workflow_path, "WORKFLOW.md");
    assert!(snapshot.dispatch_ready);
    assert!(snapshot.validation_errors.is_empty());
    assert_eq!(snapshot.state, s.orchestrator.state);
    s.config.tracker.api_key = None;
    assert_eq!(
        s.snapshot().validation_errors,
        vec!["tracker.api_key is missing after environment resolution"]
    );
    assert!(!s.snapshot().dispatch_ready);
}

#[test]
fn the_clock_is_read_in_milliseconds() {
    assert!(current_time_ms() > 1_600_000_000_000);
}

#[test]
fn the_last_issue_fetched_is_tried_again() {
    let found = issue_of_retry(Ok(vec![issue("1", "Todo"), issue("2", "Todo")]));
    assert_eq!(found.expect("issue").id, "2");
    assert!(issue_of_retry(Ok(Vec::new())).is_none());
    assert!(issue_of_retry(Err(TrackerError::new("down"))).is_none());
}

#[test]
fn a_report_that_comes_twice_is_counted_once() {
    let mut s = service();
    assert!(s.dispatch_issue(issue("1", "Todo"), None, None, at(0), 0).is_some());
    let report = |event: &str, seconds: i64| AgentUpdate {
        event: event.to_string(),
        timestamp: at(seconds),
        session_id: None,
        thread_id: None,
        turn_id: None,
        codex_app_server_pid: None,
        worker_host: None,
        last_message: None,
        usage: parse_json("{\"input_tokens\":7,\"output_tokens\":2,\"total_tokens\":9}"),
        rate_limits: None,
        payload: None,
    };
    for (event, seconds) in [("notification", 1), ("turn_completed", 2)] {
        s.handle_event(
            ServiceEvent::Update { issue_id: "1".to_string(), update: report(event, seconds) },
            at(0),
            0,
        );
        let session = &s.orchestrator.running_entry("1").expect("entry").live_session;
        assert_eq!(session.last_codex_timestamp, Some(at(seconds)));
        assert_eq!(session.codex_input_tokens, 7);
        assert_eq!(session.codex_output_tokens, 2);
        assert_eq!(session.codex_total_tokens, 9);
        assert_eq!(session.last_reported_total_tokens, 9);
        assert_eq!(s.orchestrator.state.codex_totals.input_tokens, 7);
        assert_eq!(s.orchestrator.state.codex_totals.output_tokens, 2);
        assert_eq!(s.orchestrator.state.codex_totals.total_tokens, 9);
    }
}
