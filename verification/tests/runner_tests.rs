use symphony_rs::codex::AppServerError;
use symphony_rs::config::ServiceConfig;
use symphony_rs::domain::Issue;
use symphony_rs::environment::Environment;
use symphony_rs::json::{empty_object, json_text, parse_json, JsonValue};
use symphony_rs::runner::{
    active_issue_state, continuation_prompt, execute_dynamic_tool, graphql_tool_response,
    normalize_linear_graphql_arguments, run_attempt, AttemptEvent, AttemptStep, RunRequest,
    RunnerError, RunnerExitStatus, ToolStep, TurnLoop, TurnsEvent, TurnsStep,
};
use symphony_rs::tracker::TrackerError;
use symphony_rs::workflow::WorkflowLoader;
use symphony_rs::workspace::{WorkspaceAssignment, WorkspaceError};

fn request(max_turns: u32) -> RunRequest {
    let mut config = ServiceConfig::default(&Environment::new("/tmp"));
    config.agent.max_turns = max_turns;
    RunRequest {
        issue: Issue::example(),
        attempt: Some(2),
        worker_host: Some("h".to_string()),
        config,
        workflow: WorkflowLoader::parse("Work on {{ issue.identifier }}").expect("workflow"),
    }
}

fn json(text: &str) -> JsonValue {
    parse_json(text).expect("json")
}

#[test]
fn attempts_go_step_by_step() {
    let request = request(3);
    match run_attempt(&request, AttemptEvent::Workspace(Err(WorkspaceError::new("no")))) {
        AttemptStep::Exit(status) => assert_eq!(status, RunnerExitStatus::Failed("no".to_string())),
        _ => panic!("an exit"),
    }
    let assignment = WorkspaceAssignment {
        path: "/w".to_string(),
        workspace_key: "w".to_string(),
        created_now: true,
    };
    match run_attempt(&request, AttemptEvent::Workspace(Ok(assignment))) {
        AttemptStep::Announce(info) => {
            assert_eq!(info.workspace_path, "/w");
            assert_eq!(info.worker_host, Some("h".to_string()));
        }
        _ => panic!("an announcement"),
    }
    match run_attempt(&request, AttemptEvent::BeforeRunHook(Err(WorkspaceError::new("hook")))) {
        AttemptStep::Finish(status) => assert_eq!(status, RunnerExitStatus::Failed("hook".to_string())),
        _ => panic!("a finish"),
    }
    assert!(matches!(run_attempt(&request, AttemptEvent::BeforeRunHook(Ok(()))), AttemptStep::RunTurns));
    match run_attempt(&request, AttemptEvent::Turns(RunnerExitStatus::Completed)) {
        AttemptStep::Finish(status) => assert_eq!(status, RunnerExitStatus::Completed),
        _ => panic!("a finish"),
    }
}

#[test]
fn turns_go_on_while_the_issue_is_active() {
    let request = request(2);
    let mut turns = TurnLoop::new(request.issue.clone());
    match turns.run_turns(&request, TurnsEvent::Session(Ok(()))) {
        TurnsStep::RunTurn { prompt } => assert_eq!(prompt, "Work on ABC-123"),
        _ => panic!("a turn"),
    }
    assert!(matches!(turns.run_turns(&request, TurnsEvent::Turn(Ok(()))), TurnsStep::Refresh));
    let mut fresh = Issue::example();
    fresh.state = "in progress".to_string();
    match turns.run_turns(&request, TurnsEvent::Refreshed(Ok(vec![fresh.clone()]))) {
        TurnsStep::RunTurn { prompt } => assert_eq!(prompt, continuation_prompt(2, 2)),
        _ => panic!("a turn"),
    }
    assert_eq!(turns.turn_number, 2);
    assert_eq!(turns.current_issue, fresh);
    assert!(matches!(
        turns.run_turns(&request, TurnsEvent::Refreshed(Ok(vec![fresh]))),
        TurnsStep::End(RunnerExitStatus::Completed)
    ));
}

#[test]
fn turns_end_for_many_reasons() {
    let request = request(5);
    let mut turns = TurnLoop::new(request.issue.clone());
    match turns.run_turns(&request, TurnsEvent::Session(Err(AppServerError::ResponseTimeout))) {
        TurnsStep::NoSession(status) => {
            assert_eq!(status, RunnerExitStatus::Failed("response_timeout".to_string()));
        }
        _ => panic!("no session"),
    }
    let cancelled = AppServerError::TurnCancelled("c".to_string());
    assert!(matches!(
        turns.run_turns(&request, TurnsEvent::Turn(Err(cancelled))),
        TurnsStep::End(RunnerExitStatus::Cancelled(m)) if m == "c"
    ));
    let input = AppServerError::TurnInputRequired("i".to_string());
    assert!(matches!(
        turns.run_turns(&request, TurnsEvent::Turn(Err(input))),
        TurnsStep::End(RunnerExitStatus::Failed(m)) if m == "i"
    ));
    let error = TrackerError::new("down");
    assert!(matches!(
        turns.run_turns(&request, TurnsEvent::Refreshed(Err(error))),
        TurnsStep::End(RunnerExitStatus::Failed(m)) if m == "issue_state_refresh_failed: down"
    ));
    assert!(matches!(
        turns.run_turns(&request, TurnsEvent::Refreshed(Ok(vec![]))),
        TurnsStep::End(RunnerExitStatus::Completed)
    ));
    let mut done = Issue::example();
    done.state = "Done".to_string();
    assert!(matches!(
        turns.run_turns(&request, TurnsEvent::Refreshed(Ok(vec![done]))),
        TurnsStep::End(RunnerExitStatus::Completed)
    ));
    assert!(active_issue_state(&request.config, " TODO "));
    assert!(!active_issue_state(&request.config, "Done"));
    assert_eq!(RunnerError::new("x").message(), "x");
}

#[test]
fn a_broken_prompt_fails_the_attempt() {
    let mut request = request(5);
    request.workflow.prompt_template = "{{ nope }}".to_string();
    let mut turns = TurnLoop::new(request.issue.clone());
    assert!(matches!(
        turns.run_turns(&request, TurnsEvent::Session(Ok(()))),
        TurnsStep::End(RunnerExitStatus::Failed(m)) if m == "template_render_error: unknown variable `nope`"
    ));
}

#[test]
fn no_turns_at_all_is_a_completion() {
    let request = request(0);
    let mut turns = TurnLoop::new(request.issue.clone());
    assert!(matches!(
        turns.run_turns(&request, TurnsEvent::Session(Ok(()))),
        TurnsStep::End(RunnerExitStatus::Completed)
    ));
}

#[test]
fn the_prompt_to_go_on_names_the_turn() {
    let text = continuation_prompt(3, 20);
    assert!(text.starts_with("Continuation guidance:\n\n- The previous Codex turn completed normally"));
    assert!(text.contains("\n- This is continuation turn #3 of 20 for the current agent run.\n"));
    assert!(text.ends_with("do not stop while the issue remains active unless blocked."));
}

#[test]
fn tool_arguments_are_read() {
    let read = |text: &str| {
        normalize_linear_graphql_arguments(&json(text)).map(|(query, variables)| (query, json_text(&variables)))
    };
    assert_eq!(read("\" q \""), Ok(("q".to_string(), "{}".to_string())));
    assert_eq!(read("{\"query\":\" q \"}"), Ok(("q".to_string(), "{}".to_string())));
    assert_eq!(read("{\"query\":\"q\",\"variables\":null}"), Ok(("q".to_string(), "{}".to_string())));
    assert_eq!(
        read("{\"query\":\"q\",\"variables\":{\"a\":1}}"),
        Ok(("q".to_string(), "{\"a\":1}".to_string()))
    );
    let missing = Err("`linear_graphql` requires a non-empty `query` string.".to_string());
    assert_eq!(read("\" \""), missing);
    assert_eq!(read("{\"query\":\" \"}"), missing);
    assert_eq!(read("{\"query\":1}"), missing);
    assert_eq!(
        read("{\"query\":\"q\",\"variables\":[]}"),
        Err("`linear_graphql.variables` must be a JSON object.".to_string())
    );
    assert_eq!(
        read("1"),
        Err("`linear_graphql` expects a query string or an object with `query` and optional `variables`.".to_string())
    );
}

#[test]
fn tools_are_run_or_refused() {
    match execute_dynamic_tool(Some("linear_graphql"), &json("\"q\"")) {
        ToolStep::Query { query, variables } => {
            assert_eq!(query, "q");
            assert_eq!(json_text(&variables), "{}");
        }
        ToolStep::Respond(_) => panic!("a query"),
    }
    match execute_dynamic_tool(Some("a\"b"), &empty_object()) {
        ToolStep::Respond(response) => {
            let output = response.get("output").and_then(|v| v.as_str()).expect("output");
            assert_eq!(
                output,
                "{\n  \"error\": {\n    \"message\": \"Unsupported dynamic tool: Some(\\\"a\\\\\\\"b\\\")\",\n    \"supportedTools\": [\n      \"linear_graphql\"\n    ]\n  }\n}"
            );
            assert_eq!(response.get("success").and_then(|v| v.as_bool()), Some(false));
        }
        ToolStep::Query { .. } => panic!("a response"),
    }
    match execute_dynamic_tool(None, &empty_object()) {
        ToolStep::Respond(response) => assert!(json_text(&response).contains("Unsupported dynamic tool: None")),
        ToolStep::Query { .. } => panic!("a response"),
    }
    assert!(matches!(execute_dynamic_tool(Some("linear_graphql"), &json("1")), ToolStep::Respond(_)));
}

#[test]
fn answers_of_the_tracker_are_passed_on() {
    let good = graphql_tool_response(Ok(json("{\"data\":1}")));
    assert_eq!(
        json_text(&good),
        "{\"contentItems\":[{\"text\":\"{\\n  \\\"data\\\": 1\\n}\",\"type\":\"inputText\"}],\"output\":\"{\\n  \\\"data\\\": 1\\n}\",\"success\":true}"
    );
    let success = |text: &str| graphql_tool_response(Ok(json(text))).get("success").and_then(|v| v.as_bool());
    assert_eq!(success("{\"errors\":[]}"), Some(true));
    assert_eq!(success("{\"errors\":[1]}"), Some(false));
    assert_eq!(success("{\"errors\":\"x\"}"), Some(true));
    let failed = graphql_tool_response(Err(TrackerError::new("down")));
    assert_eq!(failed.get("success").and_then(|v| v.as_bool()), Some(false));
    assert!(json_text(&failed).contains("Linear GraphQL tool execution failed."));
    assert!(json_text(&failed).contains("down"));
}

#[test]
fn no_more_turns_are_started_than_allowed() {
    let mut active = Issue::example();
    active.state = "Todo".to_string();
    for (max_turns, expected) in [(0, 0), (1, 1), (3, 3)] {
        let request = request(max_turns);
        let mut turns = TurnLoop::new(request.issue.clone());
        let mut started = 0;
        let mut event = TurnsEvent::Session(Ok(()));
        for round in 0..20 {
            if matches!(turns.run_turns(&request, event), TurnsStep::RunTurn { .. }) {
                started += 1;
                assert_eq!(started, turns.turn_number);
            }
            event = if round % 2 == 0 {
                TurnsEvent::Turn(Ok(()))
            } else {
                TurnsEvent::Refreshed(Ok(vec![active.clone()]))
            };
        }
        assert_eq!(started, expected);
    }
}
