use symphony_rs::codex::{
    await_step, decode_line, extract_usage, message_line, needs_input, next_waiting,
    remote_start_command, stream_step, summarize_payload, tool_call_arguments, tool_call_name,
    tool_reply, validate_local_cwd, validate_remote_cwd, AppServerError, AppSession,
    HandshakeStage, HandshakeStep, StreamEvent, StreamStep, Turn, TurnInput, TurnStep,
};
use symphony_rs::config::CodexRuntimeSettings;
use symphony_rs::domain::Issue;
use symphony_rs::json::{empty_object, json_text, number_value, parse_json, text_value, JsonValue};
use symphony_rs::path_safety::PathSafetyError;
use symphony_rs::timestamp::Timestamp;

fn session(policy: JsonValue) -> AppSession {
    let settings = CodexRuntimeSettings {
        approval_policy: policy,
        thread_sandbox: "workspace-write".to_string(),
        turn_sandbox_policy: text_value("sandbox"),
    };
    AppSession::new("/w".to_string(), Some("h".to_string()), settings, Some("42".to_string()))
}

fn json(text: &str) -> JsonValue {
    parse_json(text).expect("json")
}

fn turn() -> Turn {
    Turn { turn_id: "t1".to_string(), session_id: "th-t1".to_string() }
}

#[test]
fn a_session_is_opened_in_three_messages() {
    let mut session = session(text_value("never"));
    match session.initialize() {
        HandshakeStep::Send { messages, awaits, stage } => {
            assert_eq!(awaits, 1);
            assert_eq!(stage, HandshakeStage::Initialize);
            assert_eq!(messages.len(), 1);
            assert_eq!(
                json_text(&messages[0]),
                "{\"id\":1,\"method\":\"initialize\",\"params\":{\"capabilities\":{\"experimentalApi\":true},\"clientInfo\":{\"name\":\"symphony-rs\",\"title\":\"Symphony Rust\",\"version\":\"0.1.0\"}}}"
            );
        }
        _ => panic!("a message"),
    }
    match session.initialize_step(HandshakeStage::Initialize, Ok(empty_object())) {
        HandshakeStep::Send { messages, awaits, stage } => {
            assert_eq!(awaits, 2);
            assert_eq!(stage, HandshakeStage::ThreadStart);
            assert_eq!(messages.len(), 2);
            assert_eq!(json_text(&messages[0]), "{\"method\":\"initialized\",\"params\":{}}");
            let params = messages[1].get("params").expect("params");
            assert_eq!(params.get("cwd").and_then(|v| v.as_str()), Some("/w"));
            assert_eq!(params.get("approvalPolicy").and_then(|v| v.as_str()), Some("never"));
            assert_eq!(params.get("sandbox").and_then(|v| v.as_str()), Some("workspace-write"));
            assert_eq!(
                json_text(params.get("dynamicTools").expect("tools")),
                "[{\"description\":\"Execute a raw GraphQL query or mutation against Linear using Symphony's configured auth.\",\"inputSchema\":{\"additionalProperties\":false,\"properties\":{\"query\":{\"type\":\"string\"},\"variables\":{\"additionalProperties\":true,\"type\":[\"object\",\"null\"]}},\"required\":[\"query\"],\"type\":\"object\"},\"name\":\"linear_graphql\"}]"
            );
        }
        _ => panic!("messages"),
    }
    let step = session.initialize_step(HandshakeStage::ThreadStart, Ok(json("{\"thread\":{}}")));
    assert!(matches!(step, HandshakeStep::Fail(AppServerError::InvalidPayload(_))));
    let step = session.initialize_step(HandshakeStage::ThreadStart, Err(AppServerError::ResponseTimeout));
    assert!(matches!(step, HandshakeStep::Fail(AppServerError::ResponseTimeout)));
    let step = session.initialize_step(HandshakeStage::ThreadStart, Ok(json("{\"thread\":{\"id\":\"th\"}}")));
    assert!(matches!(step, HandshakeStep::Open));
    assert_eq!(session.thread_id, "th");
}

#[test]
fn a_turn_is_started_with_a_prompt() {
    let mut session = session(text_value("never"));
    session.thread_id = "th".to_string();
    let request = session.turn_start_request("Do it", &Issue::example());
    assert_eq!(
        json_text(&request),
        "{\"id\":3,\"method\":\"turn/start\",\"params\":{\"approvalPolicy\":\"never\",\"cwd\":\"/w\",\"input\":[{\"text\":\"Do it\",\"type\":\"text\"}],\"sandboxPolicy\":\"sandbox\",\"threadId\":\"th\",\"title\":\"ABC-123: Port Symphony orchestrator to Rust\"}}"
    );
    let turn = session.start_turn(Ok(json("{\"turn\":{\"id\":\"t1\"}}"))).expect("turn");
    assert_eq!(turn, Turn { turn_id: "t1".to_string(), session_id: "th-t1".to_string() });
    let error = session.start_turn(Ok(json("{\"turn\":1}"))).expect_err("no id");
    assert_eq!(error.message(), "{\"turn\":1}");
    assert_eq!(
        json_text(&session.started_payload(&turn)),
        "{\"threadId\":\"th\",\"turnId\":\"t1\",\"workspace\":\"/w\"}"
    );
    let now = Timestamp::now();
    let update = session.session_started_update(&turn, now);
    assert_eq!(update.event, "session_started");
    assert_eq!(update.timestamp, now);
    assert_eq!(update.session_id, Some("th-t1".to_string()));
    assert_eq!(update.thread_id, Some("th".to_string()));
    assert_eq!(update.turn_id, Some("t1".to_string()));
    assert_eq!(
        update.payload.as_ref().map(json_text),
        Some("{\"threadId\":\"th\",\"turnId\":\"t1\",\"workspace\":\"/w\"}".to_string())
    );
    let result = session.turn_result(&turn);
    assert_eq!(result.session_id, "th-t1");
    assert_eq!(result.clone(), result);
}

fn step(message: &str, policy: JsonValue) -> TurnStep {
    session(policy).run_turn(&TurnInput::Message(json(message)))
}

#[test]
fn turns_end_when_they_are_told_to() {
    let never = || text_value("never");
    assert!(matches!(step("{\"method\":\"turn/completed\"}", never()), TurnStep::Complete(e) if e == "turn_completed"));
    match step("{\"method\":\"turn/failed\"}", never()) {
        TurnStep::Fail { event, error } => {
            assert_eq!(event, Some("turn_failed".to_string()));
            assert_eq!(error.message(), "{\"method\":\"turn/failed\"}");
        }
        _ => panic!("a failure"),
    }
    assert!(matches!(
        step("{\"method\":\"turn/cancelled\"}", never()),
        TurnStep::Fail { error: AppServerError::TurnCancelled(_), .. }
    ));
    for message in [
        "{\"method\":\"item/tool/requestUserInput\"}",
        "{\"method\":\"turn/needs_input\"}",
        "{\"method\":\"x\",\"params\":{\"requiresInput\":true}}",
        "{\"method\":\"x\",\"params\":{\"inputRequired\":true}}",
    ] {
        match step(message, never()) {
            TurnStep::Fail { event, error } => {
                assert_eq!(event, Some("turn_input_required".to_string()));
                assert_eq!(error.message(), "turn_input_required");
            }
            _ => panic!("a failure"),
        }
    }
    assert!(matches!(step("{\"method\":\"x\"}", never()), TurnStep::Notify(e) if e == "notification"));
    assert!(matches!(step("{\"id\":3}", never()), TurnStep::Ignore));
    match session(never()).run_turn(&TurnInput::Cancelled) {
        TurnStep::Stop(error) => assert_eq!(error.message(), "turn_cancelled_by_reconciliation"),
        _ => panic!("a stop"),
    }
    match session(never()).run_turn(&TurnInput::Deadline) {
        TurnStep::Fail { event, error } => {
            assert_eq!(event, None);
            assert_eq!(error.message(), "turn_timeout");
        }
        _ => panic!("a failure"),
    }
}

#[test]
fn approvals_follow_the_policy() {
    let message = "{\"id\":9,\"method\":\"item/fileChange/requestApproval\"}";
    match step(message, text_value("never")) {
        TurnStep::Reply { reply, told } => {
            assert_eq!(json_text(&reply), "{\"id\":9,\"result\":{\"decision\":\"acceptForSession\"}}");
            assert_eq!(told, "approval_auto_approved");
        }
        _ => panic!("a reply"),
    }
    match step("{\"id\":9,\"method\":\"execCommandApproval\"}", text_value("never")) {
        TurnStep::Reply { reply, .. } => {
            assert_eq!(json_text(&reply), "{\"id\":9,\"result\":{\"decision\":\"approved_for_session\"}}");
        }
        _ => panic!("a reply"),
    }
    match step(message, empty_object()) {
        TurnStep::Fail { event, error } => {
            assert_eq!(event, Some("approval_required".to_string()));
            assert!(matches!(error, AppServerError::ApprovalRequired(_)));
        }
        _ => panic!("a failure"),
    }
    assert!(matches!(
        step("{\"method\":\"applyPatchApproval\"}", text_value("never")),
        TurnStep::Fail { event: None, error: AppServerError::InvalidPayload(_) }
    ));
}

#[test]
fn tools_are_called_and_answered() {
    let message = "{\"id\":4,\"method\":\"item/tool/call\",\"params\":{\"tool\":{\"name\":\" t \"},\"arguments\":{\"a\":1}}}";
    match step(message, text_value("never")) {
        TurnStep::CallTool { id, name, arguments } => {
            assert_eq!(id, 4);
            assert_eq!(name, Some("t".to_string()));
            assert_eq!(json_text(&arguments), "{\"a\":1}");
        }
        _ => panic!("a call"),
    }
    assert!(matches!(
        step("{\"method\":\"item/tool/call\"}", text_value("never")),
        TurnStep::Fail { event: None, error: AppServerError::InvalidPayload(_) }
    ));
    assert_eq!(tool_call_name(&json("{\"tool\":\" \",\"name\":\"x\"}")), None);
    assert_eq!(tool_call_name(&json("{\"name\":\"x\",\"tool\":1}")), Some("x".to_string()));
    assert_eq!(json_text(&tool_call_arguments(&empty_object())), "{}");
    let (reply, event) = tool_reply(4, &json("{\"success\":true}"));
    assert_eq!(json_text(&reply), "{\"id\":4,\"result\":{\"success\":true}}");
    assert_eq!(event, "tool_call_completed");
    assert_eq!(tool_reply(4, &empty_object()).1, "tool_call_failed");
}

#[test]
fn answers_are_told_from_other_messages() {
    let mut waiting: Vec<JsonValue> = Vec::new();
    assert!(await_step(&mut waiting, json("{\"id\":2,\"result\":1}"), 3).is_none());
    assert!(await_step(&mut waiting, json("{\"method\":\"x\"}"), 3).is_none());
    assert_eq!(waiting.len(), 2);
    let answer = await_step(&mut waiting, json("{\"id\":3,\"result\":{\"a\":1}}"), 3).expect("ours");
    assert_eq!(json_text(&answer.expect("result")), "{\"a\":1}");
    let answer = await_step(&mut waiting, json("{\"id\":3,\"error\":\"e\",\"result\":1}"), 3).expect("ours");
    assert!(matches!(answer, Err(AppServerError::ResponseError(text)) if text == "\"e\""));
    let answer = await_step(&mut waiting, json("{\"id\":3}"), 3).expect("ours");
    assert!(matches!(answer, Err(AppServerError::InvalidPayload(_))));
    assert_eq!(next_waiting(&mut waiting).map(|v| json_text(&v)), Some("{\"id\":2,\"result\":1}".to_string()));
    assert!(next_waiting(&mut waiting).is_some());
    assert!(next_waiting(&mut waiting).is_none());
}

#[test]
fn streams_give_messages_and_errors() {
    assert!(matches!(stream_step(StreamEvent::Stdout(" {\"a\":1} ".to_string())), StreamStep::Message(_)));
    assert!(matches!(stream_step(StreamEvent::Stdout("log line".to_string())), StreamStep::Wait));
    assert!(matches!(stream_step(StreamEvent::Stdout("  ".to_string())), StreamStep::Wait));
    assert!(matches!(stream_step(StreamEvent::Stderr("{}".to_string())), StreamStep::Wait));
    assert!(matches!(stream_step(StreamEvent::Idle(Ok(None))), StreamStep::Wait));
    match stream_step(StreamEvent::Idle(Ok(Some(Some(7))))) {
        StreamStep::Fail(error) => assert_eq!(error.message(), "port_exit: 7"),
        _ => panic!("an error"),
    }
    match stream_step(StreamEvent::Idle(Ok(Some(None)))) {
        StreamStep::Fail(error) => assert_eq!(error.message(), "port_exit: -1"),
        _ => panic!("an error"),
    }
    match stream_step(StreamEvent::Idle(Err("x".to_string()))) {
        StreamStep::Fail(error) => assert_eq!(error.message(), "codex_wait_failed: x"),
        _ => panic!("an error"),
    }
    match stream_step(StreamEvent::Disconnected) {
        StreamStep::Fail(error) => assert_eq!(error.message(), "codex_stream_disconnected"),
        _ => panic!("an error"),
    }
    assert!(decode_line("{").is_none());
}

#[test]
fn a_message_is_one_line() {
    let line = message_line(&json("{\"a\":\"x\\ny\"}")).expect("line");
    assert_eq!(String::from_utf8(line).expect("text"), "{\"a\":\"x\\ny\"}\n");
}

#[test]
fn updates_carry_what_the_message_says() {
    let mut session = session(text_value("never"));
    session.thread_id = "th".to_string();
    let time = Timestamp::new(9, 0).expect("valid");
    let payload = json("{\"method\":\"m\",\"params\":{\"usage\":{\"total\":3},\"x\":{\"limit_id\":1}}}");
    let update = session.update_at(&turn(), "notification", payload.clone(), time);
    assert_eq!(update.event, "notification");
    assert_eq!(update.timestamp, time);
    assert_eq!(update.session_id, Some("th-t1".to_string()));
    assert_eq!(update.thread_id, Some("th".to_string()));
    assert_eq!(update.turn_id, Some("t1".to_string()));
    assert_eq!(update.codex_app_server_pid, Some("42".to_string()));
    assert_eq!(update.worker_host, Some("h".to_string()));
    assert_eq!(update.last_message, Some("m".to_string()));
    assert_eq!(update.usage.as_ref().map(json_text), Some("{\"total\":3}".to_string()));
    assert_eq!(update.rate_limits.as_ref().map(json_text), Some("{\"limit_id\":1}".to_string()));
    assert_eq!(update.payload, Some(payload.clone()));
    assert!(time.is_before(&session.emit_update(&turn(), "e", payload).timestamp));
    assert_eq!(update.clone(), update);
}

#[test]
fn usage_is_looked_for_in_order() {
    let nested = json("{\"usage\":5,\"params\":{\"msg\":{\"payload\":{\"info\":{\"total_token_usage\":1}},\"info\":{\"total_token_usage\":2}},\"usage\":3}}");
    assert_eq!(extract_usage(&nested), Some(number_value(1)));
    let second = json("{\"params\":{\"msg\":{\"info\":{\"total_token_usage\":2}},\"usage\":3}}");
    assert_eq!(extract_usage(&second), Some(number_value(2)));
    assert_eq!(extract_usage(&json("{\"usage\":5}")), Some(number_value(5)));
    assert_eq!(extract_usage(&json("{\"tokenUsage\":{\"total\":6}}")), Some(number_value(6)));
    assert_eq!(extract_usage(&empty_object()), None);
    assert_eq!(summarize_payload(&json("{\"a\":1}")), "{\"a\":1}");
    assert!(!needs_input("x", &empty_object()));
    assert!(needs_input("turn/approval_required", &empty_object()));
}

#[test]
fn directories_are_checked() {
    assert!(validate_remote_cwd("/w", "h").is_ok());
    assert_eq!(
        validate_remote_cwd(" ", "h").expect_err("blank").message(),
        "invalid_workspace_cwd: empty_remote_workspace h"
    );
    assert_eq!(
        validate_remote_cwd("a\nb", "h").expect_err("break").message(),
        "invalid_workspace_cwd: invalid_remote_workspace h a\nb"
    );
    let path = |text: &str| Ok::<String, PathSafetyError>(text.to_string());
    assert!(validate_local_cwd(path("/r/w"), path("/r")).is_ok());
    assert!(validate_local_cwd(path("/r/v/../w"), path("/r")).is_ok());
    assert_eq!(
        validate_local_cwd(path("/r/"), path("/r")).expect_err("root").message(),
        "invalid_workspace_cwd: workspace_root /r/"
    );
    assert_eq!(
        validate_local_cwd(path("/rx/w"), path("/r")).expect_err("outside").message(),
        "invalid_workspace_cwd: outside_workspace_root /rx/w /r"
    );
    assert_eq!(
        validate_local_cwd(path("/r/w/.."), path("/r")).expect_err("outside").message(),
        "invalid_workspace_cwd: outside_workspace_root /r/w/.. /r"
    );
    let failure = || Err(PathSafetyError::new("/p".to_string(), "e".to_string()));
    assert_eq!(
        validate_local_cwd(failure(), path("/r")).expect_err("failed").message(),
        "path_canonicalize_failed: /p (e)"
    );
    assert!(validate_local_cwd(path("/r/w"), failure()).is_err());
    assert_eq!(remote_start_command("/a b", "codex x"), "cd '/a b' && exec codex x");
    assert_eq!(AppServerError::io("codex_write_failed", "e").message(), "codex_write_failed: e");
    assert_eq!(AppServerError::ResponseTimeout.message(), "response_timeout");
}
