//! The session with the agent: the messages that are sent to it, and what
//! follows from those that come back.

use crate::accounting::{rate_limits_in, search_rate_limits};
use crate::config::CodexRuntimeSettings;
use crate::domain::{AgentUpdate, Issue, IssueModel};
use crate::json::{
    array_of, array_value, bool_in, bool_value, clone_in, empty_object, get_in, json_bool,
    json_bytes, json_compact, json_encode, json_get, json_parsed, json_str, json_text, json_u64,
    number_value, opt_json, opt_json_get, opt_json_value, parse_json, single_array, str_in,
    string_in, text_value, u64_in, Json, JsonValue,
};
use crate::path_safety::{
    components, is_below, lemma_below_leads_down, lies_below, names_below, path_failure, same_path,
    PathSafetyError,
};
use crate::ssh::{escaped, shell_escape};
use crate::text::{blank, clone_opt, has_char, is_blank, opt_text, same_text, trim, trimmed};
use crate::timestamp::{valid_time, TimePoint, Timestamp};
use vstd::prelude::*;
use vstd::string::*;

verus! {

pub const INITIALIZE_ID: u64 = 1;

pub const THREAD_START_ID: u64 = 2;

pub const TURN_START_ID: u64 = 3;

/// How long the answer to a request may take.
pub const RESPONSE_TIMEOUT_MS: u64 = 5_000;

/// The result of a turn that was completed.
#[derive(Debug, PartialEq, Eq)]
pub struct TurnRunResult {
    pub session_id: String,
    pub thread_id: String,
    pub turn_id: String,
}

impl Clone for TurnRunResult {
    fn clone(&self) -> (r: TurnRunResult)
        ensures
            r == *self,
    {
        TurnRunResult {
            session_id: self.session_id.clone(),
            thread_id: self.thread_id.clone(),
            turn_id: self.turn_id.clone(),
        }
    }
}

// ---------------------------------------------------------------------------
// Errors
// ---------------------------------------------------------------------------

/// Why a session or a turn came to an end.
#[derive(Debug)]
pub enum AppServerError {
    Io(String),
    InvalidWorkspaceCwd(String),
    ResponseTimeout,
    TurnTimeout,
    PortExit(i32),
    ResponseError(String),
    TurnFailed(String),
    TurnCancelled(String),
    ApprovalRequired(String),
    TurnInputRequired(String),
    InvalidPayload(String),
}

/// The model of why a session or a turn came to an end.
pub enum SessionFault {
    Io(Seq<char>),
    InvalidWorkspaceCwd(Seq<char>),
    ResponseTimeout,
    TurnTimeout,
    PortExit(i32),
    ResponseError(Seq<char>),
    TurnFailed(Seq<char>),
    TurnCancelled(Seq<char>),
    ApprovalRequired(Seq<char>),
    TurnInputRequired(Seq<char>),
    InvalidPayload(Seq<char>),
}

impl View for AppServerError {
    type V = SessionFault;

    open spec fn view(&self) -> SessionFault {
        match *self {
            AppServerError::Io(message) => SessionFault::Io(message@),
            AppServerError::InvalidWorkspaceCwd(message) => SessionFault::InvalidWorkspaceCwd(
                message@,
            ),
            AppServerError::ResponseTimeout => SessionFault::ResponseTimeout,
            AppServerError::TurnTimeout => SessionFault::TurnTimeout,
            AppServerError::PortExit(status) => SessionFault::PortExit(status),
            AppServerError::ResponseError(message) => SessionFault::ResponseError(message@),
            AppServerError::TurnFailed(message) => SessionFault::TurnFailed(message@),
            AppServerError::TurnCancelled(message) => SessionFault::TurnCancelled(message@),
            AppServerError::ApprovalRequired(message) => SessionFault::ApprovalRequired(message@),
            AppServerError::TurnInputRequired(message) => SessionFault::TurnInputRequired(message@),
            AppServerError::InvalidPayload(message) => SessionFault::InvalidPayload(message@),
        }
    }
}

/// The message of an error.
pub open spec fn session_message(fault: SessionFault) -> Seq<char> {
    match fault {
        SessionFault::Io(message) => message,
        SessionFault::InvalidWorkspaceCwd(message) => message,
        SessionFault::ResponseTimeout => "response_timeout"@,
        SessionFault::TurnTimeout => "turn_timeout"@,
        SessionFault::PortExit(status) => "port_exit: "@ + crate::text::signed_decimal(
            status as int,
        ),
        SessionFault::ResponseError(message) => message,
        SessionFault::TurnFailed(message) => message,
        SessionFault::TurnCancelled(message) => message,
        SessionFault::ApprovalRequired(message) => message,
        SessionFault::TurnInputRequired(message) => message,
        SessionFault::InvalidPayload(message) => message,
    }
}

impl AppServerError {
    /// The message of the error.
    pub fn message(&self) -> (r: String)
        ensures
            r@ == session_message(self@),
    {
        match self {
            AppServerError::Io(message) => message.clone(),
            AppServerError::InvalidWorkspaceCwd(message) => message.clone(),
            AppServerError::ResponseTimeout => "response_timeout".to_string(),
            AppServerError::TurnTimeout => "turn_timeout".to_string(),
            AppServerError::PortExit(status) => "port_exit: ".to_string().concat(
                crate::text::signed_decimal_text(*status as i64).as_str(),
            ),
            AppServerError::ResponseError(message) => message.clone(),
            AppServerError::TurnFailed(message) => message.clone(),
            AppServerError::TurnCancelled(message) => message.clone(),
            AppServerError::ApprovalRequired(message) => message.clone(),
            AppServerError::TurnInputRequired(message) => message.clone(),
            AppServerError::InvalidPayload(message) => message.clone(),
        }
    }

    /// The error of an operation of the system that failed.
    pub fn io(what: &str, error: &str) -> (r: AppServerError)
        ensures
            r@ == SessionFault::Io(what@ + ": "@ + error@),
    {
        AppServerError::Io(what.to_string().concat(": ").concat(error))
    }

    /// The error of a message that lacks what it must hold.
    fn invalid(message: &JsonValue) -> (r: AppServerError)
        ensures
            r@ == SessionFault::InvalidPayload(json_compact(message@)),
    {
        AppServerError::InvalidPayload(json_text(message))
    }
}

// ---------------------------------------------------------------------------
// Where a session may work
// ---------------------------------------------------------------------------

/// Whether a path cannot be given to a remote shell on one line.
pub open spec fn has_line_break(path: Seq<char>) -> bool {
    path.contains('\n') || path.contains('\r') || path.contains('\0')
}

/// Whether a path cannot be given to a remote shell on one line.
pub fn breaks_line(path: &str) -> (r: bool)
    ensures
        r == has_line_break(path@),
{
    has_char(path, '\n') || has_char(path, '\r') || has_char(path, '\0')
}

/// Why a session may not work in a directory of a remote host.
pub open spec fn remote_cwd_fault(workspace: Seq<char>, host: Seq<char>) -> Option<SessionFault> {
    if is_blank(workspace) {
        Some(
            SessionFault::InvalidWorkspaceCwd(
                "invalid_workspace_cwd: empty_remote_workspace "@ + host,
            ),
        )
    } else if has_line_break(workspace) {
        Some(
            SessionFault::InvalidWorkspaceCwd(
                "invalid_workspace_cwd: invalid_remote_workspace "@ + host + " "@ + workspace,
            ),
        )
    } else {
        None
    }
}

/// Why a session may not work in a directory of this host, given by its canonical
/// path, with that of the directory of all workspaces: it is that directory, or it
/// does not lie below it.
pub open spec fn local_cwd_fault(workspace: Seq<char>, root: Seq<char>) -> Option<SessionFault> {
    if components(workspace) == components(root) {
        Some(
            SessionFault::InvalidWorkspaceCwd(
                "invalid_workspace_cwd: workspace_root "@ + workspace,
            ),
        )
    } else if lies_below(workspace, root) {
        None
    } else {
        Some(
            SessionFault::InvalidWorkspaceCwd(
                "invalid_workspace_cwd: outside_workspace_root "@ + workspace + " "@ + root,
            ),
        )
    }
}

/// A check that passed or found a fault.
pub open spec fn checked(r: Result<(), AppServerError>) -> Option<SessionFault> {
    match r {
        Ok(_) => None,
        Err(error) => Some(error@),
    }
}

/// Whether a session may work in a directory of a remote host.
pub fn validate_remote_cwd(workspace: &str, host: &str) -> (r: Result<(), AppServerError>)
    ensures
        checked(r) == remote_cwd_fault(workspace@, host@),
{
    if blank(workspace) {
        return Err(
            AppServerError::InvalidWorkspaceCwd(
                "invalid_workspace_cwd: empty_remote_workspace ".to_string().concat(host),
            ),
        );
    }
    if breaks_line(workspace) {
        return Err(
            AppServerError::InvalidWorkspaceCwd(
                "invalid_workspace_cwd: invalid_remote_workspace ".to_string().concat(host).concat(
                    " ",
                ).concat(workspace),
            ),
        );
    }
    Ok(())
}

/// Whether a session may work in a directory of this host, by what came of
/// finding its canonical path and that of the directory of all workspaces.
pub fn validate_local_cwd(
    workspace: Result<String, PathSafetyError>,
    root: Result<String, PathSafetyError>,
) -> (r: Result<(), AppServerError>)
    ensures
        match (workspace, root) {
            (Err(failure), _) => checked(r) == Some(
                SessionFault::InvalidWorkspaceCwd(path_failure(failure@.0, failure@.1)),
            ),
            (Ok(_), Err(failure)) => checked(r) == Some(
                SessionFault::InvalidWorkspaceCwd(path_failure(failure@.0, failure@.1)),
            ),
            (Ok(path), Ok(outer)) => checked(r) == local_cwd_fault(path@, outer@),
        },
{
    let path = match workspace {
        Ok(path) => path,
        Err(failure) => {
            return Err(AppServerError::InvalidWorkspaceCwd(failure.message()));
        },
    };
    let outer = match root {
        Ok(outer) => outer,
        Err(failure) => {
            return Err(AppServerError::InvalidWorkspaceCwd(failure.message()));
        },
    };
    if same_path(path.as_str(), outer.as_str()) {
        return Err(
            AppServerError::InvalidWorkspaceCwd(
                "invalid_workspace_cwd: workspace_root ".to_string().concat(path.as_str()),
            ),
        );
    }
    if is_below(path.as_str(), outer.as_str()) {
        Ok(())
    } else {
        Err(
            AppServerError::InvalidWorkspaceCwd(
                "invalid_workspace_cwd: outside_workspace_root ".to_string().concat(
                    path.as_str(),
                ).concat(" ").concat(outer.as_str()),
            ),
        )
    }
}

/// The command that starts the agent in a workspace on a remote host.
pub open spec fn remote_start_text(workspace: Seq<char>, command: Seq<char>) -> Seq<char> {
    "cd "@ + escaped(workspace) + " && exec "@ + command
}

/// The command that starts the agent in a directory of a remote host.
pub fn remote_start_command(workspace: &str, command: &str) -> (r: String)
    ensures
        r@ == remote_start_text(workspace@, command@),
        r@ == "cd "@ + escaped(workspace@) + " && exec "@ + command@,
{
    "cd ".to_string().concat(shell_escape(workspace).as_str()).concat(" && exec ").concat(command)
}

// ---------------------------------------------------------------------------
// Lines and messages
// ---------------------------------------------------------------------------

/// The line that carries a message: its JSON text and a line feed, which is the
/// only one in it.
pub fn message_line(message: &JsonValue) -> (r: Result<Vec<u8>, AppServerError>)
    ensures
        match r {
            Ok(line) => {
                &&& line@.len() > 0
                &&& line@.last() == 10u8
                &&& !line@.drop_last().contains(10u8)
                &&& json_bytes(message@) == Ok::<Seq<u8>, Seq<char>>(line@.drop_last())
            },
            Err(error) => json_bytes(message@) matches Err(reason) && error@ == SessionFault::Io(
                "json_encode_failed"@ + ": "@ + reason,
            ),
        },
{
    match json_encode(message) {
        Ok(bytes) => {
            let mut line = bytes;
            line.push(10u8);
            assert(line@.drop_last() =~= bytes@);
            Ok(line)
        },
        Err(reason) => Err(AppServerError::io("json_encode_failed", reason.as_str())),
    }
}

/// The message of a line, if it carries one.
pub fn decode_line(line: &str) -> (r: Option<JsonValue>)
    ensures
        opt_json_value(r) == if is_blank(line@) {
            None
        } else {
            json_parsed(trim(line@))
        },
{
    if blank(line) {
        return None;
    }
    parse_json(trimmed(line).as_str())
}

/// What comes from the streams of the agent.
#[derive(Debug)]
pub enum StreamEvent {
    Stdout(String),
    Stderr(String),
    /// Nothing came for a while: the process still runs, has ended with a
    /// status, or could not be asked.
    Idle(Result<Option<Option<i32>>, String>),
    Disconnected,
}

/// What follows from it.
#[derive(Debug)]
pub enum StreamStep {
    Message(JsonValue),
    Wait,
    Fail(AppServerError),
}

/// The model of what follows from what has come from the agent.
pub enum StreamModel {
    Message(Json),
    Wait,
    Fail(SessionFault),
}

impl View for StreamStep {
    type V = StreamModel;

    open spec fn view(&self) -> StreamModel {
        match *self {
            StreamStep::Message(message) => StreamModel::Message(message@),
            StreamStep::Wait => StreamModel::Wait,
            StreamStep::Fail(error) => StreamModel::Fail(error@),
        }
    }
}

/// What follows from what has come from the agent.
pub open spec fn stream_model(event: StreamEvent) -> StreamModel {
    match event {
        StreamEvent::Stdout(line) => if is_blank(line@) {
            StreamModel::Wait
        } else {
            match json_parsed(trim(line@)) {
                Some(message) => StreamModel::Message(message),
                None => StreamModel::Wait,
            }
        },
        StreamEvent::Stderr(_) => StreamModel::Wait,
        StreamEvent::Idle(Ok(None)) => StreamModel::Wait,
        StreamEvent::Idle(Ok(Some(status))) => StreamModel::Fail(
            SessionFault::PortExit(
                match status {
                    Some(code) => code,
                    None => -1i32,
                },
            ),
        ),
        StreamEvent::Idle(Err(reason)) => StreamModel::Fail(
            SessionFault::Io("codex_wait_failed"@ + ": "@ + reason@),
        ),
        StreamEvent::Disconnected => StreamModel::Fail(
            SessionFault::Io("codex_stream_disconnected"@),
        ),
    }
}

/// What follows from what came from the streams: a line with a message gives the
/// message; other lines are passed over; the end of the process or of the streams
/// is an error.
pub fn stream_step(event: StreamEvent) -> (r: StreamStep)
    ensures
        r@ == stream_model(event),
        match event {
            StreamEvent::Stdout(line) => match r {
                StreamStep::Message(message) => !is_blank(line@) && json_parsed(trim(line@))
                    == Some(message@),
                StreamStep::Wait => is_blank(line@) || json_parsed(trim(line@)) is None,
                StreamStep::Fail(_) => false,
            },
            StreamEvent::Stderr(_) => r is Wait,
            StreamEvent::Idle(Ok(None)) => r is Wait,
            StreamEvent::Idle(Ok(Some(status))) => r matches StreamStep::Fail(error) && error@
                == SessionFault::PortExit(
                match status {
                    Some(code) => code,
                    None => -1i32,
                },
            ),
            StreamEvent::Idle(Err(reason)) => r matches StreamStep::Fail(error) && error@
                == SessionFault::Io("codex_wait_failed"@ + ": "@ + reason@),
            StreamEvent::Disconnected => r matches StreamStep::Fail(error) && error@
                == SessionFault::Io("codex_stream_disconnected"@),
        },
{
    match event {
        StreamEvent::Stdout(line) => match decode_line(line.as_str()) {
            Some(message) => StreamStep::Message(message),
            None => StreamStep::Wait,
        },
        StreamEvent::Stderr(_) => StreamStep::Wait,
        StreamEvent::Idle(Ok(None)) => StreamStep::Wait,
        StreamEvent::Idle(Ok(Some(status))) => {
            let code: i32 = match status {
                Some(code) => code,
                None => -1,
            };
            StreamStep::Fail(AppServerError::PortExit(code))
        },
        StreamEvent::Idle(Err(reason)) => StreamStep::Fail(
            AppServerError::io("codex_wait_failed", reason.as_str()),
        ),
        StreamEvent::Disconnected => StreamStep::Fail(
            AppServerError::Io("codex_stream_disconnected".to_string()),
        ),
    }
}

// ---------------------------------------------------------------------------
// Answers
// ---------------------------------------------------------------------------

/// Whether a message answers a request.
pub open spec fn answers(message: Json, request_id: u64) -> bool {
    json_u64(json_get(message, "id"@)) == Some(request_id)
}

/// What an answer says: its error, or its result, or neither.
pub open spec fn answer_of(message: Json) -> Result<Json, SessionFault> {
    match json_get(message, "error"@) {
        Some(error) => Err(SessionFault::ResponseError(json_compact(error))),
        None => match json_get(message, "result"@) {
            Some(result) => Ok(result),
            None => Err(SessionFault::InvalidPayload(json_compact(message))),
        },
    }
}

/// A value or an error, as a model.
pub open spec fn json_result(r: Result<JsonValue, AppServerError>) -> Result<Json, SessionFault> {
    match r {
        Ok(value) => Ok(value@),
        Err(error) => Err(error@),
    }
}

/// A text or an error, as a model.
pub open spec fn text_result(r: Result<String, AppServerError>) -> Result<Seq<char>, SessionFault> {
    match r {
        Ok(text) => Ok(text@),
        Err(error) => Err(error@),
    }
}

/// The messages of a list.
pub open spec fn message_models(messages: Seq<JsonValue>) -> Seq<Json> {
    messages.map_values(|message: JsonValue| message@)
}

/// Takes in a message while the answer to a request is awaited: the answer is
/// handed back, and any other message is put at the end of the waiting ones.
pub fn await_step(waiting: &mut Vec<JsonValue>, message: JsonValue, request_id: u64) -> (r: Option<
    Result<JsonValue, AppServerError>,
>)
    ensures
        match r {
            Some(answer) => {
                &&& answers(message@, request_id)
                &&& json_result(answer) == answer_of(message@)
                &&& final(waiting)@ == old(waiting)@
            },
            None => {
                &&& !answers(message@, request_id)
                &&& final(waiting)@ == old(waiting)@.push(message)
            },
        },
{
    if u64_in(message.get("id")) == Some(request_id) {
        match message.get("error") {
            Some(error) => {
                return Some(Err(AppServerError::ResponseError(json_text(error))));
            },
            None => {},
        }
        match message.get("result") {
            Some(result) => {
                return Some(Ok(result.clone()));
            },
            None => {},
        }
        return Some(Err(AppServerError::invalid(&message)));
    }
    waiting.push(message);
    None
}

/// Takes the first of the waiting messages.
pub fn next_waiting(waiting: &mut Vec<JsonValue>) -> (r: Option<JsonValue>)
    ensures
        match r {
            Some(message) => {
                &&& old(waiting)@.len() > 0
                &&& message == old(waiting)@[0]
                &&& final(waiting)@ == old(waiting)@.skip(1)
            },
            None => old(waiting)@.len() == 0 && final(waiting)@ == old(waiting)@,
        },
{
    if waiting.len() == 0 {
        None
    } else {
        let first = waiting.remove(0);
        assert(waiting@ =~= old(waiting)@.skip(1));
        Some(first)
    }
}

/// The text that is reached in an answer by two keys.
pub open spec fn id_in(response: Json, key: Seq<char>) -> Result<Seq<char>, SessionFault> {
    match json_str(opt_json_get(json_get(response, key), "id"@)) {
        Some(id) => Ok(id),
        None => Err(SessionFault::InvalidPayload(json_compact(response))),
    }
}

fn read_id(response: &JsonValue, key: &str) -> (r: Result<String, AppServerError>)
    ensures
        text_result(r) == id_in(response@, key@),
{
    match string_in(get_in(response.get(key), "id")) {
        Some(id) => Ok(id),
        None => Err(AppServerError::invalid(response)),
    }
}

/// The thread that an answer tells of.
pub fn thread_id_of(response: &JsonValue) -> (r: Result<String, AppServerError>)
    ensures
        text_result(r) == id_in(response@, "thread"@),
{
    read_id(response, "thread")
}

/// The turn that an answer tells of.
pub fn turn_id_of(response: &JsonValue) -> (r: Result<String, AppServerError>)
    ensures
        text_result(r) == id_in(response@, "turn"@),
{
    read_id(response, "turn")
}

// ---------------------------------------------------------------------------
// Requests
// ---------------------------------------------------------------------------

/// A request with its parameters.
pub open spec fn request(method: Seq<char>, id: int, params: Json) -> Json {
    Json::Object(
        map!["method"@ => Json::Text(method), "id"@ => Json::Integer(id), "params"@ => params],
    )
}

/// The request that opens a session.
pub open spec fn initialize_model() -> Json {
    request(
        "initialize"@,
        INITIALIZE_ID as int,
        Json::Object(
            map![
                "capabilities"@ => Json::Object(map!["experimentalApi"@ => Json::Bool(true)]),
                "clientInfo"@ => Json::Object(
                    map![
                        "name"@ => Json::Text("symphony-rs"@),
                        "title"@ => Json::Text("Symphony Rust"@),
                        "version"@ => Json::Text("0.1.0"@),
                    ],
                ),
            ],
        ),
    )
}

/// The notice that a session is open.
pub open spec fn initialized_model() -> Json {
    Json::Object(
        map![
            "method"@ => Json::Text("initialized"@),
            "params"@ => Json::Object(Map::empty()),
        ],
    )
}

/// The description of the tool that the agent is offered.
pub open spec fn tool_model() -> Json {
    Json::Object(
        map![
            "name"@ => Json::Text("linear_graphql"@),
            "description"@ => Json::Text(
                "Execute a raw GraphQL query or mutation against Linear using Symphony's configured auth."@,
            ),
            "inputSchema"@ => Json::Object(
                map![
                    "type"@ => Json::Text("object"@),
                    "additionalProperties"@ => Json::Bool(false),
                    "required"@ => Json::Array(seq![Json::Text("query"@)]),
                    "properties"@ => Json::Object(
                        map![
                            "query"@ => Json::Object(map!["type"@ => Json::Text("string"@)]),
                            "variables"@ => Json::Object(
                                map![
                                    "type"@ => Json::Array(
                                        seq![Json::Text("object"@), Json::Text("null"@)],
                                    ),
                                    "additionalProperties"@ => Json::Bool(true),
                                ],
                            ),
                        ],
                    ),
                ],
            ),
        ],
    )
}

/// The request that starts a thread.
pub open spec fn thread_start_model(
    approval_policy: Json,
    sandbox: Seq<char>,
    workspace: Seq<char>,
) -> Json {
    request(
        "thread/start"@,
        THREAD_START_ID as int,
        Json::Object(
            map![
                "approvalPolicy"@ => approval_policy,
                "sandbox"@ => Json::Text(sandbox),
                "cwd"@ => Json::Text(workspace),
                "dynamicTools"@ => Json::Array(seq![tool_model()]),
            ],
        ),
    )
}

/// The title of a turn for an issue.
pub open spec fn turn_title(issue: IssueModel) -> Seq<char> {
    issue.identifier + ": "@ + issue.title
}

/// What is sent once the agent has answered the opening message.
pub open spec fn second_messages(
    approval_policy: Json,
    sandbox: Seq<char>,
    workspace: Seq<char>,
) -> Seq<Json> {
    seq![initialized_model(), thread_start_model(approval_policy, sandbox, workspace)]
}

/// The request that starts a turn.
pub open spec fn turn_start_model(
    thread_id: Seq<char>,
    prompt: Seq<char>,
    workspace: Seq<char>,
    title: Seq<char>,
    approval_policy: Json,
    sandbox_policy: Json,
) -> Json {
    request(
        "turn/start"@,
        TURN_START_ID as int,
        Json::Object(
            map![
                "threadId"@ => Json::Text(thread_id),
                "input"@ => Json::Array(
                    seq![
                        Json::Object(
                            map![
                                "type"@ => Json::Text("text"@),
                                "text"@ => Json::Text(prompt),
                            ],
                        ),
                    ],
                ),
                "cwd"@ => Json::Text(workspace),
                "title"@ => Json::Text(title),
                "approvalPolicy"@ => approval_policy,
                "sandboxPolicy"@ => sandbox_policy,
            ],
        ),
    )
}

fn request_value(method: &str, id: u64, params: JsonValue) -> (r: JsonValue)
    ensures
        r@ == request(method@, id as int, params@),
{
    empty_object().with("method", text_value(method)).with("id", number_value(id)).with(
        "params",
        params,
    )
}

/// The request that opens a session.
pub fn initialize_request() -> (r: JsonValue)
    ensures
        r@ == initialize_model(),
{
    let capabilities = empty_object().with("experimentalApi", bool_value(true));
    let client = empty_object().with("name", text_value("symphony-rs")).with(
        "title",
        text_value("Symphony Rust"),
    ).with("version", text_value("0.1.0"));
    let params = empty_object().with("capabilities", capabilities).with("clientInfo", client);
    request_value("initialize", INITIALIZE_ID, params)
}

/// The notice that a session is open.
pub fn initialized_notice() -> (r: JsonValue)
    ensures
        r@ == initialized_model(),
{
    empty_object().with("method", text_value("initialized")).with("params", empty_object())
}

/// The description of the tool that the agent is offered.
fn tool_value() -> (r: JsonValue)
    ensures
        r@ == tool_model(),
{
    let types = vec![text_value("object"), text_value("null")];
    assert(array_of(types@) =~= seq![Json::Text("object"@), Json::Text("null"@)]);
    let variables = empty_object().with("type", array_value(types)).with(
        "additionalProperties",
        bool_value(true),
    );
    let query = empty_object().with("type", text_value("string"));
    let properties = empty_object().with("query", query).with("variables", variables);
    let schema = empty_object().with("type", text_value("object")).with(
        "additionalProperties",
        bool_value(false),
    ).with("required", single_array(text_value("query"))).with("properties", properties);
    empty_object().with("name", text_value("linear_graphql")).with(
        "description",
        text_value(
            "Execute a raw GraphQL query or mutation against Linear using Symphony's configured auth.",
        ),
    ).with("inputSchema", schema)
}

// ---------------------------------------------------------------------------
// Sessions
// ---------------------------------------------------------------------------

/// A session with the agent: where it works, by what settings, and what came
/// before its time.
#[derive(Debug)]
pub struct AppSession {
    pub buffered_json: Vec<JsonValue>,
    pub thread_id: String,
    pub workspace: String,
    pub worker_host: Option<String>,
    pub runtime_settings: CodexRuntimeSettings,
    pub codex_app_server_pid: Option<String>,
}

/// How far the opening of a session has come: which answer is awaited.
#[derive(Debug, Clone, Copy, PartialEq, Eq, Structural)]
pub enum HandshakeStage {
    Initialize,
    ThreadStart,
}

/// What opening a session does next.
#[derive(Debug)]
pub enum HandshakeStep {
    /// Send the messages in order, and await the answer to a request.
    Send { messages: Vec<JsonValue>, awaits: u64, stage: HandshakeStage },
    /// The session is open.
    Open,
    Fail(AppServerError),
}

/// A turn of a session.
#[derive(Debug, PartialEq, Eq)]
pub struct Turn {
    pub turn_id: String,
    pub session_id: String,
}

/// The text by which a turn of a thread is known.
pub open spec fn session_id_of(thread_id: Seq<char>, turn_id: Seq<char>) -> Seq<char> {
    thread_id + "-"@ + turn_id
}

impl AppSession {
    /// A session that has not been opened.
    pub fn new(
        workspace: String,
        worker_host: Option<String>,
        runtime_settings: CodexRuntimeSettings,
        codex_app_server_pid: Option<String>,
    ) -> (r: AppSession)
        ensures
            r.buffered_json@.len() == 0,
            r.thread_id@.len() == 0,
            r.workspace == workspace,
            r.worker_host == worker_host,
            r.runtime_settings == runtime_settings,
            r.codex_app_server_pid == codex_app_server_pid,
    {
        AppSession {
            buffered_json: Vec::new(),
            thread_id: String::new(),
            workspace,
            worker_host,
            runtime_settings,
            codex_app_server_pid,
        }
    }

    /// The request that starts the thread of the session.
    pub fn thread_start_request(&self) -> (r: JsonValue)
        ensures
            r@ == thread_start_model(
                self.runtime_settings.approval_policy@,
                self.runtime_settings.thread_sandbox@,
                self.workspace@,
            ),
    {
        let params = empty_object().with(
            "approvalPolicy",
            self.runtime_settings.approval_policy.clone(),
        ).with("sandbox", text_value(self.runtime_settings.thread_sandbox.as_str())).with(
            "cwd",
            text_value(self.workspace.as_str()),
        ).with("dynamicTools", single_array(tool_value()));
        request_value("thread/start", THREAD_START_ID, params)
    }

    /// The first step of opening the session.
    pub fn initialize(&self) -> (r: HandshakeStep)
        ensures
            match r {
                HandshakeStep::Send { messages, awaits, stage } => {
                    &&& message_models(messages@) == seq![initialize_model()]
                    &&& awaits == INITIALIZE_ID
                    &&& stage == HandshakeStage::Initialize
                },
                _ => false,
            },
    {
        let messages = vec![initialize_request()];
        assert(message_models(messages@) =~= seq![initialize_model()]);
        HandshakeStep::Send {
            messages,
            awaits: INITIALIZE_ID,
            stage: HandshakeStage::Initialize,
        }
    }

    /// The step of opening the session that follows an awaited answer: after the
    /// first one the thread is started, and after the second one the session is
    /// open, with the thread that the answer tells of.
    pub fn initialize_step(
        &mut self,
        stage: HandshakeStage,
        response: Result<JsonValue, AppServerError>,
    ) -> (r: HandshakeStep)
        ensures
            match response {
                Err(error) => r == HandshakeStep::Fail(error) && *final(self) == *old(self),
                Ok(answer) => match stage {
                    HandshakeStage::Initialize => {
                        &&& *final(self) == *old(self)
                        &&& r matches HandshakeStep::Send { messages, awaits, stage }
                        &&& message_models(messages@) == second_messages(
                            old(self).runtime_settings.approval_policy@,
                            old(self).runtime_settings.thread_sandbox@,
                            old(self).workspace@,
                        )
                        &&& message_models(messages@) == seq![
                            initialized_model(),
                            thread_start_model(
                                old(self).runtime_settings.approval_policy@,
                                old(self).runtime_settings.thread_sandbox@,
                                old(self).workspace@,
                            ),
                        ]
                        &&& awaits == THREAD_START_ID
                        &&& stage == HandshakeStage::ThreadStart
                    },
                    HandshakeStage::ThreadStart => match id_in(answer@, "thread"@) {
                        Ok(thread_id) => {
                            &&& r is Open
                            &&& final(self).thread_id@ == thread_id
                            &&& *final(self) == (AppSession {
                                thread_id: final(self).thread_id,
                                ..*old(self)
                            })
                        },
                        Err(fault) => {
                            &&& *final(self) == *old(self)
                            &&& r matches HandshakeStep::Fail(error)
                            &&& error@ == fault
                        },
                    },
                },
            },
    {
        let answer = match response {
            Ok(answer) => answer,
            Err(error) => {
                return HandshakeStep::Fail(error);
            },
        };
        match stage {
            HandshakeStage::Initialize => {
                let messages = vec![initialized_notice(), self.thread_start_request()];
                assert(message_models(messages@) =~= seq![
                    initialized_model(),
                    thread_start_model(
                        self.runtime_settings.approval_policy@,
                        self.runtime_settings.thread_sandbox@,
                        self.workspace@,
                    ),
                ]);
                HandshakeStep::Send {
                    messages,
                    awaits: THREAD_START_ID,
                    stage: HandshakeStage::ThreadStart,
                }
            },
            HandshakeStage::ThreadStart => {
                match thread_id_of(&answer) {
                    Ok(thread_id) => {
                        self.thread_id = thread_id;
                        HandshakeStep::Open
                    },
                    Err(error) => HandshakeStep::Fail(error),
                }
            },
        }
    }

    /// The request that starts a turn with a prompt for an issue.
    pub fn turn_start_request(&self, prompt: &str, issue: &Issue) -> (r: JsonValue)
        ensures
            r@ == turn_start_model(
                self.thread_id@,
                prompt@,
                self.workspace@,
                turn_title(issue@),
                self.runtime_settings.approval_policy@,
                self.runtime_settings.turn_sandbox_policy@,
            ),
            r@ == turn_start_model(
                self.thread_id@,
                prompt@,
                self.workspace@,
                issue@.identifier + ": "@ + issue@.title,
                self.runtime_settings.approval_policy@,
                self.runtime_settings.turn_sandbox_policy@,
            ),
    {
        let title = issue.identifier.clone().concat(": ").concat(issue.title.as_str());
        let input = empty_object().with("type", text_value("text")).with(
            "text",
            text_value(prompt),
        );
        let params = empty_object().with("threadId", text_value(self.thread_id.as_str())).with(
            "input",
            single_array(input),
        ).with("cwd", text_value(self.workspace.as_str())).with(
            "title",
            text_value(title.as_str()),
        ).with("approvalPolicy", self.runtime_settings.approval_policy.clone()).with(
            "sandboxPolicy",
            self.runtime_settings.turn_sandbox_policy.clone(),
        );
        request_value("turn/start", TURN_START_ID, params)
    }

    /// The turn that an answer to the request for one tells of.
    pub fn start_turn(&self, response: Result<JsonValue, AppServerError>) -> (r: Result<
        Turn,
        AppServerError,
    >)
        ensures
            match response {
                Err(error) => r == Err::<Turn, AppServerError>(error),
                Ok(answer) => match r {
                    Ok(turn) => {
                        &&& id_in(answer@, "turn"@) == Ok::<Seq<char>, SessionFault>(turn.turn_id@)
                        &&& turn.session_id@ == session_id_of(self.thread_id@, turn.turn_id@)
                    },
                    Err(error) => id_in(answer@, "turn"@) == Err::<Seq<char>, SessionFault>(error@),
                },
            },
    {
        let answer = match response {
            Ok(answer) => answer,
            Err(error) => {
                return Err(error);
            },
        };
        match turn_id_of(&answer) {
            Ok(turn_id) => {
                let session_id = self.thread_id.clone().concat("-").concat(turn_id.as_str());
                Ok(Turn { turn_id, session_id })
            },
            Err(error) => Err(error),
        }
    }
}

// ---------------------------------------------------------------------------
// Updates
// ---------------------------------------------------------------------------

/// The first value of two that is there.
pub open spec fn either(a: Option<Json>, b: Option<Json>) -> Option<Json> {
    match a {
        Some(value) => Some(value),
        None => b,
    }
}

/// The report of used tokens in a message.
pub open spec fn usage_in(payload: Json) -> Option<Json> {
    let params = json_get(payload, "params"@);
    let msg = opt_json_get(params, "msg"@);
    either(
        opt_json_get(
            opt_json_get(opt_json_get(msg, "payload"@), "info"@),
            "total_token_usage"@,
        ),
        either(
            opt_json_get(opt_json_get(msg, "info"@), "total_token_usage"@),
            either(
                opt_json_get(params, "usage"@),
                either(
                    json_get(payload, "usage"@),
                    opt_json_get(json_get(payload, "tokenUsage"@), "total"@),
                ),
            ),
        ),
    )
}

fn either_value<'a>(a: Option<&'a JsonValue>, b: Option<&'a JsonValue>) -> (r: Option<
    &'a JsonValue,
>)
    ensures
        opt_json(r) == either(opt_json(a), opt_json(b)),
{
    match a {
        Some(value) => Some(value),
        None => b,
    }
}

/// The report of used tokens in a message.
pub fn extract_usage(payload: &JsonValue) -> (r: Option<JsonValue>)
    ensures
        opt_json_value(r) == usage_in(payload@),
{
    let params = payload.get("params");
    let msg = get_in(params, "msg");
    let found = either_value(
        get_in(get_in(get_in(msg, "payload"), "info"), "total_token_usage"),
        either_value(
            get_in(get_in(msg, "info"), "total_token_usage"),
            either_value(
                get_in(params, "usage"),
                either_value(
                    payload.get("usage"),
                    get_in(payload.get("tokenUsage"), "total"),
                ),
            ),
        ),
    );
    clone_in(found)
}

/// A short form of a message: its method, or else its whole text.
pub open spec fn summary_of(payload: Json) -> Seq<char> {
    match json_str(json_get(payload, "method"@)) {
        Some(method) => method,
        None => json_compact(payload),
    }
}

/// A short form of a message.
pub fn summarize_payload(payload: &JsonValue) -> (r: String)
    ensures
        r@ == summary_of(payload@),
{
    match string_in(payload.get("method")) {
        Some(method) => method,
        None => json_text(payload),
    }
}

/// Whether an update tells of an event of a turn, with a message as what it
/// carries.
pub open spec fn tells_of(
    update: AgentUpdate,
    session: AppSession,
    turn: Turn,
    event: Seq<char>,
    payload: Json,
    now: TimePoint,
) -> bool {
    &&& update.event@ == event
    &&& update.timestamp@ == now
    &&& opt_text(update.session_id) == Some(turn.session_id@)
    &&& opt_text(update.thread_id) == Some(session.thread_id@)
    &&& opt_text(update.turn_id) == Some(turn.turn_id@)
    &&& opt_text(update.codex_app_server_pid) == opt_text(session.codex_app_server_pid)
    &&& opt_text(update.worker_host) == opt_text(session.worker_host)
    &&& opt_text(update.last_message) == Some(summary_of(payload))
    &&& opt_json_value(update.usage) == usage_in(payload)
    &&& opt_json_value(update.rate_limits) == rate_limits_in(payload)
    &&& opt_json_value(update.payload) == Some(payload)
}

impl AppSession {
    /// The update that tells of an event of a turn at a point in time.
    pub fn update_at(&self, turn: &Turn, event: &str, payload: JsonValue, now: Timestamp) -> (r:
        AgentUpdate)
        ensures
            tells_of(r, *self, *turn, event@, payload@, now@),
    {
        AgentUpdate {
            event: event.to_string(),
            timestamp: now,
            session_id: Some(turn.session_id.clone()),
            thread_id: Some(self.thread_id.clone()),
            turn_id: Some(turn.turn_id.clone()),
            codex_app_server_pid: clone_opt(&self.codex_app_server_pid),
            worker_host: clone_opt(&self.worker_host),
            last_message: Some(summarize_payload(&payload)),
            usage: extract_usage(&payload),
            rate_limits: search_rate_limits(&payload),
            payload: Some(payload),
        }
    }

    /// The update that tells of an event of a turn just now.
    pub fn emit_update(&self, turn: &Turn, event: &str, payload: JsonValue) -> (r: AgentUpdate)
        ensures
            exists|now: TimePoint| #[trigger]
                tells_of(r, *self, *turn, event@, payload@, now) && valid_time(
                    now.seconds,
                    now.nanos,
                ),
    {
        self.update_at(turn, event, payload, Timestamp::now())
    }

    /// What the update on the start of a turn carries.
    pub fn started_payload(&self, turn: &Turn) -> (r: JsonValue)
        ensures
            r@ == started_model(self.thread_id@, turn.turn_id@, self.workspace@),
    {
        empty_object().with("threadId", text_value(self.thread_id.as_str())).with(
            "turnId",
            text_value(turn.turn_id.as_str()),
        ).with("workspace", text_value(self.workspace.as_str()))
    }

    /// The first update of a turn: it tells that the turn has started.
    pub fn session_started_update(&self, turn: &Turn, now: Timestamp) -> (r: AgentUpdate)
        ensures
            tells_of(
                r,
                *self,
                *turn,
                "session_started"@,
                started_model(self.thread_id@, turn.turn_id@, self.workspace@),
                now@,
            ),
    {
        self.update_at(turn, "session_started", self.started_payload(turn), now)
    }
}

/// What the update on the start of a turn carries.
pub open spec fn started_model(
    thread_id: Seq<char>,
    turn_id: Seq<char>,
    workspace: Seq<char>,
) -> Json {
    Json::Object(
        map![
            "threadId"@ => Json::Text(thread_id),
            "turnId"@ => Json::Text(turn_id),
            "workspace"@ => Json::Text(workspace),
        ],
    )
}

// ---------------------------------------------------------------------------
// Turns
// ---------------------------------------------------------------------------

/// What a message does to a turn.
#[derive(Debug)]
pub enum TurnStep {
    /// The message has no method: the turn goes on.
    Ignore,
    /// Tell of an event, and go on.
    Notify(String),
    /// Send a reply, then tell of an event, and go on.
    Reply { reply: JsonValue, told: String },
    /// Run a tool; its result is handed to `tool_reply`.
    CallTool { id: u64, name: Option<String>, arguments: JsonValue },
    /// Tell of an event; the turn is completed.
    Complete(String),
    /// Tell of an event, if there is one; the turn has failed.
    Fail { event: Option<String>, error: AppServerError },
    /// Stop the agent; the turn has failed.
    Stop(AppServerError),
}

/// What a turn waits for: the wish to cancel it, the end of its time, or a
/// message.
#[derive(Debug)]
pub enum TurnInput {
    Cancelled,
    Deadline,
    Message(JsonValue),
}

/// The model of what a turn waits for.
pub enum InputModel {
    Cancelled,
    Deadline,
    Message(Json),
}

impl View for TurnInput {
    type V = InputModel;

    open spec fn view(&self) -> InputModel {
        match *self {
            TurnInput::Cancelled => InputModel::Cancelled,
            TurnInput::Deadline => InputModel::Deadline,
            TurnInput::Message(message) => InputModel::Message(message@),
        }
    }
}

/// The model of what a message does to a turn.
pub enum TurnModel {
    Ignore,
    Notify(Seq<char>),
    Reply { reply: Json, told: Seq<char> },
    CallTool { id: u64, name: Option<Seq<char>>, arguments: Json },
    Complete(Seq<char>),
    Fail { event: Option<Seq<char>>, fault: SessionFault },
    Stop(SessionFault),
}

impl View for TurnStep {
    type V = TurnModel;

    open spec fn view(&self) -> TurnModel {
        match *self {
            TurnStep::Ignore => TurnModel::Ignore,
            TurnStep::Notify(event) => TurnModel::Notify(event@),
            TurnStep::Reply { reply, told } => TurnModel::Reply { reply: reply@, told: told@ },
            TurnStep::CallTool { id, name, arguments } => TurnModel::CallTool {
                id,
                name: opt_text(name),
                arguments: arguments@,
            },
            TurnStep::Complete(event) => TurnModel::Complete(event@),
            TurnStep::Fail { event, error } => TurnModel::Fail {
                event: opt_text(event),
                fault: error@,
            },
            TurnStep::Stop(error) => TurnModel::Stop(error@),
        }
    }
}

/// The first text among the values, without surrounding white space, if anything
/// is left of it.
pub open spec fn first_text(values: Seq<Option<Json>>) -> Option<Seq<char>>
    decreases values.len(),
{
    if values.len() == 0 {
        None
    } else {
        match json_str(values[0]) {
            Some(text) => crate::config::filled(Some(text)),
            None => first_text(values.drop_first()),
        }
    }
}

/// The tool that a call names.
pub open spec fn called_tool(params: Json) -> Option<Seq<char>> {
    first_text(
        seq![
            json_get(params, "tool"@),
            json_get(params, "name"@),
            json_get(params, "toolName"@),
            opt_json_get(json_get(params, "tool"@), "name"@),
        ],
    )
}

/// The tool that a call names.
pub fn tool_call_name(params: &JsonValue) -> (r: Option<String>)
    ensures
        opt_text(r) == called_tool(params@),
{
    let a = params.get("tool");
    let b = params.get("name");
    let c = params.get("toolName");
    let d = get_in(params.get("tool"), "name");
    proof {
        let all = seq![opt_json(a), opt_json(b), opt_json(c), opt_json(d)];
        assert(all.drop_first() =~= seq![opt_json(b), opt_json(c), opt_json(d)]);
        assert(all.drop_first().drop_first() =~= seq![opt_json(c), opt_json(d)]);
        assert(all.drop_first().drop_first().drop_first() =~= seq![opt_json(d)]);
        assert(all.drop_first().drop_first().drop_first().drop_first() =~= Seq::empty());
        reveal_with_fuel(first_text, 5);
    }
    let text = match string_in(a) {
        Some(text) => Some(text),
        None => match string_in(b) {
            Some(text) => Some(text),
            None => match string_in(c) {
                Some(text) => Some(text),
                None => string_in(d),
            },
        },
    };
    crate::config::normalize_optional_string(text)
}

/// A member of a message, or an empty object where it is missing.
pub open spec fn member_or_empty(value: Json, key: Seq<char>) -> Json {
    match json_get(value, key) {
        Some(member) => member,
        None => Json::Object(Map::empty()),
    }
}

fn member_or_object(value: &JsonValue, key: &str) -> (r: JsonValue)
    ensures
        r@ == member_or_empty(value@, key@),
{
    match value.get(key) {
        Some(member) => member.clone(),
        None => empty_object(),
    }
}

/// The arguments of a call of a tool.
pub fn tool_call_arguments(params: &JsonValue) -> (r: JsonValue)
    ensures
        r@ == member_or_empty(params@, "arguments"@),
{
    member_or_object(params, "arguments")
}

/// Whether a message asks for input from a person.
pub open spec fn asks_for_input(method: Seq<char>, payload: Json) -> bool {
    let params = json_get(payload, "params"@);
    ||| method == "turn/input_required"@
    ||| method == "turn/needs_input"@
    ||| method == "turn/request_input"@
    ||| method == "turn/provide_input"@
    ||| method == "turn/approval_required"@
    ||| json_bool(opt_json_get(params, "requiresInput"@)) == Some(true)
    ||| json_bool(opt_json_get(params, "inputRequired"@)) == Some(true)
}

/// Whether a message asks for input from a person.
pub fn needs_input(method: &str, payload: &JsonValue) -> (r: bool)
    ensures
        r == asks_for_input(method@, payload@),
{
    let params = payload.get("params");
    same_text(method, "turn/input_required") || same_text(method, "turn/needs_input") || same_text(
        method,
        "turn/request_input",
    ) || same_text(method, "turn/provide_input") || same_text(method, "turn/approval_required")
        || bool_in(get_in(params, "requiresInput")) == Some(true) || bool_in(
        get_in(params, "inputRequired"),
    ) == Some(true)
}

/// Whether a message asks for the approval of a command or of a change.
pub open spec fn asks_for_approval(method: Seq<char>) -> bool {
    ||| method == "item/commandExecution/requestApproval"@
    ||| method == "item/fileChange/requestApproval"@
    ||| method == "execCommandApproval"@
    ||| method == "applyPatchApproval"@
}

/// A reply to a request of the agent.
pub open spec fn reply_model(id: u64, result: Json) -> Json {
    Json::Object(map!["id"@ => Json::Integer(id as int), "result"@ => result])
}

/// The decision by which a request is approved.
pub open spec fn approval_model(method: Seq<char>) -> Json {
    Json::Object(
        map![
            "decision"@ => Json::Text(
                if method == "item/commandExecution/requestApproval"@ || method
                    == "item/fileChange/requestApproval"@ {
                    "acceptForSession"@
                } else {
                    "approved_for_session"@
                },
            ),
        ],
    )
}

/// What a request for approval does to a turn: without an id it is an error;
/// where the policy is `never` to ask, it is approved; and otherwise the turn
/// has failed for want of the approval.
pub open spec fn approval_step(message: Json, method: Seq<char>, policy: Json) -> TurnModel {
    match json_u64(json_get(message, "id"@)) {
        None => TurnModel::Fail {
            event: None,
            fault: SessionFault::InvalidPayload(json_compact(message)),
        },
        Some(id) => if policy == Json::Text("never"@) {
            TurnModel::Reply {
                reply: reply_model(id, approval_model(method)),
                told: "approval_auto_approved"@,
            }
        } else {
            TurnModel::Fail {
                event: Some("approval_required"@),
                fault: SessionFault::ApprovalRequired(json_compact(message)),
            }
        },
    }
}

/// What a message does to a turn.
pub open spec fn turn_model(message: Json, policy: Json) -> TurnModel {
    match json_str(json_get(message, "method"@)) {
        None => TurnModel::Ignore,
        Some(method) => if method == "turn/completed"@ {
            TurnModel::Complete("turn_completed"@)
        } else if method == "turn/failed"@ {
            TurnModel::Fail {
                event: Some("turn_failed"@),
                fault: SessionFault::TurnFailed(json_compact(message)),
            }
        } else if method == "turn/cancelled"@ {
            TurnModel::Fail {
                event: Some("turn_cancelled"@),
                fault: SessionFault::TurnCancelled(json_compact(message)),
            }
        } else if method == "item/tool/requestUserInput"@ {
            TurnModel::Fail {
                event: Some("turn_input_required"@),
                fault: SessionFault::TurnInputRequired("turn_input_required"@),
            }
        } else if method == "item/tool/call"@ {
            match json_u64(json_get(message, "id"@)) {
                None => TurnModel::Fail {
                    event: None,
                    fault: SessionFault::InvalidPayload(json_compact(message)),
                },
                Some(id) => TurnModel::CallTool {
                    id,
                    name: called_tool(member_or_empty(message, "params"@)),
                    arguments: member_or_empty(
                        member_or_empty(message, "params"@),
                        "arguments"@,
                    ),
                },
            }
        } else if asks_for_approval(method) {
            approval_step(message, method, policy)
        } else if asks_for_input(method, message) {
            TurnModel::Fail {
                event: Some("turn_input_required"@),
                fault: SessionFault::TurnInputRequired("turn_input_required"@),
            }
        } else {
            TurnModel::Notify("notification"@)
        },
    }
}

/// What a turn does next: a wish to cancel it stops the agent, the end of its time is
/// an error, and a message has the effect that `turn_model` gives.
pub open spec fn input_step(input: InputModel, policy: Json) -> TurnModel {
    match input {
        InputModel::Cancelled => TurnModel::Stop(
            SessionFault::TurnCancelled("turn_cancelled_by_reconciliation"@),
        ),
        InputModel::Deadline => TurnModel::Fail {
            event: None,
            fault: SessionFault::TurnTimeout,
        },
        InputModel::Message(message) => turn_model(message, policy),
    }
}

/// A turn that has failed with an event to tell of.
fn failed(event: &str, error: AppServerError) -> (r: TurnStep)
    ensures
        r@ == (TurnModel::Fail { event: Some(event@), fault: error@ }),
{
    TurnStep::Fail { event: Some(event.to_string()), error }
}

/// The event by which the result of a tool is told of.
pub open spec fn tool_event(result: Json) -> Seq<char> {
    if json_bool(json_get(result, "success"@)) == Some(true) {
        "tool_call_completed"@
    } else {
        "tool_call_failed"@
    }
}

/// The reply with the result of a tool, and the event that it is told of by.
pub fn tool_reply(id: u64, result: &JsonValue) -> (r: (JsonValue, String))
    ensures
        r.0@ == reply_model(id, result@),
        r.1@ == tool_event(result@),
{
    let reply = empty_object().with("id", number_value(id)).with("result", result.clone());
    let event = if bool_in(result.get("success")) == Some(true) {
        "tool_call_completed".to_string()
    } else {
        "tool_call_failed".to_string()
    };
    (reply, event)
}

impl AppSession {
    /// What a request for approval does to a turn.
    pub fn handle_approval_request(&self, message: &JsonValue, method: &str) -> (r: TurnStep)
        ensures
            r@ == approval_step(message@, method@, self.runtime_settings.approval_policy@),
    {
        let id: u64 = match u64_in(message.get("id")) {
            Some(id) => id,
            None => {
                return TurnStep::Fail { event: None, error: AppServerError::invalid(message) };
            },
        };
        if !self.runtime_settings.approval_policy.is_text("never") {
            return failed(
                "approval_required",
                AppServerError::ApprovalRequired(json_text(message)),
            );
        }
        let word = if same_text(method, "item/commandExecution/requestApproval") || same_text(
            method,
            "item/fileChange/requestApproval",
        ) {
            "acceptForSession"
        } else {
            "approved_for_session"
        };
        let decision = empty_object().with("decision", text_value(word));
        let reply = empty_object().with("id", number_value(id)).with("result", decision);
        TurnStep::Reply { reply, told: "approval_auto_approved".to_string() }
    }

    /// What a message does to a turn.
    pub fn turn_step(&self, message: &JsonValue) -> (r: TurnStep)
        ensures
            r@ == turn_model(message@, self.runtime_settings.approval_policy@),
    {
        let method = match str_in(message.get("method")) {
            Some(method) => method,
            None => {
                return TurnStep::Ignore;
            },
        };
        if same_text(method, "turn/completed") {
            TurnStep::Complete("turn_completed".to_string())
        } else if same_text(method, "turn/failed") {
            failed("turn_failed", AppServerError::TurnFailed(json_text(message)))
        } else if same_text(method, "turn/cancelled") {
            failed("turn_cancelled", AppServerError::TurnCancelled(json_text(message)))
        } else if same_text(method, "item/tool/requestUserInput") {
            failed(
                "turn_input_required",
                AppServerError::TurnInputRequired("turn_input_required".to_string()),
            )
        } else if same_text(method, "item/tool/call") {
            let id: u64 = match u64_in(message.get("id")) {
                Some(id) => id,
                None => {
                    return TurnStep::Fail { event: None, error: AppServerError::invalid(message) };
                },
            };
            let params = member_or_object(message, "params");
            TurnStep::CallTool {
                id,
                name: tool_call_name(&params),
                arguments: tool_call_arguments(&params),
            }
        } else if same_text(method, "item/commandExecution/requestApproval") || same_text(
            method,
            "item/fileChange/requestApproval",
        ) || same_text(method, "execCommandApproval") || same_text(method, "applyPatchApproval") {
            self.handle_approval_request(message, method)
        } else if needs_input(method, message) {
            failed(
                "turn_input_required",
                AppServerError::TurnInputRequired("turn_input_required".to_string()),
            )
        } else {
            TurnStep::Notify("notification".to_string())
        }
    }

    /// What a turn does next.
    pub fn run_turn(&self, input: &TurnInput) -> (r: TurnStep)
        ensures
            r@ == input_step(input@, self.runtime_settings.approval_policy@),
    {
        match input {
            TurnInput::Cancelled => TurnStep::Stop(
                AppServerError::TurnCancelled("turn_cancelled_by_reconciliation".to_string()),
            ),
            TurnInput::Deadline => TurnStep::Fail {
                event: None,
                error: AppServerError::TurnTimeout,
            },
            TurnInput::Message(message) => self.turn_step(message),
        }
    }

    /// The result of a turn that was completed.
    pub fn turn_result(&self, turn: &Turn) -> (r: TurnRunResult)
        ensures
            r == (TurnRunResult {
                session_id: turn.session_id,
                thread_id: self.thread_id,
                turn_id: turn.turn_id,
            }),
    {
        TurnRunResult {
            session_id: turn.session_id.clone(),
            thread_id: self.thread_id.clone(),
            turn_id: turn.turn_id.clone(),
        }
    }
}

// ---------------------------------------------------------------------------
// Laws
// ---------------------------------------------------------------------------

/// A directory of this host in which a session may work leads to a place below the
/// directory of all workspaces: its components are those of that directory and then
/// more, which lead down by at least one name and never out of it.
pub proof fn lemma_accepted_cwd_is_below_root(workspace: Seq<char>, root: Seq<char>)
    requires
        local_cwd_fault(workspace, root) is None,
    ensures
        ({
            let rest = components(workspace).skip(components(root).len() as int);
            &&& components(workspace) == components(root) + rest
            &&& names_below(rest) matches Some(names)
            &&& names.len() > 0
            &&& !names.contains("."@)
            &&& !names.contains(".."@)
        }),
{
    lemma_below_leads_down(workspace, root);
}

/// A turn is completed by the message that says so, and by no other.
pub proof fn lemma_completed_only_when_told(message: Json, policy: Json)
    ensures
        turn_model(message, policy) is Complete <==> json_str(json_get(message, "method"@)) == Some(
            "turn/completed"@,
        ),
{
}

/// Nothing is approved unless the policy is `never` to ask.
pub proof fn lemma_no_approval_against_policy(message: Json, policy: Json)
    requires
        policy != Json::Text("never"@),
    ensures
        !(turn_model(message, policy) is Reply),
{
}

/// A reply that is sent on a message answers the request with the id of that
/// message.
pub proof fn lemma_reply_answers_the_message(message: Json, policy: Json)
    ensures
        turn_model(message, policy) matches TurnModel::Reply { reply, told } ==> json_get(
            reply,
            "id"@,
        ) == json_get(message, "id"@),
{
    reveal_strlit("id");
    reveal_strlit("result");
    assert("id"@.len() != "result"@.len());
}

/// Whether a step ends a turn.
pub open spec fn ends_turn(step: TurnModel) -> bool {
    step is Complete || step is Fail || step is Stop
}

/// The event that a step has told of, where `result` is what a tool gave that it
/// calls for.
pub open spec fn told_event(step: TurnModel, result: Json) -> Option<Seq<char>> {
    match step {
        TurnModel::Ignore => None,
        TurnModel::Notify(event) => Some(event),
        TurnModel::Reply { reply, told } => Some(told),
        TurnModel::CallTool { id, name, arguments } => Some(tool_event(result)),
        TurnModel::Complete(event) => Some(event),
        TurnModel::Fail { event, fault } => event,
        TurnModel::Stop(_) => None,
    }
}

/// The events that a turn has told of when it has taken in the first `n` inputs: its
/// start, and then what each step has told of.
pub open spec fn turn_events(
    inputs: Seq<InputModel>,
    results: Seq<Json>,
    policy: Json,
    n: int,
) -> Seq<Seq<char>>
    decreases n,
{
    if n <= 0 {
        seq!["session_started"@]
    } else {
        let before = turn_events(inputs, results, policy, n - 1);
        match told_event(input_step(inputs[n - 1], policy), results[n - 1]) {
            Some(event) => before.push(event),
            None => before,
        }
    }
}

/// A turn first tells of its start, whatever follows.
pub proof fn lemma_turn_first_tells_of_its_start(
    inputs: Seq<InputModel>,
    results: Seq<Json>,
    policy: Json,
    n: int,
)
    ensures
        turn_events(inputs, results, policy, n).len() > 0,
        turn_events(inputs, results, policy, n)[0] == "session_started"@,
    decreases n,
{
    if n > 0 {
        lemma_turn_first_tells_of_its_start(inputs, results, policy, n - 1);
    }
}

/// The event of a completed turn is told by no other step.
proof fn lemma_only_completion_tells_of_it(input: InputModel, result: Json, policy: Json)
    ensures
        input_step(input, policy) is Complete <==> told_event(input_step(input, policy), result)
            == Some("turn_completed"@),
{
    reveal_strlit("turn_completed");
    reveal_strlit("turn_failed");
    reveal_strlit("turn_cancelled");
    reveal_strlit("turn_input_required");
    reveal_strlit("notification");
    reveal_strlit("approval_auto_approved");
    reveal_strlit("approval_required");
    reveal_strlit("tool_call_completed");
    reveal_strlit("tool_call_failed");
    assert("turn_completed"@[6] != "turn_cancelled"@[6]);
}

/// A turn that goes on has told of no completion.
pub proof fn lemma_turn_that_goes_on_is_not_completed(
    inputs: Seq<InputModel>,
    results: Seq<Json>,
    policy: Json,
    n: int,
)
    requires
        forall|i: int|
            0 <= i < n ==> !ends_turn(input_step(#[trigger] inputs[i], policy)),
    ensures
        !turn_events(inputs, results, policy, n).contains("turn_completed"@),
    decreases n,
{
    let events = turn_events(inputs, results, policy, n);
    if n <= 0 {
        reveal_strlit("session_started");
        reveal_strlit("turn_completed");
        assert("session_started"@.len() != "turn_completed"@.len());
    } else {
        let before = turn_events(inputs, results, policy, n - 1);
        lemma_turn_that_goes_on_is_not_completed(inputs, results, policy, n - 1);
        lemma_only_completion_tells_of_it(inputs[n - 1], results[n - 1], policy);
        assert(!ends_turn(input_step(inputs[n - 1], policy)));
        assert forall|j: int| 0 <= j < events.len() implies events[j] != "turn_completed"@ by {
            if j < before.len() {
                assert(before.contains(before[j]));
            }
        }
    }
}

/// What a turn tells of when it has ended: first its start; and it is completed
/// exactly if the last message says so, which is exactly if the last event is its
/// completion.
pub proof fn lemma_turn_tells_how_it_ends(
    inputs: Seq<InputModel>,
    results: Seq<Json>,
    policy: Json,
)
    requires
        inputs.len() > 0,
        forall|i: int|
            0 <= i < inputs.len() - 1 ==> !ends_turn(input_step(#[trigger] inputs[i], policy)),
        ends_turn(input_step(inputs.last(), policy)),
    ensures
        ({
            let events = turn_events(inputs, results, policy, inputs.len() as int);
            let completed = input_step(inputs.last(), policy) is Complete;
            &&& events.len() > 0
            &&& events[0] == "session_started"@
            &&& completed <==> (inputs.last() matches InputModel::Message(message) && json_str(
                json_get(message, "method"@),
            ) == Some("turn/completed"@))
            &&& completed <==> events.last() == "turn_completed"@
        }),
{
    let n = inputs.len() as int;
    let before = turn_events(inputs, results, policy, n - 1);
    lemma_turn_first_tells_of_its_start(inputs, results, policy, n);
    lemma_turn_first_tells_of_its_start(inputs, results, policy, n - 1);
    lemma_turn_that_goes_on_is_not_completed(inputs, results, policy, n - 1);
    lemma_only_completion_tells_of_it(inputs.last(), results[n - 1], policy);
    assert(before.contains(before.last()));
}

// ---------------------------------------------------------------------------
// Laws on what the agent is answered
// ---------------------------------------------------------------------------

/// The methods on which a turn acts are all different.
proof fn lemma_methods_differ()
    ensures
        "turn/completed"@ != "turn/failed"@,
        "turn/completed"@ != "turn/cancelled"@,
        "turn/completed"@ != "item/tool/requestUserInput"@,
        "turn/completed"@ != "item/tool/call"@,
        "turn/completed"@ != "item/commandExecution/requestApproval"@,
        "turn/completed"@ != "item/fileChange/requestApproval"@,
        "turn/completed"@ != "execCommandApproval"@,
        "turn/completed"@ != "applyPatchApproval"@,
        "turn/completed"@ != "turn/input_required"@,
        "turn/completed"@ != "turn/needs_input"@,
        "turn/completed"@ != "turn/request_input"@,
        "turn/completed"@ != "turn/provide_input"@,
        "turn/completed"@ != "turn/approval_required"@,
        "turn/failed"@ != "turn/cancelled"@,
        "turn/failed"@ != "item/tool/requestUserInput"@,
        "turn/failed"@ != "item/tool/call"@,
        "turn/failed"@ != "item/commandExecution/requestApproval"@,
        "turn/failed"@ != "item/fileChange/requestApproval"@,
        "turn/failed"@ != "execCommandApproval"@,
        "turn/failed"@ != "applyPatchApproval"@,
        "turn/failed"@ != "turn/input_required"@,
        "turn/failed"@ != "turn/needs_input"@,
        "turn/failed"@ != "turn/request_input"@,
        "turn/failed"@ != "turn/provide_input"@,
        "turn/failed"@ != "turn/approval_required"@,
        "turn/cancelled"@ != "item/tool/requestUserInput"@,
        "turn/cancelled"@ != "item/tool/call"@,
        "turn/cancelled"@ != "item/commandExecution/requestApproval"@,
        "turn/cancelled"@ != "item/fileChange/requestApproval"@,
        "turn/cancelled"@ != "execCommandApproval"@,
        "turn/cancelled"@ != "applyPatchApproval"@,
        "turn/cancelled"@ != "turn/input_required"@,
        "turn/cancelled"@ != "turn/needs_input"@,
        "turn/cancelled"@ != "turn/request_input"@,
        "turn/cancelled"@ != "turn/provide_input"@,
        "turn/cancelled"@ != "turn/approval_required"@,
        "item/tool/requestUserInput"@ != "item/tool/call"@,
        "item/tool/requestUserInput"@ != "item/commandExecution/requestApproval"@,
        "item/tool/requestUserInput"@ != "item/fileChange/requestApproval"@,
        "item/tool/requestUserInput"@ != "execCommandApproval"@,
        "item/tool/requestUserInput"@ != "applyPatchApproval"@,
        "item/tool/requestUserInput"@ != "turn/input_required"@,
        "item/tool/requestUserInput"@ != "turn/needs_input"@,
        "item/tool/requestUserInput"@ != "turn/request_input"@,
        "item/tool/requestUserInput"@ != "turn/provide_input"@,
        "item/tool/requestUserInput"@ != "turn/approval_required"@,
        "item/tool/call"@ != "item/commandExecution/requestApproval"@,
        "item/tool/call"@ != "item/fileChange/requestApproval"@,
        "item/tool/call"@ != "execCommandApproval"@,
        "item/tool/call"@ != "applyPatchApproval"@,
        "item/tool/call"@ != "turn/input_required"@,
        "item/tool/call"@ != "turn/needs_input"@,
        "item/tool/call"@ != "turn/request_input"@,
        "item/tool/call"@ != "turn/provide_input"@,
        "item/tool/call"@ != "turn/approval_required"@,
        "item/commandExecution/requestApproval"@ != "item/fileChange/requestApproval"@,
        "item/commandExecution/requestApproval"@ != "execCommandApproval"@,
        "item/commandExecution/requestApproval"@ != "applyPatchApproval"@,
        "item/commandExecution/requestApproval"@ != "turn/input_required"@,
        "item/commandExecution/requestApproval"@ != "turn/needs_input"@,
        "item/commandExecution/requestApproval"@ != "turn/request_input"@,
        "item/commandExecution/requestApproval"@ != "turn/provide_input"@,
        "item/commandExecution/requestApproval"@ != "turn/approval_required"@,
        "item/fileChange/requestApproval"@ != "execCommandApproval"@,
        "item/fileChange/requestApproval"@ != "applyPatchApproval"@,
        "item/fileChange/requestApproval"@ != "turn/input_required"@,
        "item/fileChange/requestApproval"@ != "turn/needs_input"@,
        "item/fileChange/requestApproval"@ != "turn/request_input"@,
        "item/fileChange/requestApproval"@ != "turn/provide_input"@,
        "item/fileChange/requestApproval"@ != "turn/approval_required"@,
        "execCommandApproval"@ != "applyPatchApproval"@,
        "execCommandApproval"@ != "turn/input_required"@,
        "execCommandApproval"@ != "turn/needs_input"@,
        "execCommandApproval"@ != "turn/request_input"@,
        "execCommandApproval"@ != "turn/provide_input"@,
        "execCommandApproval"@ != "turn/approval_required"@,
        "applyPatchApproval"@ != "turn/input_required"@,
        "applyPatchApproval"@ != "turn/needs_input"@,
        "applyPatchApproval"@ != "turn/request_input"@,
        "applyPatchApproval"@ != "turn/provide_input"@,
        "applyPatchApproval"@ != "turn/approval_required"@,
        "turn/input_required"@ != "turn/needs_input"@,
        "turn/input_required"@ != "turn/request_input"@,
        "turn/input_required"@ != "turn/provide_input"@,
        "turn/input_required"@ != "turn/approval_required"@,
        "turn/needs_input"@ != "turn/request_input"@,
        "turn/needs_input"@ != "turn/provide_input"@,
        "turn/needs_input"@ != "turn/approval_required"@,
        "turn/request_input"@ != "turn/provide_input"@,
        "turn/request_input"@ != "turn/approval_required"@,
        "turn/provide_input"@ != "turn/approval_required"@,
{
    reveal_strlit("turn/completed");
    reveal_strlit("turn/failed");
    reveal_strlit("turn/cancelled");
    reveal_strlit("item/tool/requestUserInput");
    reveal_strlit("item/tool/call");
    reveal_strlit("item/commandExecution/requestApproval");
    reveal_strlit("item/fileChange/requestApproval");
    reveal_strlit("execCommandApproval");
    reveal_strlit("applyPatchApproval");
    reveal_strlit("turn/input_required");
    reveal_strlit("turn/needs_input");
    reveal_strlit("turn/request_input");
    reveal_strlit("turn/provide_input");
    reveal_strlit("turn/approval_required");
    assert("turn/completed"@.len() != "turn/failed"@.len());
    assert("turn/completed"@[6] != "turn/cancelled"@[6]);
    assert("turn/completed"@.len() != "item/tool/requestUserInput"@.len());
    assert("turn/completed"@[0] != "item/tool/call"@[0]);
    assert("turn/completed"@.len() != "item/commandExecution/requestApproval"@.len());
    assert("turn/completed"@.len() != "item/fileChange/requestApproval"@.len());
    assert("turn/completed"@.len() != "execCommandApproval"@.len());
    assert("turn/completed"@.len() != "applyPatchApproval"@.len());
    assert("turn/completed"@.len() != "turn/input_required"@.len());
    assert("turn/completed"@.len() != "turn/needs_input"@.len());
    assert("turn/completed"@.len() != "turn/request_input"@.len());
    assert("turn/completed"@.len() != "turn/provide_input"@.len());
    assert("turn/completed"@.len() != "turn/approval_required"@.len());
    assert("turn/failed"@.len() != "turn/cancelled"@.len());
    assert("turn/failed"@.len() != "item/tool/requestUserInput"@.len());
    assert("turn/failed"@.len() != "item/tool/call"@.len());
    assert("turn/failed"@.len() != "item/commandExecution/requestApproval"@.len());
    assert("turn/failed"@.len() != "item/fileChange/requestApproval"@.len());
    assert("turn/failed"@.len() != "execCommandApproval"@.len());
    assert("turn/failed"@.len() != "applyPatchApproval"@.len());
    assert("turn/failed"@.len() != "turn/input_required"@.len());
    assert("turn/failed"@.len() != "turn/needs_input"@.len());
    assert("turn/failed"@.len() != "turn/request_input"@.len());
    assert("turn/failed"@.len() != "turn/provide_input"@.len());
    assert("turn/failed"@.len() != "turn/approval_required"@.len());
    assert("turn/cancelled"@.len() != "item/tool/requestUserInput"@.len());
    assert("turn/cancelled"@[0] != "item/tool/call"@[0]);
    assert("turn/cancelled"@.len() != "item/commandExecution/requestApproval"@.len());
    assert("turn/cancelled"@.len() != "item/fileChange/requestApproval"@.len());
    assert("turn/cancelled"@.len() != "execCommandApproval"@.len());
    assert("turn/cancelled"@.len() != "applyPatchApproval"@.len());
    assert("turn/cancelled"@.len() != "turn/input_required"@.len());
    assert("turn/cancelled"@.len() != "turn/needs_input"@.len());
    assert("turn/cancelled"@.len() != "turn/request_input"@.len());
    assert("turn/cancelled"@.len() != "turn/provide_input"@.len());
    assert("turn/cancelled"@.len() != "turn/approval_required"@.len());
    assert("item/tool/requestUserInput"@.len() != "item/tool/call"@.len());
    assert("item/tool/requestUserInput"@.len() != "item/commandExecution/requestApproval"@.len());
    assert("item/tool/requestUserInput"@.len() != "item/fileChange/requestApproval"@.len());
    assert("item/tool/requestUserInput"@.len() != "execCommandApproval"@.len());
    assert("item/tool/requestUserInput"@.len() != "applyPatchApproval"@.len());
    assert("item/tool/requestUserInput"@.len() != "turn/input_required"@.len());
    assert("item/tool/requestUserInput"@.len() != "turn/needs_input"@.len());
    assert("item/tool/requestUserInput"@.len() != "turn/request_input"@.len());
    assert("item/tool/requestUserInput"@.len() != "turn/provide_input"@.len());
    assert("item/tool/requestUserInput"@.len() != "turn/approval_required"@.len());
    assert("item/tool/call"@.len() != "item/commandExecution/requestApproval"@.len());
    assert("item/tool/call"@.len() != "item/fileChange/requestApproval"@.len());
    assert("item/tool/call"@.len() != "execCommandApproval"@.len());
    assert("item/tool/call"@.len() != "applyPatchApproval"@.len());
    assert("item/tool/call"@.len() != "turn/input_required"@.len());
    assert("item/tool/call"@.len() != "turn/needs_input"@.len());
    assert("item/tool/call"@.len() != "turn/request_input"@.len());
    assert("item/tool/call"@.len() != "turn/provide_input"@.len());
    assert("item/tool/call"@.len() != "turn/approval_required"@.len());
    assert("item/commandExecution/requestApproval"@.len() != "item/fileChange/requestApproval"@.len());
    assert("item/commandExecution/requestApproval"@.len() != "execCommandApproval"@.len());
    assert("item/commandExecution/requestApproval"@.len() != "applyPatchApproval"@.len());
    assert("item/commandExecution/requestApproval"@.len() != "turn/input_required"@.len());
    assert("item/commandExecution/requestApproval"@.len() != "turn/needs_input"@.len());
    assert("item/commandExecution/requestApproval"@.len() != "turn/request_input"@.len());
    assert("item/commandExecution/requestApproval"@.len() != "turn/provide_input"@.len());
    assert("item/commandExecution/requestApproval"@.len() != "turn/approval_required"@.len());
    assert("item/fileChange/requestApproval"@.len() != "execCommandApproval"@.len());
    assert("item/fileChange/requestApproval"@.len() != "applyPatchApproval"@.len());
    assert("item/fileChange/requestApproval"@.len() != "turn/input_required"@.len());
    assert("item/fileChange/requestApproval"@.len() != "turn/needs_input"@.len());
    assert("item/fileChange/requestApproval"@.len() != "turn/request_input"@.len());
    assert("item/fileChange/requestApproval"@.len() != "turn/provide_input"@.len());
    assert("item/fileChange/requestApproval"@.len() != "turn/approval_required"@.len());
    assert("execCommandApproval"@.len() != "applyPatchApproval"@.len());
    assert("execCommandApproval"@[0] != "turn/input_required"@[0]);
    assert("execCommandApproval"@.len() != "turn/needs_input"@.len());
    assert("execCommandApproval"@.len() != "turn/request_input"@.len());
    assert("execCommandApproval"@.len() != "turn/provide_input"@.len());
    assert("execCommandApproval"@.len() != "turn/approval_required"@.len());
    assert("applyPatchApproval"@.len() != "turn/input_required"@.len());
    assert("applyPatchApproval"@.len() != "turn/needs_input"@.len());
    assert("applyPatchApproval"@[0] != "turn/request_input"@[0]);
    assert("applyPatchApproval"@[0] != "turn/provide_input"@[0]);
    assert("applyPatchApproval"@.len() != "turn/approval_required"@.len());
    assert("turn/input_required"@.len() != "turn/needs_input"@.len());
    assert("turn/input_required"@.len() != "turn/request_input"@.len());
    assert("turn/input_required"@.len() != "turn/provide_input"@.len());
    assert("turn/input_required"@.len() != "turn/approval_required"@.len());
    assert("turn/needs_input"@.len() != "turn/request_input"@.len());
    assert("turn/needs_input"@.len() != "turn/provide_input"@.len());
    assert("turn/needs_input"@.len() != "turn/approval_required"@.len());
    assert("turn/request_input"@[5] != "turn/provide_input"@[5]);
    assert("turn/request_input"@.len() != "turn/approval_required"@.len());
    assert("turn/provide_input"@.len() != "turn/approval_required"@.len());
}

/// With the policy `never`, a request for approval is approved for the session, in the
/// words of the protocol that it belongs to, and the answer goes to the request.
pub proof fn lemma_approval_words(message: Json, method: Seq<char>, id: u64)
    requires
        json_get(message, "method"@) == Some(Json::Text(method)),
        json_get(message, "id"@) == Some(Json::Integer(id as int)),
    ensures
        method == "item/commandExecution/requestApproval"@ || method
            == "item/fileChange/requestApproval"@ ==> turn_model(message, Json::Text("never"@)) == (
        TurnModel::Reply {
            reply: Json::Object(
                map![
                    "id"@ => Json::Integer(id as int),
                    "result"@ => Json::Object(
                        map!["decision"@ => Json::Text("acceptForSession"@)],
                    ),
                ],
            ),
            told: "approval_auto_approved"@,
        }),
        method == "execCommandApproval"@ || method == "applyPatchApproval"@ ==> turn_model(
            message,
            Json::Text("never"@),
        ) == (TurnModel::Reply {
            reply: Json::Object(
                map![
                    "id"@ => Json::Integer(id as int),
                    "result"@ => Json::Object(
                        map!["decision"@ => Json::Text("approved_for_session"@)],
                    ),
                ],
            ),
            told: "approval_auto_approved"@,
        }),
{
    lemma_methods_differ();
}

/// What is answered to a request for approval does not depend on the message but for
/// its id, and is the same whether the request comes in a turn or by itself.
pub proof fn lemma_approval_decides(message: Json, method: Seq<char>, policy: Json)
    requires
        json_get(message, "method"@) == Some(Json::Text(method)),
        method == "item/commandExecution/requestApproval"@ || method
            == "item/fileChange/requestApproval"@ || method == "execCommandApproval"@ || method
            == "applyPatchApproval"@,
    ensures
        turn_model(message, policy) == approval_step(message, method, policy),
        json_u64(json_get(message, "id"@)) is None ==> turn_model(message, policy) == (
        TurnModel::Fail { event: None, fault: SessionFault::InvalidPayload(json_compact(message)) }),
        json_u64(json_get(message, "id"@)) is Some && policy != Json::Text("never"@) ==> turn_model(
            message,
            policy,
        ) == (TurnModel::Fail {
            event: Some("approval_required"@),
            fault: SessionFault::ApprovalRequired(json_compact(message)),
        }),
        json_u64(json_get(message, "id"@)) is Some && policy == Json::Text("never"@)
            ==> turn_model(message, policy) is Reply,
{
    lemma_methods_differ();
}

/// How a turn ends is told by the message that ends it, whatever the policy is.
pub proof fn lemma_ends_are_told(message: Json, policy: Json)
    ensures
        json_get(message, "method"@) == Some(Json::Text("turn/completed"@)) ==> turn_model(
            message,
            policy,
        ) == TurnModel::Complete("turn_completed"@),
        json_get(message, "method"@) == Some(Json::Text("turn/failed"@)) ==> turn_model(
            message,
            policy,
        ) == (TurnModel::Fail {
            event: Some("turn_failed"@),
            fault: SessionFault::TurnFailed(json_compact(message)),
        }),
        json_get(message, "method"@) == Some(Json::Text("turn/cancelled"@)) ==> turn_model(
            message,
            policy,
        ) == (TurnModel::Fail {
            event: Some("turn_cancelled"@),
            fault: SessionFault::TurnCancelled(json_compact(message)),
        }),
        json_get(message, "method"@) == Some(Json::Text("item/tool/requestUserInput"@))
            ==> turn_model(message, policy) == (TurnModel::Fail {
            event: Some("turn_input_required"@),
            fault: SessionFault::TurnInputRequired("turn_input_required"@),
        }),
{
    lemma_methods_differ();
}

/// A message without a method changes nothing.
pub proof fn lemma_messages_without_method(message: Json, policy: Json)
    ensures
        turn_model(message, policy) is Ignore <==> !(json_get(message, "method"@) matches Some(
            Json::Text(_),
        )),
{
    lemma_methods_differ();
}

/// A turn whose agent asks for input fails: by one of the methods for that, or by a
/// flag in the parameters of any method that has no other meaning.
pub proof fn lemma_input_is_refused(message: Json, method: Seq<char>, policy: Json)
    requires
        json_get(message, "method"@) == Some(Json::Text(method)),
    ensures
        ({
            let refused = TurnModel::Fail {
                event: Some("turn_input_required"@),
                fault: SessionFault::TurnInputRequired("turn_input_required"@),
            };
            let params = json_get(message, "params"@);
            let other = method != "turn/completed"@ && method != "turn/failed"@ && method
                != "turn/cancelled"@ && method != "item/tool/requestUserInput"@ && method
                != "item/tool/call"@ && method != "item/commandExecution/requestApproval"@ && method
                != "item/fileChange/requestApproval"@ && method != "execCommandApproval"@ && method
                != "applyPatchApproval"@;
            let asks = opt_json_get(params, "requiresInput"@) == Some(Json::Bool(true))
                || opt_json_get(params, "inputRequired"@) == Some(Json::Bool(true));
            let named = method == "turn/input_required"@ || method == "turn/needs_input"@ || method
                == "turn/request_input"@ || method == "turn/provide_input"@ || method
                == "turn/approval_required"@;
            &&& named ==> turn_model(message, policy) == refused
            &&& other && asks ==> turn_model(message, policy) == refused
            &&& other && !asks && !named ==> turn_model(message, policy) == TurnModel::Notify(
                "notification"@,
            )
        }),
{
    lemma_methods_differ();
}

/// A call of a tool is carried out with the id of the message, and with the arguments
/// in its parameters, or none; without a number as its id the message is invalid.
pub proof fn lemma_tool_calls_are_read(message: Json, policy: Json)
    requires
        json_get(message, "method"@) == Some(Json::Text("item/tool/call"@)),
    ensures
        match turn_model(message, policy) {
            TurnModel::CallTool { id, name, arguments } => {
                let params = json_get(message, "params"@);
                &&& json_get(message, "id"@) == Some(Json::Integer(id as int))
                &&& opt_json_get(params, "arguments"@) matches Some(given) ==> arguments == given
                &&& opt_json_get(params, "arguments"@) is None ==> arguments == Json::Object(
                    Map::empty(),
                )
                &&& params matches Some(given) ==> name == called_tool(given)
                &&& params is None ==> name is None
            },
            TurnModel::Fail { event, fault } => json_u64(json_get(message, "id"@)) is None
                && event is None && fault == SessionFault::InvalidPayload(json_compact(message)),
            _ => false,
        },
{
    lemma_methods_differ();
    reveal_with_fuel(first_text, 5);
    let none = Json::Object(Map::<Seq<char>, Json>::empty());
    let words = seq![
        json_get(none, "tool"@),
        json_get(none, "name"@),
        json_get(none, "toolName"@),
        opt_json_get(json_get(none, "tool"@), "name"@),
    ];
    assert(words.drop_first()[0] == words[1]);
    assert(words.drop_first().drop_first()[0] == words[2]);
    assert(words.drop_first().drop_first().drop_first()[0] == words[3]);
    assert(words.drop_first().drop_first().drop_first().drop_first().len() == 0);
}

/// The name of a tool is the first text under `tool`, `name`, `toolName`, and `name`
/// within `tool`, without outer spaces; a blank one names no tool.
pub proof fn lemma_tool_name_is_found(params: Json)
    ensures
        ({
            let tool = json_get(params, "tool"@);
            let name = json_get(params, "name"@);
            let other = json_get(params, "toolName"@);
            let inner = opt_json_get(tool, "name"@);
            let found = |text: Seq<char>|
                if is_blank(text) {
                    called_tool(params) is None
                } else {
                    called_tool(params) == Some(trim(text))
                };
            &&& tool matches Some(Json::Text(text)) ==> found(text)
            &&& !(tool matches Some(Json::Text(_))) ==> {
                &&& name matches Some(Json::Text(text)) ==> found(text)
                &&& !(name matches Some(Json::Text(_))) ==> {
                    &&& other matches Some(Json::Text(text)) ==> found(text)
                    &&& !(other matches Some(Json::Text(_))) ==> match inner {
                        Some(Json::Text(text)) => found(text),
                        _ => called_tool(params) is None,
                    }
                }
            }
        }),
{
    reveal_with_fuel(first_text, 5);
    let words = seq![
        json_get(params, "tool"@),
        json_get(params, "name"@),
        json_get(params, "toolName"@),
        opt_json_get(json_get(params, "tool"@), "name"@),
    ];
    assert(words.drop_first()[0] == words[1]);
    assert(words.drop_first().drop_first()[0] == words[2]);
    assert(words.drop_first().drop_first().drop_first()[0] == words[3]);
    assert(words.drop_first().drop_first().drop_first().drop_first().len() == 0);
}

/// The result of a tool is answered under the id of the call, and told of as completed
/// exactly if it says that it succeeded.
pub proof fn lemma_tool_result_is_answered(id: u64, result: Json)
    ensures
        json_get(reply_model(id, result), "id"@) == Some(Json::Integer(id as int)),
        json_get(reply_model(id, result), "result"@) == Some(result),
        json_get(result, "success"@) == Some(Json::Bool(true)) ==> tool_event(result)
            == "tool_call_completed"@,
        json_get(result, "success"@) != Some(Json::Bool(true)) ==> tool_event(result)
            == "tool_call_failed"@,
{
    reveal_strlit("id");
    reveal_strlit("result");
    assert("id"@.len() != "result"@.len());
}

/// A wish to cancel stops the agent, and the end of the time fails the turn; neither
/// is told of.
pub proof fn lemma_turn_is_broken_off(policy: Json)
    ensures
        input_step(InputModel::Cancelled, policy) == TurnModel::Stop(
            SessionFault::TurnCancelled("turn_cancelled_by_reconciliation"@),
        ),
        input_step(InputModel::Deadline, policy) == (TurnModel::Fail {
            event: None,
            fault: SessionFault::TurnTimeout,
        }),
        forall|message: Json|
            input_step(InputModel::Message(message), policy) == #[trigger] turn_model(
                message,
                policy,
            ),
{
}

/// An answer is the result in it, unless it holds an error, which comes first.
pub proof fn lemma_answers_are_read(message: Json, request_id: u64)
    ensures
        json_get(message, "error"@) matches Some(error) ==> answer_of(message) == Err::<
            Json,
            SessionFault,
        >(SessionFault::ResponseError(json_compact(error))),
        json_get(message, "error"@) is None ==> match json_get(message, "result"@) {
            Some(result) => answer_of(message) == Ok::<Json, SessionFault>(result),
            None => answer_of(message) == Err::<Json, SessionFault>(
                SessionFault::InvalidPayload(json_compact(message)),
            ),
        },
        answers(message, request_id) <==> json_get(message, "id"@) == Some(
            Json::Integer(request_id as int),
        ),
{
}

/// An id is read from the member of its own kind.
pub proof fn lemma_ids_are_read(response: Json, key: Seq<char>, id: Seq<char>)
    ensures
        opt_json_get(json_get(response, key), "id"@) == Some(Json::Text(id)) <==> id_in(
            response,
            key,
        ) == Ok::<Seq<char>, SessionFault>(id),
        id_in(response, key) matches Err(fault) ==> fault == SessionFault::InvalidPayload(
            json_compact(response),
        ),
{
}

// ---------------------------------------------------------------------------
// Laws on what is sent and told
// ---------------------------------------------------------------------------

/// A session is opened under the first id, for a client that takes part in the
/// experimental interface; the notice that follows has no id.
pub proof fn lemma_opening_messages()
    ensures
        json_get(initialize_model(), "method"@) == Some(Json::Text("initialize"@)),
        json_get(initialize_model(), "id"@) == Some(Json::Integer(1)),
        opt_json_get(
            opt_json_get(json_get(initialize_model(), "params"@), "capabilities"@),
            "experimentalApi"@,
        ) == Some(Json::Bool(true)),
        opt_json_get(
            opt_json_get(json_get(initialize_model(), "params"@), "clientInfo"@),
            "name"@,
        ) == Some(Json::Text("symphony-rs"@)),
        opt_json_get(
            opt_json_get(json_get(initialize_model(), "params"@), "clientInfo"@),
            "title"@,
        ) == Some(Json::Text("Symphony Rust"@)),
        opt_json_get(
            opt_json_get(json_get(initialize_model(), "params"@), "clientInfo"@),
            "version"@,
        ) == Some(Json::Text("0.1.0"@)),
        json_get(initialized_model(), "method"@) == Some(Json::Text("initialized"@)),
        json_get(initialized_model(), "id"@) is None,
{
    reveal_strlit("method");
    reveal_strlit("id");
    reveal_strlit("params");
    assert("method"@.len() != "id"@.len());
    assert("method"@[0] != "params"@[0]);
    assert("id"@.len() != "params"@.len());
    reveal_strlit("capabilities");
    reveal_strlit("clientInfo");
    assert("capabilities"@.len() != "clientInfo"@.len());
    reveal_strlit("name");
    reveal_strlit("title");
    reveal_strlit("version");
    assert("name"@.len() != "title"@.len());
    assert("name"@.len() != "version"@.len());
    assert("title"@.len() != "version"@.len());
}

/// A thread is started under the second id with the approval policy, the sandbox and
/// the workspace each under its own name, and with the one tool that there is.
pub proof fn lemma_thread_start_members(
    approval_policy: Json,
    sandbox: Seq<char>,
    workspace: Seq<char>,
)
    ensures
        ({
            let message = thread_start_model(approval_policy, sandbox, workspace);
            let params = json_get(message, "params"@);
            &&& json_get(message, "method"@) == Some(Json::Text("thread/start"@))
            &&& json_get(message, "id"@) == Some(Json::Integer(2))
            &&& opt_json_get(params, "approvalPolicy"@) == Some(approval_policy)
            &&& opt_json_get(params, "sandbox"@) == Some(Json::Text(sandbox))
            &&& opt_json_get(params, "cwd"@) == Some(Json::Text(workspace))
            &&& opt_json_get(params, "dynamicTools"@) matches Some(Json::Array(tools))
            &&& tools.len() == 1
            &&& json_get(tools[0], "name"@) == Some(Json::Text("linear_graphql"@))
        }),
{
    reveal_strlit("method");
    reveal_strlit("id");
    reveal_strlit("params");
    assert("method"@.len() != "id"@.len());
    assert("method"@[0] != "params"@[0]);
    assert("id"@.len() != "params"@.len());
    reveal_strlit("approvalPolicy");
    reveal_strlit("sandbox");
    reveal_strlit("cwd");
    reveal_strlit("dynamicTools");
    assert("approvalPolicy"@.len() != "sandbox"@.len());
    assert("approvalPolicy"@.len() != "cwd"@.len());
    assert("approvalPolicy"@.len() != "dynamicTools"@.len());
    assert("sandbox"@.len() != "cwd"@.len());
    assert("sandbox"@.len() != "dynamicTools"@.len());
    assert("cwd"@.len() != "dynamicTools"@.len());
    reveal_strlit("name");
    reveal_strlit("description");
    reveal_strlit("inputSchema");
    assert("name"@.len() != "description"@.len());
    assert("name"@.len() != "inputSchema"@.len());
    assert("description"@[0] != "inputSchema"@[0]);
}

/// A turn is started under the third id with the prompt as its only input, in its
/// thread, in the workspace, with the title and the two policies each under its own
/// name.
pub proof fn lemma_turn_start_members(
    thread_id: Seq<char>,
    prompt: Seq<char>,
    workspace: Seq<char>,
    title: Seq<char>,
    approval_policy: Json,
    sandbox_policy: Json,
)
    ensures
        ({
            let message = turn_start_model(
                thread_id,
                prompt,
                workspace,
                title,
                approval_policy,
                sandbox_policy,
            );
            let params = json_get(message, "params"@);
            &&& json_get(message, "method"@) == Some(Json::Text("turn/start"@))
            &&& json_get(message, "id"@) == Some(Json::Integer(3))
            &&& opt_json_get(params, "threadId"@) == Some(Json::Text(thread_id))
            &&& opt_json_get(params, "cwd"@) == Some(Json::Text(workspace))
            &&& opt_json_get(params, "title"@) == Some(Json::Text(title))
            &&& opt_json_get(params, "approvalPolicy"@) == Some(approval_policy)
            &&& opt_json_get(params, "sandboxPolicy"@) == Some(sandbox_policy)
            &&& opt_json_get(params, "input"@) matches Some(Json::Array(items))
            &&& items.len() == 1
            &&& json_get(items[0], "type"@) == Some(Json::Text("text"@))
            &&& json_get(items[0], "text"@) == Some(Json::Text(prompt))
        }),
{
    reveal_strlit("method");
    reveal_strlit("id");
    reveal_strlit("params");
    assert("method"@.len() != "id"@.len());
    assert("method"@[0] != "params"@[0]);
    assert("id"@.len() != "params"@.len());
    reveal_strlit("threadId");
    reveal_strlit("input");
    reveal_strlit("cwd");
    reveal_strlit("title");
    reveal_strlit("approvalPolicy");
    reveal_strlit("sandboxPolicy");
    assert("threadId"@.len() != "input"@.len());
    assert("threadId"@.len() != "cwd"@.len());
    assert("threadId"@.len() != "title"@.len());
    assert("threadId"@.len() != "approvalPolicy"@.len());
    assert("threadId"@.len() != "sandboxPolicy"@.len());
    assert("input"@.len() != "cwd"@.len());
    assert("input"@[0] != "title"@[0]);
    assert("input"@.len() != "approvalPolicy"@.len());
    assert("input"@.len() != "sandboxPolicy"@.len());
    assert("cwd"@.len() != "title"@.len());
    assert("cwd"@.len() != "approvalPolicy"@.len());
    assert("cwd"@.len() != "sandboxPolicy"@.len());
    assert("title"@.len() != "approvalPolicy"@.len());
    assert("title"@.len() != "sandboxPolicy"@.len());
    assert("approvalPolicy"@.len() != "sandboxPolicy"@.len());
    reveal_strlit("type");
    reveal_strlit("text");
    assert("type"@[1] != "text"@[1]);
}

/// The id of a session is that of its thread, a hyphen, and that of its turn.
pub proof fn lemma_session_id_parts(thread_id: Seq<char>, turn_id: Seq<char>)
    ensures
        ({
            let id = session_id_of(thread_id, turn_id);
            let k = thread_id.len() as int;
            &&& id.len() == k + 1 + turn_id.len()
            &&& id.take(k) == thread_id
            &&& id[k] == '-'
            &&& id.skip(k + 1) == turn_id
        }),
{
    reveal_strlit("-");
    let id = session_id_of(thread_id, turn_id);
    let k = thread_id.len() as int;
    assert(id.take(k) =~= thread_id);
    assert(id.skip(k + 1) =~= turn_id);
}

/// An update carries its event, its time, the ids of its session, thread and turn, the
/// process and the host of its session, and what it was told of.
pub proof fn lemma_update_carries_its_turn(
    update: AgentUpdate,
    session: AppSession,
    turn: Turn,
    event: Seq<char>,
    payload: Json,
    now: TimePoint,
)
    requires
        tells_of(update, session, turn, event, payload, now),
    ensures
        update.event@ == event,
        update.timestamp@ == now,
        update.session_id matches Some(id) && id@ == turn.session_id@,
        update.thread_id matches Some(id) && id@ == session.thread_id@,
        update.turn_id matches Some(id) && id@ == turn.turn_id@,
        update.codex_app_server_pid is Some <==> session.codex_app_server_pid is Some,
        session.codex_app_server_pid matches Some(pid) ==> update.codex_app_server_pid->0@ == pid@,
        update.worker_host is Some <==> session.worker_host is Some,
        session.worker_host matches Some(host) ==> update.worker_host->0@ == host@,
        update.payload matches Some(value) && value@ == payload,
        update.last_message is Some,
        match json_get(payload, "method"@) {
            Some(Json::Text(method)) => update.last_message->0@ == method,
            _ => update.last_message->0@ == json_compact(payload),
        },
{
}

/// What tells of the start of a turn names its thread, its turn and its workspace.
pub proof fn lemma_start_names_its_turn(
    thread_id: Seq<char>,
    turn_id: Seq<char>,
    workspace: Seq<char>,
)
    ensures
        json_get(started_model(thread_id, turn_id, workspace), "threadId"@) == Some(
            Json::Text(thread_id),
        ),
        json_get(started_model(thread_id, turn_id, workspace), "turnId"@) == Some(
            Json::Text(turn_id),
        ),
        json_get(started_model(thread_id, turn_id, workspace), "workspace"@) == Some(
            Json::Text(workspace),
        ),
{
    reveal_strlit("threadId");
    reveal_strlit("turnId");
    reveal_strlit("workspace");
    assert("threadId"@.len() != "turnId"@.len());
    assert("threadId"@.len() != "workspace"@.len());
    assert("turnId"@.len() != "workspace"@.len());
}

/// Where the usage of tokens is looked for, the first place counts in which there is
/// something: in the message of an event, with or without a payload round it, in the
/// parameters, and in the notice itself.
pub proof fn lemma_usage_is_found(payload: Json)
    ensures
        ({
            let params = json_get(payload, "params"@);
            let msg = opt_json_get(params, "msg"@);
            let wrapped = opt_json_get(
                opt_json_get(opt_json_get(msg, "payload"@), "info"@),
                "total_token_usage"@,
            );
            let plain = opt_json_get(opt_json_get(msg, "info"@), "total_token_usage"@);
            let given = opt_json_get(params, "usage"@);
            let own = json_get(payload, "usage"@);
            let total = opt_json_get(json_get(payload, "tokenUsage"@), "total"@);
            &&& wrapped is Some ==> usage_in(payload) == wrapped
            &&& wrapped is None && plain is Some ==> usage_in(payload) == plain
            &&& wrapped is None && plain is None && given is Some ==> usage_in(payload) == given
            &&& wrapped is None && plain is None && given is None && own is Some ==> usage_in(
                payload,
            ) == own
            &&& wrapped is None && plain is None && given is None && own is None ==> usage_in(
                payload,
            ) == total
        }),
{
}

/// The message of an error is the text that it holds; the errors without one have each
/// its own word.
pub proof fn lemma_session_messages(text: Seq<char>, status: i32)
    ensures
        session_message(SessionFault::Io(text)) == text,
        session_message(SessionFault::InvalidWorkspaceCwd(text)) == text,
        session_message(SessionFault::ResponseError(text)) == text,
        session_message(SessionFault::TurnFailed(text)) == text,
        session_message(SessionFault::TurnCancelled(text)) == text,
        session_message(SessionFault::ApprovalRequired(text)) == text,
        session_message(SessionFault::TurnInputRequired(text)) == text,
        session_message(SessionFault::InvalidPayload(text)) == text,
        session_message(SessionFault::ResponseTimeout) == "response_timeout"@,
        session_message(SessionFault::TurnTimeout) == "turn_timeout"@,
        session_message(SessionFault::PortExit(status)) == "port_exit: "@
            + crate::text::signed_decimal(status as int),
{
}

/// A session can work in a directory of a remote host exactly if its path is not blank
/// and holds no character that ends a line.
pub proof fn lemma_remote_cwd_decides(workspace: Seq<char>, host: Seq<char>)
    ensures
        remote_cwd_fault(workspace, host) is None <==> trim(workspace).len() > 0 && forall|i: int|
            0 <= i < workspace.len() ==> #[trigger] workspace[i] != '\n' && workspace[i] != '\r'
                && workspace[i] != '\0',
        trim(workspace).len() == 0 ==> remote_cwd_fault(workspace, host) == Some(
            SessionFault::InvalidWorkspaceCwd(
                "invalid_workspace_cwd: empty_remote_workspace "@ + host,
            ),
        ),
        trim(workspace).len() > 0 && has_line_break(workspace) ==> remote_cwd_fault(workspace, host)
            == Some(
            SessionFault::InvalidWorkspaceCwd(
                "invalid_workspace_cwd: invalid_remote_workspace "@ + host + " "@ + workspace,
            ),
        ),
{
    if has_line_break(workspace) {
        let c = if workspace.contains('\n') {
            '\n'
        } else if workspace.contains('\r') {
            '\r'
        } else {
            '\0'
        };
        let i = choose|i: int| 0 <= i < workspace.len() && workspace[i] == c;
        assert(workspace[i] == c);
    }
}

/// A directory of this host is accepted for a session exactly as it is as a workspace:
/// it is refused where it is the directory of all workspaces, or lies outside it.
pub proof fn lemma_local_cwd_decides(workspace: Seq<char>, root: Seq<char>)
    ensures
        local_cwd_fault(workspace, root) is None <==> components(workspace) != components(root)
            && lies_below(workspace, root),
        components(workspace) == components(root) ==> local_cwd_fault(workspace, root) == Some(
            SessionFault::InvalidWorkspaceCwd(
                "invalid_workspace_cwd: workspace_root "@ + workspace,
            ),
        ),
        components(workspace) != components(root) && !lies_below(workspace, root)
            ==> local_cwd_fault(workspace, root) == Some(
            SessionFault::InvalidWorkspaceCwd(
                "invalid_workspace_cwd: outside_workspace_root "@ + workspace + " "@ + root,
            ),
        ),
{
}

/// Only a line of the agent that holds JSON is a message; its errors and other lines
/// are waited over. A process that has ended ends the session with its status, -1
/// where it has none.
pub proof fn lemma_streams_are_read(event: StreamEvent, text: String, code: i32)
    ensures
        stream_model(StreamEvent::Stderr(text)) is Wait,
        stream_model(StreamEvent::Idle(Ok(None))) is Wait,
        stream_model(StreamEvent::Idle(Ok(Some(Some(code))))) == StreamModel::Fail(
            SessionFault::PortExit(code),
        ),
        stream_model(StreamEvent::Idle(Ok(Some(None)))) == StreamModel::Fail(
            SessionFault::PortExit(-1i32),
        ),
        trim(text@).len() == 0 ==> stream_model(StreamEvent::Stdout(text)) is Wait,
        trim(text@).len() > 0 ==> match json_parsed(trim(text@)) {
            Some(message) => stream_model(StreamEvent::Stdout(text)) == StreamModel::Message(
                message,
            ),
            None => stream_model(StreamEvent::Stdout(text)) is Wait,
        },
        stream_model(event) is Message ==> event is Stdout,
        event is Disconnected ==> stream_model(event) == StreamModel::Fail(
            SessionFault::Io("codex_stream_disconnected"@),
        ),
        stream_model(StreamEvent::Idle(Err(text))) == StreamModel::Fail(
            SessionFault::Io("codex_wait_failed: "@ + text@),
        ),
{
    reveal_strlit("codex_wait_failed");
    reveal_strlit(": ");
    reveal_strlit("codex_wait_failed: ");
    assert("codex_wait_failed: "@ =~= "codex_wait_failed"@ + ": "@);
}

/// On a remote host the agent is started inside its workspace, by the command that is
/// set.
pub proof fn lemma_agent_is_started_in_its_workspace(workspace: Seq<char>, command: Seq<char>)
    ensures
        ("cd "@ + escaped(workspace)).is_prefix_of(remote_start_text(workspace, command)),
        (" && exec "@ + command).is_suffix_of(remote_start_text(workspace, command)),
        remote_start_text(workspace, command).len() == 3 + escaped(workspace).len() + 9
            + command.len(),
{
    let text = remote_start_text(workspace, command);
    let front = "cd "@ + escaped(workspace);
    let behind = " && exec "@ + command;
    reveal_strlit("cd ");
    reveal_strlit(" && exec ");
    assert(text =~= front + behind);
    assert(text.take(front.len() as int) =~= front);
    assert(text.skip(text.len() - behind.len()) =~= behind);
}

/// The title of a turn is the identifier of its issue and then its title.
pub proof fn lemma_turns_are_titled_by_their_issue(issue: IssueModel)
    ensures
        (issue.identifier + ": "@).is_prefix_of(turn_title(issue)),
        turn_title(issue).skip(issue.identifier.len() as int + 2) == issue.title,
{
    let front = issue.identifier + ": "@;
    reveal_strlit(": ");
    assert(turn_title(issue).take(front.len() as int) =~= front);
    assert(turn_title(issue).skip(issue.identifier.len() as int + 2) =~= issue.title);
}

/// Once the agent has answered, it is told that it is ready, which asks for no answer,
/// and then asked for a thread, under the id that is awaited next.
pub proof fn lemma_order_of_the_opening(
    approval_policy: Json,
    sandbox: Seq<char>,
    workspace: Seq<char>,
)
    ensures
        ({
            let messages = second_messages(approval_policy, sandbox, workspace);
            &&& messages.len() == 2
            &&& json_get(messages[0], "method"@) == Some(Json::Text("initialized"@))
            &&& json_get(messages[0], "id"@) is None
            &&& json_get(messages[1], "method"@) == Some(Json::Text("thread/start"@))
            &&& json_get(messages[1], "id"@) == Some(Json::Integer(THREAD_START_ID as int))
            &&& opt_json_get(json_get(messages[1], "params"@), "cwd"@) == Some(
                Json::Text(workspace),
            )
        }),
{
    lemma_opening_messages();
    lemma_thread_start_members(approval_policy, sandbox, workspace);
}

/// The tool that the agent is offered takes an object with a query, which is a text and
/// must be there, and with variables, which are an object with any members, or null;
/// and nothing else.
pub proof fn lemma_tool_is_described()
    ensures
        ({
            let schema = json_get(tool_model(), "inputSchema"@);
            let members = opt_json_get(schema, "properties"@);
            let variables = opt_json_get(members, "variables"@);
            &&& json_get(tool_model(), "name"@) == Some(Json::Text("linear_graphql"@))
            &&& json_get(tool_model(), "description"@) == Some(
                Json::Text(
                    "Execute a raw GraphQL query or mutation against Linear using Symphony's configured auth."@,
                ),
            )
            &&& opt_json_get(schema, "type"@) == Some(Json::Text("object"@))
            &&& opt_json_get(schema, "additionalProperties"@) == Some(Json::Bool(false))
            &&& opt_json_get(schema, "required"@) == Some(
                Json::Array(seq![Json::Text("query"@)]),
            )
            &&& opt_json_get(opt_json_get(members, "query"@), "type"@) == Some(
                Json::Text("string"@),
            )
            &&& opt_json_get(variables, "type"@) == Some(
                Json::Array(seq![Json::Text("object"@), Json::Text("null"@)]),
            )
            &&& opt_json_get(variables, "additionalProperties"@) == Some(Json::Bool(true))
        }),
{
    reveal_strlit("name");
    reveal_strlit("description");
    reveal_strlit("inputSchema");
    assert("name"@.len() != "description"@.len());
    assert("name"@.len() != "inputSchema"@.len());
    assert("description"@[0] != "inputSchema"@[0]);
    reveal_strlit("type");
    reveal_strlit("additionalProperties");
    reveal_strlit("required");
    reveal_strlit("properties");
    assert("type"@.len() != "additionalProperties"@.len());
    assert("type"@.len() != "required"@.len());
    assert("type"@.len() != "properties"@.len());
    assert("additionalProperties"@.len() != "required"@.len());
    assert("additionalProperties"@.len() != "properties"@.len());
    assert("required"@.len() != "properties"@.len());
    reveal_strlit("query");
    reveal_strlit("variables");
    assert("query"@.len() != "variables"@.len());
}

} // verus!
