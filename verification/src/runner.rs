//! One attempt at an issue: a workspace, its hooks, and turn after turn with the
//! agent; and the tool that the agent is offered.

use crate::codex::{session_message, AppServerError, SessionFault, Turn};
use crate::config::{ServiceConfig, ServiceModel};
use crate::domain::{normal_state, normal_states, Issue, IssueModel, WorkflowDefinition};
use crate::json::{
    bool_value, empty_object, json_array, json_compact, json_get, json_pretty, json_pretty_text,
    json_str, lemma_json_of, opt_json_get, pretty_or_compact, single_array, str_in, text_value,
    Json, JsonValue,
};
use crate::linear::opt_issue;
use crate::prompt::{fault_message, template_text, LiquidLikePromptRenderer, PromptRenderer};
use crate::text::{
    ascii_lower, blank, decimal, decimal_text, is_blank, opt_str_text, opt_text, same_text, trim,
    trimmed,
};
use crate::tracker::TrackerError;
use crate::workspace::{WorkspaceAssignment, WorkspaceError};
use vstd::prelude::*;
use vstd::string::*;

verus! {

// ---------------------------------------------------------------------------
// Requests and results
// ---------------------------------------------------------------------------

/// What an attempt needs to know.
#[derive(Debug)]
pub struct RunRequest {
    pub issue: Issue,
    pub attempt: Option<u32>,
    pub worker_host: Option<String>,
    pub config: ServiceConfig,
    pub workflow: WorkflowDefinition,
}

/// How an attempt ended.
#[derive(Debug, PartialEq, Eq)]
pub enum RunnerExitStatus {
    Completed,
    Cancelled(String),
    Failed(String),
}

/// The model of how an attempt ended.
pub enum ExitModel {
    Completed,
    Cancelled(Seq<char>),
    Failed(Seq<char>),
}

impl View for RunnerExitStatus {
    type V = ExitModel;

    open spec fn view(&self) -> ExitModel {
        match *self {
            RunnerExitStatus::Completed => ExitModel::Completed,
            RunnerExitStatus::Cancelled(message) => ExitModel::Cancelled(message@),
            RunnerExitStatus::Failed(message) => ExitModel::Failed(message@),
        }
    }
}

impl Clone for RunnerExitStatus {
    fn clone(&self) -> (r: RunnerExitStatus)
        ensures
            r == *self,
    {
        match self {
            RunnerExitStatus::Completed => RunnerExitStatus::Completed,
            RunnerExitStatus::Cancelled(message) => RunnerExitStatus::Cancelled(message.clone()),
            RunnerExitStatus::Failed(message) => RunnerExitStatus::Failed(message.clone()),
        }
    }
}

/// Where an attempt works.
#[derive(Debug)]
pub struct WorkerRuntimeInfo {
    pub worker_host: Option<String>,
    pub workspace_path: String,
}

impl Clone for WorkerRuntimeInfo {
    fn clone(&self) -> (r: WorkerRuntimeInfo)
        ensures
            r == *self,
    {
        WorkerRuntimeInfo {
            worker_host: crate::text::clone_opt(&self.worker_host),
            workspace_path: self.workspace_path.clone(),
        }
    }
}

/// Why an attempt could not go on.
#[derive(Debug, PartialEq, Eq)]
pub struct RunnerError {
    message: String,
}

impl View for RunnerError {
    type V = Seq<char>;

    closed spec fn view(&self) -> Seq<char> {
        self.message@
    }
}

impl RunnerError {
    /// The error with a message.
    pub fn new(message: &str) -> (r: RunnerError)
        ensures
            r@ == message@,
    {
        RunnerError { message: message.to_string() }
    }

    /// The message of the error.
    pub fn message(&self) -> (r: String)
        ensures
            r@ == self@,
    {
        self.message.clone()
    }
}

// ---------------------------------------------------------------------------
// The attempt
// ---------------------------------------------------------------------------

/// What an attempt has come to.
#[derive(Debug)]
pub enum AttemptEvent {
    /// The workspace is ready, or could not be made.
    Workspace(Result<WorkspaceAssignment, WorkspaceError>),
    /// The hook before the run has been run.
    BeforeRunHook(Result<(), WorkspaceError>),
    /// The turns have come to an end.
    Turns(RunnerExitStatus),
}

/// What an attempt does next.
#[derive(Debug)]
pub enum AttemptStep {
    /// Tell where the attempt works, and run the hook before the run.
    Announce(WorkerRuntimeInfo),
    /// Run turns with the agent.
    RunTurns,
    /// Run the hook behind the run, and end.
    Finish(RunnerExitStatus),
    /// End, without any hook.
    Exit(RunnerExitStatus),
}

/// The model of what an attempt does next.
pub enum AttemptModel {
    Announce { worker_host: Option<Seq<char>>, workspace_path: Seq<char> },
    RunTurns,
    Finish(ExitModel),
    Exit(ExitModel),
}

impl View for AttemptStep {
    type V = AttemptModel;

    open spec fn view(&self) -> AttemptModel {
        match *self {
            AttemptStep::Announce(info) => AttemptModel::Announce {
                worker_host: opt_text(info.worker_host),
                workspace_path: info.workspace_path@,
            },
            AttemptStep::RunTurns => AttemptModel::RunTurns,
            AttemptStep::Finish(status) => AttemptModel::Finish(status@),
            AttemptStep::Exit(status) => AttemptModel::Exit(status@),
        }
    }
}

/// What an attempt does next: without a workspace it ends; with one it tells of it;
/// a hook before the run that fails, and the end of the turns, lead to the hook behind
/// the run; and a hook that succeeds leads to the turns.
pub open spec fn attempt_model(worker_host: Option<Seq<char>>, event: AttemptEvent) -> AttemptModel {
    match event {
        AttemptEvent::Workspace(Err(error)) => AttemptModel::Exit(ExitModel::Failed(error@)),
        AttemptEvent::Workspace(Ok(assignment)) => AttemptModel::Announce {
            worker_host,
            workspace_path: assignment.path@,
        },
        AttemptEvent::BeforeRunHook(Err(error)) => AttemptModel::Finish(ExitModel::Failed(error@)),
        AttemptEvent::BeforeRunHook(Ok(_)) => AttemptModel::RunTurns,
        AttemptEvent::Turns(status) => AttemptModel::Finish(status@),
    }
}

/// The steps of an attempt: without a workspace it ends at once; with one it is
/// announced and the hook before the run is run; whatever comes after that, the
/// hook behind the run is run before the end.
pub fn run_attempt(request: &RunRequest, event: AttemptEvent) -> (r: AttemptStep)
    ensures
        r@ == attempt_model(opt_text(request.worker_host), event),
        match event {
            AttemptEvent::Workspace(Err(error)) => r matches AttemptStep::Exit(status) && status@
                == ExitModel::Failed(error@),
            AttemptEvent::Workspace(Ok(assignment)) => r == AttemptStep::Announce(
                WorkerRuntimeInfo {
                    worker_host: request.worker_host,
                    workspace_path: assignment.path,
                },
            ),
            AttemptEvent::BeforeRunHook(Err(error)) => r matches AttemptStep::Finish(status)
                && status@ == ExitModel::Failed(error@),
            AttemptEvent::BeforeRunHook(Ok(_)) => r is RunTurns,
            AttemptEvent::Turns(status) => r == AttemptStep::Finish(status),
        },
{
    match event {
        AttemptEvent::Workspace(Err(error)) => AttemptStep::Exit(
            RunnerExitStatus::Failed(error.message()),
        ),
        AttemptEvent::Workspace(Ok(assignment)) => AttemptStep::Announce(
            WorkerRuntimeInfo {
                worker_host: crate::text::clone_opt(&request.worker_host),
                workspace_path: assignment.path,
            },
        ),
        AttemptEvent::BeforeRunHook(Err(error)) => AttemptStep::Finish(
            RunnerExitStatus::Failed(error.message()),
        ),
        AttemptEvent::BeforeRunHook(Ok(_)) => AttemptStep::RunTurns,
        AttemptEvent::Turns(status) => AttemptStep::Finish(status),
    }
}

// ---------------------------------------------------------------------------
// Turn after turn
// ---------------------------------------------------------------------------

/// The prompt of a turn behind the first one.
pub open spec fn continuation_text(turn_number: u32, max_turns: u32) -> Seq<char> {
    "Continuation guidance:\n\n- The previous Codex turn completed normally, but the issue is still active.\n- This is continuation turn #"@
        + decimal(turn_number as nat) + " of "@ + decimal(max_turns as nat)
        + " for the current agent run.\n- Resume from the current workspace state instead of restarting.\n- The original task instructions and prior turn context are already in the thread.\n- Focus on the remaining ticket work and do not stop while the issue remains active unless blocked."@
}

/// The prompt of a turn behind the first one.
pub fn continuation_prompt(turn_number: u32, max_turns: u32) -> (r: String)
    ensures
        r@ == continuation_text(turn_number, max_turns),
{
    "Continuation guidance:\n\n- The previous Codex turn completed normally, but the issue is still active.\n- This is continuation turn #".to_string()
        .concat(decimal_text(turn_number as u64).as_str()).concat(" of ").concat(
        decimal_text(max_turns as u64).as_str(),
    ).concat(
        " for the current agent run.\n- Resume from the current workspace state instead of restarting.\n- The original task instructions and prior turn context are already in the thread.\n- Focus on the remaining ticket work and do not stop while the issue remains active unless blocked.",
    )
}

/// Whether issues in a state are worked on.
pub open spec fn is_active_state(config: ServiceModel, state: Seq<char>) -> bool {
    normal_states(config.tracker.active_states).contains(normal_state(state))
}

/// Whether issues in a state are worked on.
pub fn active_issue_state(config: &ServiceConfig, state_name: &str) -> (r: bool)
    ensures
        r == is_active_state(config@, state_name@),
{
    config.normalized_active_states().contains(
        crate::domain::normalize_state(state_name).as_str(),
    )
}

/// The issue that an attempt goes on with, if it does, by what the tracker now says.
pub open spec fn issue_to_go_on_with(config: ServiceModel, issues: Seq<Issue>) -> Option<
    IssueModel,
> {
    if issues.len() > 0 && is_active_state(config, issues[0]@.state) {
        Some(issues[0]@)
    } else {
        None
    }
}

/// The issue with which work goes on, by what the tracker says of it: the first
/// one that it names, if that is still worked on.
pub fn continue_with_issue(
    config: &ServiceConfig,
    refreshed: Result<Vec<Issue>, TrackerError>,
) -> (r: Result<Option<Issue>, RunnerError>)
    ensures
        r is Err <==> refreshed is Err,
        (r, refreshed) matches (Ok(found), Ok(issues)) ==> opt_issue(found) == issue_to_go_on_with(
            config@,
            issues@,
        ),
        match refreshed {
            Err(error) => r matches Err(failure) && failure@ == "issue_state_refresh_failed: "@
                + error@,
            Ok(issues) => if issues@.len() > 0 && is_active_state(config@, issues@[0]@.state) {
                r == Ok::<Option<Issue>, RunnerError>(Some(issues@[0]))
            } else {
                r == Ok::<Option<Issue>, RunnerError>(None)
            },
        },
{
    let mut issues = match refreshed {
        Ok(issues) => issues,
        Err(error) => {
            let message = "issue_state_refresh_failed: ".to_string().concat(
                error.message().as_str(),
            );
            return Err(RunnerError::new(message.as_str()));
        },
    };
    if issues.len() == 0 {
        return Ok(None);
    }
    let issue = issues.remove(0);
    if active_issue_state(config, issue.state.as_str()) {
        Ok(Some(issue))
    } else {
        Ok(None)
    }
}

/// What the turns have come to.
#[derive(Debug)]
pub enum TurnsEvent {
    /// The session is open, or could not be opened.
    Session(Result<(), AppServerError>),
    /// A turn has come to its end.
    Turn(Result<(), AppServerError>),
    /// The tracker has been asked for the issue.
    Refreshed(Result<Vec<Issue>, TrackerError>),
}

/// What the turns do next.
#[derive(Debug)]
pub enum TurnsStep {
    /// Run a turn for the current issue.
    RunTurn { prompt: String },
    /// Ask the tracker for the current issue.
    Refresh,
    /// Stop the session, and end.
    End(RunnerExitStatus),
    /// End; there is no session.
    NoSession(RunnerExitStatus),
}

/// The model of what the turns do next.
pub enum TurnsModel {
    RunTurn { prompt: Seq<char> },
    Refresh,
    End(ExitModel),
    NoSession(ExitModel),
}

impl View for TurnsStep {
    type V = TurnsModel;

    open spec fn view(&self) -> TurnsModel {
        match *self {
            TurnsStep::RunTurn { prompt } => TurnsModel::RunTurn { prompt: prompt@ },
            TurnsStep::Refresh => TurnsModel::Refresh,
            TurnsStep::End(status) => TurnsModel::End(status@),
            TurnsStep::NoSession(status) => TurnsModel::NoSession(status@),
        }
    }
}

/// The turns of an attempt: the issue as it was last seen, and the number of the
/// current turn.
#[derive(Debug)]
pub struct TurnLoop {
    pub current_issue: Issue,
    pub turn_number: u32,
}

/// The step that starts a turn: the first one with the prompt of the workflow, the
/// others with the prompt to go on.
pub open spec fn turn_start(
    template: Seq<char>,
    attempt: Option<u32>,
    max_turns: u32,
    issue: IssueModel,
    turn_number: u32,
) -> TurnsModel {
    if turn_number > max_turns {
        TurnsModel::End(ExitModel::Completed)
    } else if turn_number == 1 {
        match template_text(template, issue, attempt) {
            Ok(prompt) => TurnsModel::RunTurn { prompt },
            Err(fault) => TurnsModel::End(ExitModel::Failed(fault_message(fault))),
        }
    } else {
        TurnsModel::RunTurn { prompt: continuation_text(turn_number, max_turns) }
    }
}

/// The end of an attempt by an error of a turn.
pub open spec fn turn_exit(fault: SessionFault) -> ExitModel {
    match fault {
        SessionFault::TurnCancelled(message) => ExitModel::Cancelled(message),
        other => ExitModel::Failed(session_message(other)),
    }
}

/// The turns after an event, and what they do next. An open session starts the first
/// turn. A completed turn asks the tracker for the issue; a cancelled one cancels the
/// attempt, and any other error fails it. While the issue is worked on and turns are
/// left, the next one is started; otherwise the attempt is completed.
pub open spec fn turns_step(request: RunRequest, turns: TurnLoop, event: TurnsEvent) -> (
    TurnLoop,
    TurnsModel,
) {
    let max_turns = request.config@.agent.max_turns;
    match event {
        TurnsEvent::Session(Err(error)) => (
            turns,
            TurnsModel::NoSession(ExitModel::Failed(session_message(error@))),
        ),
        TurnsEvent::Session(Ok(_)) => (
            turns,
            turn_start(
                request.workflow.prompt_template@,
                request.attempt,
                max_turns,
                turns.current_issue@,
                turns.turn_number,
            ),
        ),
        TurnsEvent::Turn(Ok(_)) => (turns, TurnsModel::Refresh),
        TurnsEvent::Turn(Err(error)) => (turns, TurnsModel::End(turn_exit(error@))),
        TurnsEvent::Refreshed(Err(error)) => (
            turns,
            TurnsModel::End(ExitModel::Failed("issue_state_refresh_failed: "@ + error@)),
        ),
        TurnsEvent::Refreshed(Ok(issues)) => if issues@.len() > 0 && is_active_state(
            request.config@,
            issues@[0]@.state,
        ) && turns.turn_number < max_turns {
            let turn_number = (turns.turn_number + 1) as u32;
            (
                TurnLoop { current_issue: issues@[0], turn_number },
                turn_start(
                    request.workflow.prompt_template@,
                    request.attempt,
                    max_turns,
                    issues@[0]@,
                    turn_number,
                ),
            )
        } else {
            (turns, TurnsModel::End(ExitModel::Completed))
        },
    }
}

impl TurnLoop {
    /// The turns before the first one.
    pub fn new(issue: Issue) -> (r: TurnLoop)
        ensures
            r.current_issue == issue,
            r.turn_number == 1,
    {
        TurnLoop { current_issue: issue, turn_number: 1 }
    }

    /// The step that starts the current turn.
    fn start(&self, request: &RunRequest) -> (r: TurnsStep)
        ensures
            r@ == turn_start(
                request.workflow.prompt_template@,
                request.attempt,
                request.config@.agent.max_turns,
                self.current_issue@,
                self.turn_number,
            ),
    {
        let max_turns: u32 = request.config.agent.max_turns;
        if self.turn_number > max_turns {
            return TurnsStep::End(RunnerExitStatus::Completed);
        }
        if self.turn_number == 1 {
            let renderer = LiquidLikePromptRenderer;
            match renderer.render(
                request.workflow.prompt_template.as_str(),
                &self.current_issue,
                request.attempt,
            ) {
                Ok(prompt) => TurnsStep::RunTurn { prompt },
                Err(error) => TurnsStep::End(RunnerExitStatus::Failed(error.message())),
            }
        } else {
            TurnsStep::RunTurn { prompt: continuation_prompt(self.turn_number, max_turns) }
        }
    }

    /// The steps of the turns.
    pub fn run_turns(&mut self, request: &RunRequest, event: TurnsEvent) -> (r: TurnsStep)
        ensures
            (*final(self), r@) == turns_step(*request, *old(self), event),
    {
        match event {
            TurnsEvent::Session(Err(error)) => TurnsStep::NoSession(
                RunnerExitStatus::Failed(error.message()),
            ),
            TurnsEvent::Session(Ok(_)) => self.start(request),
            TurnsEvent::Turn(Ok(_)) => TurnsStep::Refresh,
            TurnsEvent::Turn(Err(error)) => match error {
                AppServerError::TurnCancelled(message) => TurnsStep::End(
                    RunnerExitStatus::Cancelled(message),
                ),
                other => TurnsStep::End(RunnerExitStatus::Failed(other.message())),
            },
            TurnsEvent::Refreshed(refreshed) => {
                match continue_with_issue(&request.config, refreshed) {
                    Ok(Some(issue)) => {
                        if self.turn_number < request.config.agent.max_turns {
                            self.current_issue = issue;
                            self.turn_number = self.turn_number + 1;
                            self.start(request)
                        } else {
                            TurnsStep::End(RunnerExitStatus::Completed)
                        }
                    },
                    Ok(None) => TurnsStep::End(RunnerExitStatus::Completed),
                    Err(error) => TurnsStep::End(RunnerExitStatus::Failed(error.message())),
                }
            },
        }
    }
}

// ---------------------------------------------------------------------------
// The tool
// ---------------------------------------------------------------------------

/// What the format `{:?}` of std writes for an optional text.
pub uninterp spec fn debug_text(value: Option<Seq<char>>) -> Seq<char>;

/// `format!` with `{:?}` on an optional text: what it writes depends on the text
/// alone.
#[verifier::external_body]
fn std_debug(value: Option<&str>) -> (r: String)
    ensures
        r@ == debug_text(opt_str_text(value)),
{
    format!("{:?}", value)
}

/// What the agent is answered on a call of a tool.
pub open spec fn tool_response_model(success: bool, payload: Json) -> Json {
    let output = pretty_or_compact(json_pretty(payload), json_compact(payload));
    Json::Object(
        map![
            "success"@ => Json::Bool(success),
            "output"@ => Json::Text(output),
            "contentItems"@ => Json::Array(
                seq![
                    Json::Object(
                        map!["type"@ => Json::Text("inputText"@), "text"@ => Json::Text(output)],
                    ),
                ],
            ),
        ],
    )
}

/// What the agent is answered on a call of a tool.
pub fn dynamic_tool_response(success: bool, payload: &JsonValue) -> (r: JsonValue)
    ensures
        r@ == tool_response_model(success, payload@),
{
    let output = json_pretty_text(payload);
    let item = empty_object().with("type", text_value("inputText")).with(
        "text",
        text_value(output.as_str()),
    );
    empty_object().with("success", bool_value(success)).with(
        "output",
        text_value(output.as_str()),
    ).with("contentItems", single_array(item))
}

/// The query and the variables of a call of the tool, or what is wrong with them.
pub open spec fn graphql_arguments(arguments: Json) -> Result<(Seq<char>, Json), Seq<char>> {
    match arguments {
        Json::Text(query) => if is_blank(query) {
            Err("`linear_graphql` requires a non-empty `query` string."@)
        } else {
            Ok((trim(query), Json::Object(Map::empty())))
        },
        Json::Object(map) => match json_str(json_get(arguments, "query"@)) {
            Some(query) => if is_blank(query) {
                Err("`linear_graphql` requires a non-empty `query` string."@)
            } else {
                match json_get(arguments, "variables"@) {
                    None => Ok((trim(query), Json::Object(Map::empty()))),
                    Some(Json::Null) => Ok((trim(query), Json::Object(Map::empty()))),
                    Some(Json::Object(variables)) => Ok((trim(query), Json::Object(variables))),
                    Some(_) => Err("`linear_graphql.variables` must be a JSON object."@),
                }
            },
            None => Err("`linear_graphql` requires a non-empty `query` string."@),
        },
        _ => Err(
            "`linear_graphql` expects a query string or an object with `query` and optional `variables`."@,
        ),
    }
}

/// The query and the variables of a call of the tool.
pub fn normalize_linear_graphql_arguments(arguments: &JsonValue) -> (r: Result<
    (String, JsonValue),
    String,
>)
    ensures
        match r {
            Ok((query, variables)) => graphql_arguments(arguments@) == Ok::<
                (Seq<char>, Json),
                Seq<char>,
            >((query@, variables@)),
            Err(message) => graphql_arguments(arguments@) == Err::<(Seq<char>, Json), Seq<char>>(
                message@,
            ),
        },
{
    proof {
        lemma_json_of(*arguments);
    }
    match arguments {
        JsonValue::Text(query) => {
            if blank(query.as_str()) {
                return Err("`linear_graphql` requires a non-empty `query` string.".to_string());
            }
            Ok((trimmed(query.as_str()), empty_object()))
        },
        JsonValue::Object(_) => {
            let query = match str_in(arguments.get("query")) {
                Some(query) => query,
                None => {
                    return Err("`linear_graphql` requires a non-empty `query` string.".to_string());
                },
            };
            if blank(query) {
                return Err("`linear_graphql` requires a non-empty `query` string.".to_string());
            }
            match arguments.get("variables") {
                None => Ok((trimmed(query), empty_object())),
                Some(variables) => {
                    proof {
                        lemma_json_of(*variables);
                    }
                    match variables {
                        JsonValue::Null => Ok((trimmed(query), empty_object())),
                        JsonValue::Object(_) => Ok((trimmed(query), variables.clone())),
                        _ => Err("`linear_graphql.variables` must be a JSON object.".to_string()),
                    }
                },
            }
        },
        _ => Err(
            "`linear_graphql` expects a query string or an object with `query` and optional `variables`.".to_string(),
        ),
    }
}

/// What a call of a tool does.
#[derive(Debug)]
pub enum ToolStep {
    /// Send the query to the tracker; its answer goes to `graphql_tool_response`.
    Query { query: String, variables: JsonValue },
    /// Answer the agent.
    Respond(JsonValue),
}

/// The model of what a call of a tool does.
pub enum ToolModel {
    Query { query: Seq<char>, variables: Json },
    Respond(Json),
}

impl View for ToolStep {
    type V = ToolModel;

    open spec fn view(&self) -> ToolModel {
        match *self {
            ToolStep::Query { query, variables } => ToolModel::Query {
                query: query@,
                variables: variables@,
            },
            ToolStep::Respond(response) => ToolModel::Respond(response@),
        }
    }
}

/// An error with a message.
pub open spec fn error_model(message: Seq<char>) -> Json {
    Json::Object(
        map!["error"@ => Json::Object(map!["message"@ => Json::Text(message)])],
    )
}

/// The answer to the call of a tool that there is none of, by the text of its
/// name.
pub open spec fn unsupported_model(name: Seq<char>) -> Json {
    Json::Object(
        map![
            "error"@ => Json::Object(
                map![
                    "message"@ => Json::Text("Unsupported dynamic tool: "@ + name),
                    "supportedTools"@ => Json::Array(seq![Json::Text("linear_graphql"@)]),
                ],
            ),
        ],
    )
}

/// What a call of the tool does.
pub open spec fn graphql_tool_model(arguments: Json) -> ToolModel {
    match graphql_arguments(arguments) {
        Ok((query, variables)) => ToolModel::Query { query, variables },
        Err(message) => ToolModel::Respond(tool_response_model(false, error_model(message))),
    }
}

/// What a call of the tool does.
pub fn execute_linear_graphql(arguments: &JsonValue) -> (r: ToolStep)
    ensures
        r@ == graphql_tool_model(arguments@),
{
    match normalize_linear_graphql_arguments(arguments) {
        Ok((query, variables)) => ToolStep::Query { query, variables },
        Err(message) => {
            let error = empty_object().with("message", text_value(message.as_str()));
            let payload = empty_object().with("error", error);
            ToolStep::Respond(dynamic_tool_response(false, &payload))
        },
    }
}

/// The answer to the call of a tool that there is none of, by the text of its
/// name.
pub fn unsupported_tool(name: &str) -> (r: JsonValue)
    ensures
        r@ == tool_response_model(false, unsupported_model(name@)),
{
    let message = "Unsupported dynamic tool: ".to_string().concat(name);
    let tools = single_array(text_value("linear_graphql"));
    let error = empty_object().with("message", text_value(message.as_str())).with(
        "supportedTools",
        tools,
    );
    let payload = empty_object().with("error", error);
    dynamic_tool_response(false, &payload)
}

/// What a call of a tool by its name does.
pub open spec fn dynamic_tool_model(name: Option<Seq<char>>, arguments: Json) -> ToolModel {
    if name == Some("linear_graphql"@) {
        graphql_tool_model(arguments)
    } else {
        ToolModel::Respond(tool_response_model(false, unsupported_model(debug_text(name))))
    }
}

/// What a call of a tool does: the one tool that there is sends a query; a call of
/// any other is answered with an error.
pub fn execute_dynamic_tool(tool_name: Option<&str>, arguments: &JsonValue) -> (r: ToolStep)
    ensures
        r@ == dynamic_tool_model(opt_str_text(tool_name), arguments@),
        r@ == if opt_str_text(tool_name) == Some("linear_graphql"@) {
            graphql_tool_model(arguments@)
        } else {
            ToolModel::Respond(
                tool_response_model(
                    false,
                    unsupported_model(debug_text(opt_str_text(tool_name))),
                ),
            )
        },
{
    let known = match tool_name {
        Some(name) => same_text(name, "linear_graphql"),
        None => false,
    };
    if known {
        execute_linear_graphql(arguments)
    } else {
        ToolStep::Respond(unsupported_tool(std_debug(tool_name).as_str()))
    }
}

/// Whether an answer of the tracker tells of no errors.
pub open spec fn has_no_errors(response: Json) -> bool {
    match json_array(json_get(response, "errors"@)) {
        Some(errors) => errors.len() == 0,
        None => true,
    }
}

/// The error of a query that could not be sent.
pub open spec fn tool_failure_model(reason: Seq<char>) -> Json {
    Json::Object(
        map![
            "error"@ => Json::Object(
                map![
                    "message"@ => Json::Text("Linear GraphQL tool execution failed."@),
                    "reason"@ => Json::Text(reason),
                ],
            ),
        ],
    )
}

/// What the agent is answered, by what the tracker answered.
pub open spec fn tool_answer_model(result: Result<Json, Seq<char>>) -> Json {
    match result {
        Ok(response) => tool_response_model(has_no_errors(response), response),
        Err(reason) => tool_response_model(false, tool_failure_model(reason)),
    }
}

/// What the agent is answered, by what the tracker answered.
pub fn graphql_tool_response(result: Result<JsonValue, TrackerError>) -> (r: JsonValue)
    ensures
        r@ == tool_answer_model(
            match result {
                Ok(response) => Ok(response@),
                Err(error) => Err(error@),
            },
        ),
        r@ == match result {
            Ok(response) => tool_response_model(has_no_errors(response@), response@),
            Err(error) => tool_response_model(false, tool_failure_model(error@)),
        },
{
    match result {
        Ok(response) => {
            let success = match response.get("errors") {
                Some(errors) => match errors.as_array() {
                    Some(items) => items.len() == 0,
                    None => true,
                },
                None => true,
            };
            dynamic_tool_response(success, &response)
        },
        Err(error) => {
            let details = empty_object().with(
                "message",
                text_value("Linear GraphQL tool execution failed."),
            ).with("reason", text_value(error.message().as_str()));
            let payload = empty_object().with("error", details);
            dynamic_tool_response(false, &payload)
        },
    }
}

// ---------------------------------------------------------------------------
// Laws
// ---------------------------------------------------------------------------

/// A turn is started only if its number is within what the configuration allows.
pub proof fn lemma_turn_number_is_bounded(
    template: Seq<char>,
    attempt: Option<u32>,
    max_turns: u32,
    issue: IssueModel,
    turn_number: u32,
)
    ensures
        turn_start(template, attempt, max_turns, issue, turn_number) is RunTurn ==> turn_number
            <= max_turns,
{
}

/// The turns after the first `n` of some events, and how many of them have been
/// started.
pub open spec fn turns_course(
    request: RunRequest,
    turns: TurnLoop,
    events: Seq<TurnsEvent>,
    n: int,
) -> (TurnLoop, nat)
    decreases n,
{
    if n <= 0 {
        (turns, 0)
    } else {
        let (before, started) = turns_course(request, turns, events, n - 1);
        let (after, step) = turns_step(request, before, events[n - 1]);
        (
            after,
            if step is RunTurn {
                started + 1
            } else {
                started
            },
        )
    }
}

/// An attempt starts no more turns than the configuration allows, whatever happens
/// after its session has been opened. Where it starts a first one, the number of the
/// current turn is how many have been started.
pub proof fn lemma_turns_are_bounded(
    request: RunRequest,
    turns: TurnLoop,
    events: Seq<TurnsEvent>,
    n: int,
)
    requires
        turns.turn_number == 1,
        0 < n <= events.len(),
        events[0] matches TurnsEvent::Session(Ok(_)),
        forall|i: int| 0 < i < events.len() ==> !(#[trigger] events[i] is Session),
    ensures
        ({
            let (after, started) = turns_course(request, turns, events, n);
            &&& started <= request.config@.agent.max_turns
            &&& turns_step(request, turns, events[0]).1 is RunTurn ==> started == after.turn_number
        }),
{
    lemma_turns_follow_their_number(request, turns, events, n);
}

proof fn lemma_turns_follow_their_number(
    request: RunRequest,
    turns: TurnLoop,
    events: Seq<TurnsEvent>,
    n: int,
)
    requires
        turns.turn_number == 1,
        0 < n <= events.len(),
        events[0] matches TurnsEvent::Session(Ok(_)),
        forall|i: int| 0 < i < events.len() ==> !(#[trigger] events[i] is Session),
    ensures
        ({
            let max_turns = request.config@.agent.max_turns;
            let (after, started) = turns_course(request, turns, events, n);
            &&& 1 <= after.turn_number
            &&& started <= after.turn_number
            &&& after.turn_number <= max_turns || started == 0
            &&& max_turns == 0 ==> started == 0
            &&& turns_step(request, turns, events[0]).1 is RunTurn ==> started == after.turn_number
        }),
    decreases n,
{
    reveal_with_fuel(turns_course, 2);
    if n > 1 {
        lemma_turns_follow_their_number(request, turns, events, n - 1);
        assert(!(events[n - 1] is Session));
    }
}

/// What the turns do on each event. An open session starts the first turn with the
/// prompt of the workflow, rendered for the issue and the attempt. A completed turn
/// asks for the issue. A cancelled turn cancels the attempt, and any other error fails
/// it, as does an issue that cannot be asked for.
pub proof fn lemma_turns_follow_events(request: RunRequest, turns: TurnLoop, event: TurnsEvent)
    ensures
        ({
            let (after, step) = turns_step(request, turns, event);
            let max_turns = request.config@.agent.max_turns;
            match event {
                TurnsEvent::Session(Err(error)) => after == turns && step == TurnsModel::NoSession(
                    ExitModel::Failed(session_message(error@)),
                ),
                TurnsEvent::Session(Ok(_)) => after == turns && (turns.turn_number == 1 && max_turns
                    >= 1 ==> match template_text(
                    request.workflow.prompt_template@,
                    turns.current_issue@,
                    request.attempt,
                ) {
                    Ok(prompt) => step == (TurnsModel::RunTurn { prompt }),
                    Err(fault) => step == TurnsModel::End(ExitModel::Failed(fault_message(fault))),
                }),
                TurnsEvent::Turn(Ok(_)) => after == turns && step is Refresh,
                TurnsEvent::Turn(Err(error)) => after == turns && match error@ {
                    SessionFault::TurnCancelled(message) => step == TurnsModel::End(
                        ExitModel::Cancelled(message),
                    ),
                    fault => step == TurnsModel::End(ExitModel::Failed(session_message(fault))),
                },
                TurnsEvent::Refreshed(Err(error)) => after == turns && step == TurnsModel::End(
                    ExitModel::Failed("issue_state_refresh_failed: "@ + error@),
                ),
                TurnsEvent::Refreshed(Ok(issues)) => {
                    let goes_on = issues@.len() > 0 && normal_states(
                        request.config@.tracker.active_states,
                    ).contains(ascii_lower(trim(issues@[0]@.state))) && turns.turn_number
                        < max_turns;
                    &&& !goes_on ==> after == turns && step == TurnsModel::End(
                        ExitModel::Completed,
                    )
                    &&& goes_on ==> after.turn_number == turns.turn_number + 1
                        && after.current_issue == issues@[0]
                    &&& goes_on && turns.turn_number >= 1 ==> step == (TurnsModel::RunTurn {
                        prompt: continuation_text((turns.turn_number + 1) as u32, max_turns),
                    })
                },
            }
        }),
{
}

/// The prompt of a further turn says which one it is, and of how many.
pub proof fn lemma_continuation_names_its_turn(turn_number: u32, max_turns: u32)
    ensures
        ({
            let text = continuation_text(turn_number, max_turns);
            let front = "Continuation guidance:\n\n- The previous Codex turn completed normally, but the issue is still active.\n- This is continuation turn #"@;
            let rest = text.skip(front.len() as int);
            let number = decimal(turn_number as nat);
            let limit = decimal(max_turns as nat);
            &&& text.take(front.len() as int) == front
            &&& rest.take(number.len() as int) == number
            &&& rest.skip(number.len() as int).take(4) == " of "@
            &&& rest.skip(number.len() as int + 4).take(limit.len() as int) == limit
        }),
{
    let text = continuation_text(turn_number, max_turns);
    let front = "Continuation guidance:\n\n- The previous Codex turn completed normally, but the issue is still active.\n- This is continuation turn #"@;
    let behind = " for the current agent run.\n- Resume from the current workspace state instead of restarting.\n- The original task instructions and prior turn context are already in the thread.\n- Focus on the remaining ticket work and do not stop while the issue remains active unless blocked."@;
    let number = decimal(turn_number as nat);
    let limit = decimal(max_turns as nat);
    reveal_strlit(" of ");
    let rest = number + " of "@ + limit + behind;
    assert(text =~= front + rest);
    assert(text.take(front.len() as int) =~= front);
    assert(text.skip(front.len() as int) =~= rest);
    assert(rest.take(number.len() as int) =~= number);
    assert(rest.skip(number.len() as int).take(4) =~= " of "@);
    assert(rest.skip(number.len() as int + 4).take(limit.len() as int) =~= limit);
}

/// The result of a tool says whether it succeeded, and holds what came of it as a text,
/// for the agent and for its reader.
pub proof fn lemma_tool_results(success: bool, payload: Json)
    ensures
        ({
            let result = tool_response_model(success, payload);
            let text = match json_pretty(payload) {
                Some(pretty) => pretty,
                None => json_compact(payload),
            };
            &&& json_get(result, "success"@) == Some(Json::Bool(success))
            &&& json_get(result, "output"@) == Some(Json::Text(text))
            &&& json_get(result, "contentItems"@) matches Some(Json::Array(items))
            &&& items.len() == 1
            &&& json_get(items[0], "type"@) == Some(Json::Text("inputText"@))
            &&& json_get(items[0], "text"@) == Some(Json::Text(text))
        }),
{
    reveal_strlit("success");
    reveal_strlit("output");
    reveal_strlit("contentItems");
    assert("success"@.len() != "output"@.len());
    assert("success"@.len() != "contentItems"@.len());
    assert("output"@.len() != "contentItems"@.len());
    reveal_strlit("type");
    reveal_strlit("text");
    assert("type"@[1] != "text"@[1]);
}

/// What a query is read from: a text is the query itself; an object names it, and its
/// variables, which are an object or nothing. Anything else is an error.
pub proof fn lemma_queries_are_read(query: Seq<char>, map: Map<Seq<char>, Json>)
    ensures
        trim(query).len() > 0 ==> graphql_arguments(Json::Text(query)) == Ok::<
            (Seq<char>, Json),
            Seq<char>,
        >((trim(query), Json::Object(Map::empty()))),
        trim(query).len() == 0 ==> graphql_arguments(Json::Text(query)) == Err::<
            (Seq<char>, Json),
            Seq<char>,
        >("`linear_graphql` requires a non-empty `query` string."@),
        ({
            let object = Json::Object(map);
            let read = graphql_arguments(object);
            let variables = json_get(object, "variables"@);
            &&& !(json_get(object, "query"@) matches Some(Json::Text(_))) ==> read == Err::<
                (Seq<char>, Json),
                Seq<char>,
            >("`linear_graphql` requires a non-empty `query` string."@)
            &&& json_get(object, "query"@) == Some(Json::Text(query)) && trim(query).len() > 0
                ==> match variables {
                None => read == Ok::<(Seq<char>, Json), Seq<char>>(
                    (trim(query), Json::Object(Map::empty())),
                ),
                Some(Json::Null) => read == Ok::<(Seq<char>, Json), Seq<char>>(
                    (trim(query), Json::Object(Map::empty())),
                ),
                Some(Json::Object(given)) => read == Ok::<(Seq<char>, Json), Seq<char>>(
                    (trim(query), Json::Object(given)),
                ),
                Some(_) => read == Err::<(Seq<char>, Json), Seq<char>>(
                    "`linear_graphql.variables` must be a JSON object."@,
                ),
            }
        }),
        graphql_arguments(Json::Null) is Err,
        graphql_arguments(Json::Array(Seq::empty())) is Err,
{
}

/// A query that can be read is sent as it was read; one that cannot is answered with
/// what is wrong, as a failure.
pub proof fn lemma_queries_are_sent(arguments: Json)
    ensures
        match graphql_arguments(arguments) {
            Ok((query, variables)) => graphql_tool_model(arguments) == (ToolModel::Query {
                query,
                variables,
            }),
            Err(message) => graphql_tool_model(arguments) matches ToolModel::Respond(response)
                && json_get(response, "success"@) == Some(Json::Bool(false)) && response
                == tool_response_model(
                false,
                Json::Object(
                    map!["error"@ => Json::Object(map!["message"@ => Json::Text(message)])],
                ),
            ),
        },
{
    reveal_strlit("success");
    reveal_strlit("output");
    reveal_strlit("contentItems");
    assert("success"@.len() != "output"@.len());
    assert("success"@.len() != "contentItems"@.len());
    assert("output"@.len() != "contentItems"@.len());
}

/// An answer of the tracker is a success unless it lists errors. A failure says why.
pub proof fn lemma_answers_of_the_tracker(response: Json, reason: Seq<char>)
    ensures
        has_no_errors(response) <==> !(json_get(response, "errors"@) matches Some(
            Json::Array(errors),
        ) && errors.len() > 0),
        opt_json_get(json_get(tool_failure_model(reason), "error"@), "reason"@) == Some(
            Json::Text(reason),
        ),
        opt_json_get(json_get(tool_failure_model(reason), "error"@), "message"@) == Some(
            Json::Text("Linear GraphQL tool execution failed."@),
        ),
        opt_json_get(json_get(unsupported_model(reason), "error"@), "message"@) == Some(
            Json::Text("Unsupported dynamic tool: "@ + reason),
        ),
        opt_json_get(json_get(unsupported_model(reason), "error"@), "supportedTools"@) == Some(
            Json::Array(seq![Json::Text("linear_graphql"@)]),
        ),
{
    reveal_strlit("message");
    reveal_strlit("reason");
    assert("message"@.len() != "reason"@.len());
    reveal_strlit("message");
    reveal_strlit("supportedTools");
    assert("message"@.len() != "supportedTools"@.len());
}

/// The course of an attempt: the hook behind the run is run whenever there is a
/// workspace, and only then; turns are run only behind a hook that succeeded; and what
/// the turns came to is what the attempt comes to.
pub proof fn lemma_course_of_an_attempt(
    worker_host: Option<Seq<char>>,
    event: AttemptEvent,
    error: WorkspaceError,
    assignment: WorkspaceAssignment,
    status: RunnerExitStatus,
)
    ensures
        attempt_model(worker_host, AttemptEvent::Workspace(Err(error))) == AttemptModel::Exit(
            ExitModel::Failed(error@),
        ),
        attempt_model(worker_host, AttemptEvent::Workspace(Ok(assignment))) == (
        AttemptModel::Announce { worker_host, workspace_path: assignment.path@ }),
        attempt_model(worker_host, AttemptEvent::BeforeRunHook(Err(error)))
            == AttemptModel::Finish(ExitModel::Failed(error@)),
        attempt_model(worker_host, AttemptEvent::BeforeRunHook(Ok(()))) is RunTurns,
        attempt_model(worker_host, AttemptEvent::Turns(status)) == AttemptModel::Finish(status@),
        attempt_model(worker_host, event) is Exit ==> event is Workspace,
        attempt_model(worker_host, event) is RunTurns ==> event is BeforeRunHook,
{
}

/// The one tool that there is sends queries; a call of any other, or of none, sends
/// nothing and is answered as a failure.
pub proof fn lemma_only_the_known_tool_is_run(name: Option<Seq<char>>, arguments: Json)
    ensures
        dynamic_tool_model(Some("linear_graphql"@), arguments) == graphql_tool_model(arguments),
        name != Some("linear_graphql"@) ==> (dynamic_tool_model(name, arguments) matches
            ToolModel::Respond(response) && json_get(response, "success"@) == Some(
            Json::Bool(false),
        )),
        dynamic_tool_model(name, arguments) is Query ==> name == Some("linear_graphql"@),
{
    reveal_strlit("success");
    reveal_strlit("output");
    reveal_strlit("contentItems");
    assert("success"@.len() != "output"@.len());
    assert("success"@.len() != "contentItems"@.len());
    assert("output"@.len() != "contentItems"@.len());
}

/// The agent is told that a query succeeded exactly if the tracker answered without
/// errors; what the tracker answered is handed on whole.
pub proof fn lemma_tracker_answers_are_handed_on(response: Json, reason: Seq<char>)
    ensures
        json_get(tool_answer_model(Ok(response)), "success"@) == Some(
            Json::Bool(
                !(json_get(response, "errors"@) matches Some(Json::Array(errors)) && errors.len()
                    > 0),
            ),
        ),
        json_get(tool_answer_model(Ok(response)), "output"@) == Some(
            Json::Text(
                match json_pretty(response) {
                    Some(pretty) => pretty,
                    None => json_compact(response),
                },
            ),
        ),
        json_get(tool_answer_model(Err(reason)), "success"@) == Some(Json::Bool(false)),
        tool_answer_model(Err(reason)) == tool_response_model(false, tool_failure_model(reason)),
{
    reveal_strlit("success");
    reveal_strlit("output");
    reveal_strlit("contentItems");
    assert("success"@.len() != "output"@.len());
    assert("success"@.len() != "contentItems"@.len());
    assert("output"@.len() != "contentItems"@.len());
}

/// An attempt goes on with the first issue that the tracker names, and only while that
/// issue is in a state that is worked on, by whatever case and blanks it is written
/// with.
pub proof fn lemma_attempts_go_on_while_active(config: ServiceModel, issues: Seq<Issue>, i: int)
    requires
        0 <= i < config.tracker.active_states.len(),
    ensures
        issues.len() == 0 ==> issue_to_go_on_with(config, issues) is None,
        issue_to_go_on_with(config, issues) is Some ==> issue_to_go_on_with(config, issues) == Some(
            issues[0]@,
        ),
        issues.len() > 0 && ascii_lower(trim(issues[0]@.state)) == ascii_lower(
            trim(config.tracker.active_states[i]),
        ) ==> issue_to_go_on_with(config, issues) is Some,
        issues.len() > 0 && (forall|j: int|
            0 <= j < config.tracker.active_states.len() ==> ascii_lower(trim(issues[0]@.state))
                != ascii_lower(trim(#[trigger] config.tracker.active_states[j])))
            ==> issue_to_go_on_with(config, issues) is None,
{
    let names = normal_states(config.tracker.active_states);
    if issues.len() > 0 {
        let state = normal_state(issues[0]@.state);
        if ascii_lower(trim(issues[0]@.state)) == ascii_lower(
            trim(config.tracker.active_states[i]),
        ) {
            assert(names[i] == state);
            assert(names.contains(state));
        }
        if names.contains(state) {
            let j = choose|j: int| 0 <= j < names.len() && names[j] == state;
            assert(ascii_lower(trim(config.tracker.active_states[j])) == state);
        }
    }
}

} // verus!
