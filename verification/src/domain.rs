//! Issues, sessions and the state of the scheduler.

use crate::json::{clone_in, opt_json_value, JsonValue};
use crate::ordered::{OrderedMap, OrderedSet};
use crate::text::{
    ascii_lower, blank, clone_opt, clone_strings, is_blank, is_space, list_has, lower_char, lowered,
    opt_text, same_text, texts, trim, trim_end, trim_start, trimmed,
};
use crate::timestamp::{opt_time, valid_time, TimePoint, Timestamp};
use vstd::prelude::*;

verus! {

/// A mapping of `serde_yaml`, carried through unchanged.
#[verifier::external_type_specification]
#[verifier::external_body]
pub struct ExMapping(serde_yaml::Mapping);

// ---------------------------------------------------------------------------
// States
// ---------------------------------------------------------------------------

/// The form in which state names are compared.
pub open spec fn normal_state(value: Seq<char>) -> Seq<char> {
    ascii_lower(trim(value))
}

/// The state name without surrounding white space and in lower case.
pub fn normalize_state(value: &str) -> (r: String)
    ensures
        r@ == normal_state(value@),
{
    lowered(trimmed(value).as_str())
}

/// Normalizing a state name a second time changes nothing.
pub proof fn lemma_normal_state_idempotent(value: Seq<char>)
    ensures
        normal_state(normal_state(value)) == normal_state(value),
{
    let once = normal_state(value);
    crate::text::lemma_trim_ends(value);
    if once.len() > 0 {
        assert(once[0] == lower_char(trim(value)[0]));
        assert(once.last() == lower_char(trim(value).last()));
    }
    assert(trim(once) == once);
    assert(ascii_lower(once) =~= once);
}

/// State names that differ in surrounding white space or in the case of letters
/// have one normal form: the normal form of `value` is that of its trimmed and
/// of its lower-case form.
pub proof fn lemma_normal_state_ignores_case_and_space(value: Seq<char>)
    ensures
        normal_state(trim(value)) == normal_state(value),
        normal_state(ascii_lower(value)) == normal_state(value),
{
    crate::text::lemma_trim_idempotent(value);
    lemma_trim_lower(value);
    assert(ascii_lower(ascii_lower(trim(value))) =~= ascii_lower(trim(value)));
}

proof fn lemma_trim_lower(value: Seq<char>)
    ensures
        trim(ascii_lower(value)) == ascii_lower(trim(value)),
{
    lemma_trim_start_lower(value);
    lemma_trim_end_lower(trim_start(value));
}

proof fn lemma_trim_start_lower(value: Seq<char>)
    ensures
        trim_start(ascii_lower(value)) == ascii_lower(trim_start(value)),
    decreases value.len(),
{
    if value.len() > 0 && is_space(value[0]) {
        assert(ascii_lower(value).drop_first() =~= ascii_lower(value.drop_first()));
        lemma_trim_start_lower(value.drop_first());
    }
}

proof fn lemma_trim_end_lower(value: Seq<char>)
    ensures
        trim_end(ascii_lower(value)) == ascii_lower(trim_end(value)),
    decreases value.len(),
{
    if value.len() > 0 && is_space(value.last()) {
        assert(ascii_lower(value).drop_last() =~= ascii_lower(value.drop_last()));
        lemma_trim_end_lower(value.drop_last());
    }
}

/// The normal forms of a list of state names.
pub open spec fn normal_states(states: Seq<Seq<char>>) -> Seq<Seq<char>> {
    states.map_values(|state: Seq<char>| normal_state(state))
}

/// The normal forms of a list of state names.
pub fn normalize_states(states: &[String]) -> (r: Vec<String>)
    ensures
        texts(r@) == normal_states(texts(states@)),
{
    let mut out: Vec<String> = Vec::new();
    let mut i: usize = 0;
    while i < states.len()
        invariant
            i <= states@.len(),
            out@.len() == i,
            forall|j: int| 0 <= j < i ==> (#[trigger] out@[j])@ == normal_state(states@[j]@),
        decreases states@.len() - i,
    {
        out.push(normalize_state(states[i].as_str()));
        i = i + 1;
    }
    assert(texts(out@) =~= normal_states(texts(states@)));
    out
}

// ---------------------------------------------------------------------------
// Issues
// ---------------------------------------------------------------------------

/// An issue that blocks another one.
#[derive(Debug, PartialEq, Eq)]
pub struct IssueBlockerRef {
    pub id: Option<String>,
    pub identifier: Option<String>,
    pub state: Option<String>,
}

impl Clone for IssueBlockerRef {
    fn clone(&self) -> (r: IssueBlockerRef)
        ensures
            r == *self,
    {
        IssueBlockerRef {
            id: clone_opt(&self.id),
            identifier: clone_opt(&self.identifier),
            state: clone_opt(&self.state),
        }
    }
}

/// The model of a blocker.
pub struct BlockerModel {
    pub id: Option<Seq<char>>,
    pub identifier: Option<Seq<char>>,
    pub state: Option<Seq<char>>,
}

impl View for IssueBlockerRef {
    type V = BlockerModel;

    open spec fn view(&self) -> BlockerModel {
        BlockerModel {
            id: opt_text(self.id),
            identifier: opt_text(self.identifier),
            state: opt_text(self.state),
        }
    }
}

/// An issue of the tracker.
#[derive(Debug, PartialEq, Eq)]
pub struct Issue {
    pub id: String,
    pub identifier: String,
    pub title: String,
    pub description: Option<String>,
    pub priority: Option<i64>,
    pub state: String,
    pub branch_name: Option<String>,
    pub url: Option<String>,
    pub assignee_id: Option<String>,
    pub labels: Vec<String>,
    pub blocked_by: Vec<IssueBlockerRef>,
    pub assigned_to_worker: bool,
    pub created_at: Option<Timestamp>,
    pub updated_at: Option<Timestamp>,
}

/// The model of an issue.
#[verifier::ext_equal]
pub struct IssueModel {
    pub id: Seq<char>,
    pub identifier: Seq<char>,
    pub title: Seq<char>,
    pub description: Option<Seq<char>>,
    pub priority: Option<i64>,
    pub state: Seq<char>,
    pub branch_name: Option<Seq<char>>,
    pub url: Option<Seq<char>>,
    pub assignee_id: Option<Seq<char>>,
    pub labels: Seq<Seq<char>>,
    pub blocked_by: Seq<BlockerModel>,
    pub assigned_to_worker: bool,
    pub created_at: Option<TimePoint>,
    pub updated_at: Option<TimePoint>,
}

/// The models of a list of blockers.
pub open spec fn blockers(items: Seq<IssueBlockerRef>) -> Seq<BlockerModel> {
    items.map_values(|item: IssueBlockerRef| item@)
}

impl View for Issue {
    type V = IssueModel;

    open spec fn view(&self) -> IssueModel {
        IssueModel {
            id: self.id@,
            identifier: self.identifier@,
            title: self.title@,
            description: opt_text(self.description),
            priority: self.priority,
            state: self.state@,
            branch_name: opt_text(self.branch_name),
            url: opt_text(self.url),
            assignee_id: opt_text(self.assignee_id),
            labels: texts(self.labels@),
            blocked_by: blockers(self.blocked_by@),
            assigned_to_worker: self.assigned_to_worker,
            created_at: opt_time(self.created_at),
            updated_at: opt_time(self.updated_at),
        }
    }
}

/// A copy of a list of blockers.
pub fn clone_blockers(items: &Vec<IssueBlockerRef>) -> (r: Vec<IssueBlockerRef>)
    ensures
        r@ == items@,
{
    let mut out: Vec<IssueBlockerRef> = Vec::new();
    let mut i: usize = 0;
    while i < items.len()
        invariant
            i <= items@.len(),
            out@ == items@.take(i as int),
        decreases items@.len() - i,
    {
        out.push(items[i].clone());
        i = i + 1;
    }
    assert(items@.take(i as int) == items@);
    out
}

impl Clone for Issue {
    fn clone(&self) -> (r: Issue)
        ensures
            r@ == self@,
    {
        Issue {
            id: self.id.clone(),
            identifier: self.identifier.clone(),
            title: self.title.clone(),
            description: clone_opt(&self.description),
            priority: self.priority,
            state: self.state.clone(),
            branch_name: clone_opt(&self.branch_name),
            url: clone_opt(&self.url),
            assignee_id: clone_opt(&self.assignee_id),
            labels: clone_strings(&self.labels),
            blocked_by: clone_blockers(&self.blocked_by),
            assigned_to_worker: self.assigned_to_worker,
            created_at: self.created_at,
            updated_at: self.updated_at,
        }
    }
}

/// Whether the fields without which an issue cannot be worked on are filled in.
pub open spec fn required_fields(issue: IssueModel) -> bool {
    !is_blank(issue.id) && !is_blank(issue.identifier) && !is_blank(issue.title) && !is_blank(
        issue.state,
    )
}

/// Whether a blocker still blocks: its state is unknown or not a terminal one.
pub open spec fn blocks(blocker: BlockerModel, terminal_states: Seq<Seq<char>>) -> bool {
    match blocker.state {
        Some(state) => !normal_states(terminal_states).contains(normal_state(state)),
        None => true,
    }
}

/// Whether an issue that waits to be started has a blocker that still blocks.
pub open spec fn blocked(issue: IssueModel, terminal_states: Seq<Seq<char>>) -> bool {
    &&& normal_state(issue.state) == "todo"@
    &&& exists|i: int|
        0 <= i < issue.blocked_by.len() && blocks(#[trigger] issue.blocked_by[i], terminal_states)
}

/// The issue that stands as an example, with the given times.
pub open spec fn example_issue(created_at: TimePoint, updated_at: TimePoint) -> IssueModel {
    IssueModel {
        id: "issue_001"@,
        identifier: "ABC-123"@,
        title: "Port Symphony orchestrator to Rust"@,
        description: Some("Create a Rust implementation of Symphony."@),
        priority: Some(1i64),
        state: "Todo"@,
        branch_name: Some("abc-123-port-symphony-to-rust"@),
        url: Some("https://linear.app/example/issue/ABC-123"@),
        assignee_id: None,
        labels: seq!["rust"@, "orchestration"@],
        blocked_by: Seq::empty(),
        assigned_to_worker: true,
        created_at: Some(created_at),
        updated_at: Some(updated_at),
    }
}

impl Issue {
    /// Whether the fields without which an issue cannot be worked on are filled in.
    pub fn has_required_fields(&self) -> (r: bool)
        ensures
            r == required_fields(self@),
    {
        !blank(self.id.as_str()) && !blank(self.identifier.as_str()) && !blank(self.title.as_str())
            && !blank(self.state.as_str())
    }

    /// The state in the form in which state names are compared.
    pub fn normalized_state(&self) -> (r: String)
        ensures
            r@ == normal_state(self@.state),
    {
        normalize_state(self.state.as_str())
    }

    /// Whether the issue waits to be started and has a blocker that still blocks.
    pub fn has_non_terminal_blocker(&self, terminal_states: &[String]) -> (r: bool)
        ensures
            r == blocked(self@, texts(terminal_states@)),
    {
        if !same_text(self.normalized_state().as_str(), "todo") {
            return false;
        }
        let terminal = normalize_states(terminal_states);
        let mut i: usize = 0;
        while i < self.blocked_by.len()
            invariant
                i <= self.blocked_by@.len(),
                texts(terminal@) == normal_states(texts(terminal_states@)),
                normal_state(self@.state) == "todo"@,
                forall|j: int|
                    0 <= j < i ==> !blocks(
                        #[trigger] self@.blocked_by[j],
                        texts(terminal_states@),
                    ),
            decreases self.blocked_by@.len() - i,
        {
            let blocker = &self.blocked_by[i];
            let open = match &blocker.state {
                Some(state) => !list_has(&terminal, normalize_state(state.as_str()).as_str()),
                None => true,
            };
            assert(self@.blocked_by[i as int] == blocker@);
            if open {
                return true;
            }
            i = i + 1;
        }
        false
    }

    /// The issue that stands as an example, with the given times.
    pub fn example_at(created_at: Timestamp, updated_at: Timestamp) -> (r: Issue)
        ensures
            r@ == example_issue(created_at@, updated_at@),
    {
        let labels = vec!["rust".to_string(), "orchestration".to_string()];
        let blocked_by: Vec<IssueBlockerRef> = Vec::new();
        assert(texts(labels@) =~= seq!["rust"@, "orchestration"@]);
        assert(blockers(blocked_by@) =~= Seq::empty());
        Issue {
            id: "issue_001".to_string(),
            identifier: "ABC-123".to_string(),
            title: "Port Symphony orchestrator to Rust".to_string(),
            description: Some("Create a Rust implementation of Symphony.".to_string()),
            priority: Some(1),
            state: "Todo".to_string(),
            branch_name: Some("abc-123-port-symphony-to-rust".to_string()),
            url: Some("https://linear.app/example/issue/ABC-123".to_string()),
            assignee_id: None,
            labels,
            blocked_by,
            assigned_to_worker: true,
            created_at: Some(created_at),
            updated_at: Some(updated_at),
        }
    }

    /// The issue that stands as an example, created and updated just now.
    pub fn example() -> (r: Issue)
        ensures
            exists|created_at: TimePoint, updated_at: TimePoint|
                r@ == #[trigger] example_issue(created_at, updated_at) && valid_time(
                    created_at.seconds,
                    created_at.nanos,
                ) && valid_time(updated_at.seconds, updated_at.nanos),
    {
        let created_at = Timestamp::now();
        let updated_at = Timestamp::now();
        Issue::example_at(created_at, updated_at)
    }
}

/// A workflow: its configuration and the template of its prompt.
#[derive(Debug, PartialEq, Eq)]
pub struct WorkflowDefinition {
    pub config: serde_yaml::Mapping,
    pub prompt_template: String,
}

/// `Mapping::clone`: the copy is the same mapping.
#[verifier::external_body]
fn serde_yaml_clone(mapping: &serde_yaml::Mapping) -> (r: serde_yaml::Mapping)
    ensures
        r == *mapping,
{
    mapping.clone()
}

impl Clone for WorkflowDefinition {
    fn clone(&self) -> (r: WorkflowDefinition)
        ensures
            r == *self,
    {
        WorkflowDefinition {
            config: serde_yaml_clone(&self.config),
            prompt_template: self.prompt_template.clone(),
        }
    }
}

// ---------------------------------------------------------------------------
// Sessions
// ---------------------------------------------------------------------------

/// How far an attempt at an issue has come.
#[derive(Debug, Clone, Copy, PartialEq, Eq, Structural)]
pub enum AttemptStatus {
    PreparingWorkspace,
    RunningBeforeRunHook,
    StartingSession,
    RunningTurn,
    Succeeded,
    Failed,
    TimedOut,
    Stalled,
    Canceled,
    TurnInputRequired,
}

/// What is known of the session of a running attempt.
#[derive(Debug, PartialEq, Eq)]
pub struct LiveSession {
    pub session_id: Option<String>,
    pub thread_id: Option<String>,
    pub turn_id: Option<String>,
    pub codex_app_server_pid: Option<String>,
    pub last_codex_event: Option<String>,
    pub last_codex_timestamp: Option<Timestamp>,
    pub last_codex_message: Option<String>,
    pub codex_input_tokens: u64,
    pub codex_output_tokens: u64,
    pub codex_total_tokens: u64,
    pub last_reported_input_tokens: u64,
    pub last_reported_output_tokens: u64,
    pub last_reported_total_tokens: u64,
    pub turn_count: u32,
}

/// A session of which nothing has been reported.
pub open spec fn fresh_session() -> LiveSession {
    LiveSession {
        session_id: None,
        thread_id: None,
        turn_id: None,
        codex_app_server_pid: None,
        last_codex_event: None,
        last_codex_timestamp: None,
        last_codex_message: None,
        codex_input_tokens: 0,
        codex_output_tokens: 0,
        codex_total_tokens: 0,
        last_reported_input_tokens: 0,
        last_reported_output_tokens: 0,
        last_reported_total_tokens: 0,
        turn_count: 0,
    }
}

impl Default for LiveSession {
    fn default() -> (r: LiveSession)
        ensures
            r == fresh_session(),
    {
        LiveSession {
            session_id: None,
            thread_id: None,
            turn_id: None,
            codex_app_server_pid: None,
            last_codex_event: None,
            last_codex_timestamp: None,
            last_codex_message: None,
            codex_input_tokens: 0,
            codex_output_tokens: 0,
            codex_total_tokens: 0,
            last_reported_input_tokens: 0,
            last_reported_output_tokens: 0,
            last_reported_total_tokens: 0,
            turn_count: 0,
        }
    }
}

impl Clone for LiveSession {
    fn clone(&self) -> (r: LiveSession)
        ensures
            r == *self,
    {
        LiveSession {
            session_id: clone_opt(&self.session_id),
            thread_id: clone_opt(&self.thread_id),
            turn_id: clone_opt(&self.turn_id),
            codex_app_server_pid: clone_opt(&self.codex_app_server_pid),
            last_codex_event: clone_opt(&self.last_codex_event),
            last_codex_timestamp: self.last_codex_timestamp,
            last_codex_message: clone_opt(&self.last_codex_message),
            codex_input_tokens: self.codex_input_tokens,
            codex_output_tokens: self.codex_output_tokens,
            codex_total_tokens: self.codex_total_tokens,
            last_reported_input_tokens: self.last_reported_input_tokens,
            last_reported_output_tokens: self.last_reported_output_tokens,
            last_reported_total_tokens: self.last_reported_total_tokens,
            turn_count: self.turn_count,
        }
    }
}

/// An attempt at an issue that is under way.
#[derive(Debug, PartialEq, Eq)]
pub struct RunningEntry {
    pub issue: Issue,
    pub attempt: Option<u32>,
    pub worker_host: Option<String>,
    pub workspace_path: Option<String>,
    pub started_at: Timestamp,
    pub status: AttemptStatus,
    pub live_session: LiveSession,
    pub last_error: Option<String>,
}

/// The model of an attempt that is under way.
pub struct EntryModel {
    pub issue: IssueModel,
    pub attempt: Option<u32>,
    pub worker_host: Option<Seq<char>>,
    pub workspace_path: Option<Seq<char>>,
    pub started_at: TimePoint,
    pub status: AttemptStatus,
    pub live_session: LiveSession,
    pub last_error: Option<Seq<char>>,
}

impl View for RunningEntry {
    type V = EntryModel;

    open spec fn view(&self) -> EntryModel {
        EntryModel {
            issue: self.issue@,
            attempt: self.attempt,
            worker_host: opt_text(self.worker_host),
            workspace_path: opt_text(self.workspace_path),
            started_at: self.started_at@,
            status: self.status,
            live_session: self.live_session,
            last_error: opt_text(self.last_error),
        }
    }
}

impl Clone for RunningEntry {
    fn clone(&self) -> (r: RunningEntry)
        ensures
            r@ == self@,
    {
        RunningEntry {
            issue: self.issue.clone(),
            attempt: self.attempt,
            worker_host: clone_opt(&self.worker_host),
            workspace_path: clone_opt(&self.workspace_path),
            started_at: self.started_at,
            status: self.status,
            live_session: self.live_session.clone(),
            last_error: clone_opt(&self.last_error),
        }
    }
}

/// An attempt that waits to be made again.
#[derive(Debug, PartialEq, Eq)]
pub struct RetryEntry {
    pub issue_id: String,
    pub identifier: String,
    pub attempt: u32,
    pub due_at_ms: u64,
    pub error: Option<String>,
    pub worker_host: Option<String>,
    pub workspace_path: Option<String>,
}

/// The model of an attempt that waits to be made again.
pub struct RetryModel {
    pub issue_id: Seq<char>,
    pub identifier: Seq<char>,
    pub attempt: u32,
    pub due_at_ms: int,
    pub error: Option<Seq<char>>,
    pub worker_host: Option<Seq<char>>,
    pub workspace_path: Option<Seq<char>>,
}

impl View for RetryEntry {
    type V = RetryModel;

    open spec fn view(&self) -> RetryModel {
        RetryModel {
            issue_id: self.issue_id@,
            identifier: self.identifier@,
            attempt: self.attempt,
            due_at_ms: self.due_at_ms as int,
            error: opt_text(self.error),
            worker_host: opt_text(self.worker_host),
            workspace_path: opt_text(self.workspace_path),
        }
    }
}

impl Clone for RetryEntry {
    fn clone(&self) -> (r: RetryEntry)
        ensures
            r == *self,
    {
        RetryEntry {
            issue_id: self.issue_id.clone(),
            identifier: self.identifier.clone(),
            attempt: self.attempt,
            due_at_ms: self.due_at_ms,
            error: clone_opt(&self.error),
            worker_host: clone_opt(&self.worker_host),
            workspace_path: clone_opt(&self.workspace_path),
        }
    }
}

/// What all sessions together have used.
#[derive(Debug, Clone, Copy, PartialEq, Eq, Structural)]
pub struct CodexTotals {
    pub input_tokens: u64,
    pub output_tokens: u64,
    pub total_tokens: u64,
    pub runtime_seconds: u64,
}

impl Default for CodexTotals {
    fn default() -> (r: CodexTotals)
        ensures
            r == (CodexTotals {
                input_tokens: 0,
                output_tokens: 0,
                total_tokens: 0,
                runtime_seconds: 0,
            }),
    {
        CodexTotals { input_tokens: 0, output_tokens: 0, total_tokens: 0, runtime_seconds: 0 }
    }
}

/// What a session reports.
#[derive(Debug, PartialEq)]
pub struct AgentUpdate {
    pub event: String,
    pub timestamp: Timestamp,
    pub session_id: Option<String>,
    pub thread_id: Option<String>,
    pub turn_id: Option<String>,
    pub codex_app_server_pid: Option<String>,
    pub worker_host: Option<String>,
    pub last_message: Option<String>,
    pub usage: Option<JsonValue>,
    pub rate_limits: Option<JsonValue>,
    pub payload: Option<JsonValue>,
}

/// Whether two updates agree in everything but how their values are stored.
pub open spec fn same_update(a: AgentUpdate, b: AgentUpdate) -> bool {
    &&& opt_json_value(a.usage) == opt_json_value(b.usage)
    &&& opt_json_value(a.rate_limits) == opt_json_value(b.rate_limits)
    &&& opt_json_value(a.payload) == opt_json_value(b.payload)
    &&& a == (AgentUpdate { usage: a.usage, rate_limits: a.rate_limits, payload: a.payload, ..b })
}

impl Clone for AgentUpdate {
    fn clone(&self) -> (r: AgentUpdate)
        ensures
            same_update(r, *self),
    {
        AgentUpdate {
            event: self.event.clone(),
            timestamp: self.timestamp,
            session_id: clone_opt(&self.session_id),
            thread_id: clone_opt(&self.thread_id),
            turn_id: clone_opt(&self.turn_id),
            codex_app_server_pid: clone_opt(&self.codex_app_server_pid),
            worker_host: clone_opt(&self.worker_host),
            last_message: clone_opt(&self.last_message),
            usage: clone_in(self.usage.as_ref()),
            rate_limits: clone_in(self.rate_limits.as_ref()),
            payload: clone_in(self.payload.as_ref()),
        }
    }
}

// ---------------------------------------------------------------------------
// The scheduler
// ---------------------------------------------------------------------------

/// What the scheduler knows.
#[derive(Debug, PartialEq, Eq)]
pub struct OrchestratorRuntimeState {
    pub poll_interval_ms: u64,
    pub max_concurrent_agents: usize,
    pub next_poll_due_at_ms: Option<u64>,
    pub poll_check_in_progress: bool,
    pub running: OrderedMap<RunningEntry>,
    pub completed: OrderedSet,
    pub claimed: OrderedSet,
    pub retry_attempts: OrderedMap<RetryEntry>,
    pub codex_totals: CodexTotals,
    pub codex_rate_limits: Option<JsonValue>,
}

impl OrchestratorRuntimeState {
    /// The state before anything has been scheduled.
    pub fn new(poll_interval_ms: u64, max_concurrent_agents: usize) -> (r:
        OrchestratorRuntimeState)
        ensures
            r.poll_interval_ms == poll_interval_ms,
            r.max_concurrent_agents == max_concurrent_agents,
            r.next_poll_due_at_ms is None,
            !r.poll_check_in_progress,
            r.running@ == Map::<Seq<char>, RunningEntry>::empty(),
            r.completed@ == Set::<Seq<char>>::empty(),
            r.claimed@ == Set::<Seq<char>>::empty(),
            r.retry_attempts@ == Map::<Seq<char>, RetryEntry>::empty(),
            r.codex_totals == (CodexTotals {
                input_tokens: 0,
                output_tokens: 0,
                total_tokens: 0,
                runtime_seconds: 0,
            }),
            r.codex_rate_limits is None,
    {
        OrchestratorRuntimeState {
            poll_interval_ms,
            max_concurrent_agents,
            next_poll_due_at_ms: None,
            poll_check_in_progress: false,
            running: OrderedMap::new(),
            completed: OrderedSet::new(),
            claimed: OrderedSet::new(),
            retry_attempts: OrderedMap::new(),
            codex_totals: CodexTotals::default(),
            codex_rate_limits: None,
        }
    }
}

impl Default for OrchestratorRuntimeState {
    fn default() -> (r: OrchestratorRuntimeState)
        ensures
            r.poll_interval_ms == 0,
            r.max_concurrent_agents == 0,
            r.next_poll_due_at_ms is None,
            !r.poll_check_in_progress,
            r.running@ == Map::<Seq<char>, RunningEntry>::empty(),
            r.completed@ == Set::<Seq<char>>::empty(),
            r.claimed@ == Set::<Seq<char>>::empty(),
            r.retry_attempts@ == Map::<Seq<char>, RetryEntry>::empty(),
            r.codex_totals == (CodexTotals {
                input_tokens: 0,
                output_tokens: 0,
                total_tokens: 0,
                runtime_seconds: 0,
            }),
            r.codex_rate_limits is None,
    {
        OrchestratorRuntimeState::new(0, 0)
    }
}

/// Whether two states agree in all that they tell.
pub open spec fn same_state(a: OrchestratorRuntimeState, b: OrchestratorRuntimeState) -> bool {
    &&& a.poll_interval_ms == b.poll_interval_ms
    &&& a.max_concurrent_agents == b.max_concurrent_agents
    &&& a.next_poll_due_at_ms == b.next_poll_due_at_ms
    &&& a.poll_check_in_progress == b.poll_check_in_progress
    &&& a.running@.dom() == b.running@.dom()
    &&& forall|id: Seq<char>| #[trigger]
        a.running@.contains_key(id) ==> a.running@[id]@ == b.running@[id]@
    &&& a.completed@ == b.completed@
    &&& a.claimed@ == b.claimed@
    &&& a.retry_attempts@ == b.retry_attempts@
    &&& a.codex_totals == b.codex_totals
    &&& opt_json_value(a.codex_rate_limits) == opt_json_value(b.codex_rate_limits)
}

impl Clone for OrchestratorRuntimeState {
    fn clone(&self) -> (r: OrchestratorRuntimeState)
        ensures
            same_state(r, *self),
    {
        let running = self.running.clone();
        let retry_attempts = self.retry_attempts.clone();
        assert(retry_attempts@ =~= self.retry_attempts@);
        OrchestratorRuntimeState {
            poll_interval_ms: self.poll_interval_ms,
            max_concurrent_agents: self.max_concurrent_agents,
            next_poll_due_at_ms: self.next_poll_due_at_ms,
            poll_check_in_progress: self.poll_check_in_progress,
            running,
            completed: self.completed.clone(),
            claimed: self.claimed.clone(),
            retry_attempts,
            codex_totals: self.codex_totals,
            codex_rate_limits: clone_in(self.codex_rate_limits.as_ref()),
        }
    }
}

// ---------------------------------------------------------------------------
// Laws
// ---------------------------------------------------------------------------

/// An issue can be worked on only if its id, its identifier, its title and its state
/// are all there and not blank.
pub proof fn lemma_required_fields(issue: IssueModel)
    ensures
        required_fields(issue) <==> trim(issue.id).len() > 0 && trim(issue.identifier).len() > 0
            && trim(issue.title).len() > 0 && trim(issue.state).len() > 0,
{
}

/// Only an issue that is still to do is blocked, and by an issue that is not known to
/// be done with: adding one to what blocks it blocks it exactly then.
pub proof fn lemma_blockers_block(
    issue: IssueModel,
    blocker: BlockerModel,
    terminal_states: Seq<Seq<char>>,
)
    ensures
        ({
            let more = IssueModel { blocked_by: issue.blocked_by.push(blocker), ..issue };
            let done = blocker.state is Some && exists|i: int|
                0 <= i < terminal_states.len() && ascii_lower(trim(#[trigger] terminal_states[i]))
                    == ascii_lower(trim(blocker.state->0));
            &&& blocked(more, terminal_states) <==> blocked(issue, terminal_states) || (ascii_lower(
                trim(issue.state),
            ) == "todo"@ && !done)
            &&& issue.blocked_by.len() == 0 ==> !blocked(issue, terminal_states)
            &&& ascii_lower(trim(issue.state)) != "todo"@ ==> !blocked(issue, terminal_states)
        }),
{
    let more = IssueModel { blocked_by: issue.blocked_by.push(blocker), ..issue };
    let names = normal_states(terminal_states);
    if let Some(state) = blocker.state {
        let name = ascii_lower(trim(state));
        if names.contains(name) {
            let i = choose|i: int| 0 <= i < names.len() && names[i] == name;
            assert(ascii_lower(trim(terminal_states[i])) == name);
        }
        assert forall|i: int|
            0 <= i < terminal_states.len() && ascii_lower(trim(#[trigger] terminal_states[i]))
                == name implies names.contains(name) by {
            assert(names[i] == name);
        }
    }
    let n = issue.blocked_by.len() as int;
    assert(more.blocked_by[n] == blocker);
    assert forall|i: int| 0 <= i < n implies #[trigger] more.blocked_by[i]
        == issue.blocked_by[i] by {}
    if blocked(issue, terminal_states) {
        let i = choose|i: int|
            0 <= i < n && blocks(#[trigger] issue.blocked_by[i], terminal_states);
        assert(blocks(more.blocked_by[i], terminal_states));
    }
    if blocked(more, terminal_states) {
        let i = choose|i: int|
            0 <= i < more.blocked_by.len() && blocks(
                #[trigger] more.blocked_by[i],
                terminal_states,
            );
        if i < n {
            assert(blocks(issue.blocked_by[i], terminal_states));
        }
    }
}

/// A session begins without ids, reports or counts.
pub proof fn lemma_fresh_session_is_empty()
    ensures
        fresh_session().session_id is None,
        fresh_session().thread_id is None,
        fresh_session().turn_id is None,
        fresh_session().codex_app_server_pid is None,
        fresh_session().last_codex_event is None,
        fresh_session().last_codex_timestamp is None,
        fresh_session().last_codex_message is None,
        fresh_session().codex_input_tokens == 0,
        fresh_session().codex_output_tokens == 0,
        fresh_session().codex_total_tokens == 0,
        fresh_session().last_reported_input_tokens == 0,
        fresh_session().last_reported_output_tokens == 0,
        fresh_session().last_reported_total_tokens == 0,
        fresh_session().turn_count == 0,
{
}

} // verus!
