//! The scheduler: which issues are started, what is known of running attempts,
//! and when failed ones are tried again.

use crate::accounting::{
    apply_update, event_status, extract_rate_limits, newer, status_from_event, sums_fit,
    token_deltas, update_fits, update_rate_limits, updated_session, updated_totals,
};
use crate::config::{limit_for_state, ServiceConfig, ServiceModel};
use crate::domain::{
    blocked, fresh_session, normal_state, normal_states, normalize_state, required_fields,
    AgentUpdate, AttemptStatus, CodexTotals, Issue, IssueModel, LiveSession,
    OrchestratorRuntimeState, RetryEntry, RunningEntry,
};
use crate::json::opt_json_value;
use crate::ordered::{
    count_keys, lemma_ascending_no_duplicates, lemma_count_all_keys, lemma_count_first_keys,
    lemma_map_finite, lemma_sorted_keys_lists, lists, sorted_keys, OrderedMap,
};
use crate::text::{
    ascii_lower, comes_before, lemma_text_before_irreflexive, lemma_text_before_total,
    lemma_text_before_transitive, same_text, text_before, texts, trim,
};
use crate::timestamp::{
    div_to_zero, nanos_between, time_before, valid_time, TimePoint, Timestamp, LONGEST_SPAN_SECONDS,
};
use vstd::prelude::*;

verus! {

pub const CONTINUATION_RETRY_DELAY_MS: u64 = 1_000;

/// The scheduler: its configuration and what it knows.
#[derive(Debug)]
pub struct Orchestrator {
    pub config: ServiceConfig,
    pub state: OrchestratorRuntimeState,
}

// ---------------------------------------------------------------------------
// Counting running attempts
// ---------------------------------------------------------------------------

/// The running attempts.
pub type Running = Map<Seq<char>, RunningEntry>;

/// Whether the issue of a running attempt is in a state.
pub open spec fn at_state(running: Running, state: Seq<char>) -> spec_fn(Seq<char>) -> bool {
    |id: Seq<char>| normal_state(running[id].issue@.state) == state
}

/// The running attempts whose issue is in a state.
pub open spec fn running_with_state(running: Running, state: Seq<char>) -> Set<Seq<char>> {
    running.dom().filter(at_state(running, state))
}

/// How many attempts run for issues in a state, given by its normal name.
pub open spec fn running_in_state(running: Running, state: Seq<char>) -> nat {
    running_with_state(running, state).len()
}

/// The count of a state, where states without an entry count zero.
pub open spec fn count_or_zero(counts: Map<Seq<char>, usize>, state: Seq<char>) -> nat {
    if counts.contains_key(state) {
        counts[state] as nat
    } else {
        0
    }
}

// ---------------------------------------------------------------------------
// Eligibility
// ---------------------------------------------------------------------------

/// Why an issue is not started.
#[derive(Debug, PartialEq, Eq)]
pub enum EligibilityBlockReason {
    MissingRequiredFields,
    InactiveState(String),
    TerminalState(String),
    AlreadyRunning,
    AlreadyClaimed,
    NoGlobalSlots,
    NoStateSlots { state: String, limit: usize },
    TodoBlocked,
}

/// The model of why an issue is not started.
pub enum BlockModel {
    MissingRequiredFields,
    InactiveState(Seq<char>),
    TerminalState(Seq<char>),
    AlreadyRunning,
    AlreadyClaimed,
    NoGlobalSlots,
    NoStateSlots { state: Seq<char>, limit: usize },
    TodoBlocked,
}

impl View for EligibilityBlockReason {
    type V = BlockModel;

    open spec fn view(&self) -> BlockModel {
        match *self {
            EligibilityBlockReason::MissingRequiredFields => BlockModel::MissingRequiredFields,
            EligibilityBlockReason::InactiveState(state) => BlockModel::InactiveState(state@),
            EligibilityBlockReason::TerminalState(state) => BlockModel::TerminalState(state@),
            EligibilityBlockReason::AlreadyRunning => BlockModel::AlreadyRunning,
            EligibilityBlockReason::AlreadyClaimed => BlockModel::AlreadyClaimed,
            EligibilityBlockReason::NoGlobalSlots => BlockModel::NoGlobalSlots,
            EligibilityBlockReason::NoStateSlots { state, limit } => BlockModel::NoStateSlots {
                state: state@,
                limit,
            },
            EligibilityBlockReason::TodoBlocked => BlockModel::TodoBlocked,
        }
    }
}

/// The model of an optional reason.
pub open spec fn opt_reason(reason: Option<EligibilityBlockReason>) -> Option<BlockModel> {
    match reason {
        Some(r) => Some(r@),
        None => None,
    }
}

/// How many attempts may still be started.
pub open spec fn free_slots(state: OrchestratorRuntimeState) -> nat {
    if state.running@.len() < state.max_concurrent_agents {
        (state.max_concurrent_agents - state.running@.len()) as nat
    } else {
        0
    }
}

/// Why an issue is not started; the first reason that holds counts.
pub open spec fn reason_not_to_start(
    config: ServiceModel,
    state: OrchestratorRuntimeState,
    issue: IssueModel,
) -> Option<BlockModel> {
    let normal = normal_state(issue.state);
    let limit = limit_for_state(config.agent, issue.state);
    if !required_fields(issue) {
        Some(BlockModel::MissingRequiredFields)
    } else if normal_states(config.tracker.terminal_states).contains(normal) {
        Some(BlockModel::TerminalState(issue.state))
    } else if !normal_states(config.tracker.active_states).contains(normal) {
        Some(BlockModel::InactiveState(issue.state))
    } else if state.running@.contains_key(issue.id) {
        Some(BlockModel::AlreadyRunning)
    } else if state.claimed@.contains(issue.id) {
        Some(BlockModel::AlreadyClaimed)
    } else if free_slots(state) == 0 {
        Some(BlockModel::NoGlobalSlots)
    } else if running_in_state(state.running@, normal) >= limit {
        Some(BlockModel::NoStateSlots { state: issue.state, limit })
    } else if blocked(issue, config.tracker.terminal_states) {
        Some(BlockModel::TodoBlocked)
    } else {
        None
    }
}

impl Orchestrator {
    /// The scheduler before anything has been started.
    pub fn new(config: ServiceConfig) -> (r: Orchestrator)
        ensures
            r.config == config,
            r.state.poll_interval_ms == config.polling.interval_ms,
            r.state.max_concurrent_agents == config.agent.max_concurrent_agents,
            r.state.next_poll_due_at_ms is None,
            !r.state.poll_check_in_progress,
            r.state.running@ == Map::<Seq<char>, RunningEntry>::empty(),
            r.state.completed@ == Set::<Seq<char>>::empty(),
            r.state.claimed@ == Set::<Seq<char>>::empty(),
            r.state.retry_attempts@ == Map::<Seq<char>, RetryEntry>::empty(),
            r.state.codex_totals == (CodexTotals {
                input_tokens: 0,
                output_tokens: 0,
                total_tokens: 0,
                runtime_seconds: 0,
            }),
            r.state.codex_rate_limits is None,
    {
        let state = OrchestratorRuntimeState::new(
            config.polling.interval_ms,
            config.agent.max_concurrent_agents,
        );
        Orchestrator { config, state }
    }

    /// Takes over a configuration that was read again.
    pub fn refresh_runtime_config(&mut self, config: ServiceConfig)
        ensures
            *final(self) == (Orchestrator {
                config,
                state: OrchestratorRuntimeState {
                    poll_interval_ms: config.polling.interval_ms,
                    max_concurrent_agents: config.agent.max_concurrent_agents,
                    ..old(self).state
                },
            }),
    {
        self.state.poll_interval_ms = config.polling.interval_ms;
        self.state.max_concurrent_agents = config.agent.max_concurrent_agents;
        self.config = config;
    }

    /// How many attempts may still be started.
    pub fn available_global_slots(&self) -> (r: usize)
        ensures
            r == free_slots(self.state),
    {
        self.state.max_concurrent_agents.saturating_sub(self.state.running.len())
    }

    /// How many attempts run for issues in a state.
    pub fn running_issue_count_for_state(&self, issue_state: &str) -> (r: usize)
        ensures
            r == running_in_state(self.state.running@, normal_state(issue_state@)),
    {
        let normal = normalize_state(issue_state);
        let ghost running = self.state.running@;
        let ghost keys = sorted_keys(running.dom());
        let total: usize = self.state.running.len();
        let mut count: usize = 0;
        let mut i: usize = 0;
        while i < total
            invariant
                i <= total,
                running == self.state.running@,
                keys == sorted_keys(running.dom()),
                total == keys.len(),
                normal@ == normal_state(issue_state@),
                count <= i,
                count == count_keys(keys, i as int, at_state(running, normal@)),
            decreases total - i,
        {
            let (_, entry) = self.state.running.entry(i);
            if same_text(entry.issue.normalized_state().as_str(), normal.as_str()) {
                count = count + 1;
            }
            i = i + 1;
        }
        proof {
            lemma_count_all_keys(keys, running.dom(), at_state(running, normal@));
        }
        count
    }

    /// How many attempts run for each state, by its normal name.
    pub fn running_counts_by_state(&self) -> (r: OrderedMap<usize>)
        ensures
            forall|state: Seq<char>| #[trigger]
                count_or_zero(r@, state) == running_in_state(self.state.running@, state),
            forall|state: Seq<char>| #[trigger]
                r@.contains_key(state) ==> running_in_state(self.state.running@, state) > 0,
    {
        let ghost running = self.state.running@;
        let ghost keys = sorted_keys(running.dom());
        let total: usize = self.state.running.len();
        let mut counts: OrderedMap<usize> = OrderedMap::new();
        let mut i: usize = 0;
        while i < total
            invariant
                i <= total,
                running == self.state.running@,
                keys == sorted_keys(running.dom()),
                lists(keys, running.dom()),
                total == keys.len(),
                forall|state: Seq<char>| #[trigger]
                    count_or_zero(counts@, state) == count_keys(keys, i as int, at_state(running, state)),
                forall|state: Seq<char>| #[trigger]
                    counts@.contains_key(state) ==> counts@[state] > 0,
            decreases total - i,
        {
            let (_, entry) = self.state.running.entry(i);
            let normal = entry.issue.normalized_state();
            let used: usize = match counts.get(normal.as_str()) {
                Some(count) => *count,
                None => 0,
            };
            let ghost before = counts@;
            proof {
                lemma_count_first_keys(keys, i as int, at_state(running, normal@));
                assert(used == count_or_zero(before, normal@));
            }
            let _ = counts.insert(normal, used + 1);
            proof {
                assert forall|state: Seq<char>| #[trigger]
                    count_or_zero(counts@, state) == count_keys(keys, i + 1, at_state(running, state)) by {
                    assert(count_or_zero(before, state) == count_keys(keys, i as int, at_state(running, state)));
                }
            }
            i = i + 1;
        }
        proof {
            assert forall|state: Seq<char>| #[trigger]
                count_or_zero(counts@, state) == running_in_state(running, state) by {
                lemma_count_all_keys(keys, running.dom(), at_state(running, state));
            }
            assert forall|state: Seq<char>| #[trigger] counts@.contains_key(state) implies
                running_in_state(running, state) > 0 by {
                assert(count_or_zero(counts@, state) == running_in_state(running, state));
            }
        }
        counts
    }

    /// Why an issue is not started.
    pub fn block_reason(&self, issue: &Issue) -> (r: Option<EligibilityBlockReason>)
        ensures
            opt_reason(r) == reason_not_to_start(self.config@, self.state, issue@),
    {
        if !issue.has_required_fields() {
            return Some(EligibilityBlockReason::MissingRequiredFields);
        }
        let normal = issue.normalized_state();
        let active = self.config.normalized_active_states();
        let terminal = self.config.normalized_terminal_states();
        if terminal.contains(normal.as_str()) {
            return Some(EligibilityBlockReason::TerminalState(issue.state.clone()));
        }
        if !active.contains(normal.as_str()) {
            return Some(EligibilityBlockReason::InactiveState(issue.state.clone()));
        }
        if self.state.running.contains_key(issue.id.as_str()) {
            return Some(EligibilityBlockReason::AlreadyRunning);
        }
        if self.state.claimed.contains(issue.id.as_str()) {
            return Some(EligibilityBlockReason::AlreadyClaimed);
        }
        if self.available_global_slots() == 0 {
            return Some(EligibilityBlockReason::NoGlobalSlots);
        }
        let limit: usize = self.config.max_concurrent_agents_for_state(issue.state.as_str());
        if self.running_issue_count_for_state(issue.state.as_str()) >= limit {
            return Some(
                EligibilityBlockReason::NoStateSlots { state: issue.state.clone(), limit },
            );
        }
        if issue.has_non_terminal_blocker(self.config.tracker.terminal_states.as_slice()) {
            return Some(EligibilityBlockReason::TodoBlocked);
        }
        None
    }
}

// ---------------------------------------------------------------------------
// Order and selection
// ---------------------------------------------------------------------------

/// The rank of a priority; issues without one come last.
pub open spec fn priority_rank(priority: Option<i64>) -> int {
    match priority {
        Some(p) => p as int,
        None => i64::MAX as int,
    }
}

/// Whether a creation time comes before another; an unknown one comes first.
pub open spec fn created_before(a: Option<TimePoint>, b: Option<TimePoint>) -> bool {
    match (a, b) {
        (None, Some(_)) => true,
        (Some(s), Some(t)) => time_before(s, t),
        (_, None) => false,
    }
}

/// Whether an issue is started before another: by priority, then by age, then by
/// identifier.
pub open spec fn issue_before(a: IssueModel, b: IssueModel) -> bool {
    let p = priority_rank(a.priority);
    let q = priority_rank(b.priority);
    p < q || (p == q && (created_before(a.created_at, b.created_at) || (a.created_at == b.created_at
        && text_before(a.identifier, b.identifier))))
}

/// Whether two issues are equal in all by which they are ordered.
pub open spec fn issue_ties(a: IssueModel, b: IssueModel) -> bool {
    &&& priority_rank(a.priority) == priority_rank(b.priority)
    &&& a.created_at == b.created_at
    &&& a.identifier == b.identifier
}

/// Whether issue `i` of a list is started before issue `j`; issues that tie stay
/// in the order of the list.
pub open spec fn ranks_before(issues: Seq<Issue>, i: int, j: int) -> bool {
    issue_before(issues[i]@, issues[j]@) || (issue_ties(issues[i]@, issues[j]@) && i < j)
}

proof fn lemma_issue_order_total(a: IssueModel, b: IssueModel)
    ensures
        issue_before(a, b) || issue_before(b, a) || issue_ties(a, b),
        !(issue_before(a, b) && issue_before(b, a)),
        issue_ties(a, b) ==> !issue_before(a, b),
{
    if a.identifier != b.identifier {
        lemma_text_before_total(a.identifier, b.identifier);
        if text_before(a.identifier, b.identifier) && text_before(b.identifier, a.identifier) {
            lemma_text_before_transitive(a.identifier, b.identifier, a.identifier);
        }
    }
    lemma_text_before_irreflexive(a.identifier);
    lemma_text_before_irreflexive(b.identifier);
}

proof fn lemma_ranks_transitive(issues: Seq<Issue>, i: int, j: int, k: int)
    requires
        ranks_before(issues, i, j),
        ranks_before(issues, j, k),
    ensures
        ranks_before(issues, i, k),
{
    let a = issues[i]@;
    let b = issues[j]@;
    let c = issues[k]@;
    if text_before(a.identifier, b.identifier) && text_before(b.identifier, c.identifier) {
        lemma_text_before_transitive(a.identifier, b.identifier, c.identifier);
    }
}

proof fn lemma_ranks_irreflexive(issues: Seq<Issue>, i: int)
    ensures
        !ranks_before(issues, i, i),
{
    lemma_text_before_irreflexive(issues[i]@.identifier);
}

/// Whether issue `left` is started before issue `right`.
pub fn issue_comes_before(left: &Issue, right: &Issue) -> (r: bool)
    ensures
        r == issue_before(left@, right@),
{
    let p: i64 = left.priority.unwrap_or(i64::MAX);
    let q: i64 = right.priority.unwrap_or(i64::MAX);
    if p != q {
        return p < q;
    }
    match (left.created_at, right.created_at) {
        (None, Some(_)) => {
            return true;
        },
        (Some(_), None) => {
            return false;
        },
        (Some(s), Some(t)) => {
            if s.is_before(&t) {
                return true;
            }
            if t.is_before(&s) {
                return false;
            }
            assert(s@ == t@);
        },
        (None, None) => {},
    }
    comes_before(left.identifier.as_str(), right.identifier.as_str())
}

/// Whether an issue of a list may be started.
pub open spec fn eligible(
    config: ServiceModel,
    state: OrchestratorRuntimeState,
    issues: Seq<Issue>,
    i: int,
) -> bool {
    0 <= i < issues.len() && reason_not_to_start(config, state, issues[i]@) is None
}

/// Whether `order` ranks those of the first `n` issues that may be started: each
/// of them once, and each before those that come behind it.
pub open spec fn ranks_first(
    config: ServiceModel,
    state: OrchestratorRuntimeState,
    issues: Seq<Issue>,
    n: int,
    order: Seq<int>,
) -> bool {
    &&& forall|i: int| #[trigger]
        order.contains(i) <==> i < n && eligible(config, state, issues, i)
    &&& forall|a: int, b: int|
        0 <= a < b < order.len() ==> ranks_before(issues, #[trigger] order[a], #[trigger] order[b])
}

/// The issues that may be started, in the order in which they are started.
pub open spec fn ranking(
    config: ServiceModel,
    state: OrchestratorRuntimeState,
    issues: Seq<Issue>,
) -> Seq<int> {
    choose|order: Seq<int>| ranks_first(config, state, issues, issues.len() as int, order)
}

/// There is one ranking.
pub proof fn lemma_ranking_unique(
    config: ServiceModel,
    state: OrchestratorRuntimeState,
    issues: Seq<Issue>,
    s: Seq<int>,
    t: Seq<int>,
)
    requires
        ranks_first(config, state, issues, issues.len() as int, s),
        ranks_first(config, state, issues, issues.len() as int, t),
    ensures
        s == t,
{
    assert forall|i: int| s.contains(i) <==> t.contains(i) by {
        assert(s.contains(i) <==> i < issues.len() && eligible(config, state, issues, i));
        assert(t.contains(i) <==> i < issues.len() && eligible(config, state, issues, i));
    }
    lemma_sorted_lists_equal(issues, s, t);
}

proof fn lemma_sorted_lists_equal(issues: Seq<Issue>, s: Seq<int>, t: Seq<int>)
    requires
        forall|a: int, b: int|
            0 <= a < b < s.len() ==> ranks_before(issues, #[trigger] s[a], #[trigger] s[b]),
        forall|a: int, b: int|
            0 <= a < b < t.len() ==> ranks_before(issues, #[trigger] t[a], #[trigger] t[b]),
        forall|i: int| s.contains(i) <==> t.contains(i),
    ensures
        s == t,
    decreases s.len(),
{
    if s.len() == 0 {
        if t.len() > 0 {
            assert(t.contains(t[0]));
            assert(s.contains(t[0]));
        }
        assert(s =~= t);
    } else {
        let a = s.last();
        assert(s.contains(a));
        assert(t.contains(a));
        let b = t.last();
        assert(t.contains(b));
        assert(s.contains(b));
        let i = choose|i: int| 0 <= i < s.len() && s[i] == b;
        let j = choose|j: int| 0 <= j < t.len() && t[j] == a;
        if a != b {
            assert(ranks_before(issues, s[i], s[s.len() - 1]));
            assert(ranks_before(issues, t[j], t[t.len() - 1]));
            lemma_ranks_transitive(issues, a, b, a);
            lemma_ranks_irreflexive(issues, a);
        }
        let s1 = s.drop_last();
        let t1 = t.drop_last();
        assert forall|k: int| s1.contains(k) <==> t1.contains(k) by {
            lemma_ranks_irreflexive(issues, a);
            if s1.contains(k) {
                let x = choose|x: int| 0 <= x < s1.len() && s1[x] == k;
                assert(s[x] == k);
                assert(s.contains(k));
                assert(ranks_before(issues, s[x], s[s.len() - 1]));
                assert(t.contains(k));
                let y = choose|y: int| 0 <= y < t.len() && t[y] == k;
                assert(y != t.len() - 1);
                assert(t1[y] == k);
            }
            if t1.contains(k) {
                let x = choose|x: int| 0 <= x < t1.len() && t1[x] == k;
                assert(t[x] == k);
                assert(t.contains(k));
                assert(ranks_before(issues, t[x], t[t.len() - 1]));
                assert(s.contains(k));
                let y = choose|y: int| 0 <= y < s.len() && s[y] == k;
                assert(y != s.len() - 1);
                assert(s1[y] == k);
            }
        }
        assert forall|x: int, y: int| 0 <= x < y < s1.len() implies ranks_before(
            issues,
            #[trigger] s1[x],
            #[trigger] s1[y],
        ) by {
            assert(ranks_before(issues, s[x], s[y]));
        }
        assert forall|x: int, y: int| 0 <= x < y < t1.len() implies ranks_before(
            issues,
            #[trigger] t1[x],
            #[trigger] t1[y],
        ) by {
            assert(ranks_before(issues, t[x], t[y]));
        }
        lemma_sorted_lists_equal(issues, s1, t1);
        assert(s =~= s1.push(a));
        assert(t =~= t1.push(a));
    }
}

/// An issue that may be started, put behind those that rank before it and before
/// the others, goes on with the ranking of the issues before it.
proof fn lemma_insert_ranked(
    config: ServiceModel,
    state: OrchestratorRuntimeState,
    issues: Seq<Issue>,
    i: int,
    order: Seq<int>,
    place: int,
)
    requires
        eligible(config, state, issues, i),
        ranks_first(config, state, issues, i, order),
        0 <= place <= order.len(),
        forall|a: int| 0 <= a < place ==> ranks_before(issues, #[trigger] order[a], i),
        forall|a: int| place <= a < order.len() ==> ranks_before(issues, i, #[trigger] order[a]),
    ensures
        ranks_first(config, state, issues, i + 1, order.insert(place, i)),
{
    let after = order.insert(place, i);
    assert forall|k: int| #[trigger] after.contains(k) <==> k < i + 1 && eligible(
        config,
        state,
        issues,
        k,
    ) by {
        if after.contains(k) && k != i {
            let x = choose|x: int| 0 <= x < after.len() && after[x] == k;
            if x < place {
                assert(order[x] == k);
            } else {
                assert(order[x - 1] == k);
            }
            assert(order.contains(k));
        }
        if k < i + 1 && eligible(config, state, issues, k) {
            if k == i {
                assert(after[place] == k);
            } else {
                assert(order.contains(k));
                let x = choose|x: int| 0 <= x < order.len() && order[x] == k;
                if x < place {
                    assert(after[x] == k);
                } else {
                    assert(after[x + 1] == k);
                }
            }
        }
    }
    assert forall|a: int, b: int| 0 <= a < b < after.len() implies ranks_before(
        issues,
        #[trigger] after[a],
        #[trigger] after[b],
    ) by {
        if a == place {
            assert(after[b] == order[b - 1]);
        } else if b == place {
            assert(after[a] == order[a]);
        } else {
            let a2 = if a < place { a } else { a - 1 };
            let b2 = if b < place { b } else { b - 1 };
            assert(after[a] == order[a2]);
            assert(after[b] == order[b2]);
        }
    }
}

/// How many of the first issues of an order rank before an issue, up to the first
/// that does not.
spec fn rank_place(issues: Seq<Issue>, order: Seq<int>, i: int, p: int) -> int
    decreases order.len() - p,
{
    if p < 0 || p >= order.len() || !ranks_before(issues, order[p], i) {
        p
    } else {
        rank_place(issues, order, i, p + 1)
    }
}

proof fn lemma_rank_place(issues: Seq<Issue>, order: Seq<int>, i: int, p: int)
    requires
        0 <= p <= order.len(),
        forall|a: int| 0 <= a < p ==> ranks_before(issues, #[trigger] order[a], i),
    ensures
        ({
            let place = rank_place(issues, order, i, p);
            &&& p <= place <= order.len()
            &&& forall|a: int| 0 <= a < place ==> ranks_before(issues, #[trigger] order[a], i)
            &&& place < order.len() ==> !ranks_before(issues, order[place], i)
        }),
    decreases order.len() - p,
{
    if p < order.len() && ranks_before(issues, order[p], i) {
        lemma_rank_place(issues, order, i, p + 1);
    }
}

/// The first issues of every list have a ranking.
proof fn lemma_prefix_ranking_exists(
    config: ServiceModel,
    state: OrchestratorRuntimeState,
    issues: Seq<Issue>,
    n: int,
) -> (order: Seq<int>)
    requires
        0 <= n <= issues.len(),
    ensures
        ranks_first(config, state, issues, n, order),
    decreases n,
{
    if n == 0 {
        Seq::empty()
    } else {
        let i = n - 1;
        let before = lemma_prefix_ranking_exists(config, state, issues, i);
        if eligible(config, state, issues, i) {
            lemma_rank_place(issues, before, i, 0);
            let place = rank_place(issues, before, i, 0);
            assert forall|a: int| place <= a < before.len() implies ranks_before(
                issues,
                i,
                #[trigger] before[a],
            ) by {
                let first = before[place];
                assert(before.contains(first));
                lemma_issue_order_total(issues[i]@, issues[first]@);
                assert(ranks_before(issues, i, first));
                if a > place {
                    assert(ranks_before(issues, before[place], before[a]));
                    lemma_ranks_transitive(issues, i, first, before[a]);
                }
            }
            lemma_insert_ranked(config, state, issues, i, before, place);
            before.insert(place, i)
        } else {
            assert forall|k: int| #[trigger] before.contains(k) <==> k < n && eligible(
                config,
                state,
                issues,
                k,
            ) by {}
            before
        }
    }
}

/// Every list of issues has a ranking: each issue that may be started stands in it
/// once, before those that come behind it.
pub proof fn lemma_ranking_ranks(
    config: ServiceModel,
    state: OrchestratorRuntimeState,
    issues: Seq<Issue>,
)
    ensures
        ranks_first(
            config,
            state,
            issues,
            issues.len() as int,
            ranking(config, state, issues),
        ),
{
    let order = lemma_prefix_ranking_exists(config, state, issues, issues.len() as int);
    assert(ranks_first(config, state, issues, issues.len() as int, order));
}

/// How many of the chosen issues are in a state, given by its normal name.
pub open spec fn chosen_in_state(issues: Seq<Issue>, chosen: Seq<int>, state: Seq<char>) -> nat
    decreases chosen.len(),
{
    if chosen.len() == 0 {
        0
    } else {
        let before = chosen_in_state(issues, chosen.drop_last(), state);
        if normal_state(issues[chosen.last()]@.state) == state {
            before + 1
        } else {
            before
        }
    }
}

/// The issues that are started when those of `order` are gone through one by one:
/// each for which there is a free slot, both in all and in its state.
pub open spec fn started(
    config: ServiceModel,
    state: OrchestratorRuntimeState,
    issues: Seq<Issue>,
    order: Seq<int>,
) -> Seq<int>
    decreases order.len(),
{
    if order.len() == 0 {
        Seq::empty()
    } else {
        let chosen = started(config, state, issues, order.drop_last());
        let issue = issues[order.last()]@;
        let normal = normal_state(issue.state);
        if chosen.len() < free_slots(state) && running_in_state(state.running@, normal)
            + chosen_in_state(issues, chosen, normal) < limit_for_state(config.agent, issue.state) {
            chosen.push(order.last())
        } else {
            chosen
        }
    }
}

/// Once all slots are taken, nothing more is started.
proof fn lemma_started_full(
    config: ServiceModel,
    state: OrchestratorRuntimeState,
    issues: Seq<Issue>,
    order: Seq<int>,
    n: int,
)
    requires
        0 <= n <= order.len(),
        started(config, state, issues, order.take(n)).len() >= free_slots(state),
    ensures
        started(config, state, issues, order) == started(config, state, issues, order.take(n)),
    decreases order.len(),
{
    if n == order.len() {
        assert(order.take(n) =~= order);
    } else {
        assert(order.drop_last().take(n) =~= order.take(n));
        lemma_started_full(config, state, issues, order.drop_last(), n);
    }
}

impl Orchestrator {
    /// The issues that may be started, in the order in which they are started.
    fn rank_candidates(&self, issues: &[Issue]) -> (r: Vec<usize>)
        ensures
            ranks_first(
                self.config@,
                self.state,
                issues@,
                issues@.len() as int,
                r@.map_values(|i: usize| i as int),
            ),
    {
        let mut order: Vec<usize> = Vec::new();
        let mut i: usize = 0;
        let ghost config = self.config@;
        let ghost state = self.state;
        while i < issues.len()
            invariant
                i <= issues@.len(),
                config == self.config@,
                state == self.state,
                ranks_first(
                    config,
                    state,
                    issues@,
                    i as int,
                    order@.map_values(|i: usize| i as int),
                ),
            decreases issues@.len() - i,
        {
            if self.block_reason(&issues[i]).is_none() {
                rank_issue(issues, &mut order, i, Ghost(config), Ghost(state));
            } else {
                proof {
                    let ints = order@.map_values(|i: usize| i as int);
                    assert forall|k: int| #[trigger] ints.contains(k) <==> k < i + 1 && eligible(
                        config,
                        state,
                        issues@,
                        k,
                    ) by {}
                }
            }
            i = i + 1;
        }
        order
    }

    /// The issues that are started next, in order: those for which nothing stands
    /// against it, as far as there are free slots.
    pub fn select_dispatch_candidates<'a>(&self, issues: &'a [Issue]) -> (r: Vec<&'a Issue>)
        ensures
            r@.map_values(|issue: &Issue| *issue) == started(
                self.config@,
                self.state,
                issues@,
                ranking(self.config@, self.state, issues@),
            ).map_values(|i: int| issues@[i]),
    {
        let order = self.rank_candidates(issues);
        let ghost config = self.config@;
        let ghost state = self.state;
        let ghost ints = order@.map_values(|i: usize| i as int);
        proof {
            lemma_ranking_ranks(config, state, issues@);
            lemma_ranking_unique(config, state, issues@, ints, ranking(config, state, issues@));
        }
        let mut selected: Vec<&'a Issue> = Vec::new();
        let ghost mut chosen: Seq<int> = Seq::empty();
        let mut remaining: usize = self.available_global_slots();
        let mut counts = self.running_counts_by_state();
        let mut i: usize = 0;
        proof {
            assert(ints.take(0) =~= Seq::empty());
        }
        while i < order.len() && remaining > 0
            invariant
                i <= order@.len(),
                config == self.config@,
                state == self.state,
                ints == order@.map_values(|i: usize| i as int),
                ranks_first(config, state, issues@, issues@.len() as int, ints),
                chosen == started(config, state, issues@, ints.take(i as int)),
                chosen.len() <= i,
                remaining + chosen.len() == free_slots(state),
                selected@.map_values(|issue: &Issue| *issue) == chosen.map_values(
                    |i: int| issues@[i],
                ),
                forall|name: Seq<char>| #[trigger]
                    count_or_zero(counts@, name) == running_in_state(state.running@, name)
                        + chosen_in_state(issues@, chosen, name),
            decreases order@.len() - i,
        {
            proof {
                assert(ints[i as int] == order@[i as int]);
                assert(ints.contains(ints[i as int]));
                assert(ints.take(i + 1).drop_last() =~= ints.take(i as int));
                assert(ints.take(i + 1).last() == order@[i as int]);
            }
            let issue = &issues[order[i]];
            let normal = normalize_state(issue.state.as_str());
            let limit: usize = self.config.max_concurrent_agents_for_state(issue.state.as_str());
            let used: usize = match counts.get(normal.as_str()) {
                Some(count) => *count,
                None => 0,
            };
            assert(used == count_or_zero(counts@, normal@));
            if used < limit {
                let ghost before = counts@;
                let ghost chosen_before = chosen;
                let ghost selected_before = selected@;
                selected.push(issue);
                remaining = remaining - 1;
                let _ = counts.insert(normal, used + 1);
                proof {
                    chosen = chosen.push(order@[i as int] as int);
                    assert(chosen.drop_last() =~= chosen_before);
                    assert forall|name: Seq<char>| #[trigger]
                        count_or_zero(counts@, name) == running_in_state(state.running@, name)
                            + chosen_in_state(issues@, chosen, name) by {
                        assert(count_or_zero(before, name) == running_in_state(
                            state.running@,
                            name,
                        ) + chosen_in_state(issues@, chosen_before, name));
                    }
                    let values = |issue: &Issue| *issue;
                    let at = |i: int| issues@[i];
                    assert(selected@.map_values(values) =~= selected_before.map_values(values).push(
                        *issue,
                    ));
                    assert(chosen.map_values(at) =~= chosen_before.map_values(at).push(*issue));
                }
            }
            i = i + 1;
        }
        proof {
            if i == order@.len() {
                assert(ints.take(i as int) =~= ints);
            } else {
                lemma_started_full(config, state, issues@, ints, i as int);
            }
        }
        selected
    }
}

/// Puts issue `i`, which may be started, into the ranking of the issues before it.
fn rank_issue(
    issues: &[Issue],
    order: &mut Vec<usize>,
    i: usize,
    Ghost(config): Ghost<ServiceModel>,
    Ghost(state): Ghost<OrchestratorRuntimeState>,
)
    requires
        i < issues@.len(),
        eligible(config, state, issues@, i as int),
        ranks_first(
            config,
            state,
            issues@,
            i as int,
            old(order)@.map_values(|i: usize| i as int),
        ),
    ensures
        ranks_first(
            config,
            state,
            issues@,
            i + 1,
            final(order)@.map_values(|i: usize| i as int),
        ),
{
    let ghost before = order@;
    let ghost ints = before.map_values(|i: usize| i as int);
    let mut place: usize = 0;
    while place < order.len()
        invariant_except_break
            place <= order@.len(),
            forall|a: int|
                0 <= a < place ==> ranks_before(issues@, #[trigger] ints[a], i as int),
        invariant
            i < issues@.len(),
            order@ == before,
            ints == before.map_values(|i: usize| i as int),
            ranks_first(config, state, issues@, i as int, ints),
        ensures
            place <= order@.len(),
            forall|a: int|
                0 <= a < place ==> ranks_before(issues@, #[trigger] ints[a], i as int),
            forall|a: int|
                place <= a < ints.len() ==> ranks_before(issues@, i as int, #[trigger] ints[a]),
        decreases order@.len() - place,
    {
        proof {
            assert(ints[place as int] == before[place as int]);
            assert(ints.contains(ints[place as int]));
            lemma_issue_order_total(issues@[i as int]@, issues@[before[place as int] as int]@);
        }
        if issue_comes_before(&issues[i], &issues[order[place]]) {
            proof {
                assert forall|a: int| place <= a < ints.len() implies ranks_before(
                    issues@,
                    i as int,
                    #[trigger] ints[a],
                ) by {
                    if a > place {
                        assert(ranks_before(issues@, ints[place as int], ints[a]));
                        lemma_ranks_transitive(issues@, i as int, ints[place as int], ints[a]);
                    }
                }
            }
            break;
        }
        place = place + 1;
    }
    order.insert(place, i);
    proof {
        assert(order@.map_values(|i: usize| i as int) =~= ints.insert(place as int, i as int));
        lemma_insert_ranked(config, state, issues@, i as int, ints, place as int);
    }
}

// ---------------------------------------------------------------------------
// Running attempts
// ---------------------------------------------------------------------------

/// An attempt that has just been started.
pub open spec fn new_entry(
    issue: Issue,
    attempt: Option<u32>,
    worker_host: Option<String>,
    started_at: Timestamp,
) -> RunningEntry {
    RunningEntry {
        issue,
        attempt,
        worker_host,
        workspace_path: None,
        started_at,
        status: AttemptStatus::PreparingWorkspace,
        live_session: fresh_session(),
        last_error: None,
    }
}

/// The whole seconds from one point in time to another; none if the first comes
/// later.
pub open spec fn seconds_passed(from: TimePoint, to: TimePoint) -> int {
    let seconds = div_to_zero(nanos_between(to, from), 1_000_000_000);
    if seconds < 0 {
        0
    } else {
        seconds
    }
}

/// The whole seconds that an attempt has run.
pub open spec fn runtime_seconds(entry: RunningEntry, now: TimePoint) -> int {
    seconds_passed(entry.started_at@, now)
}

/// The whole seconds that an attempt has run.
pub fn seconds_run(entry: &RunningEntry, now: &Timestamp) -> (r: u64)
    ensures
        r == runtime_seconds(*entry, now@),
        r <= LONGEST_SPAN_SECONDS,
{
    let seconds: i64 = now.seconds_since(&entry.started_at);
    if seconds < 0 {
        0
    } else {
        seconds as u64
    }
}

/// The entry of an issue after a change of the running attempts.
pub open spec fn running_with(running: Running, id: Seq<char>, entry: RunningEntry) -> Running {
    if running.contains_key(id) {
        running.insert(id, entry)
    } else {
        running
    }
}

impl Orchestrator {
    /// Notes that an attempt at an issue has been started.
    pub fn mark_running(
        &mut self,
        issue: Issue,
        attempt: Option<u32>,
        worker_host: Option<String>,
        started_at: Timestamp,
    )
        ensures
            final(self).state.running@ == old(self).state.running@.insert(
                issue.id@,
                new_entry(issue, attempt, worker_host, started_at),
            ),
            final(self).state.claimed@ == old(self).state.claimed@.insert(issue.id@),
            final(self).state.retry_attempts@ == old(self).state.retry_attempts@.remove(issue.id@),
            *final(self) == (Orchestrator {
                state: OrchestratorRuntimeState {
                    running: final(self).state.running,
                    claimed: final(self).state.claimed,
                    retry_attempts: final(self).state.retry_attempts,
                    ..old(self).state
                },
                ..*old(self)
            }),
    {
        let _ = self.state.claimed.insert(issue.id.clone());
        let _ = self.state.retry_attempts.remove(issue.id.as_str());
        let id = issue.id.clone();
        let entry = RunningEntry {
            issue,
            attempt,
            worker_host,
            workspace_path: None,
            started_at,
            status: AttemptStatus::PreparingWorkspace,
            live_session: LiveSession::default(),
            last_error: None,
        };
        let _ = self.state.running.insert(id, entry);
    }

    /// Notes where a running attempt works.
    pub fn update_runtime_info(
        &mut self,
        issue_id: &str,
        worker_host: Option<String>,
        workspace_path: String,
    )
        ensures
            final(self).state.running@ == running_with(
                old(self).state.running@,
                issue_id@,
                RunningEntry {
                    worker_host,
                    workspace_path: Some(workspace_path),
                    status: AttemptStatus::RunningBeforeRunHook,
                    ..old(self).state.running@[issue_id@]
                },
            ),
            *final(self) == (Orchestrator {
                state: OrchestratorRuntimeState {
                    running: final(self).state.running,
                    ..old(self).state
                },
                ..*old(self)
            }),
    {
        match self.state.running.remove(issue_id) {
            Some(entry) => {
                let changed = RunningEntry {
                    worker_host,
                    workspace_path: Some(workspace_path),
                    status: AttemptStatus::RunningBeforeRunHook,
                    ..entry
                };
                let _ = self.state.running.insert(issue_id.to_string(), changed);
                assert(self.state.running@ =~= old(self).state.running@.insert(issue_id@, changed));
            },
            None => {
                assert(self.state.running@ =~= old(self).state.running@);
            },
        }
    }

    /// Whether an update of a running attempt can be added without a count
    /// leaving its range.
    pub fn can_integrate(&self, issue_id: &str, update: &AgentUpdate) -> (r: bool)
        ensures
            r == (self.state.running@.contains_key(issue_id@) ==> update_fits(
                self.state.codex_totals,
                self.state.running@[issue_id@].live_session,
                *update,
            )),
    {
        match self.state.running.get(issue_id) {
            Some(entry) => sums_fit(&self.state.codex_totals, &entry.live_session, update),
            None => true,
        }
    }

    /// Takes in what a running attempt reports.
    pub fn integrate_update(&mut self, issue_id: &str, update: &AgentUpdate)
        requires
            old(self).state.running@.contains_key(issue_id@) ==> update_fits(
                old(self).state.codex_totals,
                old(self).state.running@[issue_id@].live_session,
                *update,
            ),
        ensures
            final(self).state.running@ == running_with(
                old(self).state.running@,
                issue_id@,
                RunningEntry {
                    live_session: updated_session(
                        old(self).state.running@[issue_id@].live_session,
                        *update,
                    ),
                    status: event_status(update.event@),
                    ..old(self).state.running@[issue_id@]
                },
            ),
            final(self).state.codex_totals == if old(self).state.running@.contains_key(issue_id@) {
                updated_totals(
                    old(self).state.codex_totals,
                    old(self).state.running@[issue_id@].live_session,
                    *update,
                )
            } else {
                old(self).state.codex_totals
            },
            opt_json_value(final(self).state.codex_rate_limits) == if old(
                self,
            ).state.running@.contains_key(issue_id@) {
                newer(
                    update_rate_limits(*update),
                    opt_json_value(old(self).state.codex_rate_limits),
                )
            } else {
                opt_json_value(old(self).state.codex_rate_limits)
            },
            *final(self) == (Orchestrator {
                state: OrchestratorRuntimeState {
                    running: final(self).state.running,
                    codex_totals: final(self).state.codex_totals,
                    codex_rate_limits: final(self).state.codex_rate_limits,
                    ..old(self).state
                },
                ..*old(self)
            }),
    {
        let entry = match self.state.running.remove(issue_id) {
            Some(entry) => entry,
            None => {
                assert(self.state.running@ =~= old(self).state.running@);
                return ;
            },
        };
        let (input, output, total) = token_deltas(&entry.live_session, update.usage.as_ref());
        let live_session = apply_update(entry.live_session, update, &self.state.codex_totals);
        let changed = RunningEntry {
            live_session,
            status: status_from_event(update.event.as_str()),
            ..entry
        };
        let _ = self.state.running.insert(issue_id.to_string(), changed);
        assert(self.state.running@ =~= old(self).state.running@.insert(issue_id@, changed));
        self.state.codex_totals.input_tokens = self.state.codex_totals.input_tokens + input;
        self.state.codex_totals.output_tokens = self.state.codex_totals.output_tokens + output;
        self.state.codex_totals.total_tokens = self.state.codex_totals.total_tokens + total;
        match extract_rate_limits(update) {
            Some(limits) => {
                self.state.codex_rate_limits = Some(limits);
            },
            None => {},
        }
    }

    /// Takes over what the tracker now says of an issue with a running attempt.
    pub fn refresh_running_issue(&mut self, issue: Issue)
        ensures
            final(self).state.running@ == running_with(
                old(self).state.running@,
                issue.id@,
                RunningEntry { issue, ..old(self).state.running@[issue.id@] },
            ),
            *final(self) == (Orchestrator {
                state: OrchestratorRuntimeState {
                    running: final(self).state.running,
                    ..old(self).state
                },
                ..*old(self)
            }),
    {
        let id = issue.id.clone();
        match self.state.running.remove(id.as_str()) {
            Some(entry) => {
                let changed = RunningEntry { issue, ..entry };
                let _ = self.state.running.insert(id, changed);
                assert(self.state.running@ =~= old(self).state.running@.insert(id@, changed));
            },
            None => {
                assert(self.state.running@ =~= old(self).state.running@);
            },
        }
    }

    /// The issues with running attempts, in the order of their ids.
    pub fn running_issue_ids(&self) -> (r: Vec<String>)
        ensures
            texts(r@) == sorted_keys(self.state.running@.dom()),
            lists(texts(r@), self.state.running@.dom()),
    {
        self.state.running.keys()
    }

    /// What is known of the running attempt at an issue.
    pub fn running_entry(&self, issue_id: &str) -> (r: Option<&RunningEntry>)
        ensures
            match r {
                Some(entry) => self.state.running@.contains_key(issue_id@) && *entry
                    == self.state.running@[issue_id@],
                None => !self.state.running@.contains_key(issue_id@),
            },
    {
        self.state.running.get(issue_id)
    }

    /// Takes the running attempt at an issue out of the state.
    pub fn take_running_entry(&mut self, issue_id: &str) -> (r: Option<RunningEntry>)
        ensures
            final(self).state.running@ == old(self).state.running@.remove(issue_id@),
            match r {
                Some(entry) => old(self).state.running@.contains_key(issue_id@) && entry == old(
                    self,
                ).state.running@[issue_id@],
                None => !old(self).state.running@.contains_key(issue_id@),
            },
            *final(self) == (Orchestrator {
                state: OrchestratorRuntimeState {
                    running: final(self).state.running,
                    ..old(self).state
                },
                ..*old(self)
            }),
    {
        self.state.running.remove(issue_id)
    }

    /// Lets an issue be started again.
    pub fn release_claim(&mut self, issue_id: &str)
        ensures
            final(self).state.claimed@ == old(self).state.claimed@.remove(issue_id@),
            final(self).state.retry_attempts@ == old(self).state.retry_attempts@.remove(issue_id@),
            *final(self) == (Orchestrator {
                state: OrchestratorRuntimeState {
                    claimed: final(self).state.claimed,
                    retry_attempts: final(self).state.retry_attempts,
                    ..old(self).state
                },
                ..*old(self)
            }),
    {
        let _ = self.state.claimed.remove(issue_id);
        let _ = self.state.retry_attempts.remove(issue_id);
    }

    /// Notes that work on an issue has come to an end.
    pub fn record_completion(&mut self, issue_id: &str)
        ensures
            final(self).state.completed@ == old(self).state.completed@.insert(issue_id@),
            *final(self) == (Orchestrator {
                state: OrchestratorRuntimeState {
                    completed: final(self).state.completed,
                    ..old(self).state
                },
                ..*old(self)
            }),
    {
        let _ = self.state.completed.insert(issue_id.to_string());
    }

    /// Adds the time that an attempt has run up to `now` to the totals.
    pub fn record_runtime_seconds_at(&mut self, entry: &RunningEntry, now: Timestamp)
        requires
            old(self).state.codex_totals.runtime_seconds + runtime_seconds(*entry, now@)
                <= u64::MAX,
        ensures
            *final(self) == (Orchestrator {
                state: OrchestratorRuntimeState {
                    codex_totals: CodexTotals {
                        runtime_seconds: (old(self).state.codex_totals.runtime_seconds
                            + runtime_seconds(*entry, now@)) as u64,
                        ..old(self).state.codex_totals
                    },
                    ..old(self).state
                },
                ..*old(self)
            }),
            runtime_seconds(*entry, now@) <= LONGEST_SPAN_SECONDS,
    {
        let added: u64 = seconds_run(entry, &now);
        self.state.codex_totals.runtime_seconds = self.state.codex_totals.runtime_seconds + added;
    }

    /// Adds the time that an attempt has run to the totals.
    pub fn record_runtime_seconds(&mut self, entry: &RunningEntry)
        requires
            old(self).state.codex_totals.runtime_seconds <= u64::MAX - LONGEST_SPAN_SECONDS,
        ensures
            exists|now: TimePoint|
                *final(self) == (Orchestrator {
                    state: OrchestratorRuntimeState {
                        codex_totals: CodexTotals {
                            runtime_seconds: (old(self).state.codex_totals.runtime_seconds
                                + #[trigger] runtime_seconds(*entry, now)) as u64,
                            ..old(self).state.codex_totals
                        },
                        ..old(self).state
                    },
                    ..*old(self)
                }) && valid_time(now.seconds, now.nanos),
    {
        let now = Timestamp::now();
        let added: u64 = seconds_run(entry, &now);
        self.state.codex_totals.runtime_seconds = self.state.codex_totals.runtime_seconds + added;
    }
}

// ---------------------------------------------------------------------------
// Retries
// ---------------------------------------------------------------------------

/// Two to the power of `n`.
pub open spec fn doublings(n: nat) -> nat
    decreases n,
{
    if n == 0 {
        1
    } else {
        2 * doublings((n - 1) as nat)
    }
}

/// How long to wait before an attempt is made again: ten seconds, doubled with
/// each further attempt up to ten times, and no longer than the longest wait.
pub open spec fn backoff(attempt: u32, max_backoff_ms: u64) -> nat {
    let exponent = if attempt <= 1 {
        0
    } else if attempt > 11 {
        10
    } else {
        attempt - 1
    };
    let wait = 10_000 * doublings(exponent as nat);
    if wait < max_backoff_ms {
        wait as nat
    } else {
        max_backoff_ms as nat
    }
}

proof fn lemma_doublings_grow(a: nat, b: nat)
    requires
        a <= b,
    ensures
        doublings(a) <= doublings(b),
        doublings(a) >= 1,
    decreases b,
{
    if a < b {
        lemma_doublings_grow(a, (b - 1) as nat);
    } else if a > 0 {
        lemma_doublings_grow((a - 1) as nat, (a - 1) as nat);
    }
}

proof fn lemma_ten_doublings(n: nat)
    requires
        n <= 10,
    ensures
        doublings(n) <= 1024,
{
    lemma_doublings_grow(n, 10);
    reveal_with_fuel(doublings, 11);
}

/// The wait is never longer than ten seconds doubled ten times.
pub proof fn lemma_backoff_bounded(attempt: u32, max_backoff_ms: u64)
    ensures
        backoff(attempt, max_backoff_ms) <= 10_240_000,
{
    let exponent = if attempt <= 1 {
        0
    } else if attempt > 11 {
        10
    } else {
        attempt - 1
    };
    lemma_ten_doublings(exponent as nat);
}

/// How long to wait before an attempt is made again; never more than three hours.
pub fn failure_backoff_ms(attempt: u32, max_backoff_ms: u64) -> (r: u64)
    ensures
        r == backoff(attempt, max_backoff_ms),
        r <= 10_240_000,
{
    let exponent: u32 = if attempt <= 1 {
        0
    } else if attempt > 11 {
        10
    } else {
        attempt - 1
    };
    let mut factor: u64 = 1;
    let mut i: u32 = 0;
    while i < exponent
        invariant
            i <= exponent <= 10,
            factor == doublings(i as nat),
        decreases exponent - i,
    {
        proof {
            lemma_ten_doublings(i as nat);
        }
        factor = factor * 2;
        i = i + 1;
    }
    proof {
        lemma_ten_doublings(exponent as nat);
    }
    let wait: u64 = 10_000 * factor;
    if wait < max_backoff_ms {
        wait
    } else {
        max_backoff_ms
    }
}

/// The attempts that wait to be made again.
pub type Retries = Map<Seq<char>, RetryEntry>;

/// Those of the keys whose attempts are due.
pub open spec fn due_keys(retries: Retries, keys: Seq<Seq<char>>, now_ms: u64) -> Seq<Seq<char>>
    decreases keys.len(),
{
    if keys.len() == 0 {
        Seq::empty()
    } else {
        let before = due_keys(retries, keys.drop_last(), now_ms);
        if retries[keys.last()].due_at_ms <= now_ms {
            before.push(keys.last())
        } else {
            before
        }
    }
}

/// The attempts that are due, in the order of their keys.
pub open spec fn due_retries(retries: Retries, now_ms: u64) -> Seq<RetryEntry> {
    due_keys(retries, sorted_keys(retries.dom()), now_ms).map_values(
        |key: Seq<char>| retries[key],
    )
}

/// The attempts that are not due.
pub open spec fn waiting_retries(retries: Retries, now_ms: u64) -> Retries {
    Map::new(
        |key: Seq<char>| retries.contains_key(key) && retries[key].due_at_ms > now_ms,
        |key: Seq<char>| retries[key],
    )
}

/// The retries without the due ones among the first `n` keys.
spec fn without_due(retries: Retries, keys: Seq<Seq<char>>, n: int, now_ms: u64) -> Retries {
    Map::new(
        |key: Seq<char>|
            retries.contains_key(key) && !(keys.take(n).contains(key) && retries[key].due_at_ms
                <= now_ms),
        |key: Seq<char>| retries[key],
    )
}

/// The entry that a retry is noted by.
pub open spec fn is_retry_of(
    entry: RetryEntry,
    issue: Issue,
    attempt: u32,
    due_at_ms: int,
    error: Option<String>,
    worker_host: Option<String>,
    workspace_path: Option<String>,
) -> bool {
    &&& entry.issue_id == issue.id
    &&& entry.identifier == issue.identifier
    &&& entry.attempt == attempt
    &&& entry.due_at_ms == due_at_ms
    &&& entry.error == error
    &&& entry.worker_host == worker_host
    &&& entry.workspace_path == workspace_path
}

/// The state after a retry has been noted.
pub open spec fn retry_noted(
    before: Orchestrator,
    after: Orchestrator,
    issue: Issue,
    attempt: u32,
    due_at_ms: int,
    error: Option<String>,
    worker_host: Option<String>,
    workspace_path: Option<String>,
) -> bool {
    &&& after.state.claimed@ == before.state.claimed@.insert(issue.id@)
    &&& after.state.retry_attempts@.contains_key(issue.id@)
    &&& is_retry_of(
        after.state.retry_attempts@[issue.id@],
        issue,
        attempt,
        due_at_ms,
        error,
        worker_host,
        workspace_path,
    )
    &&& after.state.retry_attempts@.remove(issue.id@) == before.state.retry_attempts@.remove(
        issue.id@,
    )
    &&& after == (Orchestrator {
        state: OrchestratorRuntimeState {
            claimed: after.state.claimed,
            retry_attempts: after.state.retry_attempts,
            ..before.state
        },
        ..before
    })
}

impl Orchestrator {
    fn schedule_retry(
        &mut self,
        issue: &Issue,
        attempt: u32,
        due_at_ms: u64,
        error: Option<String>,
        worker_host: Option<String>,
        workspace_path: Option<String>,
    )
        ensures
            retry_noted(
                *old(self),
                *final(self),
                *issue,
                attempt,
                due_at_ms as int,
                error,
                worker_host,
                workspace_path,
            ),
    {
        let _ = self.state.claimed.insert(issue.id.clone());
        let entry = RetryEntry {
            issue_id: issue.id.clone(),
            identifier: issue.identifier.clone(),
            attempt,
            due_at_ms,
            error,
            worker_host,
            workspace_path,
        };
        let _ = self.state.retry_attempts.insert(issue.id.clone(), entry);
        assert(self.state.retry_attempts@.remove(issue.id@) =~= old(
            self,
        ).state.retry_attempts@.remove(issue.id@));
    }

    /// Notes that work on an issue goes on a second from now.
    pub fn schedule_continuation_retry(
        &mut self,
        issue: &Issue,
        now_ms: u64,
        worker_host: Option<String>,
        workspace_path: Option<String>,
    )
        requires
            now_ms + CONTINUATION_RETRY_DELAY_MS <= u64::MAX,
        ensures
            retry_noted(
                *old(self),
                *final(self),
                *issue,
                1,
                now_ms + CONTINUATION_RETRY_DELAY_MS,
                None,
                worker_host,
                workspace_path,
            ),
    {
        self.schedule_retry(
            issue,
            1,
            now_ms + CONTINUATION_RETRY_DELAY_MS,
            None,
            worker_host,
            workspace_path,
        );
    }

    /// Notes that an attempt is made again, the later the more have failed.
    pub fn schedule_failure_retry(
        &mut self,
        issue: &Issue,
        attempt: u32,
        now_ms: u64,
        error: Option<String>,
        worker_host: Option<String>,
        workspace_path: Option<String>,
    )
        requires
            now_ms + backoff(attempt, old(self).config.agent.max_retry_backoff_ms) <= u64::MAX,
        ensures
            retry_noted(
                *old(self),
                *final(self),
                *issue,
                attempt,
                now_ms + backoff(attempt, old(self).config.agent.max_retry_backoff_ms),
                error,
                worker_host,
                workspace_path,
            ),
    {
        let delay: u64 = failure_backoff_ms(attempt, self.config.agent.max_retry_backoff_ms);
        self.schedule_retry(issue, attempt, now_ms + delay, error, worker_host, workspace_path);
    }

    /// Takes the attempts that are due out of the state.
    pub fn take_due_retries(&mut self, now_ms: u64) -> (r: Vec<RetryEntry>)
        ensures
            r@ == due_retries(old(self).state.retry_attempts@, now_ms),
            final(self).state.retry_attempts@ == waiting_retries(
                old(self).state.retry_attempts@,
                now_ms,
            ),
            *final(self) == (Orchestrator {
                state: OrchestratorRuntimeState {
                    retry_attempts: final(self).state.retry_attempts,
                    ..old(self).state
                },
                ..*old(self)
            }),
    {
        let ghost retries = self.state.retry_attempts@;
        let keys = self.state.retry_attempts.keys();
        let ghost names = texts(keys@);
        let mut out: Vec<RetryEntry> = Vec::new();
        let mut i: usize = 0;
        proof {
            lemma_ascending_no_duplicates(names);
            assert(self.state.retry_attempts@ =~= without_due(retries, names, 0, now_ms));
            assert(out@ =~= due_keys(retries, names.take(0), now_ms).map_values(
                |key: Seq<char>| retries[key],
            ));
        }
        while i < keys.len()
            invariant
                i <= keys@.len(),
                names == texts(keys@),
                names.no_duplicates(),
                lists(names, retries.dom()),
                self.state.retry_attempts@ == without_due(retries, names, i as int, now_ms),
                out@ == due_keys(retries, names.take(i as int), now_ms).map_values(
                    |key: Seq<char>| retries[key],
                ),
                *self == (Orchestrator {
                    state: OrchestratorRuntimeState {
                        retry_attempts: self.state.retry_attempts,
                        ..old(self).state
                    },
                    ..*old(self)
                }),
            decreases keys@.len() - i,
        {
            let ghost name = names[i as int];
            let ghost front = names.take(i as int);
            let ghost before = self.state.retry_attempts@;
            proof {
                assert(names.contains(name));
                assert(retries.dom().contains(name));
                assert(!front.contains(name)) by {
                    if front.contains(name) {
                        let j = choose|j: int| 0 <= j < front.len() && front[j] == name;
                        assert(names[j] == names[i as int]);
                    }
                }
                assert(names.take(i + 1) =~= front.push(name));
                assert(names.take(i + 1).drop_last() =~= front);
                assert forall|k: Seq<char>| names.take(i + 1).contains(k) <==> (front.contains(k)
                    || k == name) by {
                    if front.contains(k) {
                        let j = choose|j: int| 0 <= j < front.len() && front[j] == k;
                        assert(names.take(i + 1)[j] == k);
                    }
                    assert(names.take(i + 1)[i as int] == name);
                }
                assert(before.contains_key(name));
            }
            let due = match self.state.retry_attempts.get(keys[i].as_str()) {
                Some(entry) => entry.due_at_ms <= now_ms,
                None => false,
            };
            if due {
                match self.state.retry_attempts.remove(keys[i].as_str()) {
                    Some(entry) => {
                        out.push(entry);
                        proof {
                            let value = |key: Seq<char>| retries[key];
                            let keys_before = due_keys(retries, front, now_ms);
                            assert(due_keys(retries, names.take(i + 1), now_ms)
                                == keys_before.push(name));
                            assert(keys_before.push(name).map_values(value)
                                =~= keys_before.map_values(value).push(retries[name]));
                        }
                    },
                    None => {},
                }
            }
            assert(self.state.retry_attempts@ =~= without_due(retries, names, i + 1, now_ms));
            i = i + 1;
        }
        proof {
            assert(names.take(i as int) =~= names);
            assert(self.state.retry_attempts@ =~= waiting_retries(retries, now_ms)) by {
                assert forall|k: Seq<char>| retries.contains_key(k) implies names.contains(k) by {
                    assert(retries.dom().contains(k));
                }
            }
        }
        out
    }
}

// ---------------------------------------------------------------------------
// Laws
// ---------------------------------------------------------------------------

/// The wait before an attempt is made again never shrinks from one attempt to a
/// later one, and never passes the longest wait.
pub proof fn lemma_backoff_grows(attempt: u32, later: u32, max_backoff_ms: u64)
    requires
        attempt <= later,
    ensures
        backoff(attempt, max_backoff_ms) <= backoff(later, max_backoff_ms) <= max_backoff_ms,
{
    let exponent = |n: u32|
        if n <= 1 {
            0
        } else if n > 11 {
            10
        } else {
            n - 1
        };
    lemma_doublings_grow(exponent(attempt) as nat, exponent(later) as nat);
}

/// An issue with a running attempt, or one that is claimed, is not started.
pub proof fn lemma_claimed_is_not_started(
    config: ServiceModel,
    state: OrchestratorRuntimeState,
    issue: IssueModel,
)
    requires
        state.running@.contains_key(issue.id) || state.claimed@.contains(issue.id),
    ensures
        reason_not_to_start(config, state, issue) is Some,
{
}

/// An issue in a terminal state, or in no active one, is not started.
pub proof fn lemma_only_active_issues_start(
    config: ServiceModel,
    state: OrchestratorRuntimeState,
    issue: IssueModel,
)
    requires
        reason_not_to_start(config, state, issue) is None,
    ensures
        normal_states(config.tracker.active_states).contains(normal_state(issue.state)),
        !normal_states(config.tracker.terminal_states).contains(normal_state(issue.state)),
        required_fields(issue),
        !blocked(issue, config.tracker.terminal_states),
{
}

/// The chosen issues come out of the ranking, in its order.
proof fn lemma_started_from_order(
    config: ServiceModel,
    state: OrchestratorRuntimeState,
    issues: Seq<Issue>,
    order: Seq<int>,
)
    requires
        forall|a: int, b: int|
            0 <= a < b < order.len() ==> ranks_before(
                issues,
                #[trigger] order[a],
                #[trigger] order[b],
            ),
    ensures
        ({
            let chosen = started(config, state, issues, order);
            &&& chosen.len() <= order.len()
            &&& forall|i: int| #[trigger] chosen.contains(i) ==> order.contains(i)
            &&& forall|a: int, b: int|
                0 <= a < b < chosen.len() ==> ranks_before(
                    issues,
                    #[trigger] chosen[a],
                    #[trigger] chosen[b],
                )
        }),
    decreases order.len(),
{
    if order.len() > 0 {
        let front = order.drop_last();
        assert forall|a: int, b: int| 0 <= a < b < front.len() implies ranks_before(
            issues,
            #[trigger] front[a],
            #[trigger] front[b],
        ) by {
            assert(ranks_before(issues, order[a], order[b]));
        }
        lemma_started_from_order(config, state, issues, front);
        let before = started(config, state, issues, front);
        let chosen = started(config, state, issues, order);
        assert forall|i: int| front.contains(i) implies order.contains(i) by {
            let x = choose|x: int| 0 <= x < front.len() && front[x] == i;
            assert(order[x] == i);
        }
        assert(order[order.len() - 1] == order.last());
        assert forall|i: int| #[trigger] chosen.contains(i) implies order.contains(i) by {
            let x = choose|x: int| 0 <= x < chosen.len() && chosen[x] == i;
            if x < before.len() {
                assert(before[x] == i);
                assert(before.contains(i));
            }
        }
        assert forall|a: int, b: int| 0 <= a < b < chosen.len() implies ranks_before(
            issues,
            #[trigger] chosen[a],
            #[trigger] chosen[b],
        ) by {
            if b < before.len() {
                assert(ranks_before(issues, before[a], before[b]));
            } else {
                assert(before.contains(before[a]));
                assert(front.contains(before[a]));
                let x = choose|x: int| 0 <= x < front.len() && front[x] == before[a];
                assert(ranks_before(issues, order[x], order[order.len() - 1]));
            }
        }
    }
}

proof fn lemma_started_within_limits(
    config: ServiceModel,
    state: OrchestratorRuntimeState,
    issues: Seq<Issue>,
    order: Seq<int>,
)
    ensures
        ({
            let chosen = started(config, state, issues, order);
            &&& chosen.len() <= free_slots(state)
            &&& forall|i: int| #[trigger]
                chosen.contains(i) ==> running_in_state(
                    state.running@,
                    normal_state(issues[i]@.state),
                ) + chosen_in_state(issues, chosen, normal_state(issues[i]@.state))
                    <= limit_for_state(config.agent, issues[i]@.state)
            &&& forall|i: int| #[trigger]
                order.contains(i) && !chosen.contains(i) ==> chosen.len() == free_slots(state)
                    || running_in_state(state.running@, normal_state(issues[i]@.state))
                    + chosen_in_state(issues, chosen, normal_state(issues[i]@.state))
                    >= limit_for_state(config.agent, issues[i]@.state)
        }),
    decreases order.len(),
{
    let chosen = started(config, state, issues, order);
    if order.len() > 0 {
        let front = order.drop_last();
        lemma_started_within_limits(config, state, issues, front);
        let before = started(config, state, issues, front);
        let last = order.last();
        assert forall|i: int| order.contains(i) implies front.contains(i) || i == last by {
            let x = choose|x: int| 0 <= x < order.len() && order[x] == i;
            if x < front.len() {
                assert(front[x] == i);
            }
        }
        if chosen != before {
            assert(chosen == before.push(last));
            assert(chosen.drop_last() =~= before);
            assert forall|i: int| #[trigger] chosen.contains(i) implies running_in_state(
                state.running@,
                normal_state(issues[i]@.state),
            ) + chosen_in_state(issues, chosen, normal_state(issues[i]@.state)) <= limit_for_state(
                config.agent,
                issues[i]@.state,
            ) by {
                let x = choose|x: int| 0 <= x < chosen.len() && chosen[x] == i;
                if x < before.len() {
                    assert(before[x] == i);
                    assert(before.contains(i));
                }
            }
            assert forall|i: int| #[trigger] order.contains(i) && !chosen.contains(i) implies
                chosen.len() == free_slots(state) || running_in_state(
                state.running@,
                normal_state(issues[i]@.state),
            ) + chosen_in_state(issues, chosen, normal_state(issues[i]@.state)) >= limit_for_state(
                config.agent,
                issues[i]@.state,
            ) by {
                assert(chosen[before.len() as int] == last);
                assert(front.contains(i));
                assert(!before.contains(i)) by {
                    if before.contains(i) {
                        let x = choose|x: int| 0 <= x < before.len() && before[x] == i;
                        assert(chosen[x] == i);
                    }
                }
            }
        } else {
            assert forall|i: int| #[trigger] order.contains(i) && !chosen.contains(i) implies
                chosen.len() == free_slots(state) || running_in_state(
                state.running@,
                normal_state(issues[i]@.state),
            ) + chosen_in_state(issues, chosen, normal_state(issues[i]@.state)) >= limit_for_state(
                config.agent,
                issues[i]@.state,
            ) by {
                if i != last || front.contains(i) {
                    assert(front.contains(i));
                }
            }
        }
    }
}

/// What is started together keeps to all limits and leaves nothing out: no more
/// issues than there are free slots; only issues that may be started, each once
/// and in the order of their ranks; no more in a state than the state allows; and
/// an issue that might have been started is passed over only if all slots are
/// taken, or all of its state.
pub proof fn lemma_selection_law(
    config: ServiceModel,
    state: OrchestratorRuntimeState,
    issues: Seq<Issue>,
)
    ensures
        ({
            let chosen = started(config, state, issues, ranking(config, state, issues));
            &&& chosen.len() <= free_slots(state)
            &&& forall|i: int| #[trigger]
                chosen.contains(i) ==> eligible(config, state, issues, i)
            &&& forall|a: int, b: int|
                0 <= a < b < chosen.len() ==> ranks_before(
                    issues,
                    #[trigger] chosen[a],
                    #[trigger] chosen[b],
                )
            &&& forall|i: int| #[trigger]
                chosen.contains(i) ==> running_in_state(
                    state.running@,
                    normal_state(issues[i]@.state),
                ) + chosen_in_state(issues, chosen, normal_state(issues[i]@.state))
                    <= limit_for_state(config.agent, issues[i]@.state)
            &&& forall|i: int|
                #![trigger eligible(config, state, issues, i)]
                eligible(config, state, issues, i) && !chosen.contains(i) ==> chosen.len()
                    == free_slots(state) || running_in_state(
                    state.running@,
                    normal_state(issues[i]@.state),
                ) + chosen_in_state(issues, chosen, normal_state(issues[i]@.state))
                    >= limit_for_state(config.agent, issues[i]@.state)
        }),
{
    let order = ranking(config, state, issues);
    lemma_ranking_ranks(config, state, issues);
    lemma_started_from_order(config, state, issues, order);
    lemma_started_within_limits(config, state, issues, order);
    let chosen = started(config, state, issues, order);
    assert forall|i: int| #[trigger] chosen.contains(i) implies eligible(
        config,
        state,
        issues,
        i,
    ) by {
        assert(order.contains(i));
    }
    assert forall|i: int|
        #![trigger eligible(config, state, issues, i)]
        eligible(config, state, issues, i) && !chosen.contains(i) implies chosen.len()
        == free_slots(state) || running_in_state(
        state.running@,
        normal_state(issues[i]@.state),
    ) + chosen_in_state(issues, chosen, normal_state(issues[i]@.state)) >= limit_for_state(
        config.agent,
        issues[i]@.state,
    ) by {
        assert(order.contains(i));
    }
}

proof fn lemma_due_keys(retries: Retries, keys: Seq<Seq<char>>, now_ms: u64)
    ensures
        forall|key: Seq<char>| #[trigger]
            due_keys(retries, keys, now_ms).contains(key) <==> keys.contains(key)
                && retries[key].due_at_ms <= now_ms,
    decreases keys.len(),
{
    if keys.len() > 0 {
        let front = keys.drop_last();
        lemma_due_keys(retries, front, now_ms);
        let before = due_keys(retries, front, now_ms);
        let after = due_keys(retries, keys, now_ms);
        assert forall|key: Seq<char>| #[trigger] after.contains(key) <==> keys.contains(key)
            && retries[key].due_at_ms <= now_ms by {
            if after.contains(key) {
                let x = choose|x: int| 0 <= x < after.len() && after[x] == key;
                if x < before.len() {
                    assert(before[x] == key);
                    assert(before.contains(key));
                    let y = choose|y: int| 0 <= y < front.len() && front[y] == key;
                    assert(keys[y] == key);
                } else {
                    assert(keys[keys.len() - 1] == key);
                }
            }
            if keys.contains(key) && retries[key].due_at_ms <= now_ms {
                let y = choose|y: int| 0 <= y < keys.len() && keys[y] == key;
                if y < front.len() {
                    assert(front[y] == key);
                    assert(before.contains(key));
                    let x = choose|x: int| 0 <= x < before.len() && before[x] == key;
                    assert(after[x] == key);
                } else {
                    assert(after[after.len() - 1] == key);
                }
            }
        }
    }
}

/// A retry that has been noted is handed out exactly from the time on at which
/// it is due, and until then it waits.
pub proof fn lemma_retry_is_taken_when_due(retries: Retries, key: Seq<char>, now_ms: u64)
    requires
        retries.dom().finite(),
        retries.contains_key(key),
    ensures
        retries[key].due_at_ms <= now_ms ==> due_retries(retries, now_ms).contains(retries[key])
            && !waiting_retries(retries, now_ms).contains_key(key),
        retries[key].due_at_ms > now_ms ==> waiting_retries(retries, now_ms).contains_key(key)
            && waiting_retries(retries, now_ms)[key] == retries[key],
{
    let keys = sorted_keys(retries.dom());
    lemma_sorted_keys_lists(retries.dom());
    lemma_due_keys(retries, keys, now_ms);
    if retries[key].due_at_ms <= now_ms {
        assert(retries.dom().contains(key));
        let due = due_keys(retries, keys, now_ms);
        assert(due.contains(key));
        let x = choose|x: int| 0 <= x < due.len() && due[x] == key;
        assert(due_retries(retries, now_ms)[x] == retries[key]);
    }
}

/// A retry that was noted is handed out from the time on that it was noted for,
/// and waits until then.
pub proof fn lemma_noted_retry_is_handed_out(
    before: Orchestrator,
    after: Orchestrator,
    issue: Issue,
    attempt: u32,
    due_at_ms: int,
    error: Option<String>,
    worker_host: Option<String>,
    workspace_path: Option<String>,
    now_ms: u64,
)
    requires
        retry_noted(before, after, issue, attempt, due_at_ms, error, worker_host, workspace_path),
    ensures
        due_at_ms <= now_ms ==> due_retries(after.state.retry_attempts@, now_ms).contains(
            after.state.retry_attempts@[issue.id@],
        ),
        due_at_ms > now_ms ==> waiting_retries(
            after.state.retry_attempts@,
            now_ms,
        ).contains_key(issue.id@),
{
    lemma_map_finite(after.state.retry_attempts);
    lemma_retry_is_taken_when_due(after.state.retry_attempts@, issue.id@, now_ms);
}

/// After the due retries have been handed out, none is due.
pub proof fn lemma_no_retry_is_due_twice(retries: Retries, now_ms: u64, key: Seq<char>)
    ensures
        waiting_retries(retries, now_ms).contains_key(key) ==> waiting_retries(
            retries,
            now_ms,
        )[key].due_at_ms > now_ms,
{
}

// ---------------------------------------------------------------------------
// Laws on what is started, and in which order
// ---------------------------------------------------------------------------

/// An issue can be started exactly if all of this holds: its required fields are there;
/// its state is worked on and not done with; no attempt at it runs and nothing else
/// has claimed it; there is room for one more attempt, in all and in its state; and
/// it is not blocked.
pub proof fn lemma_what_can_be_started(
    config: ServiceModel,
    state: OrchestratorRuntimeState,
    issue: IssueModel,
)
    ensures
        reason_not_to_start(config, state, issue) is None <==> {
            let name = ascii_lower(trim(issue.state));
            &&& required_fields(issue)
            &&& normal_states(config.tracker.active_states).contains(name)
            &&& !normal_states(config.tracker.terminal_states).contains(name)
            &&& !state.running@.contains_key(issue.id)
            &&& !state.claimed@.contains(issue.id)
            &&& state.running@.len() < state.max_concurrent_agents
            &&& running_in_state(state.running@, name) < limit_for_state(config.agent, issue.state)
            &&& !blocked(issue, config.tracker.terminal_states)
        },
{
}

/// What keeps an issue from being started is told in this order: a missing field, a
/// state that is done with, one that is not worked on, an attempt that runs, a claim,
/// no room, no room in the state, an issue that blocks it.
pub proof fn lemma_reasons_come_in_order(
    config: ServiceModel,
    state: OrchestratorRuntimeState,
    issue: IssueModel,
)
    ensures
        ({
            let name = ascii_lower(trim(issue.state));
            let limit = limit_for_state(config.agent, issue.state);
            let reason = reason_not_to_start(config, state, issue);
            let done = normal_states(config.tracker.terminal_states).contains(name);
            let active = normal_states(config.tracker.active_states).contains(name);
            let known = required_fields(issue) && !done && active;
            let free = known && !state.running@.contains_key(issue.id) && !state.claimed@.contains(
                issue.id,
            );
            let room = free && state.running@.len() < state.max_concurrent_agents;
            &&& !required_fields(issue) <==> reason == Some(BlockModel::MissingRequiredFields)
            &&& required_fields(issue) && done <==> reason == Some(
                BlockModel::TerminalState(issue.state),
            )
            &&& required_fields(issue) && !done && !active <==> reason == Some(
                BlockModel::InactiveState(issue.state),
            )
            &&& known && state.running@.contains_key(issue.id) <==> reason == Some(
                BlockModel::AlreadyRunning,
            )
            &&& known && !state.running@.contains_key(issue.id) && state.claimed@.contains(issue.id)
                <==> reason == Some(BlockModel::AlreadyClaimed)
            &&& free && state.running@.len() >= state.max_concurrent_agents <==> reason == Some(
                BlockModel::NoGlobalSlots,
            )
            &&& room && running_in_state(state.running@, name) >= limit <==> reason == Some(
                BlockModel::NoStateSlots { state: issue.state, limit },
            )
            &&& room && running_in_state(state.running@, name) < limit && blocked(
                issue,
                config.tracker.terminal_states,
            ) <==> reason == Some(BlockModel::TodoBlocked)
        }),
{
}

/// There is room for as many attempts as the limit leaves beside those that run.
pub proof fn lemma_room_is_what_is_left(state: OrchestratorRuntimeState)
    ensures
        state.running@.len() <= state.max_concurrent_agents ==> free_slots(state)
            + state.running@.len() == state.max_concurrent_agents,
        state.running@.len() >= state.max_concurrent_agents ==> free_slots(state) == 0,
{
}

/// An attempt counts in the state of its issue, and in no other.
pub proof fn lemma_attempts_count_in_their_state(
    running: Running,
    id: Seq<char>,
    entry: RunningEntry,
    state: Seq<char>,
)
    requires
        running.dom().finite(),
        !running.contains_key(id),
    ensures
        running_in_state(running.insert(id, entry), state) == running_in_state(running, state) + if
            ascii_lower(trim(entry.issue@.state)) == state {
            1int
        } else {
            0int
        },
        running_in_state(Map::<Seq<char>, RunningEntry>::empty(), state) == 0,
{
    let before = running_with_state(running, state);
    let after = running_with_state(running.insert(id, entry), state);
    if ascii_lower(trim(entry.issue@.state)) == state {
        assert(after =~= before.insert(id));
    } else {
        assert(after =~= before);
    }
    assert(running_with_state(Map::<Seq<char>, RunningEntry>::empty(), state) =~= Set::empty());
}

/// Issues with a smaller number as their priority come first; those without one come
/// behind all others.
pub proof fn lemma_urgent_issues_come_first(a: IssueModel, b: IssueModel)
    ensures
        a.priority is Some && b.priority is Some && a.priority->0 < b.priority->0 ==> issue_before(
            a,
            b,
        ) && !issue_before(b, a),
        a.priority is Some && a.priority->0 < i64::MAX && b.priority is None ==> issue_before(a, b)
            && !issue_before(b, a),
{
}

/// Of issues with the same priority the older one comes first; those of which it is
/// not known when they were made come before all others; and then the identifiers
/// decide.
pub proof fn lemma_older_issues_come_first(a: IssueModel, b: IssueModel)
    requires
        a.priority == b.priority,
    ensures
        a.created_at is Some && b.created_at is Some ==> {
            let (s, t) = (a.created_at->0, b.created_at->0);
            &&& s.seconds < t.seconds ==> issue_before(a, b) && !issue_before(b, a)
            &&& s.seconds == t.seconds && s.nanos < t.nanos ==> issue_before(a, b)
                && !issue_before(b, a)
        },
        a.created_at is None && b.created_at is Some ==> issue_before(a, b) && !issue_before(b, a),
        a.created_at == b.created_at ==> (issue_before(a, b) <==> text_before(
            a.identifier,
            b.identifier,
        )),
{
}

/// The order of issues depends on their priority, their age and their identifier only,
/// and no issue comes before itself; of two that differ in one of these, one comes
/// before the other.
pub proof fn lemma_issue_order(a: IssueModel, b: IssueModel)
    ensures
        !issue_before(a, a),
        !(issue_before(a, b) && issue_before(b, a)),
        a.priority == b.priority && a.created_at == b.created_at && a.identifier == b.identifier
            ==> !issue_before(a, b),
        a.identifier != b.identifier ==> issue_before(a, b) || issue_before(b, a),
{
    lemma_issue_order_total(a, b);
    lemma_issue_order_total(a, a);
}

/// The first wait is ten seconds, and each further one is twice as long as the one
/// before, up to the eleventh; none is longer than the longest wait.
pub proof fn lemma_waits_double(attempt: u32, max_backoff_ms: u64)
    ensures
        attempt <= 1 ==> backoff(attempt, max_backoff_ms) == if 10_000 < max_backoff_ms {
            10_000nat
        } else {
            max_backoff_ms as nat
        },
        1 <= attempt < 11 ==> backoff((attempt + 1) as u32, max_backoff_ms) == if 2 * backoff(
            attempt,
            max_backoff_ms,
        ) < max_backoff_ms {
            2 * backoff(attempt, max_backoff_ms)
        } else {
            max_backoff_ms as nat
        },
        attempt >= 11 ==> backoff(attempt, max_backoff_ms) == backoff(11, max_backoff_ms),
{
    if 1 <= attempt < 11 {
        assert(doublings(attempt as nat) == 2 * doublings((attempt - 1) as nat));
    }
    assert(doublings(0) == 1);
}

/// The seconds that have passed are whole seconds, and none if the clock went back.
pub proof fn lemma_seconds_that_passed(from: TimePoint, to: TimePoint)
    requires
        0 <= from.nanos < 1_000_000_000,
        0 <= to.nanos < 1_000_000_000,
    ensures
        ({
            let passed = (to.seconds - from.seconds) * 1_000_000_000 + to.nanos - from.nanos;
            &&& passed >= 0 ==> seconds_passed(from, to) * 1_000_000_000 <= passed < (
            seconds_passed(from, to) + 1) * 1_000_000_000
            &&& passed <= 0 ==> seconds_passed(from, to) == 0
        }),
{
}

/// The retries that are due are handed out in the order of their issues, each once,
/// and all the others wait on as they are.
pub proof fn lemma_due_retries_are_handed_out(retries: Retries, now_ms: u64)
    requires
        retries.dom().finite(),
    ensures
        ({
            let keys = due_keys(retries, sorted_keys(retries.dom()), now_ms);
            let due = due_retries(retries, now_ms);
            let waiting = waiting_retries(retries, now_ms);
            &&& due.len() == keys.len()
            &&& forall|i: int|
                0 <= i < keys.len() ==> #[trigger] due[i] == retries[keys[i]]
                    && retries.contains_key(keys[i]) && due[i].due_at_ms <= now_ms
                    && !waiting.contains_key(keys[i])
            &&& forall|i: int, j: int|
                0 <= i < j < keys.len() ==> text_before(#[trigger] keys[i], #[trigger] keys[j])
            &&& forall|key: Seq<char>| #[trigger]
                retries.contains_key(key) ==> (keys.contains(key) <==> retries[key].due_at_ms
                    <= now_ms)
            &&& forall|key: Seq<char>| #[trigger]
                waiting.contains_key(key) <==> retries.contains_key(key) && retries[key].due_at_ms
                    > now_ms
            &&& forall|key: Seq<char>| #[trigger]
                waiting.contains_key(key) ==> waiting[key] == retries[key]
        }),
{
    let all = sorted_keys(retries.dom());
    let keys = due_keys(retries, all, now_ms);
    lemma_sorted_keys_lists(retries.dom());
    lemma_due_keys(retries, all, now_ms);
    lemma_due_keys_ascend(retries, all, now_ms);
    assert forall|key: Seq<char>| #[trigger] retries.contains_key(key) implies (keys.contains(key)
        <==> retries[key].due_at_ms <= now_ms) by {
        assert(retries.dom().contains(key));
    }
    assert forall|i: int| 0 <= i < keys.len() implies retries.contains_key(#[trigger] keys[i])
        && retries[keys[i]].due_at_ms <= now_ms by {
        assert(keys.contains(keys[i]));
        assert(retries.dom().contains(keys[i]));
    }
}

proof fn lemma_due_keys_ascend(retries: Retries, keys: Seq<Seq<char>>, now_ms: u64)
    requires
        forall|i: int, j: int|
            0 <= i < j < keys.len() ==> text_before(#[trigger] keys[i], #[trigger] keys[j]),
    ensures
        ({
            let due = due_keys(retries, keys, now_ms);
            &&& forall|i: int, j: int|
                0 <= i < j < due.len() ==> text_before(#[trigger] due[i], #[trigger] due[j])
            &&& forall|i: int|
                0 <= i < due.len() ==> keys.contains(#[trigger] due[i])
        }),
    decreases keys.len(),
{
    if keys.len() > 0 {
        let front = keys.drop_last();
        assert forall|i: int, j: int| 0 <= i < j < front.len() implies text_before(
            #[trigger] front[i],
            #[trigger] front[j],
        ) by {
            assert(front[i] == keys[i] && front[j] == keys[j]);
        }
        lemma_due_keys_ascend(retries, front, now_ms);
        let before = due_keys(retries, front, now_ms);
        let due = due_keys(retries, keys, now_ms);
        let last = keys.len() - 1;
        assert forall|i: int| 0 <= i < due.len() implies keys.contains(#[trigger] due[i]) && (i
            < before.len() ==> text_before(due[i], keys[last])) by {
            if i < before.len() {
                assert(due[i] == before[i]);
                let k = choose|k: int| 0 <= k < front.len() && front[k] == before[i];
                assert(keys[k] == due[i]);
            } else {
                assert(keys[last] == due[i]);
            }
        }
        assert forall|i: int, j: int| 0 <= i < j < due.len() implies text_before(
            #[trigger] due[i],
            #[trigger] due[j],
        ) by {
            assert(due[i] == before[i]);
            if j < before.len() {
                assert(due[j] == before[j]);
            }
        }
    }
}

/// A retry that is noted keeps the issue, the number, the time, the error, the host and
/// the workspace that it was noted with, claims the issue, and leaves the others alone.
pub proof fn lemma_retry_keeps_what_was_noted(
    before: Orchestrator,
    after: Orchestrator,
    issue: Issue,
    attempt: u32,
    due_at_ms: int,
    error: Option<String>,
    worker_host: Option<String>,
    workspace_path: Option<String>,
    other: Seq<char>,
)
    requires
        retry_noted(before, after, issue, attempt, due_at_ms, error, worker_host, workspace_path),
    ensures
        ({
            let entry = after.state.retry_attempts@[issue.id@];
            &&& after.state.retry_attempts@.contains_key(issue.id@)
            &&& entry.issue_id@ == issue.id@
            &&& entry.identifier@ == issue.identifier@
            &&& entry.attempt == attempt
            &&& entry.due_at_ms == due_at_ms
            &&& entry.error == error
            &&& entry.worker_host == worker_host
            &&& entry.workspace_path == workspace_path
            &&& after.state.claimed@.contains(issue.id@)
            &&& after.state.running == before.state.running
            &&& after.state.completed == before.state.completed
            &&& after.state.codex_totals == before.state.codex_totals
            &&& after.config == before.config
            &&& other != issue.id@ ==> {
                &&& after.state.claimed@.contains(other) <==> before.state.claimed@.contains(other)
                &&& after.state.retry_attempts@.contains_key(other)
                    <==> before.state.retry_attempts@.contains_key(other)
                &&& before.state.retry_attempts@.contains_key(other)
                    ==> after.state.retry_attempts@[other] == before.state.retry_attempts@[other]
            }
        }),
{
    if other != issue.id@ {
        let a = after.state.retry_attempts@;
        let b = before.state.retry_attempts@;
        assert(a.remove(issue.id@).contains_key(other) <==> a.contains_key(other));
        assert(b.remove(issue.id@).contains_key(other) <==> b.contains_key(other));
        assert(a.contains_key(other) ==> a.remove(issue.id@)[other] == a[other]);
        assert(b.contains_key(other) ==> b.remove(issue.id@)[other] == b[other]);
    }
}

/// What is noted of a running attempt changes that attempt and no other; of an issue
/// that does not run, nothing is noted.
pub proof fn lemma_notes_stay_with_their_attempt(
    running: Running,
    id: Seq<char>,
    other: Seq<char>,
    entry: RunningEntry,
)
    ensures
        running.contains_key(id) ==> running_with(running, id, entry)[id] == entry,
        running_with(running, id, entry).contains_key(other) <==> running.contains_key(other),
        other != id && running.contains_key(other) ==> running_with(running, id, entry)[other]
            == running[other],
{
}

/// A state that is not listed counts as none.
pub proof fn lemma_counts_by_state(counts: Map<Seq<char>, usize>, state: Seq<char>, n: usize)
    ensures
        count_or_zero(counts.insert(state, n), state) == n,
        !counts.contains_key(state) ==> count_or_zero(counts, state) == 0,
{
}

} // verus!
