//! What is scheduled, as a value: the steps that change it, and what holds of all
//! of them.

use crate::accounting::{
    event_status, last_report, lemma_repeated_report_is_counted_once, newer, tokens_used,
    update_fits, update_rate_limits, updated_session, updated_totals, TokenKind,
};
use crate::config::{limit_for_state, ServiceModel, WorkerModel};
use crate::domain::{
    blocked, fresh_session, normal_state, normal_states, AgentUpdate, AttemptStatus, CodexTotals,
    EntryModel, Issue, IssueModel, OrchestratorRuntimeState, RetryEntry, RetryModel, RunningEntry,
};
use crate::json::{opt_json_value, Json};
use crate::orchestrator::{
    backoff, chosen_in_state, lemma_selection_law, ranking, retry_noted, running_with_state,
    seconds_passed, started, Orchestrator, Retries, Running, CONTINUATION_RETRY_DELAY_MS,
};
use crate::ordered::{
    lemma_listing_without, lemma_map_finite, lemma_sorted_keys_is, lemma_sorted_keys_lists,
    sorted_keys,
};
use crate::runner::ExitModel;
use crate::text::{ascii_lower, opt_text, signed_decimal, trim};
use crate::timestamp::{div_to_zero, nanos_between, TimePoint, Timestamp};
use vstd::prelude::*;

verus! {

// ---------------------------------------------------------------------------
// What the service keeps track of
// ---------------------------------------------------------------------------

/// What is scheduled: the running attempts, what has come to an end, what is
/// claimed, what waits to be tried again, what has been used, and which attempts
/// have been told to stop.
#[verifier::ext_equal]
pub struct Schedule {
    pub running: Map<Seq<char>, EntryModel>,
    pub completed: Set<Seq<char>>,
    pub claimed: Set<Seq<char>>,
    pub retries: Map<Seq<char>, RetryModel>,
    pub totals: CodexTotals,
    pub rate_limits: Option<Json>,
    pub cancelled: Set<Seq<char>>,
}

/// The models of running attempts.
pub open spec fn entry_models(running: Running) -> Map<Seq<char>, EntryModel> {
    running.map_values(|entry: RunningEntry| entry@)
}

/// The models of waiting retries.
pub open spec fn retry_models(retries: Retries) -> Map<Seq<char>, RetryModel> {
    retries.map_values(|entry: RetryEntry| entry@)
}

/// What a state of the scheduler has scheduled.
pub open spec fn schedule_of(state: OrchestratorRuntimeState, cancelled: Set<Seq<char>>) -> Schedule {
    Schedule {
        running: entry_models(state.running@),
        completed: state.completed@,
        claimed: state.claimed@,
        retries: retry_models(state.retry_attempts@),
        totals: state.codex_totals,
        rate_limits: opt_json_value(state.codex_rate_limits),
        cancelled,
    }
}

// ---------------------------------------------------------------------------
// Steps of the schedule
// ---------------------------------------------------------------------------

/// The schedule with a retry noted.
pub open spec fn with_retry(
    s: Schedule,
    issue: IssueModel,
    attempt: u32,
    due_at_ms: int,
    error: Option<Seq<char>>,
    worker_host: Option<Seq<char>>,
    workspace_path: Option<Seq<char>>,
) -> Schedule {
    Schedule {
        claimed: s.claimed.insert(issue.id),
        retries: s.retries.insert(
            issue.id,
            RetryModel {
                issue_id: issue.id,
                identifier: issue.identifier,
                attempt,
                due_at_ms,
                error,
                worker_host,
                workspace_path,
            },
        ),
        ..s
    }
}

/// The schedule when a running attempt has told where it works.
pub open spec fn with_place(
    s: Schedule,
    id: Seq<char>,
    worker_host: Option<Seq<char>>,
    workspace_path: Seq<char>,
) -> Schedule {
    if s.running.contains_key(id) {
        Schedule {
            running: s.running.insert(
                id,
                EntryModel {
                    worker_host,
                    workspace_path: Some(workspace_path),
                    status: AttemptStatus::RunningBeforeRunHook,
                    ..s.running[id]
                },
            ),
            ..s
        }
    } else {
        s
    }
}

/// The schedule when a running attempt has reported.
pub open spec fn with_update(s: Schedule, id: Seq<char>, update: AgentUpdate) -> Schedule {
    if s.running.contains_key(id) {
        let session = s.running[id].live_session;
        Schedule {
            running: s.running.insert(
                id,
                EntryModel {
                    live_session: updated_session(session, update),
                    status: event_status(update.event@),
                    ..s.running[id]
                },
            ),
            totals: updated_totals(s.totals, session, update),
            rate_limits: newer(update_rate_limits(update), s.rate_limits),
            ..s
        }
    } else {
        s
    }
}

/// The schedule with the claim on an issue given up.
pub open spec fn without_claim(s: Schedule, id: Seq<char>) -> Schedule {
    Schedule { claimed: s.claimed.remove(id), retries: s.retries.remove(id), ..s }
}

/// The schedule with an attempt started.
pub open spec fn with_started(
    s: Schedule,
    issue: IssueModel,
    attempt: Option<u32>,
    worker_host: Option<Seq<char>>,
    started_at: TimePoint,
) -> Schedule {
    Schedule {
        running: s.running.insert(
            issue.id,
            EntryModel {
                issue,
                attempt,
                worker_host,
                workspace_path: None,
                started_at,
                status: AttemptStatus::PreparingWorkspace,
                live_session: fresh_session(),
                last_error: None,
            },
        ),
        claimed: s.claimed.insert(issue.id),
        retries: s.retries.remove(issue.id),
        ..s
    }
}

/// The schedule with a running attempt taken out, and its time added up.
pub open spec fn without_running(s: Schedule, id: Seq<char>, now: TimePoint) -> Schedule {
    Schedule {
        running: s.running.remove(id),
        totals: CodexTotals {
            runtime_seconds: (s.totals.runtime_seconds + seconds_passed(
                s.running[id].started_at,
                now,
            )) as u64,
            ..s.totals
        },
        ..s
    }
}

/// The number of the attempt behind one.
pub open spec fn next_attempt(attempt: Option<u32>) -> u32 {
    match attempt {
        Some(n) => (n + 1) as u32,
        None => 1,
    }
}

/// Whether there is a number for the attempt behind one.
pub open spec fn has_next(attempt: Option<u32>) -> bool {
    attempt != Some(u32::MAX)
}

/// The schedule after a running attempt has failed.
pub open spec fn with_failure(
    s: Schedule,
    entry: EntryModel,
    error: Seq<char>,
    now_ms: u64,
    longest_wait: u64,
) -> Schedule {
    let attempt = next_attempt(entry.attempt);
    with_retry(
        s,
        entry.issue,
        attempt,
        now_ms + backoff(attempt, longest_wait),
        Some(error),
        entry.worker_host,
        entry.workspace_path,
    )
}

/// The schedule after an attempt has ended. One that was told to stop has been
/// taken out before; a completed one goes on a second later; a cancelled one gives
/// up its claim; a failed one is tried again.
pub open spec fn after_exit(
    s: Schedule,
    id: Seq<char>,
    status: ExitModel,
    now: TimePoint,
    now_ms: u64,
    longest_wait: u64,
) -> Schedule {
    if s.cancelled.contains(id) {
        Schedule { cancelled: s.cancelled.remove(id), ..s }
    } else if !s.running.contains_key(id) {
        s
    } else {
        let entry = s.running[id];
        let ended = without_running(s, id, now);
        match status {
            ExitModel::Completed => with_retry(
                Schedule { completed: ended.completed.insert(id), ..ended },
                entry.issue,
                1,
                now_ms + CONTINUATION_RETRY_DELAY_MS,
                None,
                entry.worker_host,
                entry.workspace_path,
            ),
            ExitModel::Cancelled(_) => without_claim(ended, id),
            ExitModel::Failed(error) => with_failure(ended, entry, error, now_ms, longest_wait),
        }
    }
}

/// The schedule after an attempt has been told to stop: it is taken out, and its
/// claim is given up, or it is tried again for an error.
pub open spec fn after_cancel(
    s: Schedule,
    id: Seq<char>,
    error: Option<Seq<char>>,
    now: TimePoint,
    now_ms: u64,
    longest_wait: u64,
) -> Schedule {
    let told = Schedule { cancelled: s.cancelled.insert(id), ..s };
    if !s.running.contains_key(id) {
        told
    } else {
        let ended = without_running(told, id, now);
        match error {
            Some(message) => with_failure(ended, s.running[id], message, now_ms, longest_wait),
            None => without_claim(ended, id),
        }
    }
}

pub proof fn lemma_insert_entry(running: Running, id: Seq<char>, entry: RunningEntry)
    ensures
        entry_models(running.insert(id, entry)) == entry_models(running).insert(id, entry@),
{
    assert(entry_models(running.insert(id, entry)) =~= entry_models(running).insert(id, entry@));
}

pub proof fn lemma_remove_entry(running: Running, id: Seq<char>)
    ensures
        entry_models(running.remove(id)) == entry_models(running).remove(id),
{
    assert(entry_models(running.remove(id)) =~= entry_models(running).remove(id));
}

pub proof fn lemma_remove_retry(retries: Retries, id: Seq<char>)
    ensures
        retry_models(retries.remove(id)) == retry_models(retries).remove(id),
{
    assert(retry_models(retries.remove(id)) =~= retry_models(retries).remove(id));
}

pub proof fn lemma_retry_noted(
    before: Orchestrator,
    after: Orchestrator,
    issue: Issue,
    attempt: u32,
    due_at_ms: int,
    error: Option<String>,
    worker_host: Option<String>,
    workspace_path: Option<String>,
    cancelled: Set<Seq<char>>,
)
    requires
        retry_noted(before, after, issue, attempt, due_at_ms, error, worker_host, workspace_path),
    ensures
        schedule_of(after.state, cancelled) == with_retry(
            schedule_of(before.state, cancelled),
            issue@,
            attempt,
            due_at_ms,
            opt_text(error),
            opt_text(worker_host),
            opt_text(workspace_path),
        ),
{
    let id = issue.id@;
    let entry = after.state.retry_attempts@[id];
    let old_retries = before.state.retry_attempts@;
    let new_retries = after.state.retry_attempts@;
    let left = retry_models(new_retries);
    let right = retry_models(old_retries).insert(id, entry@);
    assert forall|k: Seq<char>| #[trigger] left.contains_key(k) == right.contains_key(k) && (
    left.contains_key(k) ==> left[k] == right[k]) by {
        if k != id {
            assert(new_retries.remove(id).contains_key(k) == old_retries.remove(id).contains_key(
                k,
            ));
            if new_retries.contains_key(k) {
                assert(new_retries.remove(id)[k] == new_retries[k]);
                assert(old_retries.remove(id)[k] == old_retries[k]);
            }
        }
    }
    assert(left =~= right);
}

// ---------------------------------------------------------------------------
// Attempts that report, end or are told to stop
// ---------------------------------------------------------------------------

/// The model of a workspace that is to be removed.
pub enum RemovalModel {
    Path { path: Seq<char>, worker_host: Option<Seq<char>> },
    Issue { identifier: Seq<char>, worker_host: Option<Seq<char>> },
}

/// The workspace to remove: the one at a known path, or else that of an issue.
pub open spec fn removal_of(
    path: Option<Seq<char>>,
    identifier: Seq<char>,
    worker_host: Option<Seq<char>>,
) -> RemovalModel {
    match path {
        Some(p) => RemovalModel::Path { path: p, worker_host },
        None => RemovalModel::Issue { identifier, worker_host },
    }
}

/// The model of an attempt that is told to stop.
pub struct StopModel {
    pub issue_id: Seq<char>,
    pub removal: Option<RemovalModel>,
}

/// What is told to stop: the attempt at an issue, with its workspace if that is to
/// be removed and the attempt runs.
pub open spec fn stop_of(s: Schedule, id: Seq<char>, cleanup: bool) -> StopModel {
    StopModel {
        issue_id: id,
        removal: if cleanup && s.running.contains_key(id) {
            Some(
                removal_of(
                    s.running[id].workspace_path,
                    s.running[id].issue.identifier,
                    s.running[id].worker_host,
                ),
            )
        } else {
            None
        },
    }
}

// ---------------------------------------------------------------------------
// Attempts that stall
// ---------------------------------------------------------------------------

/// When an attempt last showed a sign of life.
pub open spec fn last_activity(entry: EntryModel) -> TimePoint {
    match entry.live_session.last_codex_timestamp {
        Some(time) => time@,
        None => entry.started_at,
    }
}

/// For how many milliseconds an attempt has shown no sign of life.
pub open spec fn idle_ms(entry: EntryModel, now: TimePoint) -> int {
    div_to_zero(nanos_between(now, last_activity(entry)), 1_000_000)
}

/// The error of an attempt that has stalled.
pub open spec fn stall_message(ms: int) -> Seq<char> {
    "stalled for "@ + signed_decimal(ms) + "ms without codex activity"@
}

/// The schedule, and what is told to stop, when the first `n` of the attempts
/// have been looked at: those that have been idle for longer than the timeout are
/// told to stop, and are tried again.
pub open spec fn stall_sweep(
    s: Schedule,
    ids: Seq<Seq<char>>,
    n: int,
    timeout_ms: int,
    now: TimePoint,
    now_ms: u64,
    longest_wait: u64,
) -> (Schedule, Seq<StopModel>)
    decreases n,
{
    if n <= 0 {
        (s, Seq::empty())
    } else {
        let (before, stops) = stall_sweep(s, ids, n - 1, timeout_ms, now, now_ms, longest_wait);
        let id = ids[n - 1];
        if before.running.contains_key(id) && idle_ms(before.running[id], now) > timeout_ms {
            (
                after_cancel(
                    before,
                    id,
                    Some(stall_message(idle_ms(before.running[id], now))),
                    now,
                    now_ms,
                    longest_wait,
                ),
                stops.push(stop_of(before, id, false)),
            )
        } else {
            (before, stops)
        }
    }
}

/// The seconds that those of the first `n` attempts have run whose issues are picked.
pub open spec fn run_seconds(
    running: Map<Seq<char>, EntryModel>,
    ids: Seq<Seq<char>>,
    n: int,
    picked: spec_fn(Seq<char>) -> bool,
    now: TimePoint,
) -> int
    decreases n,
{
    if n <= 0 {
        0
    } else {
        let before = run_seconds(running, ids, n - 1, picked, now);
        if picked(ids[n - 1]) {
            before + seconds_passed(running[ids[n - 1]].started_at, now)
        } else {
            before
        }
    }
}

/// The seconds that those attempts have run whose issues are picked.
pub open spec fn picked_seconds(
    running: Map<Seq<char>, EntryModel>,
    picked: spec_fn(Seq<char>) -> bool,
    now: TimePoint,
) -> int {
    let ids = sorted_keys(running.dom());
    run_seconds(running, ids, ids.len() as int, picked, now)
}

/// The schedule when all stalled attempts are stopped, and what was stopped. Without a
/// limit none is.
pub open spec fn stall_check(
    s: Schedule,
    timeout_ms: int,
    now: TimePoint,
    now_ms: u64,
    longest_wait: u64,
) -> (Schedule, Seq<StopModel>) {
    if timeout_ms <= 0 {
        (s, Seq::empty())
    } else {
        let ids = sorted_keys(s.running.dom());
        stall_sweep(s, ids, ids.len() as int, timeout_ms, now, now_ms, longest_wait)
    }
}

/// Whether the time of the attempts whose issues are picked can be added to the
/// totals.
pub open spec fn stops_fit(
    s: Schedule,
    picked: spec_fn(Seq<char>) -> bool,
    now: TimePoint,
) -> bool {
    s.totals.runtime_seconds + picked_seconds(s.running, picked, now) <= u64::MAX
}

/// Picks the issues at which attempts have been idle for longer than the timeout.
pub open spec fn stalled(
    running: Map<Seq<char>, EntryModel>,
    timeout_ms: int,
    now: TimePoint,
) -> spec_fn(Seq<char>) -> bool {
    |id: Seq<char>| idle_ms(running[id], now) > timeout_ms
}

/// Whether the attempts that have been idle for longer than the timeout can be told
/// to stop without a count leaving its range: their time can be added to the totals,
/// and each has a number for the next attempt.
pub open spec fn stalls_fit(s: Schedule, timeout_ms: int, now: TimePoint) -> bool {
    &&& stops_fit(s, stalled(s.running, timeout_ms, now), now)
    &&& forall|id: Seq<char>| #[trigger]
        s.running.contains_key(id) && idle_ms(s.running[id], now) > timeout_ms ==> has_next(
            s.running[id].attempt,
        )
}

/// More attempts have run no fewer seconds.
pub proof fn lemma_run_seconds_grow(
    running: Map<Seq<char>, EntryModel>,
    ids: Seq<Seq<char>>,
    n: int,
    m: int,
    picked: spec_fn(Seq<char>) -> bool,
    now: TimePoint,
)
    requires
        n <= m,
    ensures
        0 <= run_seconds(running, ids, n, picked, now) <= run_seconds(
            running,
            ids,
            m,
            picked,
            now,
        ),
    decreases m,
{
    if m > 0 {
        lemma_run_seconds_grow(
            running,
            ids,
            if n < m {
                n
            } else {
                m - 1
            },
            m - 1,
            picked,
            now,
        );
    }
}

/// Attempts that began at the same times have run as many seconds.
proof fn lemma_run_seconds_same(
    first: Map<Seq<char>, EntryModel>,
    second: Map<Seq<char>, EntryModel>,
    ids: Seq<Seq<char>>,
    n: int,
    picked: spec_fn(Seq<char>) -> bool,
    now: TimePoint,
)
    requires
        n <= ids.len(),
        forall|i: int|
            0 <= i < n ==> first[#[trigger] ids[i]].started_at == second[ids[i]].started_at,
    ensures
        run_seconds(first, ids, n, picked, now) == run_seconds(second, ids, n, picked, now),
    decreases n,
{
    if n > 0 {
        lemma_run_seconds_same(first, second, ids, n - 1, picked, now);
        assert(first[ids[n - 1]].started_at == second[ids[n - 1]].started_at);
    }
}

/// Without one of the attempts, the seconds are fewer by those that it has run.
proof fn lemma_run_seconds_without(
    running: Map<Seq<char>, EntryModel>,
    ids: Seq<Seq<char>>,
    k: int,
    n: int,
    picked: spec_fn(Seq<char>) -> bool,
    now: TimePoint,
)
    requires
        0 <= k < n <= ids.len(),
        picked(ids[k]),
    ensures
        run_seconds(running, ids, n, picked, now) == run_seconds(
            running,
            ids.remove(k),
            n - 1,
            picked,
            now,
        ) + seconds_passed(running[ids[k]].started_at, now),
    decreases n,
{
    if n - 1 == k {
        lemma_run_seconds_front(running, ids, ids.remove(k), k, picked, now);
    } else {
        lemma_run_seconds_without(running, ids, k, n - 1, picked, now);
        assert(ids.remove(k)[n - 2] == ids[n - 1]);
    }
}

/// Only the attempts that are looked at count.
proof fn lemma_run_seconds_front(
    running: Map<Seq<char>, EntryModel>,
    first: Seq<Seq<char>>,
    second: Seq<Seq<char>>,
    n: int,
    picked: spec_fn(Seq<char>) -> bool,
    now: TimePoint,
)
    requires
        n <= first.len(),
        n <= second.len(),
        forall|i: int| 0 <= i < n ==> #[trigger] first[i] == second[i],
    ensures
        run_seconds(running, first, n, picked, now) == run_seconds(running, second, n, picked, now),
    decreases n,
{
    if n > 0 {
        lemma_run_seconds_front(running, first, second, n - 1, picked, now);
        assert(first[n - 1] == second[n - 1]);
    }
}

/// When a picked attempt is no longer among those that run, there is room for the
/// time of the others as soon as its own has been added.
pub proof fn lemma_stop_keeps_room(
    running: Map<Seq<char>, EntryModel>,
    id: Seq<char>,
    picked: spec_fn(Seq<char>) -> bool,
    now: TimePoint,
)
    requires
        running.dom().finite(),
        running.contains_key(id),
        picked(id),
    ensures
        picked_seconds(running, picked, now) == picked_seconds(running.remove(id), picked, now)
            + seconds_passed(running[id].started_at, now),
        picked_seconds(running.remove(id), picked, now) >= 0,
{
    let ids = sorted_keys(running.dom());
    let after = running.remove(id);
    lemma_sorted_keys_lists(running.dom());
    assert(running.dom().contains(id));
    let k = choose|k: int| 0 <= k < ids.len() && ids[k] == id;
    let rest = ids.remove(k);
    lemma_listing_without(ids, running.dom(), k);
    assert(after.dom() =~= running.dom().remove(id));
    lemma_sorted_keys_is(rest, after.dom());
    lemma_run_seconds_without(running, ids, k, ids.len() as int, picked, now);
    assert forall|i: int| 0 <= i < rest.len() implies running[#[trigger] rest[i]].started_at
        == after[rest[i]].started_at by {
        assert(rest.contains(rest[i]));
        assert(after.dom().contains(rest[i]));
    }
    lemma_run_seconds_same(running, after, rest, rest.len() as int, picked, now);
    lemma_run_seconds_grow(after, rest, 0, rest.len() as int, picked, now);
}

/// A running attempt that is told what its issue now is has run as long as before.
pub proof fn lemma_issue_keeps_room(
    s: Schedule,
    issue: IssueModel,
    picked: spec_fn(Seq<char>) -> bool,
    now: TimePoint,
)
    requires
        s.running.dom().finite(),
    ensures
        picked_seconds(with_issue(s, issue).running, picked, now) == picked_seconds(
            s.running,
            picked,
            now,
        ),
{
    let after = with_issue(s, issue).running;
    let ids = sorted_keys(s.running.dom());
    assert(after.dom() =~= s.running.dom());
    lemma_run_seconds_same(s.running, after, ids, ids.len() as int, picked, now);
}

// ---------------------------------------------------------------------------
// What the tracker says of running attempts
// ---------------------------------------------------------------------------

/// Whether an issue is done with.
pub open spec fn is_terminal(config: ServiceModel, issue: IssueModel) -> bool {
    normal_states(config.tracker.terminal_states).contains(normal_state(issue.state))
}

/// Whether an issue is worked on.
pub open spec fn is_active(config: ServiceModel, issue: IssueModel) -> bool {
    normal_states(config.tracker.active_states).contains(normal_state(issue.state))
}

/// The schedule with a running attempt told what its issue now is.
pub open spec fn with_issue(s: Schedule, issue: IssueModel) -> Schedule {
    if s.running.contains_key(issue.id) {
        Schedule {
            running: s.running.insert(
                issue.id,
                EntryModel { issue, ..s.running[issue.id] },
            ),
            ..s
        }
    } else {
        s
    }
}

/// The schedule, and what is told to stop, when the first `n` of the issues have
/// been looked at: attempts at issues that are done with stop and their workspaces
/// are removed; those at issues that are no longer worked on stop; the others are
/// told what their issue now is.
pub open spec fn reconcile_sweep(
    s: Schedule,
    config: ServiceModel,
    issues: Seq<IssueModel>,
    n: int,
    now: TimePoint,
    now_ms: u64,
    longest_wait: u64,
) -> (Schedule, Seq<StopModel>)
    decreases n,
{
    if n <= 0 {
        (s, Seq::empty())
    } else {
        let (before, stops) = reconcile_sweep(
            s,
            config,
            issues,
            n - 1,
            now,
            now_ms,
            longest_wait,
        );
        let issue = issues[n - 1];
        if is_terminal(config, issue) {
            (
                after_cancel(before, issue.id, None, now, now_ms, longest_wait),
                stops.push(stop_of(before, issue.id, true)),
            )
        } else if !issue.assigned_to_worker || !is_active(config, issue) {
            (
                after_cancel(before, issue.id, None, now, now_ms, longest_wait),
                stops.push(stop_of(before, issue.id, false)),
            )
        } else {
            (with_issue(before, issue), stops)
        }
    }
}

/// Whether the attempt at an issue stops when the tracker has named it.
pub open spec fn stops_work(config: ServiceModel, issue: IssueModel) -> bool {
    is_terminal(config, issue) || !issue.assigned_to_worker || !is_active(config, issue)
}

/// Picks the issues at which attempts stop by what the tracker says: it has named
/// them as issues that are not worked on, or it has not named them although they
/// were asked for.
pub open spec fn told_to_stop(
    config: ServiceModel,
    ids: Seq<Seq<char>>,
    issues: Seq<IssueModel>,
) -> spec_fn(Seq<char>) -> bool {
    |id: Seq<char>|
        (exists|i: int|
            0 <= i < issues.len() && (#[trigger] issues[i]).id == id && stops_work(
                config,
                issues[i],
            )) || (ids.contains(id) && !is_named(issues, id))
}

/// Whether an issue is among those that the tracker named.
pub open spec fn is_named(issues: Seq<IssueModel>, id: Seq<char>) -> bool {
    exists|i: int| 0 <= i < issues.len() && (#[trigger] issues[i]).id == id
}

/// The schedule, and what is told to stop, when the first `n` of the attempts have
/// been looked at: those at issues that the tracker did not name stop.
pub open spec fn missing_sweep(
    s: Schedule,
    ids: Seq<Seq<char>>,
    issues: Seq<IssueModel>,
    n: int,
    now: TimePoint,
    now_ms: u64,
    longest_wait: u64,
) -> (Schedule, Seq<StopModel>)
    decreases n,
{
    if n <= 0 {
        (s, Seq::empty())
    } else {
        let (before, stops) = missing_sweep(s, ids, issues, n - 1, now, now_ms, longest_wait);
        let id = ids[n - 1];
        if is_named(issues, id) {
            (before, stops)
        } else {
            (
                after_cancel(before, id, None, now, now_ms, longest_wait),
                stops.push(stop_of(before, id, false)),
            )
        }
    }
}

// ---------------------------------------------------------------------------
// Hosts
// ---------------------------------------------------------------------------

/// Whether a running attempt runs on a host.
pub open spec fn on_host(running: Map<Seq<char>, EntryModel>, host: Seq<char>) -> spec_fn(
    Seq<char>,
) -> bool {
    |id: Seq<char>| running[id].worker_host == Some(host)
}

/// How many attempts run on a host.
pub open spec fn running_on_host(running: Map<Seq<char>, EntryModel>, host: Seq<char>) -> nat {
    running.dom().filter(on_host(running, host)).len()
}

/// Whether another attempt may run on a host.
pub open spec fn host_is_free(
    running: Map<Seq<char>, EntryModel>,
    limit: Option<usize>,
    host: Seq<char>,
) -> bool {
    match limit {
        Some(n) => running_on_host(running, host) < n,
        None => true,
    }
}

/// Those of the hosts on which another attempt may run.
pub open spec fn free_hosts(
    running: Map<Seq<char>, EntryModel>,
    limit: Option<usize>,
    hosts: Seq<Seq<char>>,
) -> Seq<Seq<char>>
    decreases hosts.len(),
{
    if hosts.len() == 0 {
        Seq::empty()
    } else {
        let before = free_hosts(running, limit, hosts.drop_last());
        if host_is_free(running, limit, hosts.last()) {
            before.push(hosts.last())
        } else {
            before
        }
    }
}

/// The first of the hosts on which the fewest attempts run.
pub open spec fn least_used(running: Map<Seq<char>, EntryModel>, hosts: Seq<Seq<char>>) -> Seq<char>
    decreases hosts.len(),
{
    if hosts.len() <= 1 {
        hosts[0]
    } else {
        let best = least_used(running, hosts.drop_last());
        if running_on_host(running, hosts.last()) < running_on_host(running, best) {
            hosts.last()
        } else {
            best
        }
    }
}

/// The host for an attempt: this one where no others are configured; no host at
/// all where none is free; the preferred one if that is free; and otherwise the
/// free one on which the fewest attempts run.
pub open spec fn host_for(
    running: Map<Seq<char>, EntryModel>,
    worker: WorkerModel,
    preferred: Option<Seq<char>>,
) -> Option<Option<Seq<char>>> {
    let free = free_hosts(running, worker.max_concurrent_agents_per_host, worker.ssh_hosts);
    if worker.ssh_hosts.len() == 0 {
        Some(None)
    } else if free.len() == 0 {
        None
    } else {
        match preferred {
            Some(host) => if free.contains(host) {
                Some(Some(host))
            } else {
                Some(Some(least_used(running, free)))
            },
            None => Some(Some(least_used(running, free))),
        }
    }
}

// ---------------------------------------------------------------------------
// Starting attempts
// ---------------------------------------------------------------------------

/// An attempt that is to be started.
pub struct StartModel {
    pub issue: IssueModel,
    pub attempt: Option<u32>,
    pub worker_host: Option<Seq<char>>,
}

/// The schedule when an attempt is to be started, and the attempt if it is. Where
/// no host is free, an attempt that is made again is put off; a first one is left
/// to be chosen anew.
pub open spec fn after_dispatch(
    s: Schedule,
    worker: WorkerModel,
    issue: IssueModel,
    attempt: Option<u32>,
    preferred: Option<Seq<char>>,
    started_at: TimePoint,
    now_ms: u64,
    longest_wait: u64,
) -> (Schedule, Option<StartModel>) {
    match host_for(s.running, worker, preferred) {
        Some(worker_host) => (
            with_started(s, issue, attempt, worker_host, started_at),
            Some(StartModel { issue, attempt, worker_host }),
        ),
        None => match attempt {
            Some(n) => (
                with_retry(
                    s,
                    issue,
                    (n + 1) as u32,
                    now_ms + backoff((n + 1) as u32, longest_wait),
                    Some("no available worker capacity"@),
                    preferred,
                    None,
                ),
                None,
            ),
            None => (s, None),
        },
    }
}

/// The schedule, and the attempts to start, when the first `n` of the issues have
/// been gone through.
pub open spec fn dispatch_sweep(
    s: Schedule,
    worker: WorkerModel,
    issues: Seq<IssueModel>,
    n: int,
    started_at: TimePoint,
    now_ms: u64,
    longest_wait: u64,
) -> (Schedule, Seq<StartModel>)
    decreases n,
{
    if n <= 0 {
        (s, Seq::empty())
    } else {
        let (before, starts) = dispatch_sweep(
            s,
            worker,
            issues,
            n - 1,
            started_at,
            now_ms,
            longest_wait,
        );
        let (after, start) = after_dispatch(
            before,
            worker,
            issues[n - 1],
            None,
            None,
            started_at,
            now_ms,
            longest_wait,
        );
        (
            after,
            match start {
                Some(model) => starts.push(model),
                None => starts,
            },
        )
    }
}

/// The issues that are chosen to be started.
pub open spec fn chosen_issues(
    config: ServiceModel,
    state: OrchestratorRuntimeState,
    issues: Seq<Issue>,
) -> Seq<IssueModel> {
    started(config, state, issues, ranking(config, state, issues)).map_values(
        |i: int| issues[i]@,
    )
}

// ---------------------------------------------------------------------------
// Retries
// ---------------------------------------------------------------------------

/// The last of the issues with an id.
pub open spec fn last_with_id(issues: Seq<IssueModel>, id: Seq<char>) -> Option<IssueModel>
    decreases issues.len(),
{
    if issues.len() == 0 {
        None
    } else if issues.last().id == id {
        Some(issues.last())
    } else {
        last_with_id(issues.drop_last(), id)
    }
}

/// Whether an attempt at an issue is put off when it cannot be started: the issue
/// is worked on, by us, and is not blocked.
pub open spec fn can_be_retried(config: ServiceModel, issue: IssueModel) -> bool {
    is_active(config, issue) && !is_terminal(config, issue) && issue.assigned_to_worker && !blocked(
        issue,
        config.tracker.terminal_states,
    )
}

/// The model of what is done about an attempt that is due.
pub enum RetryStepModel {
    Remove(RemovalModel),
    Start { issue: IssueModel, attempt: u32, worker_host: Option<Seq<char>> },
    Settled,
}

/// The schedule, and what is done, for an attempt that is due, by what the tracker
/// says of its issue: one that is done with is removed; one that may be started is
/// started; one that may be started later is put off; any other is given up.
pub open spec fn after_retry(
    s: Schedule,
    config: ServiceModel,
    reason: Option<crate::orchestrator::BlockModel>,
    retry: RetryModel,
    issue: Option<IssueModel>,
    now_ms: u64,
    longest_wait: u64,
) -> (Schedule, RetryStepModel) {
    match issue {
        Some(found) => if is_terminal(config, found) {
            (
                without_claim(s, retry.issue_id),
                RetryStepModel::Remove(
                    removal_of(retry.workspace_path, found.identifier, retry.worker_host),
                ),
            )
        } else if reason is None {
            (
                s,
                RetryStepModel::Start {
                    issue: found,
                    attempt: retry.attempt,
                    worker_host: retry.worker_host,
                },
            )
        } else if can_be_retried(config, found) {
            (
                with_retry(
                    s,
                    found,
                    (retry.attempt + 1) as u32,
                    now_ms + backoff((retry.attempt + 1) as u32, longest_wait),
                    Some("no available orchestrator slots"@),
                    retry.worker_host,
                    retry.workspace_path,
                ),
                RetryStepModel::Settled,
            )
        } else {
            (without_claim(s, retry.issue_id), RetryStepModel::Settled)
        },
        None => (without_claim(s, retry.issue_id), RetryStepModel::Settled),
    }
}

// ---------------------------------------------------------------------------
// Laws
// ---------------------------------------------------------------------------

/// A schedule that holds together: every running attempt and every waiting one is
/// kept under the id of its issue and holds the claim on it, and no issue has
/// both.
pub open spec fn consistent(s: Schedule) -> bool {
    &&& forall|id: Seq<char>| #[trigger]
        s.running.contains_key(id) ==> s.running[id].issue.id == id && s.claimed.contains(id)
            && !s.retries.contains_key(id)
    &&& forall|id: Seq<char>| #[trigger]
        s.retries.contains_key(id) ==> s.retries[id].issue_id == id && s.claimed.contains(id)
}

/// A new service has a schedule that holds together.
pub proof fn lemma_empty_schedule_is_consistent(s: Schedule)
    requires
        s.running == Map::<Seq<char>, EntryModel>::empty(),
        s.retries == Map::<Seq<char>, RetryModel>::empty(),
    ensures
        consistent(s),
{
}

/// Starting an attempt keeps the schedule together.
pub proof fn lemma_start_keeps_consistent(
    s: Schedule,
    issue: IssueModel,
    attempt: Option<u32>,
    worker_host: Option<Seq<char>>,
    started_at: TimePoint,
)
    requires
        consistent(s),
    ensures
        consistent(with_started(s, issue, attempt, worker_host, started_at)),
{
}

/// The end of an attempt keeps the schedule together.
pub proof fn lemma_exit_keeps_consistent(
    s: Schedule,
    id: Seq<char>,
    status: ExitModel,
    now: TimePoint,
    now_ms: u64,
    longest_wait: u64,
)
    requires
        consistent(s),
    ensures
        consistent(after_exit(s, id, status, now, now_ms, longest_wait)),
{
}

/// Telling an attempt to stop keeps the schedule together.
pub proof fn lemma_cancel_keeps_consistent(
    s: Schedule,
    id: Seq<char>,
    error: Option<Seq<char>>,
    now: TimePoint,
    now_ms: u64,
    longest_wait: u64,
)
    requires
        consistent(s),
    ensures
        consistent(after_cancel(s, id, error, now, now_ms, longest_wait)),
{
}

/// Looking for stalled attempts keeps the schedule together.
pub proof fn lemma_stall_sweep_keeps_consistent(
    s: Schedule,
    ids: Seq<Seq<char>>,
    n: int,
    timeout_ms: int,
    now: TimePoint,
    now_ms: u64,
    longest_wait: u64,
)
    requires
        consistent(s),
    ensures
        consistent(stall_sweep(s, ids, n, timeout_ms, now, now_ms, longest_wait).0),
    decreases n,
{
    if n > 0 {
        lemma_stall_sweep_keeps_consistent(
            s,
            ids,
            n - 1,
            timeout_ms,
            now,
            now_ms,
            longest_wait,
        );
    }
}

/// Taking in what the tracker says keeps the schedule together.
pub proof fn lemma_reconcile_keeps_consistent(
    s: Schedule,
    config: ServiceModel,
    issues: Seq<IssueModel>,
    n: int,
    now: TimePoint,
    now_ms: u64,
    longest_wait: u64,
)
    requires
        consistent(s),
    ensures
        consistent(reconcile_sweep(s, config, issues, n, now, now_ms, longest_wait).0),
    decreases n,
{
    if n > 0 {
        lemma_reconcile_keeps_consistent(s, config, issues, n - 1, now, now_ms, longest_wait);
    }
}

/// Stopping attempts that the tracker did not name keeps the schedule together.
pub proof fn lemma_missing_sweep_keeps_consistent(
    s: Schedule,
    ids: Seq<Seq<char>>,
    issues: Seq<IssueModel>,
    n: int,
    now: TimePoint,
    now_ms: u64,
    longest_wait: u64,
)
    requires
        consistent(s),
    ensures
        consistent(missing_sweep(s, ids, issues, n, now, now_ms, longest_wait).0),
    decreases n,
{
    if n > 0 {
        lemma_missing_sweep_keeps_consistent(s, ids, issues, n - 1, now, now_ms, longest_wait);
    }
}

/// Starting attempts, or putting off those that do not run, keeps the schedule
/// together.
pub proof fn lemma_dispatch_keeps_consistent(
    s: Schedule,
    worker: WorkerModel,
    issue: IssueModel,
    attempt: Option<u32>,
    preferred: Option<Seq<char>>,
    started_at: TimePoint,
    now_ms: u64,
    longest_wait: u64,
)
    requires
        consistent(s),
        !s.running.contains_key(issue.id),
    ensures
        consistent(
            after_dispatch(
                s,
                worker,
                issue,
                attempt,
                preferred,
                started_at,
                now_ms,
                longest_wait,
            ).0,
        ),
{
}

/// Starting attempts at several issues, all different and none with a running
/// attempt, keeps the schedule together; nothing that ran before is touched.
pub proof fn lemma_dispatch_sweep_keeps_consistent(
    s: Schedule,
    worker: WorkerModel,
    issues: Seq<IssueModel>,
    n: int,
    started_at: TimePoint,
    now_ms: u64,
    longest_wait: u64,
)
    requires
        consistent(s),
        0 <= n <= issues.len(),
        forall|i: int| 0 <= i < issues.len() ==> !s.running.contains_key((#[trigger] issues[i]).id),
        forall|i: int, j: int|
            0 <= i < j < issues.len() ==> (#[trigger] issues[i]).id != (#[trigger] issues[j]).id,
    ensures
        ({
            let after = dispatch_sweep(s, worker, issues, n, started_at, now_ms, longest_wait).0;
            &&& consistent(after)
            &&& forall|id: Seq<char>| #[trigger]
                s.running.contains_key(id) ==> after.running.contains_key(id) && after.running[id]
                    == s.running[id]
            &&& forall|i: int|
                n <= i < issues.len() ==> !after.running.contains_key((#[trigger] issues[i]).id)
        }),
    decreases n,
{
    if n > 0 {
        lemma_dispatch_sweep_keeps_consistent(
            s,
            worker,
            issues,
            n - 1,
            started_at,
            now_ms,
            longest_wait,
        );
        let before = dispatch_sweep(
            s,
            worker,
            issues,
            n - 1,
            started_at,
            now_ms,
            longest_wait,
        ).0;
        let issue = issues[n - 1];
        lemma_dispatch_keeps_consistent(
            before,
            worker,
            issue,
            None,
            None,
            started_at,
            now_ms,
            longest_wait,
        );
        assert forall|i: int| n <= i < issues.len() implies (#[trigger] issues[i]).id != issue.id by {
            assert(issues[n - 1].id != issues[i].id);
        }
    }
}

/// The running attempts at issues in a state, given by its normal name.
pub open spec fn running_at_state(running: Map<Seq<char>, EntryModel>, state: Seq<char>) -> Set<
    Seq<char>,
> {
    running.dom().filter(|id: Seq<char>| normal_state(running[id].issue.state) == state)
}

/// How many of the first `n` issues are in a state, given by its normal name.
pub open spec fn issues_at_state(issues: Seq<IssueModel>, n: int, state: Seq<char>) -> nat
    decreases n,
{
    if n <= 0 {
        0
    } else {
        let before = issues_at_state(issues, n - 1, state);
        if normal_state(issues[n - 1].state) == state {
            before + 1
        } else {
            before
        }
    }
}

/// Starting attempts adds no more running attempts than there are issues, in all
/// and in each state.
pub proof fn lemma_dispatch_adds_at_most(
    s: Schedule,
    worker: WorkerModel,
    issues: Seq<IssueModel>,
    n: int,
    started_at: TimePoint,
    now_ms: u64,
    longest_wait: u64,
    state: Seq<char>,
)
    requires
        s.running.dom().finite(),
        0 <= n <= issues.len(),
    ensures
        ({
            let after = dispatch_sweep(s, worker, issues, n, started_at, now_ms, longest_wait).0;
            &&& after.running.dom().finite()
            &&& after.running.len() <= s.running.len() + n
            &&& running_at_state(after.running, state).len() <= running_at_state(
                s.running,
                state,
            ).len() + issues_at_state(issues, n, state)
        }),
    decreases n,
{
    if n > 0 {
        lemma_dispatch_adds_at_most(
            s,
            worker,
            issues,
            n - 1,
            started_at,
            now_ms,
            longest_wait,
            state,
        );
        let before = dispatch_sweep(
            s,
            worker,
            issues,
            n - 1,
            started_at,
            now_ms,
            longest_wait,
        ).0;
        let after = dispatch_sweep(s, worker, issues, n, started_at, now_ms, longest_wait).0;
        let issue = issues[n - 1];
        let old_set = running_at_state(before.running, state);
        let new_set = running_at_state(after.running, state);
        if after.running != before.running {
            assert(after.running.dom() =~= before.running.dom().insert(issue.id));
            if normal_state(issue.state) == state {
                assert(new_set.subset_of(old_set.insert(issue.id)));
                vstd::set_lib::lemma_len_subset(new_set, old_set.insert(issue.id));
            } else {
                assert(new_set.subset_of(old_set));
                vstd::set_lib::lemma_len_subset(new_set, old_set);
            }
        }
    }
}

proof fn lemma_chosen_counts(issues: Seq<Issue>, chosen: Seq<int>, n: int, state: Seq<char>)
    requires
        0 <= n <= chosen.len(),
    ensures
        issues_at_state(chosen.map_values(|i: int| issues[i]@), n, state) == chosen_in_state(
            issues,
            chosen.take(n),
            state,
        ),
    decreases n,
{
    if n > 0 {
        lemma_chosen_counts(issues, chosen, n - 1, state);
        assert(chosen.take(n).drop_last() =~= chosen.take(n - 1));
    }
}

/// Starting the chosen issues keeps to the limits: no more attempts run than may
/// run at once, and no more of those at issues in the state of a chosen one than
/// that state allows.
pub proof fn lemma_dispatch_keeps_limits(
    config: ServiceModel,
    state: OrchestratorRuntimeState,
    issues: Seq<Issue>,
    cancelled: Set<Seq<char>>,
    worker: WorkerModel,
    started_at: TimePoint,
    now_ms: u64,
    longest_wait: u64,
    k: int,
)
    requires
        0 <= k < chosen_issues(config, state, issues).len(),
    ensures
        ({
            let chosen = chosen_issues(config, state, issues);
            let after = dispatch_sweep(
                schedule_of(state, cancelled),
                worker,
                chosen,
                chosen.len() as int,
                started_at,
                now_ms,
                longest_wait,
            ).0;
            &&& after.running.len() <= state.max_concurrent_agents
            &&& running_at_state(after.running, normal_state(chosen[k].state)).len()
                <= limit_for_state(config.agent, chosen[k].state)
        }),
{
    let chosen = chosen_issues(config, state, issues);
    let order = started(config, state, issues, ranking(config, state, issues));
    let s = schedule_of(state, cancelled);
    let name = normal_state(chosen[k].state);
    lemma_map_finite(state.running);
    assert(s.running.dom() =~= state.running@.dom());
    assert(s.running.len() == state.running@.len());
    lemma_selection_law(config, state, issues);
    lemma_dispatch_adds_at_most(
        s,
        worker,
        chosen,
        chosen.len() as int,
        started_at,
        now_ms,
        longest_wait,
        name,
    );
    lemma_chosen_counts(issues, order, order.len() as int, name);
    assert(order.take(order.len() as int) =~= order);
    assert(order.contains(order[k]));
    assert(chosen[k] == issues[order[k]]@);
    assert(running_at_state(s.running, name) =~= running_with_state(state.running@, name));
}

/// Settling an attempt that is due keeps the schedule together, for an issue with
/// no running attempt.
pub proof fn lemma_retry_keeps_consistent(
    s: Schedule,
    config: ServiceModel,
    reason: Option<crate::orchestrator::BlockModel>,
    retry: RetryModel,
    issue: Option<IssueModel>,
    now_ms: u64,
    longest_wait: u64,
)
    requires
        consistent(s),
        !s.running.contains_key(retry.issue_id),
        issue matches Some(found) ==> !s.running.contains_key(found.id),
    ensures
        consistent(after_retry(s, config, reason, retry, issue, now_ms, longest_wait).0),
{
}

/// Telling one attempt to stop leaves the others as they run.
pub proof fn lemma_cancel_leaves_others(
    s: Schedule,
    id: Seq<char>,
    error: Option<Seq<char>>,
    now: TimePoint,
    now_ms: u64,
    longest_wait: u64,
)
    ensures
        after_cancel(s, id, error, now, now_ms, longest_wait).running == s.running.remove(id),
{
    assert(after_cancel(s, id, error, now, now_ms, longest_wait).running =~= s.running.remove(id));
}

/// After stalled attempts have been looked for, none of those that were looked at
/// and still run has been idle for longer than the timeout, and what still runs
/// runs as before.
pub proof fn lemma_no_stalled_attempt_is_left(
    s: Schedule,
    ids: Seq<Seq<char>>,
    n: int,
    timeout_ms: int,
    now: TimePoint,
    now_ms: u64,
    longest_wait: u64,
)
    requires
        0 <= n <= ids.len(),
    ensures
        ({
            let after = stall_sweep(s, ids, n, timeout_ms, now, now_ms, longest_wait).0;
            &&& forall|id: Seq<char>| #[trigger]
                after.running.contains_key(id) ==> s.running.contains_key(id) && after.running[id]
                    == s.running[id]
            &&& forall|i: int|
                0 <= i < n && after.running.contains_key(#[trigger] ids[i]) ==> idle_ms(
                    after.running[ids[i]],
                    now,
                ) <= timeout_ms
        }),
    decreases n,
{
    if n > 0 {
        lemma_no_stalled_attempt_is_left(s, ids, n - 1, timeout_ms, now, now_ms, longest_wait);
        let before = stall_sweep(s, ids, n - 1, timeout_ms, now, now_ms, longest_wait).0;
        let id = ids[n - 1];
        if before.running.contains_key(id) && idle_ms(before.running[id], now) > timeout_ms {
            lemma_cancel_leaves_others(
                before,
                id,
                Some(stall_message(idle_ms(before.running[id], now))),
                now,
                now_ms,
                longest_wait,
            );
        }
    }
}

/// After the tracker has been heard, every attempt at one of the issues it named
/// that still runs is at an issue that is worked on, by us, and is not done with.
pub proof fn lemma_reconciled_attempts_are_active(
    s: Schedule,
    config: ServiceModel,
    issues: Seq<IssueModel>,
    n: int,
    now: TimePoint,
    now_ms: u64,
    longest_wait: u64,
)
    requires
        0 <= n <= issues.len(),
    ensures
        ({
            let after = reconcile_sweep(s, config, issues, n, now, now_ms, longest_wait).0;
            &&& forall|id: Seq<char>| #[trigger]
                after.running.contains_key(id) ==> s.running.contains_key(id)
            &&& forall|i: int|
                0 <= i < n && after.running.contains_key((#[trigger] issues[i]).id) ==> is_active(
                    config,
                    issues[i],
                ) && !is_terminal(config, issues[i]) && issues[i].assigned_to_worker
        }),
    decreases n,
{
    if n > 0 {
        lemma_reconciled_attempts_are_active(s, config, issues, n - 1, now, now_ms, longest_wait);
        let before = reconcile_sweep(s, config, issues, n - 1, now, now_ms, longest_wait).0;
        lemma_cancel_leaves_others(before, issues[n - 1].id, None, now, now_ms, longest_wait);
    }
}

/// After the tracker has been heard, every attempt that was looked at and still
/// runs is at an issue that the tracker named.
pub proof fn lemma_reconciled_attempts_are_named(
    s: Schedule,
    ids: Seq<Seq<char>>,
    issues: Seq<IssueModel>,
    n: int,
    now: TimePoint,
    now_ms: u64,
    longest_wait: u64,
)
    requires
        0 <= n <= ids.len(),
    ensures
        ({
            let after = missing_sweep(s, ids, issues, n, now, now_ms, longest_wait).0;
            &&& forall|id: Seq<char>| #[trigger]
                after.running.contains_key(id) ==> s.running.contains_key(id) && after.running[id]
                    == s.running[id]
            &&& forall|i: int|
                0 <= i < n && after.running.contains_key(#[trigger] ids[i]) ==> is_named(
                    issues,
                    ids[i],
                )
        }),
    decreases n,
{
    if n > 0 {
        lemma_reconciled_attempts_are_named(s, ids, issues, n - 1, now, now_ms, longest_wait);
        let before = missing_sweep(s, ids, issues, n - 1, now, now_ms, longest_wait).0;
        lemma_cancel_leaves_others(before, ids[n - 1], None, now, now_ms, longest_wait);
    }
}

/// An attempt that was told to stop is not told of again when it ends: its end
/// changes nothing but that it is no longer awaited.
pub proof fn lemma_exit_after_cancel(
    s: Schedule,
    id: Seq<char>,
    error: Option<Seq<char>>,
    status: ExitModel,
    now: TimePoint,
    now_ms: u64,
    longest_wait: u64,
)
    ensures
        ({
            let told = after_cancel(s, id, error, now, now_ms, longest_wait);
            after_exit(told, id, status, now, now_ms, longest_wait) == Schedule {
                cancelled: s.cancelled.remove(id),
                ..told
            }
        }),
{
    let told = after_cancel(s, id, error, now, now_ms, longest_wait);
    assert(told.cancelled =~= s.cancelled.insert(id));
    assert(told.cancelled.remove(id) =~= s.cancelled.remove(id));
}

/// A report of a running attempt that comes twice is counted once: the second leaves
/// the totals and all counts of the session as the first has left them.
pub proof fn lemma_repeated_report_changes_no_count(
    s: Schedule,
    id: Seq<char>,
    first: AgentUpdate,
    second: AgentUpdate,
    kind: TokenKind,
)
    requires
        s.running.contains_key(id),
        update_fits(s.totals, s.running[id].live_session, first),
        opt_json_value(first.usage) == opt_json_value(second.usage),
    ensures
        ({
            let once = with_update(s, id, first);
            let twice = with_update(once, id, second);
            let before = once.running[id].live_session;
            let after = twice.running[id].live_session;
            &&& twice.totals == once.totals
            &&& tokens_used(after, kind) == tokens_used(before, kind)
            &&& last_report(after, kind) == last_report(before, kind)
        }),
{
    lemma_repeated_report_is_counted_once(
        s.totals,
        s.running[id].live_session,
        first,
        second,
        kind,
    );
}

/// Reports keep the schedule together.
pub proof fn lemma_update_keeps_consistent(s: Schedule, id: Seq<char>, update: AgentUpdate)
    requires
        consistent(s),
    ensures
        consistent(with_update(s, id, update)),
{
}

/// Giving up the claim on an issue undoes that a retry was noted for it.
pub proof fn lemma_release_undoes_retry(
    s: Schedule,
    issue: IssueModel,
    attempt: u32,
    due_at_ms: int,
    error: Option<Seq<char>>,
    worker_host: Option<Seq<char>>,
    workspace_path: Option<Seq<char>>,
)
    requires
        !s.claimed.contains(issue.id),
        !s.retries.contains_key(issue.id),
    ensures
        without_claim(
            with_retry(s, issue, attempt, due_at_ms, error, worker_host, workspace_path),
            issue.id,
        ) == s,
{
    let noted = with_retry(s, issue, attempt, due_at_ms, error, worker_host, workspace_path);
    assert(without_claim(noted, issue.id) =~= s);
}

/// Telling an attempt that has just been started to stop undoes the start: what
/// runs, what is claimed, what waits and what is completed is as before.
pub proof fn lemma_cancel_undoes_start(
    s: Schedule,
    issue: IssueModel,
    attempt: Option<u32>,
    worker_host: Option<Seq<char>>,
    started_at: TimePoint,
    now: TimePoint,
    now_ms: u64,
    longest_wait: u64,
)
    requires
        !s.running.contains_key(issue.id),
        !s.claimed.contains(issue.id),
        !s.retries.contains_key(issue.id),
    ensures
        ({
            let started = with_started(s, issue, attempt, worker_host, started_at);
            let after = after_cancel(started, issue.id, None, now, now_ms, longest_wait);
            &&& after.running == s.running
            &&& after.claimed == s.claimed
            &&& after.retries == s.retries
            &&& after.completed == s.completed
        }),
{
    let started = with_started(s, issue, attempt, worker_host, started_at);
    let after = after_cancel(started, issue.id, None, now, now_ms, longest_wait);
    assert(after.running =~= s.running);
    assert(after.claimed =~= s.claimed);
    assert(after.retries =~= s.retries);
}

/// After an attempt has ended, or has been told to stop, it does not run.
pub proof fn lemma_ended_does_not_run(
    s: Schedule,
    id: Seq<char>,
    error: Option<Seq<char>>,
    status: ExitModel,
    now: TimePoint,
    now_ms: u64,
    longest_wait: u64,
)
    ensures
        !after_cancel(s, id, error, now, now_ms, longest_wait).running.contains_key(id),
        !s.cancelled.contains(id) ==> !after_exit(
            s,
            id,
            status,
            now,
            now_ms,
            longest_wait,
        ).running.contains_key(id),
{
}

/// No more attempts run on a host than it may have, when an attempt is started on
/// a host that was chosen for it.
pub proof fn lemma_host_limit_is_kept(
    s: Schedule,
    worker: WorkerModel,
    issue: IssueModel,
    attempt: Option<u32>,
    preferred: Option<Seq<char>>,
    started_at: TimePoint,
    host: Seq<char>,
    limit: usize,
)
    requires
        s.running.dom().finite(),
        worker.ssh_hosts.len() > 0,
        worker.max_concurrent_agents_per_host == Some(limit),
        host_for(s.running, worker, preferred) == Some(Some(host)),
        !s.running.contains_key(issue.id),
    ensures
        worker.ssh_hosts.contains(host),
        running_on_host(
            with_started(s, issue, attempt, Some(host), started_at).running,
            host,
        ) <= limit,
{
    let free = free_hosts(s.running, worker.max_concurrent_agents_per_host, worker.ssh_hosts);
    lemma_least_used_is_one(s.running, free);
    assert(free.contains(host));
    lemma_free_hosts(s.running, worker.max_concurrent_agents_per_host, worker.ssh_hosts, host);
    let after = with_started(s, issue, attempt, Some(host), started_at).running;
    let on_before = s.running.dom().filter(on_host(s.running, host));
    let on_after = after.dom().filter(on_host(after, host));
    assert(on_after =~= on_before.insert(issue.id));
}

pub proof fn lemma_least_used_is_one(running: Map<Seq<char>, EntryModel>, hosts: Seq<Seq<char>>)
    ensures
        hosts.len() > 0 ==> hosts.contains(least_used(running, hosts)),
    decreases hosts.len(),
{
    if hosts.len() == 1 {
        assert(hosts[0] == least_used(running, hosts));
    } else if hosts.len() > 1 {
        let front = hosts.drop_last();
        lemma_least_used_is_one(running, front);
        let best = least_used(running, front);
        let j = choose|j: int| 0 <= j < front.len() && front[j] == best;
        assert(hosts[j] == best);
        assert(hosts[hosts.len() - 1] == hosts.last());
    }
}

pub proof fn lemma_free_hosts(
    running: Map<Seq<char>, EntryModel>,
    limit: Option<usize>,
    hosts: Seq<Seq<char>>,
    host: Seq<char>,
)
    ensures
        free_hosts(running, limit, hosts).contains(host) ==> hosts.contains(host) && host_is_free(
            running,
            limit,
            host,
        ),
    decreases hosts.len(),
{
    if hosts.len() > 0 {
        let front = hosts.drop_last();
        lemma_free_hosts(running, limit, front, host);
        let before = free_hosts(running, limit, front);
        let after = free_hosts(running, limit, hosts);
        if after.contains(host) {
            let x = choose|x: int| 0 <= x < after.len() && after[x] == host;
            if x < before.len() {
                assert(before[x] == host);
                assert(before.contains(host));
                let y = choose|y: int| 0 <= y < front.len() && front[y] == host;
                assert(hosts[y] == host);
            } else {
                assert(hosts[hosts.len() - 1] == host);
            }
        }
    }
}

// ---------------------------------------------------------------------------
// Laws on stalled attempts
// ---------------------------------------------------------------------------

/// Once an attempt has reported, it has been idle since its last report, whenever it
/// was started: two attempts with the same last report have been idle for as long.
/// Apart from leap seconds, the whole milliseconds between the two points in time are
/// counted.
pub proof fn lemma_idle_since_the_last_report(
    entry: EntryModel,
    other: EntryModel,
    report: Timestamp,
    now: TimePoint,
)
    requires
        entry.live_session.last_codex_timestamp == Some(report),
        other.live_session.last_codex_timestamp == Some(report),
    ensures
        idle_ms(entry, now) == idle_ms(other, now),
        idle_ms(entry, now) == div_to_zero(nanos_between(now, report@), 1_000_000),
        0 <= report@.nanos < 1_000_000_000 && 0 <= now.nanos < 1_000_000_000 ==> {
            let passed = (now.seconds - report@.seconds) * 1_000_000_000 + now.nanos
                - report@.nanos;
            &&& passed >= 0 ==> idle_ms(entry, now) * 1_000_000 <= passed < (idle_ms(entry, now)
                + 1) * 1_000_000
            &&& passed <= 0 ==> idle_ms(entry, now) <= 0
        },
{
}

/// Until an attempt has reported, it has been idle since it was started.
pub proof fn lemma_idle_since_the_start(entry: EntryModel, other: EntryModel, now: TimePoint)
    requires
        entry.live_session.last_codex_timestamp is None,
        other.live_session.last_codex_timestamp is None,
        entry.started_at == other.started_at,
    ensures
        idle_ms(entry, now) == idle_ms(other, now),
        idle_ms(entry, now) == div_to_zero(nanos_between(now, entry.started_at), 1_000_000),
        0 <= entry.started_at.nanos < 1_000_000_000 && 0 <= now.nanos < 1_000_000_000 ==> {
            let passed = (now.seconds - entry.started_at.seconds) * 1_000_000_000 + now.nanos
                - entry.started_at.nanos;
            passed >= 0 ==> idle_ms(entry, now) * 1_000_000 <= passed < (idle_ms(entry, now) + 1)
                * 1_000_000
        },
{
}

proof fn lemma_one_more<A>(front: Seq<A>, last: A, item: A)
    ensures
        front.push(last).contains(item) <==> front.contains(item) || last == item,
{
    let whole = front.push(last);
    if front.contains(item) {
        let j = choose|j: int| 0 <= j < front.len() && front[j] == item;
        assert(whole[j] == item);
    }
    if last == item {
        assert(whole[front.len() as int] == item);
    }
    if whole.contains(item) {
        let j = choose|j: int| 0 <= j < whole.len() && whole[j] == item;
        if j < front.len() {
            assert(front[j] == item);
        }
    }
}

/// What looking for stalled attempts does to one of them: it stops exactly if it was
/// looked at and has been idle for longer than the timeout. Then it is claimed, told
/// to stop, and tried again with the next number, on the same host and in the same
/// workspace, with how long it was idle as the error. Otherwise nothing of it changes.
pub proof fn lemma_stall_sweep_decides(
    s: Schedule,
    ids: Seq<Seq<char>>,
    n: int,
    timeout_ms: int,
    now: TimePoint,
    now_ms: u64,
    longest_wait: u64,
    id: Seq<char>,
)
    requires
        consistent(s),
        0 <= n <= ids.len(),
    ensures
        ({
            let after = stall_sweep(s, ids, n, timeout_ms, now, now_ms, longest_wait).0;
            let entry = s.running[id];
            let stopped = s.running.contains_key(id) && ids.take(n).contains(id) && idle_ms(
                entry,
                now,
            ) > timeout_ms;
            if stopped {
                &&& !after.running.contains_key(id)
                &&& after.claimed.contains(id)
                &&& after.cancelled.contains(id)
                &&& after.retries.contains_key(id)
                &&& after.retries[id].issue_id == id
                &&& after.retries[id].identifier == entry.issue.identifier
                &&& entry.attempt is None ==> after.retries[id].attempt == 1
                &&& has_next(entry.attempt) ==> match entry.attempt {
                    Some(k) => after.retries[id].attempt == k + 1,
                    None => true,
                }
                &&& after.retries[id].due_at_ms == now_ms + backoff(
                    after.retries[id].attempt,
                    longest_wait,
                )
                &&& after.retries[id].error == Some(
                    "stalled for "@ + signed_decimal(idle_ms(entry, now))
                        + "ms without codex activity"@,
                )
                &&& after.retries[id].worker_host == entry.worker_host
                &&& after.retries[id].workspace_path == entry.workspace_path
            } else {
                &&& after.running.contains_key(id) <==> s.running.contains_key(id)
                &&& s.running.contains_key(id) ==> after.running[id] == entry
                &&& after.retries.contains_key(id) <==> s.retries.contains_key(id)
                &&& s.retries.contains_key(id) ==> after.retries[id] == s.retries[id]
                &&& after.claimed.contains(id) <==> s.claimed.contains(id)
                &&& after.cancelled.contains(id) <==> s.cancelled.contains(id)
                &&& after.completed == s.completed
            }
        }),
    decreases n,
{
    if n > 0 {
        lemma_stall_sweep_decides(s, ids, n - 1, timeout_ms, now, now_ms, longest_wait, id);
        lemma_stall_sweep_keeps_consistent(
            s,
            ids,
            n - 1,
            timeout_ms,
            now,
            now_ms,
            longest_wait,
        );
        let before = stall_sweep(s, ids, n - 1, timeout_ms, now, now_ms, longest_wait).0;
        let after = stall_sweep(s, ids, n, timeout_ms, now, now_ms, longest_wait).0;
        let own = ids[n - 1];
        assert(ids.take(n) =~= ids.take(n - 1).push(own));
        lemma_one_more(ids.take(n - 1), own, id);
        if before.running.contains_key(own) && idle_ms(before.running[own], now) > timeout_ms {
            assert(before.running[own].issue.id == own);
            let entry = before.running[own];
            let message = stall_message(idle_ms(entry, now));
            assert(after == after_cancel(before, own, Some(message), now, now_ms, longest_wait));
        }
    }
}

/// Looking for stalled attempts tells those to stop that it stops, and no others, and
/// removes no workspace.
pub proof fn lemma_stall_sweep_tells(
    s: Schedule,
    ids: Seq<Seq<char>>,
    n: int,
    timeout_ms: int,
    now: TimePoint,
    now_ms: u64,
    longest_wait: u64,
)
    requires
        0 <= n <= ids.len(),
    ensures
        ({
            let (after, stops) = stall_sweep(s, ids, n, timeout_ms, now, now_ms, longest_wait);
            &&& forall|k: int|
                0 <= k < stops.len() ==> (#[trigger] stops[k]).removal is None
                    && s.running.contains_key(stops[k].issue_id) && !after.running.contains_key(
                    stops[k].issue_id,
                )
            &&& forall|id: Seq<char>| #[trigger]
                after.running.contains_key(id) ==> s.running.contains_key(id)
            &&& forall|id: Seq<char>| #[trigger]
                s.running.contains_key(id) && !after.running.contains_key(id) ==> exists|k: int|
                    0 <= k < stops.len() && (#[trigger] stops[k]).issue_id == id
        }),
    decreases n,
{
    if n > 0 {
        lemma_stall_sweep_tells(s, ids, n - 1, timeout_ms, now, now_ms, longest_wait);
        let (before, earlier) = stall_sweep(
            s,
            ids,
            n - 1,
            timeout_ms,
            now,
            now_ms,
            longest_wait,
        );
        let (after, stops) = stall_sweep(s, ids, n, timeout_ms, now, now_ms, longest_wait);
        let own = ids[n - 1];
        if before.running.contains_key(own) && idle_ms(before.running[own], now) > timeout_ms {
            lemma_cancel_leaves_others(
                before,
                own,
                Some(stall_message(idle_ms(before.running[own], now))),
                now,
                now_ms,
                longest_wait,
            );
            assert(stops[stops.len() - 1].issue_id == own);
            assert forall|id: Seq<char>|
                #[trigger] s.running.contains_key(id) && !after.running.contains_key(
                    id,
                ) implies exists|k: int| 0 <= k < stops.len() && (#[trigger] stops[k]).issue_id
                == id by {
                if id != own {
                    let k = choose|k: int|
                        0 <= k < earlier.len() && (#[trigger] earlier[k]).issue_id == id;
                    assert(stops[k] == earlier[k]);
                }
            }
        }
    }
}

/// An attempt that has reported keeps running for as long as the timeout after its
/// report, however long ago it was started, and stops when it is looked at later.
pub proof fn lemma_report_keeps_an_attempt_running(
    s: Schedule,
    id: Seq<char>,
    update: AgentUpdate,
    ids: Seq<Seq<char>>,
    timeout_ms: int,
    now: TimePoint,
    now_ms: u64,
    longest_wait: u64,
)
    requires
        consistent(s),
        s.running.contains_key(id),
    ensures
        ({
            let reported = with_update(s, id, update);
            let after = stall_sweep(
                reported,
                ids,
                ids.len() as int,
                timeout_ms,
                now,
                now_ms,
                longest_wait,
            ).0;
            let quiet_ms = div_to_zero(nanos_between(now, update.timestamp@), 1_000_000);
            &&& quiet_ms <= timeout_ms ==> after.running.contains_key(id) && after.running[id]
                == reported.running[id] && !after.retries.contains_key(id)
            &&& quiet_ms > timeout_ms && ids.contains(id) ==> !after.running.contains_key(id)
                && after.retries.contains_key(id)
        }),
{
    let reported = with_update(s, id, update);
    lemma_update_keeps_consistent(s, id, update);
    lemma_stall_sweep_decides(
        reported,
        ids,
        ids.len() as int,
        timeout_ms,
        now,
        now_ms,
        longest_wait,
        id,
    );
    assert(ids.take(ids.len() as int) =~= ids);
}

// ---------------------------------------------------------------------------
// Laws on hosts
// ---------------------------------------------------------------------------

/// The least used of some hosts has no more attempts than any of them, and every host
/// that stands before it has more.
pub proof fn lemma_least_used_has_fewest(
    running: Map<Seq<char>, EntryModel>,
    hosts: Seq<Seq<char>>,
)
    requires
        hosts.len() > 0,
    ensures
        ({
            let best = least_used(running, hosts);
            &&& forall|j: int|
                0 <= j < hosts.len() ==> running_on_host(running, best) <= running_on_host(
                    running,
                    #[trigger] hosts[j],
                )
            &&& exists|k: int|
                0 <= k < hosts.len() && #[trigger] hosts[k] == best && forall|j: int|
                    0 <= j < k ==> running_on_host(running, #[trigger] hosts[j])
                        > running_on_host(running, best)
        }),
    decreases hosts.len(),
{
    let best = least_used(running, hosts);
    if hosts.len() == 1 {
        assert(hosts[0] == best);
    } else {
        let front = hosts.drop_last();
        lemma_least_used_has_fewest(running, front);
        let first = least_used(running, front);
        let k = choose|k: int|
            0 <= k < front.len() && #[trigger] front[k] == first && forall|j: int|
                0 <= j < k ==> running_on_host(running, #[trigger] front[j]) > running_on_host(
                    running,
                    first,
                );
        assert forall|j: int| 0 <= j < hosts.len() implies running_on_host(running, best)
            <= running_on_host(running, #[trigger] hosts[j]) by {
            if j < front.len() {
                assert(front[j] == hosts[j]);
            }
        }
        if running_on_host(running, hosts.last()) < running_on_host(running, first) {
            let last = hosts.len() - 1;
            assert(hosts[last] == best);
            assert forall|j: int| 0 <= j < last implies running_on_host(running, #[trigger] hosts[j])
                > running_on_host(running, best) by {
                assert(front[j] == hosts[j]);
            }
        } else {
            assert(hosts[k] == best);
            assert forall|j: int| 0 <= j < k implies running_on_host(running, #[trigger] hosts[j])
                > running_on_host(running, best) by {
                assert(front[j] == hosts[j]);
            }
        }
    }
}

/// A host is free exactly if it is one of the hosts and fewer attempts run on it than
/// the limit, where there is one; free hosts stand in the order of the hosts.
pub proof fn lemma_free_hosts_are_the_free_ones(
    running: Map<Seq<char>, EntryModel>,
    limit: Option<usize>,
    hosts: Seq<Seq<char>>,
    host: Seq<char>,
)
    ensures
        free_hosts(running, limit, hosts).contains(host) <==> hosts.contains(host) && (
        limit matches Some(most) ==> running_on_host(running, host) < most),
        limit is None ==> free_hosts(running, limit, hosts) == hosts,
        free_hosts(running, limit, hosts).len() <= hosts.len(),
    decreases hosts.len(),
{
    let free = free_hosts(running, limit, hosts);
    if hosts.len() > 0 {
        let front = hosts.drop_last();
        lemma_free_hosts_are_the_free_ones(running, limit, front, host);
        let before = free_hosts(running, limit, front);
        if hosts.contains(host) {
            let j = choose|j: int| 0 <= j < hosts.len() && hosts[j] == host;
            if j < front.len() {
                assert(front[j] == host);
            }
            if before.contains(host) {
                let i = choose|i: int| 0 <= i < before.len() && before[i] == host;
                assert(free[i] == host);
            } else if host_is_free(running, limit, host) {
                assert(host == hosts.last());
                assert(free[free.len() - 1] == host);
            }
        }
        if front.contains(host) {
            let j = choose|j: int| 0 <= j < front.len() && front[j] == host;
            assert(hosts[j] == host);
        }
        if free.contains(host) {
            let i = choose|i: int| 0 <= i < free.len() && free[i] == host;
            if i < before.len() {
                assert(before[i] == host);
            } else {
                assert(hosts[hosts.len() - 1] == host);
            }
        }
        assert(front.push(hosts.last()) =~= hosts);
    } else {
        assert(free =~= hosts);
    }
}

proof fn lemma_least_used_of_free(
    running: Map<Seq<char>, EntryModel>,
    limit: Option<usize>,
    hosts: Seq<Seq<char>>,
)
    requires
        free_hosts(running, limit, hosts).len() > 0,
    ensures
        ({
            let best = least_used(running, free_hosts(running, limit, hosts));
            &&& forall|j: int|
                0 <= j < hosts.len() && host_is_free(running, limit, #[trigger] hosts[j])
                    ==> running_on_host(running, best) <= running_on_host(running, hosts[j])
            &&& exists|k: int|
                0 <= k < hosts.len() && #[trigger] hosts[k] == best && host_is_free(
                    running,
                    limit,
                    best,
                ) && forall|j: int|
                    0 <= j < k && host_is_free(running, limit, #[trigger] hosts[j])
                        ==> running_on_host(running, hosts[j]) > running_on_host(running, best)
        }),
    decreases hosts.len(),
{
    let free = free_hosts(running, limit, hosts);
    let best = least_used(running, free);
    let front = hosts.drop_last();
    let before = free_hosts(running, limit, front);
    let last = hosts.len() - 1;
    if before.len() == 0 {
        assert(free =~= seq![hosts.last()]);
        assert(best == hosts[last]);
        assert forall|j: int| 0 <= j < last implies !host_is_free(
            running,
            limit,
            #[trigger] hosts[j],
        ) by {
            lemma_free_hosts_are_the_free_ones(running, limit, front, hosts[j]);
            assert(front[j] == hosts[j]);
            if host_is_free(running, limit, hosts[j]) {
                assert(before.contains(hosts[j]));
            }
        }
    } else {
        lemma_least_used_of_free(running, limit, front);
        let first = least_used(running, before);
        let k = choose|k: int|
            0 <= k < front.len() && #[trigger] front[k] == first && host_is_free(
                running,
                limit,
                first,
            ) && forall|j: int|
                0 <= j < k && host_is_free(running, limit, #[trigger] front[j])
                    ==> running_on_host(running, front[j]) > running_on_host(running, first);
        if host_is_free(running, limit, hosts.last()) {
            assert(free == before.push(hosts.last()));
            assert(free.drop_last() =~= before);
        } else {
            assert(free == before);
        }
        assert forall|j: int|
            0 <= j < hosts.len() && host_is_free(
                running,
                limit,
                #[trigger] hosts[j],
            ) implies running_on_host(running, best) <= running_on_host(running, hosts[j]) by {
            if j < front.len() {
                assert(front[j] == hosts[j]);
            }
        }
        let place = if best == first && !(host_is_free(running, limit, hosts.last())
            && running_on_host(running, hosts.last()) < running_on_host(running, first)) {
            k
        } else {
            last
        };
        assert(hosts[place] == best);
        assert forall|j: int|
            0 <= j < place && host_is_free(
                running,
                limit,
                #[trigger] hosts[j],
            ) implies running_on_host(running, hosts[j]) > running_on_host(running, best) by {
            assert(front[j] == hosts[j]);
        }
    }
}

/// Where an attempt runs: here, if there are no hosts; on the preferred host, if it is
/// one of them and has room; else on the first of the hosts with room on which the
/// fewest attempts run. It cannot run exactly if there are hosts and none has room.
pub proof fn lemma_host_choice(
    running: Map<Seq<char>, EntryModel>,
    worker: WorkerModel,
    preferred: Option<Seq<char>>,
)
    ensures
        ({
            let chosen = host_for(running, worker, preferred);
            let hosts = worker.ssh_hosts;
            let has_room = |host: Seq<char>|
                worker.max_concurrent_agents_per_host matches Some(most) ==> running_on_host(
                    running,
                    host,
                ) < most;
            &&& chosen == Some(None::<Seq<char>>) <==> hosts.len() == 0
            &&& chosen is None <==> hosts.len() > 0 && forall|j: int|
                0 <= j < hosts.len() ==> !has_room(#[trigger] hosts[j])
            &&& preferred is Some && hosts.contains(preferred->0) && has_room(preferred->0)
                ==> chosen == Some(preferred)
            &&& chosen matches Some(Some(host)) ==> hosts.contains(host) && has_room(host) && (
            preferred != Some(host) ==> {
                &&& forall|j: int|
                    0 <= j < hosts.len() && has_room(#[trigger] hosts[j]) ==> running_on_host(
                        running,
                        host,
                    ) <= running_on_host(running, hosts[j])
                &&& exists|k: int|
                    0 <= k < hosts.len() && #[trigger] hosts[k] == host && forall|j: int|
                        0 <= j < k && has_room(#[trigger] hosts[j]) ==> running_on_host(
                            running,
                            hosts[j],
                        ) > running_on_host(running, host)
            })
        }),
{
    let limit = worker.max_concurrent_agents_per_host;
    let hosts = worker.ssh_hosts;
    let free = free_hosts(running, limit, hosts);
    let chosen = host_for(running, worker, preferred);
    assert forall|host: Seq<char>| #[trigger] free.contains(host) <==> hosts.contains(host)
        && host_is_free(running, limit, host) by {
        lemma_free_hosts_are_the_free_ones(running, limit, hosts, host);
    }
    if free.len() == 0 {
        assert forall|j: int| 0 <= j < hosts.len() implies !host_is_free(
            running,
            limit,
            #[trigger] hosts[j],
        ) by {
            assert(hosts.contains(hosts[j]));
            if host_is_free(running, limit, hosts[j]) {
                assert(free.contains(hosts[j]));
            }
        }
    } else {
        assert(free.contains(free[0]));
        let j = choose|j: int| 0 <= j < hosts.len() && hosts[j] == free[0];
        assert(host_is_free(running, limit, hosts[j]));
        lemma_least_used_of_free(running, limit, hosts);
        lemma_least_used_is_one(running, free);
    }
}

/// An attempt that is started on a host adds one to the attempts on it, and none to
/// those on any other; when it ends, it is taken off again.
pub proof fn lemma_attempts_count_on_their_host(
    s: Schedule,
    issue: IssueModel,
    attempt: Option<u32>,
    worker_host: Option<Seq<char>>,
    started_at: TimePoint,
    now: TimePoint,
    host: Seq<char>,
)
    requires
        s.running.dom().finite(),
        !s.running.contains_key(issue.id),
    ensures
        ({
            let started = with_started(s, issue, attempt, worker_host, started_at);
            let ended = without_running(started, issue.id, now);
            &&& running_on_host(started.running, host) == running_on_host(s.running, host) + if
                worker_host == Some(host) {
                1int
            } else {
                0int
            }
            &&& running_on_host(ended.running, host) == running_on_host(s.running, host)
        }),
{
    let started = with_started(s, issue, attempt, worker_host, started_at);
    let ended = without_running(started, issue.id, now);
    let before = s.running.dom().filter(on_host(s.running, host));
    let after = started.running.dom().filter(on_host(started.running, host));
    assert(ended.running =~= s.running);
    if worker_host == Some(host) {
        assert(after =~= before.insert(issue.id));
    } else {
        assert(after =~= before);
    }
}

// ---------------------------------------------------------------------------
// Laws on how attempts end
// ---------------------------------------------------------------------------

/// What the end of an attempt leaves as it is: everything of other issues, what was
/// told to stop, the tokens and the rate limits. The attempt no longer runs, and the
/// whole seconds that it has run are added to the totals.
pub proof fn lemma_exit_leaves_the_rest(
    s: Schedule,
    id: Seq<char>,
    status: ExitModel,
    now: TimePoint,
    now_ms: u64,
    longest_wait: u64,
)
    requires
        s.running.contains_key(id),
        s.running[id].issue.id == id,
        !s.cancelled.contains(id),
        s.totals.runtime_seconds + seconds_passed(s.running[id].started_at, now) <= u64::MAX,
    ensures
        ({
            let after = after_exit(s, id, status, now, now_ms, longest_wait);
            &&& after.running == s.running.remove(id)
            &&& after.retries.remove(id) == s.retries.remove(id)
            &&& after.claimed.remove(id) == s.claimed.remove(id)
            &&& after.completed.remove(id) == s.completed.remove(id)
            &&& after.cancelled == s.cancelled
            &&& after.rate_limits == s.rate_limits
            &&& after.totals.runtime_seconds == s.totals.runtime_seconds + seconds_passed(
                s.running[id].started_at,
                now,
            )
            &&& after.totals.input_tokens == s.totals.input_tokens
            &&& after.totals.output_tokens == s.totals.output_tokens
            &&& after.totals.total_tokens == s.totals.total_tokens
        }),
{
    let after = after_exit(s, id, status, now, now_ms, longest_wait);
    assert(after.retries.remove(id) =~= s.retries.remove(id));
    assert(after.claimed.remove(id) =~= s.claimed.remove(id));
    assert(after.completed.remove(id) =~= s.completed.remove(id));
}

/// A completed attempt is noted as completed, and is looked at again a second later
/// as a first attempt without an error, on its host and in its workspace.
pub proof fn lemma_completed_attempt_is_continued(
    s: Schedule,
    id: Seq<char>,
    now: TimePoint,
    now_ms: u64,
    longest_wait: u64,
)
    requires
        s.running.contains_key(id),
        s.running[id].issue.id == id,
        !s.cancelled.contains(id),
    ensures
        ({
            let after = after_exit(s, id, ExitModel::Completed, now, now_ms, longest_wait);
            &&& after.completed.contains(id)
            &&& after.claimed.contains(id)
            &&& after.retries.contains_key(id)
            &&& after.retries[id].issue_id == id
            &&& after.retries[id].identifier == s.running[id].issue.identifier
            &&& after.retries[id].attempt == 1
            &&& after.retries[id].due_at_ms == now_ms + 1_000
            &&& after.retries[id].error is None
            &&& after.retries[id].worker_host == s.running[id].worker_host
            &&& after.retries[id].workspace_path == s.running[id].workspace_path
        }),
{
}

/// A failed attempt is tried again with the next number, the first if it had none, on
/// its host and in its workspace, with its error; it is not completed.
pub proof fn lemma_failed_attempt_is_tried_again(
    s: Schedule,
    id: Seq<char>,
    error: Seq<char>,
    now: TimePoint,
    now_ms: u64,
    longest_wait: u64,
)
    requires
        s.running.contains_key(id),
        s.running[id].issue.id == id,
        s.running[id].attempt != Some(u32::MAX),
        !s.cancelled.contains(id),
    ensures
        ({
            let after = after_exit(s, id, ExitModel::Failed(error), now, now_ms, longest_wait);
            let number = match s.running[id].attempt {
                Some(k) => k + 1,
                None => 1,
            };
            &&& after.completed == s.completed
            &&& after.claimed.contains(id)
            &&& after.retries.contains_key(id)
            &&& after.retries[id].issue_id == id
            &&& after.retries[id].identifier == s.running[id].issue.identifier
            &&& after.retries[id].attempt == number
            &&& after.retries[id].due_at_ms == now_ms + backoff(number as u32, longest_wait)
            &&& after.retries[id].error == Some(error)
            &&& after.retries[id].worker_host == s.running[id].worker_host
            &&& after.retries[id].workspace_path == s.running[id].workspace_path
        }),
{
}

/// A cancelled attempt is not tried again and gives its claim up; it is not completed.
pub proof fn lemma_cancelled_attempt_is_given_up(
    s: Schedule,
    id: Seq<char>,
    reason: Seq<char>,
    now: TimePoint,
    now_ms: u64,
    longest_wait: u64,
)
    requires
        s.running.contains_key(id),
        !s.cancelled.contains(id),
    ensures
        ({
            let after = after_exit(s, id, ExitModel::Cancelled(reason), now, now_ms, longest_wait);
            &&& after.completed == s.completed
            &&& !after.claimed.contains(id)
            &&& !after.retries.contains_key(id)
        }),
{
}

/// The end of an attempt that was told to stop, or that does not run, changes nothing
/// but that it is no longer noted as told to stop.
pub proof fn lemma_late_exit_changes_nothing(
    s: Schedule,
    id: Seq<char>,
    status: ExitModel,
    now: TimePoint,
    now_ms: u64,
    longest_wait: u64,
)
    requires
        s.cancelled.contains(id) || !s.running.contains_key(id),
    ensures
        ({
            let after = after_exit(s, id, status, now, now_ms, longest_wait);
            &&& after.cancelled == s.cancelled.remove(id)
            &&& after.running == s.running
            &&& after.retries == s.retries
            &&& after.claimed == s.claimed
            &&& after.completed == s.completed
            &&& after.totals == s.totals
            &&& after.rate_limits == s.rate_limits
        }),
{
    let after = after_exit(s, id, status, now, now_ms, longest_wait);
    assert(after.cancelled =~= s.cancelled.remove(id));
}

/// Telling an attempt to stop: it no longer runs, its time is added to the totals, and
/// nothing of other issues changes. Without an error its claim is given up; with one
/// it is tried again with the next number, and that error.
pub proof fn lemma_cancel_settles(
    s: Schedule,
    id: Seq<char>,
    error: Option<Seq<char>>,
    now: TimePoint,
    now_ms: u64,
    longest_wait: u64,
)
    requires
        s.running.contains_key(id),
        s.running[id].issue.id == id,
        s.running[id].attempt != Some(u32::MAX),
        s.totals.runtime_seconds + seconds_passed(s.running[id].started_at, now) <= u64::MAX,
    ensures
        ({
            let after = after_cancel(s, id, error, now, now_ms, longest_wait);
            let number = match s.running[id].attempt {
                Some(k) => k + 1,
                None => 1,
            };
            &&& after.running == s.running.remove(id)
            &&& after.cancelled == s.cancelled.insert(id)
            &&& after.completed == s.completed
            &&& after.rate_limits == s.rate_limits
            &&& after.retries.remove(id) == s.retries.remove(id)
            &&& after.claimed.remove(id) == s.claimed.remove(id)
            &&& after.totals.runtime_seconds == s.totals.runtime_seconds + seconds_passed(
                s.running[id].started_at,
                now,
            )
            &&& after.totals.input_tokens == s.totals.input_tokens
            &&& after.totals.output_tokens == s.totals.output_tokens
            &&& after.totals.total_tokens == s.totals.total_tokens
            &&& error is None ==> !after.claimed.contains(id) && !after.retries.contains_key(id)
            &&& error is Some ==> {
                &&& after.claimed.contains(id)
                &&& after.retries.contains_key(id)
                &&& after.retries[id].issue_id == id
                &&& after.retries[id].identifier == s.running[id].issue.identifier
                &&& after.retries[id].attempt == number
                &&& after.retries[id].due_at_ms == now_ms + backoff(number as u32, longest_wait)
                &&& after.retries[id].error == error
                &&& after.retries[id].worker_host == s.running[id].worker_host
                &&& after.retries[id].workspace_path == s.running[id].workspace_path
            }
        }),
{
    let after = after_cancel(s, id, error, now, now_ms, longest_wait);
    assert(after.retries.remove(id) =~= s.retries.remove(id));
    assert(after.claimed.remove(id) =~= s.claimed.remove(id));
}

/// What is told of an attempt that stops: its issue; and if its workspace goes with
/// it, the path of the workspace where that is known, else the identifier of the
/// issue, and the host of the attempt in both cases.
pub proof fn lemma_stop_names_the_workspace(s: Schedule, id: Seq<char>)
    ensures
        stop_of(s, id, true).issue_id == id,
        stop_of(s, id, false).issue_id == id,
        stop_of(s, id, false).removal is None,
        !s.running.contains_key(id) ==> stop_of(s, id, true).removal is None,
        s.running.contains_key(id) ==> match s.running[id].workspace_path {
            Some(path) => stop_of(s, id, true).removal == Some(
                RemovalModel::Path { path, worker_host: s.running[id].worker_host },
            ),
            None => stop_of(s, id, true).removal == Some(
                RemovalModel::Issue {
                    identifier: s.running[id].issue.identifier,
                    worker_host: s.running[id].worker_host,
                },
            ),
        },
{
}

// ---------------------------------------------------------------------------
// Laws on what the tracker says
// ---------------------------------------------------------------------------

/// An issue is done with, or worked on, exactly if its state is one of the states that
/// the configuration names for that, apart from case and outer spaces.
pub proof fn lemma_states_decide(config: ServiceModel, issue: IssueModel)
    ensures
        is_terminal(config, issue) <==> exists|i: int|
            0 <= i < config.tracker.terminal_states.len() && ascii_lower(
                trim(#[trigger] config.tracker.terminal_states[i]),
            ) == ascii_lower(trim(issue.state)),
        is_active(config, issue) <==> exists|i: int|
            0 <= i < config.tracker.active_states.len() && ascii_lower(
                trim(#[trigger] config.tracker.active_states[i]),
            ) == ascii_lower(trim(issue.state)),
{
    let done = config.tracker.terminal_states;
    let active = config.tracker.active_states;
    let state = ascii_lower(trim(issue.state));
    if is_terminal(config, issue) {
        let i = choose|i: int| 0 <= i < normal_states(done).len() && normal_states(done)[i] == state;
        assert(ascii_lower(trim(done[i])) == state);
    }
    assert forall|i: int|
        0 <= i < done.len() && ascii_lower(trim(#[trigger] done[i])) == state implies is_terminal(
        config,
        issue,
    ) by {
        assert(normal_states(done)[i] == state);
    }
    if is_active(config, issue) {
        let i = choose|i: int|
            0 <= i < normal_states(active).len() && normal_states(active)[i] == state;
        assert(ascii_lower(trim(active[i])) == state);
    }
    assert forall|i: int|
        0 <= i < active.len() && ascii_lower(trim(#[trigger] active[i])) == state implies is_active(
        config,
        issue,
    ) by {
        assert(normal_states(active)[i] == state);
    }
}

/// What one issue that the tracker names does to its running attempt. An issue that is
/// done with stops it, and the workspace is removed; one that is not worked on, or not
/// by us, stops it and leaves the workspace; any other is what the attempt is then at.
/// Other attempts stay as they are.
pub proof fn lemma_named_issue_decides(
    s: Schedule,
    config: ServiceModel,
    issue: IssueModel,
    now: TimePoint,
    now_ms: u64,
    longest_wait: u64,
)
    requires
        s.running.contains_key(issue.id),
    ensures
        ({
            let (after, stops) = reconcile_sweep(
                s,
                config,
                seq![issue],
                1,
                now,
                now_ms,
                longest_wait,
            );
            let entry = s.running[issue.id];
            let goes_on = is_active(config, issue) && !is_terminal(config, issue)
                && issue.assigned_to_worker;
            &&& after.running.remove(issue.id) == s.running.remove(issue.id)
            &&& goes_on ==> {
                &&& after.running.contains_key(issue.id)
                &&& after.running[issue.id] == (EntryModel { issue, ..entry })
                &&& after.claimed == s.claimed
                &&& after.retries == s.retries
                &&& after.cancelled == s.cancelled
                &&& after.totals == s.totals
                &&& stops.len() == 0
            }
            &&& !goes_on ==> {
                &&& !after.running.contains_key(issue.id)
                &&& !after.claimed.contains(issue.id)
                &&& !after.retries.contains_key(issue.id)
                &&& after.cancelled.contains(issue.id)
                &&& stops.len() == 1
                &&& stops[0].issue_id == issue.id
                &&& stops[0].removal is Some <==> is_terminal(config, issue)
                &&& is_terminal(config, issue) ==> match entry.workspace_path {
                    Some(path) => stops[0].removal == Some(
                        RemovalModel::Path { path, worker_host: entry.worker_host },
                    ),
                    None => stops[0].removal == Some(
                        RemovalModel::Issue {
                            identifier: entry.issue.identifier,
                            worker_host: entry.worker_host,
                        },
                    ),
                }
            }
        }),
{
    reveal_with_fuel(reconcile_sweep, 2);
    let after = reconcile_sweep(s, config, seq![issue], 1, now, now_ms, longest_wait).0;
    assert(seq![issue][0] == issue);
    assert(after.running.remove(issue.id) =~= s.running.remove(issue.id));
}

/// What the issues that the tracker names do to a running attempt: it stops exactly if
/// one of those at its issue is not worked on, not by us, or done with; then its claim
/// is given up. Otherwise all of it but its issue stays.
pub proof fn lemma_named_issues_decide(
    s: Schedule,
    config: ServiceModel,
    issues: Seq<IssueModel>,
    n: int,
    now: TimePoint,
    now_ms: u64,
    longest_wait: u64,
    id: Seq<char>,
)
    requires
        0 <= n <= issues.len(),
        s.running.contains_key(id),
    ensures
        ({
            let after = reconcile_sweep(s, config, issues, n, now, now_ms, longest_wait).0;
            let stopped = exists|i: int|
                0 <= i < n && (#[trigger] issues[i]).id == id && !(is_active(config, issues[i])
                    && !is_terminal(config, issues[i]) && issues[i].assigned_to_worker);
            &&& stopped <==> !after.running.contains_key(id)
            &&& stopped ==> !after.claimed.contains(id) && !after.retries.contains_key(id)
                && after.cancelled.contains(id)
            &&& !stopped ==> after.running[id] == (EntryModel {
                issue: after.running[id].issue,
                ..s.running[id]
            }) && (after.running[id].issue == s.running[id].issue || after.running[id].issue.id
                == id) && (after.claimed.contains(id) <==> s.claimed.contains(id)) && (
            after.cancelled.contains(id) <==> s.cancelled.contains(id))
        }),
    decreases n,
{
    if n > 0 {
        lemma_named_issues_decide(s, config, issues, n - 1, now, now_ms, longest_wait, id);
        let before = reconcile_sweep(s, config, issues, n - 1, now, now_ms, longest_wait).0;
        let after = reconcile_sweep(s, config, issues, n, now, now_ms, longest_wait).0;
        let issue = issues[n - 1];
        lemma_cancel_leaves_others(before, issue.id, None, now, now_ms, longest_wait);
        if before.running.contains_key(id) {
            assert(after.running.contains_key(id) <==> !(issue.id == id && !(is_active(config, issue)
                && !is_terminal(config, issue) && issue.assigned_to_worker)));
        } else {
            let i = choose|i: int|
                0 <= i < n - 1 && (#[trigger] issues[i]).id == id && !(is_active(config, issues[i])
                    && !is_terminal(config, issues[i]) && issues[i].assigned_to_worker);
            assert(issues[i].id == id);
        }
    }
}

/// An attempt that was asked for stops exactly if the tracker has not named its issue;
/// its workspace stays, and one that goes on stays as it is.
pub proof fn lemma_missing_issues_decide(
    s: Schedule,
    ids: Seq<Seq<char>>,
    issues: Seq<IssueModel>,
    n: int,
    now: TimePoint,
    now_ms: u64,
    longest_wait: u64,
    id: Seq<char>,
)
    requires
        0 <= n <= ids.len(),
        s.running.contains_key(id),
    ensures
        ({
            let (after, stops) = missing_sweep(s, ids, issues, n, now, now_ms, longest_wait);
            let stopped = ids.take(n).contains(id) && forall|i: int|
                0 <= i < issues.len() ==> (#[trigger] issues[i]).id != id;
            &&& stopped <==> !after.running.contains_key(id)
            &&& stopped ==> !after.claimed.contains(id) && !after.retries.contains_key(id)
                && after.cancelled.contains(id)
            &&& !stopped ==> after.running[id] == s.running[id] && (after.claimed.contains(id)
                <==> s.claimed.contains(id))
            &&& forall|k: int| 0 <= k < stops.len() ==> (#[trigger] stops[k]).removal is None
        }),
    decreases n,
{
    if n > 0 {
        lemma_missing_issues_decide(s, ids, issues, n - 1, now, now_ms, longest_wait, id);
        let before = missing_sweep(s, ids, issues, n - 1, now, now_ms, longest_wait).0;
        let own = ids[n - 1];
        assert(ids.take(n) =~= ids.take(n - 1).push(own));
        lemma_one_more(ids.take(n - 1), own, id);
        lemma_cancel_leaves_others(before, own, None, now, now_ms, longest_wait);
    }
}

// ---------------------------------------------------------------------------
// Laws on what attempts report
// ---------------------------------------------------------------------------

/// An attempt that tells where it works is then noted there, and nothing else but its
/// status changes; where it does not run, nothing does.
pub proof fn lemma_place_is_noted(
    s: Schedule,
    id: Seq<char>,
    worker_host: Option<Seq<char>>,
    workspace_path: Seq<char>,
)
    ensures
        ({
            let after = with_place(s, id, worker_host, workspace_path);
            &&& !s.running.contains_key(id) ==> after == s
            &&& after.running.dom() == s.running.dom()
            &&& after.running.remove(id) == s.running.remove(id)
            &&& after.claimed == s.claimed && after.retries == s.retries && after.completed
                == s.completed && after.cancelled == s.cancelled && after.totals == s.totals
                && after.rate_limits == s.rate_limits
            &&& s.running.contains_key(id) ==> {
                &&& after.running[id].worker_host == worker_host
                &&& after.running[id].workspace_path == Some(workspace_path)
                &&& after.running[id].status is RunningBeforeRunHook
                &&& after.running[id].issue == s.running[id].issue
                &&& after.running[id].attempt == s.running[id].attempt
                &&& after.running[id].started_at == s.running[id].started_at
                &&& after.running[id].live_session == s.running[id].live_session
                &&& after.running[id].last_error == s.running[id].last_error
            }
        }),
{
    let after = with_place(s, id, worker_host, workspace_path);
    assert(after.running.remove(id) =~= s.running.remove(id));
    assert(after.running.dom() =~= s.running.dom());
}

/// A report changes the session and the status of its own attempt, the totals and the
/// rate limits, and nothing else.
pub proof fn lemma_report_stays_with_its_attempt(s: Schedule, id: Seq<char>, update: AgentUpdate)
    ensures
        ({
            let after = with_update(s, id, update);
            &&& !s.running.contains_key(id) ==> after == s
            &&& after.running.dom() == s.running.dom()
            &&& after.running.remove(id) == s.running.remove(id)
            &&& after.claimed == s.claimed && after.retries == s.retries && after.completed
                == s.completed && after.cancelled == s.cancelled
            &&& after.totals.runtime_seconds == s.totals.runtime_seconds
            &&& s.running.contains_key(id) ==> {
                &&& after.running[id].live_session.last_codex_timestamp == Some(update.timestamp)
                &&& after.running[id].live_session.last_codex_event == Some(update.event)
                &&& after.running[id].live_session.last_codex_message == update.last_message
                &&& after.running[id].issue == s.running[id].issue
                &&& after.running[id].attempt == s.running[id].attempt
                &&& after.running[id].worker_host == s.running[id].worker_host
                &&& after.running[id].workspace_path == s.running[id].workspace_path
                &&& after.running[id].started_at == s.running[id].started_at
                &&& after.running[id].last_error == s.running[id].last_error
                &&& update.rate_limits is Some ==> after.rate_limits == opt_json_value(
                    update.rate_limits,
                )
                &&& update.rate_limits is None && update.payload is None ==> after.rate_limits
                    == s.rate_limits
            }
        }),
{
    let after = with_update(s, id, update);
    assert(after.running.remove(id) =~= s.running.remove(id));
    assert(after.running.dom() =~= s.running.dom());
}

// ---------------------------------------------------------------------------
// Laws on starting and on trying again
// ---------------------------------------------------------------------------

/// A started attempt is claimed, runs, and does not wait to be tried again. It has a
/// fresh session and no workspace yet. Nothing of other issues changes.
pub proof fn lemma_started_attempt_is_fresh(
    s: Schedule,
    issue: IssueModel,
    attempt: Option<u32>,
    worker_host: Option<Seq<char>>,
    started_at: TimePoint,
)
    ensures
        ({
            let after = with_started(s, issue, attempt, worker_host, started_at);
            let id = issue.id;
            &&& after.running.contains_key(id)
            &&& after.running[id].issue == issue
            &&& after.running[id].attempt == attempt
            &&& after.running[id].worker_host == worker_host
            &&& after.running[id].started_at == started_at
            &&& after.running[id].workspace_path is None
            &&& after.running[id].last_error is None
            &&& after.running[id].status is PreparingWorkspace
            &&& after.running[id].live_session.last_codex_timestamp is None
            &&& after.running[id].live_session.session_id is None
            &&& after.running[id].live_session.turn_count == 0
            &&& after.running[id].live_session.codex_total_tokens == 0
            &&& after.running[id].live_session.last_reported_total_tokens == 0
            &&& after.claimed.contains(id)
            &&& !after.retries.contains_key(id)
            &&& after.running.remove(id) == s.running.remove(id)
            &&& after.claimed.remove(id) == s.claimed.remove(id)
            &&& after.retries == s.retries.remove(id)
            &&& after.completed == s.completed && after.cancelled == s.cancelled && after.totals
                == s.totals && after.rate_limits == s.rate_limits
        }),
{
    let after = with_started(s, issue, attempt, worker_host, started_at);
    assert(after.running.remove(issue.id) =~= s.running.remove(issue.id));
    assert(after.claimed.remove(issue.id) =~= s.claimed.remove(issue.id));
}

/// Dispatching an issue starts it on the host that is chosen for it. Where none is
/// free, a new issue is left alone; one that is tried again waits, with the next
/// number, for the host that it preferred.
pub proof fn lemma_dispatch_starts_or_waits(
    s: Schedule,
    worker: WorkerModel,
    issue: IssueModel,
    attempt: Option<u32>,
    preferred: Option<Seq<char>>,
    started_at: TimePoint,
    now_ms: u64,
    longest_wait: u64,
)
    requires
        attempt != Some(u32::MAX),
    ensures
        ({
            let (after, start) = after_dispatch(
                s,
                worker,
                issue,
                attempt,
                preferred,
                started_at,
                now_ms,
                longest_wait,
            );
            match host_for(s.running, worker, preferred) {
                Some(host) => {
                    &&& start == Some(StartModel { issue, attempt, worker_host: host })
                    &&& after.running.contains_key(issue.id)
                    &&& after.running[issue.id].worker_host == host
                    &&& after.running[issue.id].attempt == attempt
                    &&& after.running[issue.id].started_at == started_at
                    &&& after.claimed.contains(issue.id)
                    &&& !after.retries.contains_key(issue.id)
                },
                None => {
                    &&& start is None
                    &&& after.running == s.running
                    &&& attempt is None ==> after == s
                    &&& attempt matches Some(number) ==> {
                        &&& after.claimed.contains(issue.id)
                        &&& after.retries.contains_key(issue.id)
                        &&& after.retries[issue.id].issue_id == issue.id
                        &&& after.retries[issue.id].identifier == issue.identifier
                        &&& after.retries[issue.id].attempt == number + 1
                        &&& after.retries[issue.id].due_at_ms == now_ms + backoff(
                            (number + 1) as u32,
                            longest_wait,
                        )
                        &&& after.retries[issue.id].error == Some("no available worker capacity"@)
                        &&& after.retries[issue.id].worker_host == preferred
                        &&& after.retries[issue.id].workspace_path is None
                    }
                },
            }
        }),
{
}

/// Without hosts all issues are started, in their order, as first attempts and here.
pub proof fn lemma_all_start_without_hosts(
    s: Schedule,
    worker: WorkerModel,
    issues: Seq<IssueModel>,
    n: int,
    started_at: TimePoint,
    now_ms: u64,
    longest_wait: u64,
)
    requires
        worker.ssh_hosts.len() == 0,
        0 <= n <= issues.len(),
    ensures
        ({
            let (after, starts) = dispatch_sweep(
                s,
                worker,
                issues,
                n,
                started_at,
                now_ms,
                longest_wait,
            );
            &&& starts.len() == n
            &&& forall|i: int|
                0 <= i < n ==> (#[trigger] starts[i]).issue == issues[i] && starts[i].attempt is None
                    && starts[i].worker_host is None && after.running.contains_key(issues[i].id)
                    && after.claimed.contains(issues[i].id)
        }),
    decreases n,
{
    if n > 0 {
        lemma_all_start_without_hosts(s, worker, issues, n - 1, started_at, now_ms, longest_wait);
        let (before, earlier) = dispatch_sweep(
            s,
            worker,
            issues,
            n - 1,
            started_at,
            now_ms,
            longest_wait,
        );
        let (after, starts) = dispatch_sweep(s, worker, issues, n, started_at, now_ms, longest_wait);
        assert forall|i: int| 0 <= i < n implies (#[trigger] starts[i]).issue == issues[i]
            && starts[i].attempt is None && starts[i].worker_host is None
            && after.running.contains_key(issues[i].id) && after.claimed.contains(
            issues[i].id,
        ) by {
            if i < n - 1 {
                assert(starts[i] == earlier[i]);
            }
        }
    }
}

/// What is started in a dispatch are first attempts at issues that were handed to it,
/// in their order, and each of them then runs on the host that it was given.
pub proof fn lemma_dispatch_starts_what_it_was_given(
    s: Schedule,
    worker: WorkerModel,
    issues: Seq<IssueModel>,
    n: int,
    started_at: TimePoint,
    now_ms: u64,
    longest_wait: u64,
)
    requires
        0 <= n <= issues.len(),
        forall|i: int, j: int|
            0 <= i < j < issues.len() ==> (#[trigger] issues[i]).id != (#[trigger] issues[j]).id,
    ensures
        ({
            let (after, starts) = dispatch_sweep(
                s,
                worker,
                issues,
                n,
                started_at,
                now_ms,
                longest_wait,
            );
            &&& starts.len() <= n
            &&& forall|k: int|
                0 <= k < starts.len() ==> {
                    let start = #[trigger] starts[k];
                    &&& start.attempt is None
                    &&& exists|i: int| k <= i < n && #[trigger] issues[i] == start.issue
                    &&& after.running.contains_key(start.issue.id)
                    &&& after.running[start.issue.id].issue == start.issue
                    &&& after.running[start.issue.id].worker_host == start.worker_host
                    &&& after.running[start.issue.id].started_at == started_at
                }
        }),
    decreases n,
{
    if n > 0 {
        lemma_dispatch_starts_what_it_was_given(
            s,
            worker,
            issues,
            n - 1,
            started_at,
            now_ms,
            longest_wait,
        );
        let (before, earlier) = dispatch_sweep(
            s,
            worker,
            issues,
            n - 1,
            started_at,
            now_ms,
            longest_wait,
        );
        let (after, starts) = dispatch_sweep(s, worker, issues, n, started_at, now_ms, longest_wait);
        let own = issues[n - 1];
        assert forall|k: int| 0 <= k < starts.len() implies {
            let start = #[trigger] starts[k];
            &&& start.attempt is None
            &&& exists|i: int| k <= i < n && #[trigger] issues[i] == start.issue
            &&& after.running.contains_key(start.issue.id)
            &&& after.running[start.issue.id].issue == start.issue
            &&& after.running[start.issue.id].worker_host == start.worker_host
            &&& after.running[start.issue.id].started_at == started_at
        } by {
            if k < earlier.len() {
                assert(starts[k] == earlier[k]);
                let i = choose|i: int| k <= i < n - 1 && #[trigger] issues[i] == earlier[k].issue;
                assert(issues[i].id != own.id);
            } else {
                assert(issues[n - 1] == starts[k].issue);
            }
        }
    }
}

/// Of several issues with an id the last one is found, and one is found exactly if
/// there is one.
pub proof fn lemma_last_with_id_is_last(issues: Seq<IssueModel>, id: Seq<char>)
    ensures
        last_with_id(issues, id) is None <==> forall|i: int|
            0 <= i < issues.len() ==> (#[trigger] issues[i]).id != id,
        last_with_id(issues, id) matches Some(found) ==> found.id == id && exists|k: int|
            0 <= k < issues.len() && #[trigger] issues[k] == found && forall|j: int|
                k < j < issues.len() ==> (#[trigger] issues[j]).id != id,
    decreases issues.len(),
{
    if issues.len() > 0 {
        let last = issues.len() - 1;
        if issues.last().id == id {
            assert(issues[last].id == id);
        } else {
            let front = issues.drop_last();
            lemma_last_with_id_is_last(front, id);
            if let Some(found) = last_with_id(front, id) {
                let k = choose|k: int|
                    0 <= k < front.len() && #[trigger] front[k] == found && forall|j: int|
                        k < j < front.len() ==> (#[trigger] front[j]).id != id;
                assert(issues[k] == found);
                assert forall|j: int| k < j < issues.len() implies (#[trigger] issues[j]).id
                    != id by {
                    if j < last {
                        assert(front[j] == issues[j]);
                    }
                }
            } else {
                assert forall|i: int| 0 <= i < issues.len() implies (#[trigger] issues[i]).id
                    != id by {
                    if i < last {
                        assert(front[i] == issues[i]);
                    }
                }
            }
        }
    }
}

/// What becomes of an attempt that is due. If its issue is gone, the claim is given
/// up. If it is done with, the claim is given up and the workspace removed. If nothing
/// is in the way, it is started with its number, on its host. If it may be tried again
/// later, it waits with the next number, on its host and in its workspace. Otherwise
/// the claim is given up.
pub proof fn lemma_due_attempt_is_settled(
    s: Schedule,
    config: ServiceModel,
    reason: Option<crate::orchestrator::BlockModel>,
    retry: RetryModel,
    issue: Option<IssueModel>,
    now_ms: u64,
    longest_wait: u64,
)
    requires
        retry.attempt < u32::MAX,
    ensures
        ({
            let (after, step) = after_retry(
                s,
                config,
                reason,
                retry,
                issue,
                now_ms,
                longest_wait,
            );
            let given_up = !after.claimed.contains(retry.issue_id) && !after.retries.contains_key(
                retry.issue_id,
            ) && after.claimed == s.claimed.remove(retry.issue_id) && after.retries
                == s.retries.remove(retry.issue_id);
            &&& after.running == s.running && after.completed == s.completed && after.cancelled
                == s.cancelled && after.totals == s.totals
            &&& match issue {
                None => given_up && step is Settled,
                Some(found) => {
                    let waits = is_active(config, found) && found.assigned_to_worker && !blocked(
                        found,
                        config.tracker.terminal_states,
                    );
                    if is_terminal(config, found) {
                        &&& given_up
                        &&& match retry.workspace_path {
                            Some(path) => step == RetryStepModel::Remove(
                                RemovalModel::Path { path, worker_host: retry.worker_host },
                            ),
                            None => step == RetryStepModel::Remove(
                                RemovalModel::Issue {
                                    identifier: found.identifier,
                                    worker_host: retry.worker_host,
                                },
                            ),
                        }
                    } else if reason is None {
                        &&& after == s
                        &&& step == (RetryStepModel::Start {
                            issue: found,
                            attempt: retry.attempt,
                            worker_host: retry.worker_host,
                        })
                    } else if waits {
                        &&& step is Settled
                        &&& after.claimed == s.claimed.insert(found.id)
                        &&& after.retries.contains_key(found.id)
                        &&& after.retries[found.id].issue_id == found.id
                        &&& after.retries[found.id].identifier == found.identifier
                        &&& after.retries[found.id].attempt == retry.attempt + 1
                        &&& after.retries[found.id].due_at_ms == now_ms + backoff(
                            (retry.attempt + 1) as u32,
                            longest_wait,
                        )
                        &&& after.retries[found.id].error == Some(
                            "no available orchestrator slots"@,
                        )
                        &&& after.retries[found.id].worker_host == retry.worker_host
                        &&& after.retries[found.id].workspace_path == retry.workspace_path
                    } else {
                        given_up && step is Settled
                    }
                },
            }
        }),
{
}

/// With a limit, an attempt that runs goes on running exactly if it has told of itself
/// within that limit; without one, all go on.
pub proof fn lemma_silent_attempts_are_stopped(
    s: Schedule,
    timeout_ms: int,
    now: TimePoint,
    now_ms: u64,
    longest_wait: u64,
    id: Seq<char>,
)
    requires
        consistent(s),
        s.running.dom().finite(),
        s.running.contains_key(id),
    ensures
        ({
            let after = stall_check(s, timeout_ms, now, now_ms, longest_wait).0;
            &&& timeout_ms <= 0 ==> after == s
            &&& timeout_ms > 0 ==> (after.running.contains_key(id) <==> idle_ms(s.running[id], now)
                <= timeout_ms)
        }),
{
    let ids = sorted_keys(s.running.dom());
    if timeout_ms > 0 {
        lemma_sorted_keys_lists(s.running.dom());
        assert(ids.take(ids.len() as int) =~= ids);
        assert(ids.contains(id));
        lemma_stall_sweep_decides(
            s,
            ids,
            ids.len() as int,
            timeout_ms,
            now,
            now_ms,
            longest_wait,
            id,
        );
    }
}

} // verus!
