//! The service: what it does when attempts report, stall or end, when the
//! tracker is asked, and when retries are due.

use crate::accounting::update_fits;
use crate::config::{config_gaps, gap_message, ServiceConfig, ServiceModel};
use crate::domain::{
    normal_states, same_state, AgentUpdate, CodexTotals, Issue, OrchestratorRuntimeState,
    RetryEntry, RunningEntry, WorkflowDefinition,
};
use crate::linear::{issue_models, opt_issue};
use crate::orchestrator::{
    backoff, lemma_backoff_bounded, ranking, reason_not_to_start, runtime_seconds, seconds_run,
    started, Orchestrator, CONTINUATION_RETRY_DELAY_MS,
};
use crate::ordered::{
    count_keys, lemma_count_all_keys, lemma_map_finite, lists, sorted_keys, OrderedSet,
};
use crate::runner::{ExitModel, RunRequest, RunnerExitStatus, WorkerRuntimeInfo};
use crate::schedule::{
    after_cancel, after_dispatch, after_exit, after_retry, can_be_retried, chosen_issues,
    dispatch_sweep, free_hosts, has_next, host_for, host_is_free, idle_ms, is_named, last_with_id,
    least_used, lemma_cancel_leaves_others, lemma_insert_entry, lemma_issue_keeps_room,
    lemma_remove_entry, lemma_remove_retry, lemma_retry_noted, lemma_run_seconds_grow,
    lemma_stop_keeps_room, missing_sweep, on_host, reconcile_sweep, removal_of, run_seconds,
    running_on_host, schedule_of, stall_check, stall_sweep, stalled, stalls_fit, stop_of, stops_fit,
    stops_work, told_to_stop, with_failure, with_issue, with_place, with_started, with_update,
    without_claim, without_running, RemovalModel, RetryStepModel, Schedule, StartModel, StopModel,
};
use crate::text::{
    clone_opt, is_some_text, list_has, opt_str_text, opt_text, same_text, signed_decimal_text,
    texts,
};
use crate::timestamp::{epoch_millis, time_before, valid_time, TimePoint, Timestamp};
use crate::tracker::TrackerError;
use vstd::prelude::*;
use vstd::string::*;

verus! {

// ---------------------------------------------------------------------------
// What the service keeps track of
// ---------------------------------------------------------------------------

/// The service.
#[derive(Debug)]
pub struct SymphonyService {
    pub workflow_path: String,
    pub workflow: WorkflowDefinition,
    pub config: ServiceConfig,
    pub orchestrator: Orchestrator,
    pub externally_cancelled: OrderedSet,
    pub startup_cleanup_done: bool,
}

/// Whether two services differ in nothing but what is scheduled.
pub open spec fn same_settings(a: SymphonyService, b: SymphonyService) -> bool {
    &&& a.workflow_path == b.workflow_path
    &&& a.workflow == b.workflow
    &&& a.config == b.config
    &&& a.startup_cleanup_done == b.startup_cleanup_done
    &&& a.orchestrator.config == b.orchestrator.config
    &&& a.orchestrator.state.poll_interval_ms == b.orchestrator.state.poll_interval_ms
    &&& a.orchestrator.state.max_concurrent_agents == b.orchestrator.state.max_concurrent_agents
    &&& a.orchestrator.state.next_poll_due_at_ms == b.orchestrator.state.next_poll_due_at_ms
    &&& a.orchestrator.state.poll_check_in_progress == b.orchestrator.state.poll_check_in_progress
}

/// Whether the time of the attempt at an issue, if it runs, can be added to the
/// totals.
pub open spec fn time_fits(state: OrchestratorRuntimeState, id: Seq<char>, now: TimePoint) -> bool {
    state.running@.contains_key(id) ==> state.codex_totals.runtime_seconds + runtime_seconds(
        state.running@[id],
        now,
    ) <= u64::MAX
}

/// The latest time in milliseconds at which a retry can be noted.
pub const LATEST_MS: u64 = 18_446_744_073_699_311_615;

impl SymphonyService {
    /// What the service has scheduled.
    pub open spec fn schedule(self) -> Schedule {
        schedule_of(self.orchestrator.state, self.externally_cancelled@)
    }

    /// The longest wait before an attempt is made again.
    pub open spec fn longest_wait(self) -> u64 {
        self.orchestrator.config.agent.max_retry_backoff_ms
    }

    /// The service for a workflow that has been read.
    pub fn from_workflow(workflow_path: String, workflow: WorkflowDefinition, config: ServiceConfig) -> (r:
        SymphonyService)
        ensures
            r.workflow_path == workflow_path,
            r.workflow == workflow,
            r.config == config,
            r.orchestrator.config@ == config@,
            r.orchestrator.state.poll_interval_ms == config@.polling.interval_ms,
            r.orchestrator.state.max_concurrent_agents == config@.agent.max_concurrent_agents,
            r.orchestrator.state.next_poll_due_at_ms is None,
            !r.orchestrator.state.poll_check_in_progress,
            r.schedule() == (Schedule {
                running: Map::empty(),
                completed: Set::empty(),
                claimed: Set::empty(),
                retries: Map::empty(),
                totals: CodexTotals {
                    input_tokens: 0,
                    output_tokens: 0,
                    total_tokens: 0,
                    runtime_seconds: 0,
                },
                rate_limits: None,
                cancelled: Set::empty(),
            }),
            !r.startup_cleanup_done,
    {
        let orchestrator = Orchestrator::new(config.clone());
        let r = SymphonyService {
            workflow_path,
            workflow,
            config,
            orchestrator,
            externally_cancelled: OrderedSet::new(),
            startup_cleanup_done: false,
        };
        assert(r.schedule().running =~= Map::empty());
        assert(r.schedule().retries =~= Map::empty());
        r
    }

    /// Takes over a workflow that has been read again. One that cannot be used is
    /// reported, and the last good one is kept.
    pub fn reload(&mut self, read: Result<(WorkflowDefinition, ServiceConfig), String>) -> (r: Option<
        String,
    >)
        ensures
            match read {
                Ok((workflow, config)) => {
                    &&& r is None
                    &&& final(self).workflow == workflow
                    &&& final(self).config == config
                    &&& final(self).orchestrator.config@ == config@
                    &&& final(self).orchestrator.state == (OrchestratorRuntimeState {
                        poll_interval_ms: config@.polling.interval_ms,
                        max_concurrent_agents: config@.agent.max_concurrent_agents,
                        ..old(self).orchestrator.state
                    })
                    &&& final(self).workflow_path == old(self).workflow_path
                    &&& final(self).externally_cancelled == old(self).externally_cancelled
                    &&& final(self).startup_cleanup_done == old(self).startup_cleanup_done
                },
                Err(error) => {
                    &&& opt_text(r) == Some(
                        "workflow reload failed; keeping last known good config: "@ + error@,
                    )
                    &&& *final(self) == *old(self)
                },
            },
    {
        match read {
            Ok((workflow, config)) => {
                self.workflow = workflow;
                self.orchestrator.refresh_runtime_config(config.clone());
                self.config = config;
                None
            },
            Err(error) => Some(
                "workflow reload failed; keeping last known good config: ".to_string().concat(
                    error.as_str(),
                ),
            ),
        }
    }
}

impl SymphonyService {
    /// Whether the workspaces of issues that are done with are still to be removed;
    /// this is asked for once.
    pub fn begin_startup_cleanup(&mut self) -> (r: bool)
        ensures
            r == !old(self).startup_cleanup_done,
            *final(self) == (SymphonyService { startup_cleanup_done: true, ..*old(self) }),
    {
        let due = !self.startup_cleanup_done;
        self.startup_cleanup_done = true;
        due
    }
}

/// Whether a file has changed since it was read last, if it ever was.
pub open spec fn has_changed(last: Option<(i64, u32)>, modified: (i64, u32)) -> bool {
    match last {
        Some(known) => known.0 < modified.0 || (known.0 == modified.0 && known.1 < modified.1),
        None => true,
    }
}

/// Whether a file that was last changed at `modified` is read again, by when it
/// was changed when it was read last.
pub fn needs_reload(last: Option<(i64, u32)>, modified: (i64, u32)) -> (r: bool)
    ensures
        r == has_changed(last, modified),
        r == match last {
            Some(known) => known.0 < modified.0 || (known.0 == modified.0 && known.1 < modified.1),
            None => true,
        },
{
    match last {
        Some(known) => known.0 < modified.0 || (known.0 == modified.0 && known.1 < modified.1),
        None => true,
    }
}

/// The milliseconds from the start of 1970.
pub fn current_time_ms() -> (r: u64)
    ensures
        exists|now: TimePoint|
            valid_time(now.seconds, now.nanos) && r == if #[trigger] epoch_millis(now) < 0 {
                0
            } else {
                epoch_millis(now)
            },
        r <= LATEST_MS,
{
    let now = Timestamp::now();
    now.epoch_millis()
}

// ---------------------------------------------------------------------------
// Attempts that report, end or are told to stop
// ---------------------------------------------------------------------------

/// What an attempt tells the service.
#[derive(Debug)]
pub enum ServiceEvent {
    RuntimeInfo { issue_id: String, info: WorkerRuntimeInfo },
    Update { issue_id: String, update: AgentUpdate },
    Exit { issue_id: String, status: RunnerExitStatus },
}

/// A workspace that is to be removed.
#[derive(Debug, PartialEq, Eq)]
pub enum WorkspaceRemoval {
    /// The one at a path.
    Path { path: String, worker_host: Option<String> },
    /// The one of an issue.
    Issue { identifier: String, worker_host: Option<String> },
}

impl View for WorkspaceRemoval {
    type V = RemovalModel;

    open spec fn view(&self) -> RemovalModel {
        match *self {
            WorkspaceRemoval::Path { path, worker_host } => RemovalModel::Path {
                path: path@,
                worker_host: opt_text(worker_host),
            },
            WorkspaceRemoval::Issue { identifier, worker_host } => RemovalModel::Issue {
                identifier: identifier@,
                worker_host: opt_text(worker_host),
            },
        }
    }
}

/// The model of an optional removal.
pub open spec fn opt_removal(removal: Option<WorkspaceRemoval>) -> Option<RemovalModel> {
    match removal {
        Some(r) => Some(r@),
        None => None,
    }
}

fn removal(path: &Option<String>, identifier: &String, worker_host: &Option<String>) -> (r:
    WorkspaceRemoval)
    ensures
        r@ == removal_of(opt_text(*path), identifier@, opt_text(*worker_host)),
{
    match path {
        Some(p) => WorkspaceRemoval::Path {
            path: p.clone(),
            worker_host: clone_opt(worker_host),
        },
        None => WorkspaceRemoval::Issue {
            identifier: identifier.clone(),
            worker_host: clone_opt(worker_host),
        },
    }
}

/// An attempt that is told to stop, and the workspace to remove then.
#[derive(Debug)]
pub struct StoppedRun {
    pub issue_id: String,
    pub removal: Option<WorkspaceRemoval>,
}

impl View for StoppedRun {
    type V = StopModel;

    open spec fn view(&self) -> StopModel {
        StopModel { issue_id: self.issue_id@, removal: opt_removal(self.removal) }
    }
}

/// The models of attempts that are told to stop.
pub open spec fn stop_models(runs: Seq<StoppedRun>) -> Seq<StopModel> {
    runs.map_values(|run: StoppedRun| run@)
}

impl SymphonyService {
    /// Whether the end of an attempt can be taken in without a count leaving its
    /// range.
    pub open spec fn exit_fits(self, id: Seq<char>, status: ExitModel, now: TimePoint) -> bool {
        let state = self.orchestrator.state;
        !self.externally_cancelled@.contains(id) ==> {
            &&& time_fits(state, id, now)
            &&& status is Failed && state.running@.contains_key(id) ==> has_next(
                state.running@[id].attempt,
            )
        }
    }

    /// Whether an event can be taken in without a count leaving its range.
    pub open spec fn event_fits(self, event: ServiceEvent, now: TimePoint) -> bool {
        match event {
            ServiceEvent::RuntimeInfo { issue_id, info } => true,
            ServiceEvent::Update { issue_id, update } =>
                self.orchestrator.state.running@.contains_key(issue_id@) ==> update_fits(
                    self.orchestrator.state.codex_totals,
                    self.orchestrator.state.running@[issue_id@].live_session,
                    update,
                ),
            ServiceEvent::Exit { issue_id, status } => self.exit_fits(issue_id@, status@, now),
        }
    }

    /// Whether an event can be taken in without a count leaving its range.
    pub fn can_handle(&self, event: &ServiceEvent, now: &Timestamp) -> (r: bool)
        ensures
            r == self.event_fits(*event, now@),
    {
        match event {
            ServiceEvent::RuntimeInfo { issue_id, info } => true,
            ServiceEvent::Update { issue_id, update } => self.orchestrator.can_integrate(
                issue_id.as_str(),
                update,
            ),
            ServiceEvent::Exit { issue_id, status } => {
                if self.externally_cancelled.contains(issue_id.as_str()) {
                    return true;
                }
                match self.orchestrator.running_entry(issue_id.as_str()) {
                    Some(entry) => {
                        let seconds: u64 = seconds_run(entry, now);
                        let total: u64 = self.orchestrator.state.codex_totals.runtime_seconds;
                        let failed = matches!(status, RunnerExitStatus::Failed(_));
                        total.checked_add(seconds).is_some() && (!failed || entry.attempt != Some(
                            u32::MAX,
                        ))
                    },
                    None => true,
                }
            },
        }
    }

    /// Takes the running attempt at an issue out, and adds up its time.
    fn end_running(&mut self, issue_id: &str, now: Timestamp) -> (r: Option<RunningEntry>)
        requires
            time_fits(old(self).orchestrator.state, issue_id@, now@),
        ensures
            same_settings(*final(self), *old(self)),
            final(self).externally_cancelled == old(self).externally_cancelled,
            match r {
                Some(entry) => {
                    &&& old(self).orchestrator.state.running@.contains_key(issue_id@)
                    &&& entry == old(self).orchestrator.state.running@[issue_id@]
                    &&& final(self).schedule() == without_running(
                        old(self).schedule(),
                        issue_id@,
                        now@,
                    )
                },
                None => {
                    &&& !old(self).orchestrator.state.running@.contains_key(issue_id@)
                    &&& final(self).schedule() == old(self).schedule()
                    &&& final(self).orchestrator.state.running@
                        == old(self).orchestrator.state.running@
                },
            },
    {
        let ghost before = self.orchestrator.state.running@;
        let taken = self.orchestrator.take_running_entry(issue_id);
        proof {
            lemma_remove_entry(before, issue_id@);
        }
        match taken {
            Some(entry) => {
                self.orchestrator.record_runtime_seconds_at(&entry, now);
                assert(self.schedule() =~= without_running(old(self).schedule(), issue_id@, now@));
                Some(entry)
            },
            None => {
                assert(before.remove(issue_id@) =~= before);
                assert(self.schedule() =~= old(self).schedule());
                None
            },
        }
    }

    /// Notes that a failed attempt is made again.
    fn retry_failed(&mut self, entry: &RunningEntry, error: String, now_ms: u64)
        requires
            has_next(entry.attempt),
            now_ms <= LATEST_MS,
        ensures
            same_settings(*final(self), *old(self)),
            final(self).externally_cancelled == old(self).externally_cancelled,
            final(self).orchestrator.state.running == old(self).orchestrator.state.running,
            final(self).orchestrator.state.codex_totals
                == old(self).orchestrator.state.codex_totals,
            final(self).schedule() == with_failure(
                old(self).schedule(),
                entry@,
                error@,
                now_ms,
                old(self).longest_wait(),
            ),
    {
        let attempt: u32 = match entry.attempt {
            Some(n) => n + 1,
            None => 1,
        };
        let ghost before = self.orchestrator;
        let ghost message = Some(error);
        proof {
            lemma_backoff_bounded(attempt, self.orchestrator.config.agent.max_retry_backoff_ms);
        }
        self.orchestrator.schedule_failure_retry(
            &entry.issue,
            attempt,
            now_ms,
            Some(error),
            clone_opt(&entry.worker_host),
            clone_opt(&entry.workspace_path),
        );
        proof {
            lemma_retry_noted(
                before,
                self.orchestrator,
                entry.issue,
                attempt,
                now_ms + backoff(attempt, before.config.agent.max_retry_backoff_ms),
                message,
                entry.worker_host,
                entry.workspace_path,
                self.externally_cancelled@,
            );
        }
    }

    /// Gives up the claim on an issue.
    fn give_up(&mut self, issue_id: &str)
        ensures
            same_settings(*final(self), *old(self)),
            final(self).externally_cancelled == old(self).externally_cancelled,
            final(self).orchestrator.state.running == old(self).orchestrator.state.running,
            final(self).orchestrator.state.codex_totals
                == old(self).orchestrator.state.codex_totals,
            final(self).schedule() == without_claim(old(self).schedule(), issue_id@),
    {
        proof {
            lemma_remove_retry(self.orchestrator.state.retry_attempts@, issue_id@);
        }
        self.orchestrator.release_claim(issue_id);
        assert(self.schedule() =~= without_claim(old(self).schedule(), issue_id@));
    }

    /// Takes in that an attempt has ended.
    pub fn handle_exit(
        &mut self,
        issue_id: &str,
        status: RunnerExitStatus,
        now: Timestamp,
        now_ms: u64,
    )
        requires
            old(self).exit_fits(issue_id@, status@, now@),
            now_ms <= LATEST_MS,
        ensures
            same_settings(*final(self), *old(self)),
            final(self).schedule() == after_exit(
                old(self).schedule(),
                issue_id@,
                status@,
                now@,
                now_ms,
                old(self).longest_wait(),
            ),
    {
        if self.externally_cancelled.remove(issue_id) {
            assert(self.schedule() =~= after_exit(
                old(self).schedule(),
                issue_id@,
                status@,
                now@,
                now_ms,
                old(self).longest_wait(),
            ));
            return ;
        }
        assert(self.externally_cancelled@ =~= old(self).externally_cancelled@);
        let entry = match self.end_running(issue_id, now) {
            Some(entry) => entry,
            None => {
                return ;
            },
        };
        match status {
            RunnerExitStatus::Completed => {
                self.orchestrator.record_completion(issue_id);
                let ghost before = self.orchestrator;
                self.orchestrator.schedule_continuation_retry(
                    &entry.issue,
                    now_ms,
                    clone_opt(&entry.worker_host),
                    clone_opt(&entry.workspace_path),
                );
                proof {
                    lemma_retry_noted(
                        before,
                        self.orchestrator,
                        entry.issue,
                        1,
                        now_ms + CONTINUATION_RETRY_DELAY_MS,
                        None,
                        entry.worker_host,
                        entry.workspace_path,
                        self.externally_cancelled@,
                    );
                }
            },
            RunnerExitStatus::Cancelled(_) => {
                self.give_up(issue_id);
            },
            RunnerExitStatus::Failed(error) => {
                self.retry_failed(&entry, error, now_ms);
            },
        }
    }

    /// Takes in what an attempt tells the service.
    pub fn handle_event(&mut self, event: ServiceEvent, now: Timestamp, now_ms: u64)
        requires
            old(self).event_fits(event, now@),
            now_ms <= LATEST_MS,
        ensures
            same_settings(*final(self), *old(self)),
            match event {
                ServiceEvent::RuntimeInfo { issue_id, info } => final(self).schedule()
                    == with_place(
                    old(self).schedule(),
                    issue_id@,
                    opt_text(info.worker_host),
                    info.workspace_path@,
                ),
                ServiceEvent::Update { issue_id, update } => final(self).schedule() == with_update(
                    old(self).schedule(),
                    issue_id@,
                    update,
                ),
                ServiceEvent::Exit { issue_id, status } => final(self).schedule() == after_exit(
                    old(self).schedule(),
                    issue_id@,
                    status@,
                    now@,
                    now_ms,
                    old(self).longest_wait(),
                ),
            },
    {
        let ghost running = self.orchestrator.state.running@;
        match event {
            ServiceEvent::RuntimeInfo { issue_id, info } => {
                self.orchestrator.update_runtime_info(
                    issue_id.as_str(),
                    info.worker_host,
                    info.workspace_path,
                );
                proof {
                    if running.contains_key(issue_id@) {
                        lemma_insert_entry(
                            running,
                            issue_id@,
                            self.orchestrator.state.running@[issue_id@],
                        );
                    }
                }
            },
            ServiceEvent::Update { issue_id, update } => {
                self.orchestrator.integrate_update(issue_id.as_str(), &update);
                proof {
                    if running.contains_key(issue_id@) {
                        lemma_insert_entry(
                            running,
                            issue_id@,
                            self.orchestrator.state.running@[issue_id@],
                        );
                    }
                }
            },
            ServiceEvent::Exit { issue_id, status } => {
                self.handle_exit(issue_id.as_str(), status, now, now_ms);
            },
        }
    }

    /// Tells the attempt at an issue to stop.
    pub fn cancel_running_issue(
        &mut self,
        issue_id: &str,
        cleanup_workspace: bool,
        retry_error: Option<String>,
        now: Timestamp,
        now_ms: u64,
    ) -> (r: StoppedRun)
        requires
            time_fits(old(self).orchestrator.state, issue_id@, now@),
            retry_error is Some && old(self).orchestrator.state.running@.contains_key(issue_id@)
                ==> has_next(old(self).orchestrator.state.running@[issue_id@].attempt),
            now_ms <= LATEST_MS,
        ensures
            same_settings(*final(self), *old(self)),
            final(self).schedule() == after_cancel(
                old(self).schedule(),
                issue_id@,
                opt_text(retry_error),
                now@,
                now_ms,
                old(self).longest_wait(),
            ),
            r@ == stop_of(old(self).schedule(), issue_id@, cleanup_workspace),
    {
        let _ = self.externally_cancelled.insert(issue_id.to_string());
        let ghost told = Schedule {
            cancelled: old(self).schedule().cancelled.insert(issue_id@),
            ..old(self).schedule()
        };
        assert(self.schedule() =~= told);
        let entry = match self.end_running(issue_id, now) {
            Some(entry) => entry,
            None => {
                return StoppedRun { issue_id: issue_id.to_string(), removal: None };
            },
        };
        let removed = if cleanup_workspace {
            Some(removal(&entry.workspace_path, &entry.issue.identifier, &entry.worker_host))
        } else {
            None
        };
        match retry_error {
            Some(error) => {
                self.retry_failed(&entry, error, now_ms);
            },
            None => {
                self.give_up(issue_id);
            },
        }
        StoppedRun { issue_id: issue_id.to_string(), removal: removed }
    }
}

impl SymphonyService {
    /// Tells the attempt at a picked issue to stop, where there is room for the time
    /// of all attempts at such issues.
    fn stop_picked(
        &mut self,
        issue_id: &str,
        cleanup_workspace: bool,
        retry_error: Option<String>,
        now: Timestamp,
        now_ms: u64,
        Ghost(picked): Ghost<spec_fn(Seq<char>) -> bool>,
    ) -> (r: StoppedRun)
        requires
            picked(issue_id@),
            stops_fit(old(self).schedule(), picked, now@),
            retry_error is Some && old(self).orchestrator.state.running@.contains_key(issue_id@)
                ==> has_next(old(self).orchestrator.state.running@[issue_id@].attempt),
            now_ms <= LATEST_MS,
        ensures
            same_settings(*final(self), *old(self)),
            stops_fit(final(self).schedule(), picked, now@),
            final(self).schedule() == after_cancel(
                old(self).schedule(),
                issue_id@,
                opt_text(retry_error),
                now@,
                now_ms,
                old(self).longest_wait(),
            ),
            r@ == stop_of(old(self).schedule(), issue_id@, cleanup_workspace),
    {
        let ghost s = self.schedule();
        proof {
            lemma_map_finite(self.orchestrator.state.running);
            assert(s.running.dom() =~= self.orchestrator.state.running@.dom());
            if s.running.contains_key(issue_id@) {
                lemma_stop_keeps_room(s.running, issue_id@, picked, now@);
                assert(s.running[issue_id@] == self.orchestrator.state.running@[issue_id@]@);
            }
            lemma_cancel_leaves_others(
                s,
                issue_id@,
                opt_text(retry_error),
                now@,
                now_ms,
                self.longest_wait(),
            );
            if !s.running.contains_key(issue_id@) {
                assert(s.running.remove(issue_id@) =~= s.running);
            }
        }
        self.cancel_running_issue(issue_id, cleanup_workspace, retry_error, now, now_ms)
    }
}

// ---------------------------------------------------------------------------
// Attempts that stall
// ---------------------------------------------------------------------------

impl SymphonyService {
    /// Whether the time of the running attempts that are picked, in the order of
    /// their issues, can be added to the totals.
    fn picked_fit(
        &self,
        picks: &Vec<bool>,
        now: &Timestamp,
        Ghost(picked): Ghost<spec_fn(Seq<char>) -> bool>,
    ) -> (r: bool)
        requires
            picks@.len() == self.orchestrator.state.running@.len(),
            forall|i: int|
                0 <= i < picks@.len() ==> #[trigger] picks@[i] == picked(
                    sorted_keys(self.orchestrator.state.running@.dom())[i],
                ),
        ensures
            r == stops_fit(self.schedule(), picked, now@),
    {
        let ghost s = self.schedule();
        let ghost keys = sorted_keys(self.orchestrator.state.running@.dom());
        assert(s.running.dom() =~= self.orchestrator.state.running@.dom());
        let total: usize = self.orchestrator.state.running.len();
        let mut sum: u64 = self.orchestrator.state.codex_totals.runtime_seconds;
        let mut i: usize = 0;
        while i < total
            invariant
                i <= total,
                total == keys.len(),
                total == picks@.len(),
                s == self.schedule(),
                s.running.dom() == self.orchestrator.state.running@.dom(),
                keys == sorted_keys(s.running.dom()),
                forall|j: int| 0 <= j < picks@.len() ==> #[trigger] picks@[j] == picked(keys[j]),
                sum == s.totals.runtime_seconds + run_seconds(
                    s.running,
                    keys,
                    i as int,
                    picked,
                    now@,
                ),
            decreases total - i,
        {
            let (key, entry) = self.orchestrator.state.running.entry(i);
            assert(s.running[key@] == entry@);
            if picks[i] {
                let seconds: u64 = seconds_run(entry, now);
                match sum.checked_add(seconds) {
                    Some(next) => {
                        sum = next;
                    },
                    None => {
                        proof {
                            lemma_run_seconds_grow(
                                s.running,
                                keys,
                                i + 1,
                                keys.len() as int,
                                picked,
                                now@,
                            );
                        }
                        return false;
                    },
                }
            }
            i = i + 1;
        }
        true
    }

    /// Whether the attempts that have been idle for too long can be told to stop
    /// without a count leaving its range.
    pub fn can_cancel_stalled(&self, now: &Timestamp) -> (r: bool)
        ensures
            r == (self.config@.codex.stall_timeout_ms > 0 ==> stalls_fit(
                self.schedule(),
                self.config@.codex.stall_timeout_ms as int,
                now@,
            )),
    {
        let timeout_ms: i64 = self.config.codex.stall_timeout_ms;
        if timeout_ms <= 0 {
            return true;
        }
        let ghost s = self.schedule();
        let ghost picked = stalled(s.running, timeout_ms as int, now@);
        let ghost keys = sorted_keys(self.orchestrator.state.running@.dom());
        assert(s.running.dom() =~= self.orchestrator.state.running@.dom());
        let total: usize = self.orchestrator.state.running.len();
        let mut picks: Vec<bool> = Vec::new();
        let mut i: usize = 0;
        while i < total
            invariant
                i <= total,
                total == keys.len(),
                s == self.schedule(),
                s.running.dom() == self.orchestrator.state.running@.dom(),
                keys == sorted_keys(s.running.dom()),
                lists(keys, s.running.dom()),
                timeout_ms == self.config@.codex.stall_timeout_ms,
                timeout_ms > 0,
                picked == stalled(s.running, timeout_ms as int, now@),
                picks@.len() == i,
                forall|j: int| 0 <= j < i ==> #[trigger] picks@[j] == picked(keys[j]),
                forall|j: int|
                    0 <= j < i && idle_ms(s.running[#[trigger] keys[j]], now@) > timeout_ms
                        ==> has_next(s.running[keys[j]].attempt),
            decreases total - i,
        {
            let (key, entry) = self.orchestrator.state.running.entry(i);
            assert(s.running[key@] == entry@);
            let idle = idle_for(entry, now) > timeout_ms;
            if idle && entry.attempt == Some(u32::MAX) {
                assert(s.running.contains_key(key@));
                assert(!has_next(s.running[key@].attempt));
                return false;
            }
            picks.push(idle);
            i = i + 1;
        }
        assert forall|id: Seq<char>| #[trigger]
            s.running.contains_key(id) && idle_ms(s.running[id], now@) > timeout_ms implies has_next(
            s.running[id].attempt,
        ) by {
            assert(s.running.dom().contains(id));
            let j = choose|j: int| 0 <= j < keys.len() && keys[j] == id;
            assert(keys[j] == id);
        }
        self.picked_fit(&picks, now, Ghost(picked))
    }

    /// Tells attempts that have been idle for too long to stop; a timeout that is
    /// not positive switches this off.
    pub fn cancel_stalled_runs(&mut self, now: Timestamp, now_ms: u64) -> (r: Vec<StoppedRun>)
        requires
            old(self).config@.codex.stall_timeout_ms > 0 ==> stalls_fit(
                old(self).schedule(),
                old(self).config@.codex.stall_timeout_ms as int,
                now@,
            ),
            now_ms <= LATEST_MS,
        ensures
            same_settings(*final(self), *old(self)),
            (final(self).schedule(), stop_models(r@)) == stall_check(
                old(self).schedule(),
                old(self).config@.codex.stall_timeout_ms as int,
                now@,
                now_ms,
                old(self).longest_wait(),
            ),
            (final(self).schedule(), stop_models(r@)) == if old(
                self,
            ).config@.codex.stall_timeout_ms <= 0 {
                (old(self).schedule(), Seq::empty())
            } else {
                stall_sweep(
                    old(self).schedule(),
                    sorted_keys(old(self).schedule().running.dom()),
                    sorted_keys(old(self).schedule().running.dom()).len() as int,
                    old(self).config@.codex.stall_timeout_ms as int,
                    now@,
                    now_ms,
                    old(self).longest_wait(),
                )
            },
    {
        let mut stopped: Vec<StoppedRun> = Vec::new();
        assert(stop_models(stopped@) =~= Seq::empty());
        let timeout_ms: i64 = self.config.codex.stall_timeout_ms;
        if timeout_ms <= 0 {
            return stopped;
        }
        let ids = self.orchestrator.running_issue_ids();
        let ghost names = texts(ids@);
        let ghost s = self.schedule();
        let ghost wait = self.longest_wait();
        let ghost picked = stalled(s.running, timeout_ms as int, now@);
        assert(s.running.dom() =~= self.orchestrator.state.running@.dom());
        let mut i: usize = 0;
        while i < ids.len()
            invariant
                i <= ids@.len(),
                names == texts(ids@),
                same_settings(*self, *old(self)),
                wait == old(self).longest_wait(),
                wait == self.longest_wait(),
                timeout_ms == old(self).config@.codex.stall_timeout_ms,
                now_ms <= LATEST_MS,
                picked == stalled(s.running, timeout_ms as int, now@),
                stops_fit(self.schedule(), picked, now@),
                forall|id: Seq<char>| #[trigger]
                    s.running.contains_key(id) && idle_ms(s.running[id], now@) > timeout_ms
                        ==> has_next(s.running[id].attempt),
                forall|id: Seq<char>| #[trigger]
                    self.schedule().running.contains_key(id) ==> s.running.contains_key(id)
                        && self.schedule().running[id] == s.running[id],
                (self.schedule(), stop_models(stopped@)) == stall_sweep(
                    s,
                    names,
                    i as int,
                    timeout_ms as int,
                    now@,
                    now_ms,
                    wait,
                ),
            decreases ids@.len() - i,
        {
            let id = ids[i].clone();
            assert(names[i as int] == id@);
            let ghost before = self.schedule();
            let ghost stops = stopped@;
            let idle: Option<i64> = match self.orchestrator.running_entry(id.as_str()) {
                Some(entry) => Some(idle_for(entry, &now)),
                None => None,
            };
            match idle {
                Some(ms) => {
                    assert(before.running.contains_key(id@));
                    assert(ms == idle_ms(before.running[id@], now@));
                    if ms > timeout_ms {
                        let message = "stalled for ".to_string().concat(
                            signed_decimal_text(ms).as_str(),
                        ).concat("ms without codex activity");
                        let stop = self.stop_picked(
                            id.as_str(),
                            false,
                            Some(message),
                            now,
                            now_ms,
                            Ghost(picked),
                        );
                        stopped.push(stop);
                        proof {
                            assert(stop_models(stopped@) =~= stop_models(stops).push(stop@));
                            lemma_cancel_leaves_others(
                                before,
                                id@,
                                Some(message@),
                                now@,
                                now_ms,
                                wait,
                            );
                        }
                    }
                },
                None => {},
            }
            i = i + 1;
        }
        assert(names.len() == ids@.len());
        stopped
    }
}

/// For how many milliseconds an attempt has shown no sign of life.
pub fn idle_for(entry: &RunningEntry, now: &Timestamp) -> (r: i64)
    ensures
        r == idle_ms(entry@, now@),
{
    let last = match entry.live_session.last_codex_timestamp {
        Some(time) => time,
        None => entry.started_at,
    };
    now.millis_since(&last)
}

// ---------------------------------------------------------------------------
// What the tracker says of running attempts
// ---------------------------------------------------------------------------

fn names_issue(issues: &Vec<Issue>, id: &str) -> (r: bool)
    ensures
        r == is_named(issue_models(issues@), id@),
{
    let ghost all = issue_models(issues@);
    let mut i: usize = 0;
    while i < issues.len()
        invariant
            i <= issues@.len(),
            all == issue_models(issues@),
            forall|j: int| 0 <= j < i ==> (#[trigger] all[j]).id != id@,
        decreases issues@.len() - i,
    {
        assert(all[i as int] == issues@[i as int]@);
        if same_text(issues[i].id.as_str(), id) {
            return true;
        }
        i = i + 1;
    }
    false
}

impl SymphonyService {
    fn reconcile_named(
        &mut self,
        issues: &Vec<Issue>,
        stopped: &mut Vec<StoppedRun>,
        now: Timestamp,
        now_ms: u64,
        Ghost(ids): Ghost<Seq<Seq<char>>>,
    )
        requires
            stops_fit(
                old(self).schedule(),
                told_to_stop(old(self).config@, ids, issue_models(issues@)),
                now@,
            ),
            now_ms <= LATEST_MS,
            old(stopped)@.len() == 0,
        ensures
            same_settings(*final(self), *old(self)),
            stops_fit(
                final(self).schedule(),
                told_to_stop(old(self).config@, ids, issue_models(issues@)),
                now@,
            ),
            (final(self).schedule(), stop_models(final(stopped)@)) == reconcile_sweep(
                old(self).schedule(),
                old(self).config@,
                issue_models(issues@),
                issues@.len() as int,
                now@,
                now_ms,
                old(self).longest_wait(),
            ),
    {
        let active = self.config.normalized_active_states();
        let terminal = self.config.normalized_terminal_states();
        let ghost all = issue_models(issues@);
        let ghost s = self.schedule();
        let ghost config = self.config@;
        let ghost wait = self.longest_wait();
        let ghost picked = told_to_stop(config, ids, all);
        let mut i: usize = 0;
        assert(stop_models(stopped@) =~= Seq::empty());
        while i < issues.len()
            invariant
                i <= issues@.len(),
                all == issue_models(issues@),
                same_settings(*self, *old(self)),
                config == old(self).config@,
                picked == told_to_stop(config, ids, all),
                wait == old(self).longest_wait(),
                wait == self.longest_wait(),
                active@ == normal_states(config.tracker.active_states).to_set(),
                terminal@ == normal_states(config.tracker.terminal_states).to_set(),
                stops_fit(self.schedule(), picked, now@),
                now_ms <= LATEST_MS,
                (self.schedule(), stop_models(stopped@)) == reconcile_sweep(
                    s,
                    config,
                    all,
                    i as int,
                    now@,
                    now_ms,
                    wait,
                ),
            decreases issues@.len() - i,
        {
            let issue = issues[i].clone();
            assert(all[i as int] == issue@);
            let ghost before = self.schedule();
            let ghost stops = stopped@;
            let ghost old_running = self.orchestrator.state.running;
            let ghost running = old_running@;
            let normal = issue.normalized_state();
            assert(stops_work(config, all[i as int]) ==> picked(issue.id@));
            if terminal.contains(normal.as_str()) {
                let stop = self.stop_picked(
                    issue.id.as_str(),
                    true,
                    None,
                    now,
                    now_ms,
                    Ghost(picked),
                );
                stopped.push(stop);
                assert(stop_models(stopped@) =~= stop_models(stops).push(stop@));
            } else if !issue.assigned_to_worker || !active.contains(normal.as_str()) {
                let stop = self.stop_picked(
                    issue.id.as_str(),
                    false,
                    None,
                    now,
                    now_ms,
                    Ghost(picked),
                );
                stopped.push(stop);
                assert(stop_models(stopped@) =~= stop_models(stops).push(stop@));
            } else {
                let ghost id = issue.id@;
                let ghost model = issue@;
                self.orchestrator.refresh_running_issue(issue);
                proof {
                    if running.contains_key(id) {
                        let entry = self.orchestrator.state.running@[id];
                        lemma_insert_entry(running, id, entry);
                        assert(running.insert(id, entry).dom() =~= running.dom());
                    }
                    assert(self.schedule() =~= with_issue(before, model));
                    lemma_map_finite(old_running);
                    assert(before.running.dom() =~= running.dom());
                    lemma_issue_keeps_room(before, model, picked, now@);
                }
            }
            i = i + 1;
        }
    }

    fn stop_missing(
        &mut self,
        running_ids: &Vec<String>,
        issues: &Vec<Issue>,
        stopped: &mut Vec<StoppedRun>,
        now: Timestamp,
        now_ms: u64,
    )
        requires
            stops_fit(
                old(self).schedule(),
                told_to_stop(old(self).config@, texts(running_ids@), issue_models(issues@)),
                now@,
            ),
            now_ms <= LATEST_MS,
        ensures
            same_settings(*final(self), *old(self)),
            ({
                let (after, stops) = missing_sweep(
                    old(self).schedule(),
                    texts(running_ids@),
                    issue_models(issues@),
                    running_ids@.len() as int,
                    now@,
                    now_ms,
                    old(self).longest_wait(),
                );
                &&& final(self).schedule() == after
                &&& stop_models(final(stopped)@) == stop_models(old(stopped)@) + stops
            }),
    {
        let ghost all = issue_models(issues@);
        let ghost names = texts(running_ids@);
        let ghost s = self.schedule();
        let ghost wait = self.longest_wait();
        let ghost start = stop_models(stopped@);
        let ghost picked = told_to_stop(self.config@, names, all);
        let mut i: usize = 0;
        assert(stop_models(stopped@) =~= start + Seq::empty());
        while i < running_ids.len()
            invariant
                i <= running_ids@.len(),
                all == issue_models(issues@),
                names == texts(running_ids@),
                picked == told_to_stop(old(self).config@, names, all),
                same_settings(*self, *old(self)),
                wait == old(self).longest_wait(),
                wait == self.longest_wait(),
                stops_fit(self.schedule(), picked, now@),
                now_ms <= LATEST_MS,
                self.schedule() == missing_sweep(s, names, all, i as int, now@, now_ms, wait).0,
                stop_models(stopped@) == start + missing_sweep(
                    s,
                    names,
                    all,
                    i as int,
                    now@,
                    now_ms,
                    wait,
                ).1,
            decreases running_ids@.len() - i,
        {
            assert(names[i as int] == running_ids@[i as int]@);
            let ghost stops = stopped@;
            let ghost earlier = missing_sweep(s, names, all, i as int, now@, now_ms, wait).1;
            if !names_issue(issues, running_ids[i].as_str()) {
                assert(names.contains(names[i as int]));
                let stop = self.stop_picked(
                    running_ids[i].as_str(),
                    false,
                    None,
                    now,
                    now_ms,
                    Ghost(picked),
                );
                stopped.push(stop);
                proof {
                    assert(stop_models(stopped@) =~= stop_models(stops).push(stop@));
                    assert((start + earlier).push(stop@) =~= start + earlier.push(stop@));
                }
            }
            i = i + 1;
        }
    }

    /// Whether what the tracker says of the issues with running attempts can be taken
    /// in without a count leaving its range.
    pub fn can_reconcile(&self, running_ids: &Vec<String>, issues: &Vec<Issue>, now: &Timestamp) -> (r:
        bool)
        ensures
            r == stops_fit(
                self.schedule(),
                told_to_stop(self.config@, texts(running_ids@), issue_models(issues@)),
                now@,
            ),
    {
        let ghost names = texts(running_ids@);
        let ghost all = issue_models(issues@);
        let ghost picked = told_to_stop(self.config@, names, all);
        let ghost keys = sorted_keys(self.orchestrator.state.running@.dom());
        let total: usize = self.orchestrator.state.running.len();
        let mut picks: Vec<bool> = Vec::new();
        let mut i: usize = 0;
        while i < total
            invariant
                i <= total,
                total == keys.len(),
                total == self.orchestrator.state.running@.len(),
                keys == sorted_keys(self.orchestrator.state.running@.dom()),
                names == texts(running_ids@),
                all == issue_models(issues@),
                picked == told_to_stop(self.config@, names, all),
                picks@.len() == i,
                forall|j: int| 0 <= j < i ==> #[trigger] picks@[j] == picked(keys[j]),
            decreases total - i,
        {
            let (key, _) = self.orchestrator.state.running.entry(i);
            let missing = list_has(running_ids, key.as_str()) && !names_issue(
                issues,
                key.as_str(),
            );
            picks.push(self.stops_named(issues, key.as_str()) || missing);
            i = i + 1;
        }
        self.picked_fit(&picks, now, Ghost(picked))
    }

    /// Whether the attempt at an issue stops because the tracker has named it.
    fn stops_named(&self, issues: &Vec<Issue>, id: &str) -> (r: bool)
        ensures
            r == exists|i: int|
                0 <= i < issue_models(issues@).len() && (#[trigger] issue_models(issues@)[i]).id
                    == id@ && stops_work(self.config@, issue_models(issues@)[i]),
    {
        let active = self.config.normalized_active_states();
        let terminal = self.config.normalized_terminal_states();
        let ghost all = issue_models(issues@);
        let mut i: usize = 0;
        while i < issues.len()
            invariant
                i <= issues@.len(),
                all == issue_models(issues@),
                active@ == normal_states(self.config@.tracker.active_states).to_set(),
                terminal@ == normal_states(self.config@.tracker.terminal_states).to_set(),
                forall|j: int|
                    0 <= j < i ==> !((#[trigger] all[j]).id == id@ && stops_work(
                        self.config@,
                        all[j],
                    )),
            decreases issues@.len() - i,
        {
            assert(all[i as int] == issues@[i as int]@);
            let normal = issues[i].normalized_state();
            let stops = terminal.contains(normal.as_str()) || !issues[i].assigned_to_worker
                || !active.contains(normal.as_str());
            if stops && same_text(issues[i].id.as_str(), id) {
                return true;
            }
            i = i + 1;
        }
        false
    }

    /// Takes in what the tracker says of the issues with running attempts.
    pub fn reconcile_running_issues(
        &mut self,
        running_ids: &Vec<String>,
        issues: &Vec<Issue>,
        now: Timestamp,
        now_ms: u64,
    ) -> (r: Vec<StoppedRun>)
        requires
            stops_fit(
                old(self).schedule(),
                told_to_stop(old(self).config@, texts(running_ids@), issue_models(issues@)),
                now@,
            ),
            now_ms <= LATEST_MS,
        ensures
            same_settings(*final(self), *old(self)),
            ({
                let (first, stops) = reconcile_sweep(
                    old(self).schedule(),
                    old(self).config@,
                    issue_models(issues@),
                    issues@.len() as int,
                    now@,
                    now_ms,
                    old(self).longest_wait(),
                );
                let (second, more) = missing_sweep(
                    first,
                    texts(running_ids@),
                    issue_models(issues@),
                    running_ids@.len() as int,
                    now@,
                    now_ms,
                    old(self).longest_wait(),
                );
                &&& final(self).schedule() == second
                &&& stop_models(r@) == stops + more
            }),
    {
        let mut stopped: Vec<StoppedRun> = Vec::new();
        self.reconcile_named(issues, &mut stopped, now, now_ms, Ghost(texts(running_ids@)));
        self.stop_missing(running_ids, issues, &mut stopped, now, now_ms);
        stopped
    }
}

// ---------------------------------------------------------------------------
// Hosts
// ---------------------------------------------------------------------------

impl SymphonyService {
    /// How many attempts run on a host.
    pub fn running_worker_host_count(&self, worker_host: &str) -> (r: usize)
        ensures
            r == running_on_host(self.schedule().running, worker_host@),
    {
        let ghost running = self.schedule().running;
        let ghost keys = sorted_keys(self.orchestrator.state.running@.dom());
        assert(running.dom() =~= self.orchestrator.state.running@.dom());
        let total: usize = self.orchestrator.state.running.len();
        let mut count: usize = 0;
        let mut i: usize = 0;
        while i < total
            invariant
                i <= total,
                total == keys.len(),
                running == self.schedule().running,
                running.dom() == self.orchestrator.state.running@.dom(),
                keys == sorted_keys(self.orchestrator.state.running@.dom()),
                count <= i,
                count == count_keys(keys, i as int, on_host(running, worker_host@)),
            decreases total - i,
        {
            let (key, entry) = self.orchestrator.state.running.entry(i);
            assert(running[key@] == entry@);
            if is_some_text(&entry.worker_host, worker_host) {
                count = count + 1;
            }
            i = i + 1;
        }
        proof {
            lemma_count_all_keys(keys, running.dom(), on_host(running, worker_host@));
        }
        count
    }

    /// Whether another attempt may run on a host.
    pub fn worker_host_slots_available(&self, worker_host: &str) -> (r: bool)
        ensures
            r == host_is_free(
                self.schedule().running,
                self.config@.worker.max_concurrent_agents_per_host,
                worker_host@,
            ),
    {
        match self.config.worker.max_concurrent_agents_per_host {
            Some(limit) => self.running_worker_host_count(worker_host) < limit,
            None => true,
        }
    }

    fn available_hosts(&self) -> (r: Vec<String>)
        ensures
            texts(r@) == free_hosts(
                self.schedule().running,
                self.config@.worker.max_concurrent_agents_per_host,
                self.config@.worker.ssh_hosts,
            ),
    {
        let ghost running = self.schedule().running;
        let ghost limit = self.config@.worker.max_concurrent_agents_per_host;
        let ghost hosts = self.config@.worker.ssh_hosts;
        let mut out: Vec<String> = Vec::new();
        let mut i: usize = 0;
        assert(texts(out@) =~= free_hosts(running, limit, hosts.take(0)));
        while i < self.config.worker.ssh_hosts.len()
            invariant
                i <= self.config.worker.ssh_hosts@.len(),
                running == self.schedule().running,
                limit == self.config@.worker.max_concurrent_agents_per_host,
                hosts == self.config@.worker.ssh_hosts,
                texts(out@) == free_hosts(running, limit, hosts.take(i as int)),
            decreases self.config.worker.ssh_hosts@.len() - i,
        {
            let host = self.config.worker.ssh_hosts[i].clone();
            let ghost before = out@;
            proof {
                assert(hosts[i as int] == host@);
                assert(hosts.take(i + 1).drop_last() =~= hosts.take(i as int));
            }
            if self.worker_host_slots_available(host.as_str()) {
                out.push(host);
                assert(texts(out@) =~= texts(before).push(host@));
            }
            i = i + 1;
        }
        assert(hosts.take(i as int) =~= hosts);
        out
    }

    /// The host for an attempt.
    pub fn select_worker_host(&self, preferred: Option<&str>) -> (r: Option<Option<String>>)
        ensures
            match r {
                Some(host) => host_for(
                    self.schedule().running,
                    self.config@.worker,
                    opt_str_text(preferred),
                ) == Some(opt_text(host)),
                None => host_for(
                    self.schedule().running,
                    self.config@.worker,
                    opt_str_text(preferred),
                ) is None,
            },
    {
        assert(texts(self.config.worker.ssh_hosts@).len() == self.config.worker.ssh_hosts@.len());
        if self.config.worker.ssh_hosts.len() == 0 {
            return Some(None);
        }
        let hosts = self.available_hosts();
        let ghost free = texts(hosts@);
        assert(free.len() == hosts@.len());
        if hosts.len() == 0 {
            return None;
        }
        match preferred {
            Some(host) => {
                if crate::text::list_has(&hosts, host) {
                    return Some(Some(host.to_string()));
                }
            },
            None => {},
        }
        let ghost running = self.schedule().running;
        let mut best: usize = 0;
        let mut fewest: usize = self.running_worker_host_count(hosts[0].as_str());
        let mut i: usize = 1;
        proof {
            assert(free.take(1).len() == 1);
            assert(free.take(1)[0] == hosts@[0]@);
        }
        while i < hosts.len()
            invariant
                1 <= i <= hosts@.len(),
                best < i,
                free == texts(hosts@),
                running == self.schedule().running,
                fewest == running_on_host(running, hosts@[best as int]@),
                least_used(running, free.take(i as int)) == hosts@[best as int]@,
            decreases hosts@.len() - i,
        {
            proof {
                assert(free.take(i + 1).drop_last() =~= free.take(i as int));
                assert(free.take(i + 1).last() == hosts@[i as int]@);
            }
            let count: usize = self.running_worker_host_count(hosts[i].as_str());
            if count < fewest {
                best = i;
                fewest = count;
            }
            i = i + 1;
        }
        assert(free.take(i as int) =~= free);
        Some(Some(hosts[best].clone()))
    }
}

// ---------------------------------------------------------------------------
// Starting attempts
// ---------------------------------------------------------------------------

/// Whether a request asks for the attempt that is to be started.
pub open spec fn is_request_for(
    request: RunRequest,
    start: StartModel,
    config: ServiceModel,
    workflow: WorkflowDefinition,
) -> bool {
    &&& request.issue@ == start.issue
    &&& request.attempt == start.attempt
    &&& opt_text(request.worker_host) == start.worker_host
    &&& request.config@ == config
    &&& request.workflow == workflow
}

impl SymphonyService {
    /// Starts an attempt at an issue, on the preferred host if that is free.
    pub fn dispatch_issue(
        &mut self,
        issue: Issue,
        attempt: Option<u32>,
        preferred_worker_host: Option<String>,
        started_at: Timestamp,
        now_ms: u64,
    ) -> (r: Option<RunRequest>)
        requires
            host_for(
                old(self).schedule().running,
                old(self).config@.worker,
                opt_text(preferred_worker_host),
            ) is None ==> has_next(attempt),
            now_ms <= LATEST_MS,
        ensures
            same_settings(*final(self), *old(self)),
            final(self).externally_cancelled == old(self).externally_cancelled,
            final(self).schedule().totals == old(self).schedule().totals,
            ({
                let (after, start) = after_dispatch(
                    old(self).schedule(),
                    old(self).config@.worker,
                    issue@,
                    attempt,
                    opt_text(preferred_worker_host),
                    started_at@,
                    now_ms,
                    old(self).longest_wait(),
                );
                &&& final(self).schedule() == after
                &&& match (r, start) {
                    (Some(request), Some(model)) => is_request_for(
                        request,
                        model,
                        old(self).config@,
                        old(self).workflow,
                    ),
                    (None, None) => true,
                    _ => false,
                }
            }),
    {
        let preferred = match &preferred_worker_host {
            Some(host) => Some(host.as_str()),
            None => None,
        };
        let worker_host = match self.select_worker_host(preferred) {
            Some(host) => host,
            None => {
                match attempt {
                    Some(n) => {
                        let ghost before = self.orchestrator;
                        let message = Some("no available worker capacity".to_string());
                        let ghost told = message;
                        proof {
                            lemma_backoff_bounded(
                                (n + 1) as u32,
                                self.orchestrator.config.agent.max_retry_backoff_ms,
                            );
                        }
                        self.orchestrator.schedule_failure_retry(
                            &issue,
                            n + 1,
                            now_ms,
                            message,
                            preferred_worker_host,
                            None,
                        );
                        proof {
                            lemma_retry_noted(
                                before,
                                self.orchestrator,
                                issue,
                                (n + 1) as u32,
                                now_ms + backoff(
                                    (n + 1) as u32,
                                    before.config.agent.max_retry_backoff_ms,
                                ),
                                told,
                                preferred_worker_host,
                                None,
                                self.externally_cancelled@,
                            );
                        }
                    },
                    None => {},
                }
                return None;
            },
        };
        let request = RunRequest {
            issue: issue.clone(),
            attempt,
            worker_host: clone_opt(&worker_host),
            config: self.config.clone(),
            workflow: self.workflow.clone(),
        };
        let ghost running = self.orchestrator.state.running@;
        let ghost retries = self.orchestrator.state.retry_attempts@;
        let ghost id = issue.id@;
        let ghost model = issue@;
        let ghost host = opt_text(worker_host);
        self.orchestrator.mark_running(issue, attempt, worker_host, started_at);
        proof {
            lemma_insert_entry(running, id, self.orchestrator.state.running@[id]);
            lemma_remove_retry(retries, id);
            assert(self.schedule() =~= with_started(
                old(self).schedule(),
                model,
                attempt,
                host,
                started_at@,
            ));
        }
        Some(request)
    }
}

/// Whether requests ask for the attempts that are to be started.
pub open spec fn are_requests_for(
    requests: Seq<RunRequest>,
    starts: Seq<StartModel>,
    config: ServiceModel,
    workflow: WorkflowDefinition,
) -> bool {
    &&& requests.len() == starts.len()
    &&& forall|i: int|
        0 <= i < requests.len() ==> is_request_for(
            #[trigger] requests[i],
            starts[i],
            config,
            workflow,
        )
}

impl SymphonyService {
    /// Starts attempts at the issues that are chosen from those that the tracker
    /// names; nothing is started while the configuration lacks something.
    pub fn dispatch_new_work(&mut self, issues: &[Issue], started_at: Timestamp, now_ms: u64) -> (r:
        Vec<RunRequest>)
        requires
            now_ms <= LATEST_MS,
        ensures
            same_settings(*final(self), *old(self)),
            ({
                let chosen = chosen_issues(
                    old(self).orchestrator.config@,
                    old(self).orchestrator.state,
                    issues@,
                );
                let (after, starts) = if config_gaps(old(self).config@).len() == 0 {
                    dispatch_sweep(
                        old(self).schedule(),
                        old(self).config@.worker,
                        chosen,
                        chosen.len() as int,
                        started_at@,
                        now_ms,
                        old(self).longest_wait(),
                    )
                } else {
                    (old(self).schedule(), Seq::empty())
                };
                &&& final(self).schedule() == after
                &&& are_requests_for(r@, starts, old(self).config@, old(self).workflow)
            }),
    {
        let mut requests: Vec<RunRequest> = Vec::new();
        if !self.config.dispatch_ready() {
            return requests;
        }
        let chosen = self.orchestrator.select_dispatch_candidates(issues);
        let ghost models = chosen_issues(
            self.orchestrator.config@,
            self.orchestrator.state,
            issues@,
        );
        let ghost order = started(
            self.orchestrator.config@,
            self.orchestrator.state,
            issues@,
            ranking(self.orchestrator.config@, self.orchestrator.state, issues@),
        );
        proof {
            let values = chosen@.map_values(|issue: &Issue| *issue);
            assert(values.len() == order.len());
            assert forall|k: int| 0 <= k < models.len() implies (#[trigger] chosen@[k])@
                == models[k] by {
                assert(values[k] == *chosen@[k]);
                assert(order.map_values(|i: int| issues@[i])[k] == issues@[order[k]]);
            }
        }
        let ghost s = self.schedule();
        let ghost wait = self.longest_wait();
        let ghost config = self.config@;
        let ghost workflow = self.workflow;
        let mut i: usize = 0;
        while i < chosen.len()
            invariant
                i <= chosen@.len(),
                chosen@.len() == models.len(),
                forall|k: int| 0 <= k < models.len() ==> (#[trigger] chosen@[k])@ == models[k],
                same_settings(*self, *old(self)),
                wait == old(self).longest_wait(),
                wait == self.longest_wait(),
                config == old(self).config@,
                workflow == old(self).workflow,
                now_ms <= LATEST_MS,
                self.schedule() == dispatch_sweep(
                    s,
                    config.worker,
                    models,
                    i as int,
                    started_at@,
                    now_ms,
                    wait,
                ).0,
                are_requests_for(
                    requests@,
                    dispatch_sweep(
                        s,
                        config.worker,
                        models,
                        i as int,
                        started_at@,
                        now_ms,
                        wait,
                    ).1,
                    config,
                    workflow,
                ),
            decreases chosen@.len() - i,
        {
            let issue = chosen[i].clone();
            assert(issue@ == models[i as int]);
            match self.dispatch_issue(issue, None, None, started_at, now_ms) {
                Some(request) => {
                    requests.push(request);
                },
                None => {},
            }
            i = i + 1;
        }
        requests
    }
}

// ---------------------------------------------------------------------------
// Retries
// ---------------------------------------------------------------------------

/// Whether an attempt at an issue is put off when it cannot be started.
pub fn retryable_issue(config: &ServiceConfig, issue: &Issue) -> (r: bool)
    ensures
        r == can_be_retried(config@, issue@),
{
    let normal = issue.normalized_state();
    config.normalized_active_states().contains(normal.as_str())
        && !config.normalized_terminal_states().contains(normal.as_str())
        && issue.assigned_to_worker && !issue.has_non_terminal_blocker(
        config.tracker.terminal_states.as_slice(),
    )
}

/// What is done about an attempt that is due.
#[derive(Debug)]
pub enum RetryStep {
    /// Remove the workspace of an issue that is done with.
    Remove(WorkspaceRemoval),
    /// Start the attempt.
    Start { issue: Issue, attempt: u32, worker_host: Option<String> },
    Settled,
}

impl View for RetryStep {
    type V = RetryStepModel;

    open spec fn view(&self) -> RetryStepModel {
        match *self {
            RetryStep::Remove(removal) => RetryStepModel::Remove(removal@),
            RetryStep::Start { issue, attempt, worker_host } => RetryStepModel::Start {
                issue: issue@,
                attempt,
                worker_host: opt_text(worker_host),
            },
            RetryStep::Settled => RetryStepModel::Settled,
        }
    }
}

/// The issue of an attempt that is due, by what the tracker says when it is asked
/// for it: the last one that it names.
pub fn issue_of_retry(fetched: Result<Vec<Issue>, TrackerError>) -> (r: Option<Issue>)
    ensures
        match fetched {
            Ok(issues) => if issues@.len() > 0 {
                r == Some(issues@.last())
            } else {
                r is None
            },
            Err(_) => r is None,
        },
{
    match fetched {
        Ok(issues) => {
            let mut all = issues;
            all.pop()
        },
        Err(_) => None,
    }
}

impl SymphonyService {
    /// Begins with an attempt that is due: its claim is given up, and its issue is
    /// looked for among those that the tracker named.
    pub fn begin_retry(&mut self, retry: &RetryEntry, candidates: &Vec<Issue>) -> (r: Option<Issue>)
        ensures
            same_settings(*final(self), *old(self)),
            final(self).schedule() == without_claim(old(self).schedule(), retry.issue_id@),
            opt_issue(r) == last_with_id(issue_models(candidates@), retry.issue_id@),
    {
        self.give_up(retry.issue_id.as_str());
        let ghost all = issue_models(candidates@);
        let mut end: usize = candidates.len();
        assert(all.take(end as int) =~= all);
        while end > 0
            invariant
                end <= candidates@.len(),
                all == issue_models(candidates@),
                last_with_id(all, retry.issue_id@) == last_with_id(
                    all.take(end as int),
                    retry.issue_id@,
                ),
                same_settings(*self, *old(self)),
                self.schedule() == without_claim(old(self).schedule(), retry.issue_id@),
            decreases end,
        {
            proof {
                assert(all.take(end as int).drop_last() =~= all.take(end - 1));
                assert(all.take(end as int).last() == candidates@[end - 1]@);
            }
            if same_text(candidates[end - 1].id.as_str(), retry.issue_id.as_str()) {
                return Some(candidates[end - 1].clone());
            }
            end = end - 1;
        }
        None
    }

    /// Settles an attempt that is due, by what the tracker says of its issue.
    pub fn settle_retry(&mut self, retry: RetryEntry, issue: Option<Issue>, now_ms: u64) -> (r:
        RetryStep)
        requires
            issue matches Some(found) ==> reason_not_to_start(
                old(self).orchestrator.config@,
                old(self).orchestrator.state,
                found@,
            ) is Some && can_be_retried(old(self).config@, found@) ==> retry.attempt < u32::MAX,
            now_ms <= LATEST_MS,
        ensures
            same_settings(*final(self), *old(self)),
            (final(self).schedule(), r@) == after_retry(
                old(self).schedule(),
                old(self).config@,
                match issue {
                    Some(found) => reason_not_to_start(
                        old(self).orchestrator.config@,
                        old(self).orchestrator.state,
                        found@,
                    ),
                    None => None,
                },
                retry@,
                opt_issue(issue),
                now_ms,
                old(self).longest_wait(),
            ),
    {
        let found = match issue {
            Some(found) => found,
            None => {
                self.give_up(retry.issue_id.as_str());
                return RetryStep::Settled;
            },
        };
        let normal = found.normalized_state();
        if self.config.normalized_terminal_states().contains(normal.as_str()) {
            self.give_up(retry.issue_id.as_str());
            return RetryStep::Remove(
                removal(&retry.workspace_path, &found.identifier, &retry.worker_host),
            );
        }
        if self.orchestrator.block_reason(&found).is_none() {
            return RetryStep::Start {
                issue: found,
                attempt: retry.attempt,
                worker_host: retry.worker_host,
            };
        }
        if retryable_issue(&self.config, &found) {
            let ghost before = self.orchestrator;
            let message = Some("no available orchestrator slots".to_string());
            let ghost told = message;
            let attempt: u32 = retry.attempt + 1;
            proof {
                lemma_backoff_bounded(attempt, self.orchestrator.config.agent.max_retry_backoff_ms);
            }
            let worker_host = clone_opt(&retry.worker_host);
            let workspace_path = clone_opt(&retry.workspace_path);
            self.orchestrator.schedule_failure_retry(
                &found,
                attempt,
                now_ms,
                message,
                worker_host,
                workspace_path,
            );
            proof {
                lemma_retry_noted(
                    before,
                    self.orchestrator,
                    found,
                    attempt,
                    now_ms + backoff(attempt, before.config.agent.max_retry_backoff_ms),
                    told,
                    retry.worker_host,
                    retry.workspace_path,
                    self.externally_cancelled@,
                );
            }
            return RetryStep::Settled;
        }
        self.give_up(retry.issue_id.as_str());
        RetryStep::Settled
    }
}

// ---------------------------------------------------------------------------
// Snapshots
// ---------------------------------------------------------------------------

/// What the service shows of itself.
#[derive(Debug)]
pub struct ServiceSnapshot {
    pub workflow_path: String,
    pub dispatch_ready: bool,
    pub validation_errors: Vec<String>,
    pub state: OrchestratorRuntimeState,
}

/// The messages of what a configuration lacks.
pub open spec fn gap_messages(config: ServiceModel) -> Seq<Seq<char>> {
    config_gaps(config).map_values(|gap: crate::config::ConfigGap| gap_message(gap))
}

/// The messages of what a configuration lacks.
pub fn validation_messages(config: &ServiceConfig) -> (r: Vec<String>)
    ensures
        texts(r@) == gap_messages(config@),
{
    let errors = config.validate_for_dispatch();
    let ghost gaps = config_gaps(config@);
    let mut out: Vec<String> = Vec::new();
    let mut i: usize = 0;
    while i < errors.len()
        invariant
            i <= errors@.len(),
            out@.len() == i,
            crate::config::gap_models(errors@) == gaps,
            forall|j: int| 0 <= j < i ==> (#[trigger] out@[j])@ == gap_message(gaps[j]),
        decreases errors@.len() - i,
    {
        assert(gaps[i as int] == errors@[i as int]@);
        out.push(errors[i].message());
        i = i + 1;
    }
    assert(gaps.len() == errors@.len());
    assert(texts(out@) =~= gap_messages(config@));
    out
}

impl SymphonyService {
    /// What the service shows of itself.
    pub fn snapshot(&self) -> (r: ServiceSnapshot)
        ensures
            r.workflow_path == self.workflow_path,
            r.dispatch_ready == (config_gaps(self.config@).len() == 0),
            texts(r.validation_errors@) == gap_messages(self.config@),
            same_state(r.state, self.orchestrator.state),
    {
        ServiceSnapshot {
            workflow_path: self.workflow_path.clone(),
            dispatch_ready: self.config.dispatch_ready(),
            validation_errors: validation_messages(&self.config),
            state: self.orchestrator.state.clone(),
        }
    }
}

// ---------------------------------------------------------------------------
// Laws
// ---------------------------------------------------------------------------

/// A file is read again exactly if it was changed later than when it was read, or was
/// never read; once it has been read, it is not read again until it changes.
pub proof fn lemma_files_are_read_when_they_change(known: TimePoint, modified: TimePoint)
    requires
        i64::MIN <= known.seconds <= i64::MAX,
        0 <= known.nanos <= u32::MAX,
        i64::MIN <= modified.seconds <= i64::MAX,
        0 <= modified.nanos <= u32::MAX,
    ensures
        ({
            let last = (known.seconds as i64, known.nanos as u32);
            let next = (modified.seconds as i64, modified.nanos as u32);
            &&& has_changed(None, next)
            &&& has_changed(Some(last), next) <==> time_before(known, modified)
            &&& !has_changed(Some(next), next)
        }),
{
}

/// A request carries the issue, the number and the host of the attempt that it was made
/// for, and of no other.
pub proof fn lemma_requests_tell_their_start(
    request: RunRequest,
    start: StartModel,
    other: StartModel,
    config: ServiceModel,
    workflow: WorkflowDefinition,
)
    requires
        is_request_for(request, start, config, workflow),
    ensures
        request.issue@ == start.issue,
        request.attempt == start.attempt,
        request.worker_host is Some <==> start.worker_host is Some,
        request.worker_host matches Some(host) ==> start.worker_host == Some(host@),
        request.config@ == config,
        request.workflow == workflow,
        is_request_for(request, other, config, workflow) ==> other == start,
{
}

/// There is one request for each start, in the same order.
pub proof fn lemma_each_start_is_requested(
    requests: Seq<RunRequest>,
    starts: Seq<StartModel>,
    config: ServiceModel,
    workflow: WorkflowDefinition,
    i: int,
)
    requires
        are_requests_for(requests, starts, config, workflow),
    ensures
        requests.len() == starts.len(),
        0 <= i < starts.len() ==> requests[i].issue@ == starts[i].issue && requests[i].attempt
            == starts[i].attempt,
{
}

} // verus!
