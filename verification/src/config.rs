//! The configuration of the service: what a workflow says, checked and with
//! defaults filled in.

use crate::domain::{normal_state, normal_states, normalize_state, normalize_states};
use crate::environment::{env_value, Environment};
use crate::json::{
    array_value, bool_value, clone_in, empty_object, json_get, opt_json_get, opt_json_value,
    text_value, Json, JsonValue,
};
use crate::ordered::{lemma_sorted_keys_lists, sorted_keys, OrderedMap, OrderedSet};
use crate::path_safety::{join_path, joined_path, path_failure, PathSafetyError};
use crate::text::{
    ascii_lower, blank, char_is_digit, char_is_letter, chars_of, clone_opt, clone_strings, is_blank,
    is_digit, is_letter, is_some_text, is_space, lemma_trim_idempotent, opt_str_text, opt_text,
    same_text, strip_prefix, texts, trim, trim_end, trim_start, trimmed, without_prefix,
};
use vstd::prelude::*;
use vstd::string::*;

verus! {

pub const DEFAULT_LINEAR_ENDPOINT: &'static str = "https://api.linear.app/graphql";

pub const DEFAULT_POLL_INTERVAL_MS: u64 = 30_000;

pub const DEFAULT_HOOK_TIMEOUT_MS: u64 = 60_000;

pub const DEFAULT_MAX_CONCURRENT_AGENTS: usize = 10;

pub const DEFAULT_MAX_TURNS: u32 = 20;

pub const DEFAULT_MAX_RETRY_BACKOFF_MS: u64 = 300_000;

pub const DEFAULT_CODEX_COMMAND: &'static str = "codex app-server";

pub const DEFAULT_TURN_TIMEOUT_MS: u64 = 3_600_000;

pub const DEFAULT_READ_TIMEOUT_MS: u64 = 5_000;

pub const DEFAULT_STALL_TIMEOUT_MS: i64 = 300_000;

// ---------------------------------------------------------------------------
// Errors
// ---------------------------------------------------------------------------

/// Why a configuration is refused.
#[derive(Debug, PartialEq, Eq)]
pub struct ConfigError {
    message: String,
}

impl View for ConfigError {
    type V = Seq<char>;

    closed spec fn view(&self) -> Seq<char> {
        self.message@
    }
}

impl ConfigError {
    /// The error with a message.
    pub fn invalid_workflow(message: &str) -> (r: ConfigError)
        ensures
            r@ == message@,
    {
        ConfigError { message: message.to_string() }
    }

    /// The message of the error.
    pub fn message(&self) -> (r: String)
        ensures
            r@ == self@,
    {
        self.message.clone()
    }
}

impl Clone for ConfigError {
    fn clone(&self) -> (r: ConfigError)
        ensures
            r@ == self@,
    {
        ConfigError { message: self.message.clone() }
    }
}

/// What a configuration lacks before issues can be worked on.
#[derive(Debug, PartialEq, Eq)]
pub enum ConfigValidationError {
    MissingTrackerKind,
    UnsupportedTrackerKind(String),
    MissingTrackerApiKey,
    MissingTrackerProjectSlug,
    MissingCodexCommand,
}

/// The model of what a configuration lacks.
pub enum ConfigGap {
    MissingTrackerKind,
    UnsupportedTrackerKind(Seq<char>),
    MissingTrackerApiKey,
    MissingTrackerProjectSlug,
    MissingCodexCommand,
}

impl View for ConfigValidationError {
    type V = ConfigGap;

    open spec fn view(&self) -> ConfigGap {
        match *self {
            ConfigValidationError::MissingTrackerKind => ConfigGap::MissingTrackerKind,
            ConfigValidationError::UnsupportedTrackerKind(kind) =>
                ConfigGap::UnsupportedTrackerKind(kind@),
            ConfigValidationError::MissingTrackerApiKey => ConfigGap::MissingTrackerApiKey,
            ConfigValidationError::MissingTrackerProjectSlug =>
                ConfigGap::MissingTrackerProjectSlug,
            ConfigValidationError::MissingCodexCommand => ConfigGap::MissingCodexCommand,
        }
    }
}

/// The message of what a configuration lacks.
pub open spec fn gap_message(gap: ConfigGap) -> Seq<char> {
    match gap {
        ConfigGap::MissingTrackerKind => "tracker.kind is required"@,
        ConfigGap::UnsupportedTrackerKind(kind) => "tracker.kind `"@ + kind
            + "` is not supported"@,
        ConfigGap::MissingTrackerApiKey =>
            "tracker.api_key is missing after environment resolution"@,
        ConfigGap::MissingTrackerProjectSlug =>
            "tracker.project_slug is required for Linear dispatch"@,
        ConfigGap::MissingCodexCommand => "codex.command must be non-empty"@,
    }
}

impl ConfigValidationError {
    /// The message of the error.
    pub fn message(&self) -> (r: String)
        ensures
            r@ == gap_message(self@),
    {
        match self {
            ConfigValidationError::MissingTrackerKind => "tracker.kind is required".to_string(),
            ConfigValidationError::UnsupportedTrackerKind(kind) => "tracker.kind `".to_string()
                .concat(kind.as_str()).concat("` is not supported"),
            ConfigValidationError::MissingTrackerApiKey =>
                "tracker.api_key is missing after environment resolution".to_string(),
            ConfigValidationError::MissingTrackerProjectSlug =>
                "tracker.project_slug is required for Linear dispatch".to_string(),
            ConfigValidationError::MissingCodexCommand =>
                "codex.command must be non-empty".to_string(),
        }
    }
}

// ---------------------------------------------------------------------------
// Settings
// ---------------------------------------------------------------------------

/// The text without surrounding white space, if anything is left of it.
pub open spec fn filled(value: Option<Seq<char>>) -> Option<Seq<char>> {
    match value {
        Some(text) => if is_blank(text) {
            None
        } else {
            Some(trim(text))
        },
        None => None,
    }
}

/// The text without surrounding white space, if anything is left of it.
pub fn normalize_optional_string(value: Option<String>) -> (r: Option<String>)
    ensures
        opt_text(r) == filled(opt_text(value)),
{
    match value {
        Some(text) => {
            let short = trimmed(text.as_str());
            if short.as_str().unicode_len() == 0 {
                None
            } else {
                Some(short)
            }
        },
        None => None,
    }
}

/// The texts of a list that are not blank, trimmed.
pub open spec fn filled_list(values: Seq<Seq<char>>) -> Seq<Seq<char>>
    decreases values.len(),
{
    if values.len() == 0 {
        Seq::empty()
    } else if is_blank(values.last()) {
        filled_list(values.drop_last())
    } else {
        filled_list(values.drop_last()).push(trim(values.last()))
    }
}

/// The texts of a list that are not blank, trimmed.
pub fn trimmed_list(values: &Vec<String>) -> (r: Vec<String>)
    ensures
        texts(r@) == filled_list(texts(values@)),
{
    let mut out: Vec<String> = Vec::new();
    let mut i: usize = 0;
    assert(texts(out@) =~= filled_list(texts(values@).take(0)));
    while i < values.len()
        invariant
            i <= values@.len(),
            texts(out@) == filled_list(texts(values@).take(i as int)),
        decreases values@.len() - i,
    {
        let short = trimmed(values[i].as_str());
        let ghost before = out@;
        if short.as_str().unicode_len() > 0 {
            out.push(short);
            assert(texts(out@) =~= texts(before).push(short@));
        }
        proof {
            let front = texts(values@).take(i + 1);
            assert(front.drop_last() =~= texts(values@).take(i as int));
            assert(front.last() == values@[i as int]@);
        }
        i = i + 1;
    }
    assert(texts(values@).take(i as int) =~= texts(values@));
    out
}

/// The texts of a list that are not blank, if there are any.
pub open spec fn filled_list_or_none(values: Option<Seq<Seq<char>>>) -> Option<Seq<Seq<char>>> {
    match values {
        Some(list) => if filled_list(list).len() == 0 {
            None
        } else {
            Some(filled_list(list))
        },
        None => None,
    }
}

/// The texts of an optional list.
pub open spec fn opt_texts(values: Option<Vec<String>>) -> Option<Seq<Seq<char>>> {
    match values {
        Some(list) => Some(texts(list@)),
        None => None,
    }
}

/// The texts of a list that are not blank, if there are any.
pub fn non_empty_string_list(values: Option<Vec<String>>) -> (r: Option<Vec<String>>)
    ensures
        opt_texts(r) == filled_list_or_none(opt_texts(values)),
{
    match values {
        Some(list) => {
            let out = trimmed_list(&list);
            assert(texts(out@).len() == out@.len());
            if out.len() == 0 {
                None
            } else {
                Some(out)
            }
        },
        None => None,
    }
}

/// Whether a text can be the name of a variable: letters, digits and
/// underscores, without a digit at the start.
pub open spec fn is_env_name(value: Seq<char>) -> bool {
    &&& value.len() > 0
    &&& !is_digit(value[0])
    &&& forall|i: int|
        0 <= i < value.len() ==> (#[trigger] value[i] == '_' || is_letter(value[i]) || is_digit(
            value[i],
        ))
}

/// Whether a text can be the name of a variable.
pub fn valid_env_name(value: &str) -> (r: bool)
    ensures
        r == is_env_name(value@),
{
    let cs = chars_of(value);
    if cs.len() == 0 || !(cs[0] == '_' || char_is_letter(cs[0])) {
        return false;
    }
    let mut i: usize = 1;
    while i < cs.len()
        invariant
            1 <= i <= cs@.len(),
            cs@ == value@,
            forall|j: int|
                0 <= j < i ==> (#[trigger] cs@[j] == '_' || is_letter(cs@[j]) || is_digit(cs@[j])),
            !is_digit(cs@[0]),
        decreases cs@.len() - i,
    {
        if !(cs[i] == '_' || char_is_letter(cs[i]) || char_is_digit(cs[i])) {
            return false;
        }
        i = i + 1;
    }
    true
}

/// What a setting stands for: `$NAME` for the value of a variable, any other
/// text for itself; blank texts and values stand for nothing.
pub open spec fn env_token(raw: Seq<char>, env: Environment) -> Option<Seq<char>> {
    let short = trim(raw);
    if short.len() == 0 {
        None
    } else if short[0] == '$' && is_env_name(short.drop_first()) {
        filled(env_value(env, short.drop_first()))
    } else {
        Some(short)
    }
}

/// What a setting stands for.
pub fn resolve_env_token(raw: &str, env: &Environment) -> (r: Option<String>)
    ensures
        opt_text(r) == env_token(raw@, *env),
{
    let short = trimmed(raw);
    if short.as_str().unicode_len() == 0 {
        return None;
    }
    proof {
        reveal_strlit("$");
        if "$"@.is_prefix_of(short@) {
            assert(short@[0] == "$"@[0]);
        }
        if short@[0] == '$' {
            assert("$"@ =~= short@.subrange(0, 1));
        }
    }
    match strip_prefix(short.as_str(), "$") {
        Some(name) => {
            assert(name@ =~= short@.drop_first());
            if valid_env_name(name.as_str()) {
                return normalize_optional_string(env.var(name.as_str()));
            }
        },
        None => {},
    }
    Some(short)
}

/// What a secret stands for.
pub fn resolve_secret_setting(raw: &str, env: &Environment) -> (r: Option<String>)
    ensures
        opt_text(r) == env_token(raw@, *env),
{
    resolve_env_token(raw, env)
}

/// The value of a variable, unless it is blank.
pub open spec fn env_not_blank(env: Environment, name: Seq<char>) -> Option<Seq<char>> {
    match env_value(env, name) {
        Some(value) => if is_blank(value) {
            None
        } else {
            Some(value)
        },
        None => None,
    }
}

/// The value of a variable, unless it is blank.
fn var_not_blank(env: &Environment, name: &str) -> (r: Option<String>)
    ensures
        opt_text(r) == env_not_blank(*env, name@),
{
    match env.var(name) {
        Some(value) => if blank(value.as_str()) {
            None
        } else {
            Some(value)
        },
        None => None,
    }
}

/// A setting, or else the value of a variable that is not blank.
pub open spec fn setting_or_env(
    raw: Option<Seq<char>>,
    env: Environment,
    name: Seq<char>,
) -> Option<Seq<char>> {
    let own = match raw {
        Some(text) => env_token(text, env),
        None => None,
    };
    match own {
        Some(value) => Some(value),
        None => env_not_blank(env, name),
    }
}

/// A setting, or else the value of a variable that is not blank.
fn secret_or_var(raw: &Option<String>, env: &Environment, name: &str) -> (r: Option<String>)
    ensures
        opt_text(r) == setting_or_env(opt_text(*raw), *env, name@),
{
    let own = match raw {
        Some(text) => resolve_secret_setting(text.as_str(), env),
        None => None,
    };
    match own {
        Some(value) => Some(value),
        None => var_not_blank(env, name),
    }
}

/// A path of a setting: `$NAME` is the value of a variable, and a leading `~`
/// is the home directory, where it is known.
pub open spec fn local_path(raw: Seq<char>, env: Environment) -> Seq<char> {
    let resolved = match env_token(raw, env) {
        Some(text) => text,
        None => raw,
    };
    match env_value(env, "HOME"@) {
        Some(home) => match without_prefix(resolved, "~/"@) {
            Some(rest) => join_path(home, rest),
            None => if resolved == "~"@ {
                home
            } else {
                resolved
            },
        },
        None => resolved,
    }
}

/// A path of a setting.
pub fn expand_local_path(raw: &str, env: &Environment) -> (r: String)
    ensures
        r@ == local_path(raw@, *env),
{
    let resolved = match resolve_env_token(raw, env) {
        Some(text) => text,
        None => raw.to_string(),
    };
    match env.var("HOME") {
        Some(home) => {
            match strip_prefix(resolved.as_str(), "~/") {
                Some(rest) => joined_path(home.as_str(), rest.as_str()),
                None => if same_text(resolved.as_str(), "~") {
                    home
                } else {
                    resolved
                },
            }
        },
        None => resolved,
    }
}

/// A path of a setting, or the default where it is missing or blank.
pub open spec fn path_value(
    raw: Option<Seq<char>>,
    default: Seq<char>,
    env: Environment,
) -> Seq<char> {
    match filled(raw) {
        Some(text) => local_path(text, env),
        None => default,
    }
}

/// A path of a setting, or the default where it is missing or blank.
pub fn resolve_path_value(raw: Option<&str>, default: &str, env: &Environment) -> (r: String)
    ensures
        r@ == path_value(opt_str_text(raw), default@, *env),
{
    let given = match raw {
        Some(text) => Some(text.to_string()),
        None => None,
    };
    match normalize_optional_string(given) {
        Some(text) => expand_local_path(text.as_str(), env),
        None => default.to_string(),
    }
}

/// The directory for workspaces where none is configured.
pub open spec fn workspace_root_default(env: Environment) -> Seq<char> {
    join_path(env.temp_dir@, "symphony_workspaces"@)
}

/// The directory for workspaces where none is configured.
pub fn default_workspace_root(env: &Environment) -> (r: String)
    ensures
        r@ == workspace_root_default(*env),
{
    joined_path(env.temp_dir.as_str(), "symphony_workspaces")
}

/// The policy for approvals where none is configured: all are rejected.
pub open spec fn reject_all() -> Json {
    Json::Object(
        map![
            "reject"@ => Json::Object(
                map![
                    "sandbox_approval"@ => Json::Bool(true),
                    "rules"@ => Json::Bool(true),
                    "mcp_elicitations"@ => Json::Bool(true),
                ],
            ),
        ],
    )
}

/// The policy for approvals where none is configured.
pub fn default_approval_policy() -> (r: JsonValue)
    ensures
        r@ == reject_all(),
{
    let reject = empty_object().with("sandbox_approval", bool_value(true)).with(
        "rules",
        bool_value(true),
    ).with("mcp_elicitations", bool_value(true));
    empty_object().with("reject", reject)
}

/// The policy that lets a turn write to one directory.
pub open spec fn write_policy(root: Seq<char>) -> Json {
    Json::Object(
        map![
            "type"@ => Json::Text("workspaceWrite"@),
            "writableRoots"@ => Json::Array(seq![Json::Text(root)]),
            "readOnlyAccess"@ => Json::Object(map!["type"@ => Json::Text("fullAccess"@)]),
            "networkAccess"@ => Json::Bool(false),
            "excludeTmpdirEnvVar"@ => Json::Bool(false),
            "excludeSlashTmp"@ => Json::Bool(false),
        ],
    )
}

/// The policy that lets a turn write to one directory.
pub fn default_turn_sandbox_policy(workspace_root: &str) -> (r: JsonValue)
    ensures
        r@ == write_policy(workspace_root@),
{
    let roots = vec![text_value(workspace_root)];
    assert(crate::json::array_of(roots@) =~= seq![Json::Text(workspace_root@)]);
    empty_object().with("type", text_value("workspaceWrite")).with(
        "writableRoots",
        array_value(roots),
    ).with("readOnlyAccess", empty_object().with("type", text_value("fullAccess"))).with(
        "networkAccess",
        bool_value(false),
    ).with("excludeTmpdirEnvVar", bool_value(false)).with("excludeSlashTmp", bool_value(false))
}

// ---------------------------------------------------------------------------
// What a workflow says
// ---------------------------------------------------------------------------

/// The sections of a configuration as a workflow gives them.
#[derive(Debug)]
pub struct RawServiceConfig {
    pub tracker: Option<RawTrackerConfig>,
    pub polling: Option<RawPollingConfig>,
    pub workspace: Option<RawWorkspaceConfig>,
    pub worker: Option<RawWorkerConfig>,
    pub agent: Option<RawAgentConfig>,
    pub codex: Option<RawCodexConfig>,
    pub hooks: Option<RawHooksConfig>,
    pub observability: Option<RawObservabilityConfig>,
    pub server: Option<RawServerConfig>,
}

#[derive(Debug)]
pub struct RawTrackerConfig {
    pub kind: Option<String>,
    pub endpoint: Option<String>,
    pub api_key: Option<String>,
    pub project_slug: Option<String>,
    pub assignee: Option<String>,
    pub active_states: Option<Vec<String>>,
    pub terminal_states: Option<Vec<String>>,
}

#[derive(Debug)]
pub struct RawPollingConfig {
    pub interval_ms: Option<u64>,
}

#[derive(Debug)]
pub struct RawWorkspaceConfig {
    pub root: Option<String>,
}

#[derive(Debug)]
pub struct RawWorkerConfig {
    pub ssh_hosts: Option<Vec<String>>,
    pub max_concurrent_agents_per_host: Option<usize>,
}

#[derive(Debug)]
pub struct RawAgentConfig {
    pub max_concurrent_agents: Option<usize>,
    pub max_turns: Option<u32>,
    pub max_retry_backoff_ms: Option<u64>,
    pub max_concurrent_agents_by_state: Option<OrderedMap<usize>>,
}

#[derive(Debug)]
pub struct RawCodexConfig {
    pub command: Option<String>,
    pub approval_policy: Option<JsonValue>,
    pub thread_sandbox: Option<String>,
    pub turn_sandbox_policy: Option<JsonValue>,
    pub turn_timeout_ms: Option<u64>,
    pub read_timeout_ms: Option<u64>,
    pub stall_timeout_ms: Option<i64>,
}

#[derive(Debug)]
pub struct RawHooksConfig {
    pub after_create: Option<String>,
    pub before_run: Option<String>,
    pub after_run: Option<String>,
    pub before_remove: Option<String>,
    pub timeout_ms: Option<u64>,
}

#[derive(Debug)]
pub struct RawObservabilityConfig {
    pub dashboard_enabled: Option<bool>,
    pub refresh_ms: Option<u64>,
    pub render_interval_ms: Option<u64>,
}

#[derive(Debug)]
pub struct RawServerConfig {
    pub port: Option<u16>,
    pub host: Option<String>,
}

impl Default for RawServiceConfig {
    fn default() -> (r: RawServiceConfig)
        ensures
            r.tracker is None,
            r.polling is None,
            r.workspace is None,
            r.worker is None,
            r.agent is None,
            r.codex is None,
            r.hooks is None,
            r.observability is None,
            r.server is None,
    {
        RawServiceConfig {
            tracker: None,
            polling: None,
            workspace: None,
            worker: None,
            agent: None,
            codex: None,
            hooks: None,
            observability: None,
            server: None,
        }
    }
}

// ---------------------------------------------------------------------------
// Tracker
// ---------------------------------------------------------------------------

/// Where issues come from.
#[derive(Debug, PartialEq, Eq)]
pub struct TrackerConfig {
    pub kind: Option<String>,
    pub endpoint: String,
    pub api_key: Option<String>,
    pub project_slug: Option<String>,
    pub assignee: Option<String>,
    pub active_states: Vec<String>,
    pub terminal_states: Vec<String>,
}

/// The model of where issues come from.
#[verifier::ext_equal]
pub struct TrackerModel {
    pub kind: Option<Seq<char>>,
    pub endpoint: Seq<char>,
    pub api_key: Option<Seq<char>>,
    pub project_slug: Option<Seq<char>>,
    pub assignee: Option<Seq<char>>,
    pub active_states: Seq<Seq<char>>,
    pub terminal_states: Seq<Seq<char>>,
}

impl View for TrackerConfig {
    type V = TrackerModel;

    open spec fn view(&self) -> TrackerModel {
        TrackerModel {
            kind: opt_text(self.kind),
            endpoint: self.endpoint@,
            api_key: opt_text(self.api_key),
            project_slug: opt_text(self.project_slug),
            assignee: opt_text(self.assignee),
            active_states: texts(self.active_states@),
            terminal_states: texts(self.terminal_states@),
        }
    }
}

/// The states in which an issue is worked on, where none are configured.
pub open spec fn default_active_states() -> Seq<Seq<char>> {
    seq!["Todo"@, "In Progress"@]
}

/// The states in which an issue is done with, where none are configured.
pub open spec fn default_terminal_states() -> Seq<Seq<char>> {
    seq!["Closed"@, "Cancelled"@, "Canceled"@, "Duplicate"@, "Done"@]
}

/// The tracker where none is configured.
pub open spec fn default_tracker(env: Environment) -> TrackerModel {
    TrackerModel {
        kind: Some("linear"@),
        endpoint: "https://api.linear.app/graphql"@,
        api_key: env_not_blank(env, "LINEAR_API_KEY"@),
        project_slug: None,
        assignee: env_not_blank(env, "LINEAR_ASSIGNEE"@),
        active_states: default_active_states(),
        terminal_states: default_terminal_states(),
    }
}

/// A value, or a default where it is missing.
pub open spec fn value_or<T>(value: Option<T>, default: T) -> T {
    match value {
        Some(v) => v,
        None => default,
    }
}

/// The tracker of a section.
pub open spec fn tracker_of(raw: RawTrackerConfig, env: Environment) -> TrackerModel {
    TrackerModel {
        kind: Some(value_or(opt_text(raw.kind), "linear"@)),
        endpoint: value_or(opt_text(raw.endpoint), "https://api.linear.app/graphql"@),
        api_key: setting_or_env(opt_text(raw.api_key), env, "LINEAR_API_KEY"@),
        project_slug: filled(opt_text(raw.project_slug)),
        assignee: setting_or_env(opt_text(raw.assignee), env, "LINEAR_ASSIGNEE"@),
        active_states: value_or(
            filled_list_or_none(opt_texts(raw.active_states)),
            default_active_states(),
        ),
        terminal_states: value_or(
            filled_list_or_none(opt_texts(raw.terminal_states)),
            default_terminal_states(),
        ),
    }
}

/// The states in which an issue is worked on, where none are configured.
fn usual_active_states() -> (r: Vec<String>)
    ensures
        texts(r@) == default_active_states(),
{
    let out = vec!["Todo".to_string(), "In Progress".to_string()];
    assert(texts(out@) =~= default_active_states());
    out
}

/// The states in which an issue is done with, where none are configured.
fn usual_terminal_states() -> (r: Vec<String>)
    ensures
        texts(r@) == default_terminal_states(),
{
    let out = vec![
        "Closed".to_string(),
        "Cancelled".to_string(),
        "Canceled".to_string(),
        "Duplicate".to_string(),
        "Done".to_string(),
    ];
    assert(texts(out@) =~= default_terminal_states());
    out
}

impl TrackerConfig {
    /// The tracker where none is configured.
    pub fn default(env: &Environment) -> (r: TrackerConfig)
        ensures
            r@ == default_tracker(*env),
    {
        TrackerConfig {
            kind: Some("linear".to_string()),
            endpoint: DEFAULT_LINEAR_ENDPOINT.to_string(),
            api_key: var_not_blank(env, "LINEAR_API_KEY"),
            project_slug: None,
            assignee: var_not_blank(env, "LINEAR_ASSIGNEE"),
            active_states: usual_active_states(),
            terminal_states: usual_terminal_states(),
        }
    }

    /// The tracker of a section.
    pub fn from_raw(raw: RawTrackerConfig, env: &Environment) -> (r: Result<
        TrackerConfig,
        ConfigError,
    >)
        ensures
            r matches Ok(config) && config@ == tracker_of(raw, *env),
    {
        Ok(
            TrackerConfig {
                kind: match raw.kind {
                    Some(kind) => Some(kind),
                    None => Some("linear".to_string()),
                },
                endpoint: match raw.endpoint {
                    Some(endpoint) => endpoint,
                    None => DEFAULT_LINEAR_ENDPOINT.to_string(),
                },
                api_key: secret_or_var(&raw.api_key, env, "LINEAR_API_KEY"),
                project_slug: normalize_optional_string(raw.project_slug),
                assignee: secret_or_var(&raw.assignee, env, "LINEAR_ASSIGNEE"),
                active_states: match non_empty_string_list(raw.active_states) {
                    Some(states) => states,
                    None => usual_active_states(),
                },
                terminal_states: match non_empty_string_list(raw.terminal_states) {
                    Some(states) => states,
                    None => usual_terminal_states(),
                },
            },
        )
    }
}

impl Clone for TrackerConfig {
    fn clone(&self) -> (r: TrackerConfig)
        ensures
            r@ == self@,
    {
        TrackerConfig {
            kind: clone_opt(&self.kind),
            endpoint: self.endpoint.clone(),
            api_key: clone_opt(&self.api_key),
            project_slug: clone_opt(&self.project_slug),
            assignee: clone_opt(&self.assignee),
            active_states: clone_strings(&self.active_states),
            terminal_states: clone_strings(&self.terminal_states),
        }
    }
}

// ---------------------------------------------------------------------------
// Polling, workspaces, workers
// ---------------------------------------------------------------------------

/// How often the tracker is asked.
#[derive(Debug, Clone, Copy, PartialEq, Eq, Structural)]
pub struct PollingConfig {
    pub interval_ms: u64,
}

/// The polling of a section.
pub open spec fn polling_of(raw: RawPollingConfig) -> Result<PollingConfig, Seq<char>> {
    let interval_ms = value_or(raw.interval_ms, DEFAULT_POLL_INTERVAL_MS);
    if interval_ms == 0 {
        Err("polling.interval_ms must be greater than 0"@)
    } else {
        Ok(PollingConfig { interval_ms })
    }
}

impl Default for PollingConfig {
    fn default() -> (r: PollingConfig)
        ensures
            r == (PollingConfig { interval_ms: DEFAULT_POLL_INTERVAL_MS }),
    {
        PollingConfig { interval_ms: DEFAULT_POLL_INTERVAL_MS }
    }
}

impl PollingConfig {
    /// The polling of a section.
    pub fn from_raw(raw: RawPollingConfig) -> (r: Result<PollingConfig, ConfigError>)
        ensures
            match r {
                Ok(config) => polling_of(raw) == Ok::<PollingConfig, Seq<char>>(config),
                Err(error) => polling_of(raw) == Err::<PollingConfig, Seq<char>>(error@),
            },
    {
        let interval_ms: u64 = raw.interval_ms.unwrap_or(DEFAULT_POLL_INTERVAL_MS);
        if interval_ms == 0 {
            return Err(ConfigError::invalid_workflow("polling.interval_ms must be greater than 0"));
        }
        Ok(PollingConfig { interval_ms })
    }
}

/// Where the directories of issues are made.
#[derive(Debug, PartialEq, Eq)]
pub struct WorkspaceConfig {
    pub root: String,
}

impl View for WorkspaceConfig {
    type V = Seq<char>;

    open spec fn view(&self) -> Seq<char> {
        self.root@
    }
}

impl WorkspaceConfig {
    /// The workspaces where none are configured.
    pub fn default(env: &Environment) -> (r: WorkspaceConfig)
        ensures
            r@ == workspace_root_default(*env),
    {
        WorkspaceConfig { root: default_workspace_root(env) }
    }

    /// The workspaces of a section.
    pub fn from_raw(raw: RawWorkspaceConfig, env: &Environment) -> (r: Result<
        WorkspaceConfig,
        ConfigError,
    >)
        ensures
            r matches Ok(config) && config@ == path_value(
                opt_text(raw.root),
                workspace_root_default(*env),
                *env,
            ),
    {
        let default = default_workspace_root(env);
        let given = match &raw.root {
            Some(root) => Some(root.as_str()),
            None => None,
        };
        Ok(WorkspaceConfig { root: resolve_path_value(given, default.as_str(), env) })
    }
}

impl Clone for WorkspaceConfig {
    fn clone(&self) -> (r: WorkspaceConfig)
        ensures
            r == *self,
    {
        WorkspaceConfig { root: self.root.clone() }
    }
}

/// The hosts on which attempts run.
#[derive(Debug, PartialEq, Eq)]
pub struct WorkerConfig {
    pub ssh_hosts: Vec<String>,
    pub max_concurrent_agents_per_host: Option<usize>,
}

/// The model of the hosts on which attempts run.
#[verifier::ext_equal]
pub struct WorkerModel {
    pub ssh_hosts: Seq<Seq<char>>,
    pub max_concurrent_agents_per_host: Option<usize>,
}

impl View for WorkerConfig {
    type V = WorkerModel;

    open spec fn view(&self) -> WorkerModel {
        WorkerModel {
            ssh_hosts: texts(self.ssh_hosts@),
            max_concurrent_agents_per_host: self.max_concurrent_agents_per_host,
        }
    }
}

/// The workers of a section.
pub open spec fn worker_of(raw: RawWorkerConfig) -> Result<WorkerModel, Seq<char>> {
    if raw.max_concurrent_agents_per_host == Some(0usize) {
        Err("worker.max_concurrent_agents_per_host must be greater than 0"@)
    } else {
        Ok(
            WorkerModel {
                ssh_hosts: match raw.ssh_hosts {
                    Some(hosts) => filled_list(texts(hosts@)),
                    None => Seq::empty(),
                },
                max_concurrent_agents_per_host: raw.max_concurrent_agents_per_host,
            },
        )
    }
}

impl Default for WorkerConfig {
    fn default() -> (r: WorkerConfig)
        ensures
            r@ == (WorkerModel { ssh_hosts: Seq::empty(), max_concurrent_agents_per_host: None }),
    {
        let r = WorkerConfig { ssh_hosts: Vec::new(), max_concurrent_agents_per_host: None };
        assert(r@.ssh_hosts =~= Seq::empty());
        r
    }
}

impl WorkerConfig {
    /// The workers of a section.
    pub fn from_raw(raw: RawWorkerConfig) -> (r: Result<WorkerConfig, ConfigError>)
        ensures
            match r {
                Ok(config) => worker_of(raw) == Ok::<WorkerModel, Seq<char>>(config@),
                Err(error) => worker_of(raw) == Err::<WorkerModel, Seq<char>>(error@),
            },
    {
        match raw.max_concurrent_agents_per_host {
            Some(limit) => {
                if limit == 0 {
                    return Err(
                        ConfigError::invalid_workflow(
                            "worker.max_concurrent_agents_per_host must be greater than 0",
                        ),
                    );
                }
            },
            None => {},
        }
        let ssh_hosts = match raw.ssh_hosts {
            Some(hosts) => trimmed_list(&hosts),
            None => {
                let none: Vec<String> = Vec::new();
                assert(texts(none@) =~= Seq::empty());
                none
            },
        };
        Ok(
            WorkerConfig {
                ssh_hosts,
                max_concurrent_agents_per_host: raw.max_concurrent_agents_per_host,
            },
        )
    }
}

impl Clone for WorkerConfig {
    fn clone(&self) -> (r: WorkerConfig)
        ensures
            r@ == self@,
    {
        WorkerConfig {
            ssh_hosts: clone_strings(&self.ssh_hosts),
            max_concurrent_agents_per_host: self.max_concurrent_agents_per_host,
        }
    }
}

// ---------------------------------------------------------------------------
// Agents
// ---------------------------------------------------------------------------

/// How many attempts run at once, and how long they go on.
#[derive(Debug, PartialEq, Eq)]
pub struct AgentConfig {
    pub max_concurrent_agents: usize,
    pub max_turns: u32,
    pub max_retry_backoff_ms: u64,
    pub max_concurrent_agents_by_state: OrderedMap<usize>,
}

/// The model of how many attempts run at once.
#[verifier::ext_equal]
pub struct AgentModel {
    pub max_concurrent_agents: usize,
    pub max_turns: u32,
    pub max_retry_backoff_ms: u64,
    pub max_concurrent_agents_by_state: Map<Seq<char>, usize>,
}

impl View for AgentConfig {
    type V = AgentModel;

    open spec fn view(&self) -> AgentModel {
        AgentModel {
            max_concurrent_agents: self.max_concurrent_agents,
            max_turns: self.max_turns,
            max_retry_backoff_ms: self.max_retry_backoff_ms,
            max_concurrent_agents_by_state: self.max_concurrent_agents_by_state@,
        }
    }
}

/// The limits of the states `keys`, under their normal names; the first key that
/// is blank or has no positive limit is refused, and of two keys with one normal
/// name the later one counts.
pub open spec fn state_limits(raw: Map<Seq<char>, usize>, keys: Seq<Seq<char>>) -> Result<
    Map<Seq<char>, usize>,
    Seq<char>,
>
    decreases keys.len(),
{
    if keys.len() == 0 {
        Ok(Map::empty())
    } else {
        match state_limits(raw, keys.drop_last()) {
            Err(message) => Err(message),
            Ok(limits) => if normal_state(keys.last()).len() == 0 {
                Err("agent.max_concurrent_agents_by_state keys must not be blank"@)
            } else if raw[keys.last()] == 0 {
                Err("agent.max_concurrent_agents_by_state values must be positive integers"@)
            } else {
                Ok(limits.insert(normal_state(keys.last()), raw[keys.last()]))
            },
        }
    }
}

/// The agents of a section.
pub open spec fn agent_of(raw: RawAgentConfig) -> Result<AgentModel, Seq<char>> {
    let max_concurrent_agents = value_or(raw.max_concurrent_agents, DEFAULT_MAX_CONCURRENT_AGENTS);
    let max_turns = value_or(raw.max_turns, DEFAULT_MAX_TURNS);
    let max_retry_backoff_ms = value_or(raw.max_retry_backoff_ms, DEFAULT_MAX_RETRY_BACKOFF_MS);
    let limits = match raw.max_concurrent_agents_by_state {
        Some(map) => map@,
        None => Map::empty(),
    };
    if max_concurrent_agents == 0 {
        Err("agent.max_concurrent_agents must be greater than 0"@)
    } else if max_turns == 0 {
        Err("agent.max_turns must be greater than 0"@)
    } else if max_retry_backoff_ms == 0 {
        Err("agent.max_retry_backoff_ms must be greater than 0"@)
    } else {
        match state_limits(limits, sorted_keys(limits.dom())) {
            Err(message) => Err(message),
            Ok(max_concurrent_agents_by_state) => Ok(
                AgentModel {
                    max_concurrent_agents,
                    max_turns,
                    max_retry_backoff_ms,
                    max_concurrent_agents_by_state,
                },
            ),
        }
    }
}

/// The agents where none are configured.
pub open spec fn default_agent() -> AgentModel {
    AgentModel {
        max_concurrent_agents: DEFAULT_MAX_CONCURRENT_AGENTS,
        max_turns: DEFAULT_MAX_TURNS,
        max_retry_backoff_ms: DEFAULT_MAX_RETRY_BACKOFF_MS,
        max_concurrent_agents_by_state: Map::empty(),
    }
}

impl Default for AgentConfig {
    fn default() -> (r: AgentConfig)
        ensures
            r@ == default_agent(),
    {
        AgentConfig {
            max_concurrent_agents: DEFAULT_MAX_CONCURRENT_AGENTS,
            max_turns: DEFAULT_MAX_TURNS,
            max_retry_backoff_ms: DEFAULT_MAX_RETRY_BACKOFF_MS,
            max_concurrent_agents_by_state: OrderedMap::new(),
        }
    }
}

impl AgentConfig {
    /// The agents of a section.
    pub fn from_raw(raw: RawAgentConfig) -> (r: Result<AgentConfig, ConfigError>)
        ensures
            match r {
                Ok(config) => agent_of(raw) == Ok::<AgentModel, Seq<char>>(config@),
                Err(error) => agent_of(raw) == Err::<AgentModel, Seq<char>>(error@),
            },
    {
        let max_concurrent_agents: usize = raw.max_concurrent_agents.unwrap_or(
            DEFAULT_MAX_CONCURRENT_AGENTS,
        );
        let max_turns: u32 = raw.max_turns.unwrap_or(DEFAULT_MAX_TURNS);
        let max_retry_backoff_ms: u64 = raw.max_retry_backoff_ms.unwrap_or(
            DEFAULT_MAX_RETRY_BACKOFF_MS,
        );
        if max_concurrent_agents == 0 {
            return Err(
                ConfigError::invalid_workflow("agent.max_concurrent_agents must be greater than 0"),
            );
        }
        if max_turns == 0 {
            return Err(ConfigError::invalid_workflow("agent.max_turns must be greater than 0"));
        }
        if max_retry_backoff_ms == 0 {
            return Err(
                ConfigError::invalid_workflow("agent.max_retry_backoff_ms must be greater than 0"),
            );
        }
        let given = match raw.max_concurrent_agents_by_state {
            Some(map) => map,
            None => OrderedMap::new(),
        };
        let limits = match normalize_limits(&given) {
            Ok(limits) => limits,
            Err(error) => {
                return Err(error);
            },
        };
        Ok(
            AgentConfig {
                max_concurrent_agents,
                max_turns,
                max_retry_backoff_ms,
                max_concurrent_agents_by_state: limits,
            },
        )
    }
}

/// The limits of all states, under their normal names.
fn normalize_limits(given: &OrderedMap<usize>) -> (r: Result<OrderedMap<usize>, ConfigError>)
    ensures
        match r {
            Ok(limits) => state_limits(given@, sorted_keys(given@.dom())) == Ok::<
                Map<Seq<char>, usize>,
                Seq<char>,
            >(limits@),
            Err(error) => state_limits(given@, sorted_keys(given@.dom())) == Err::<
                Map<Seq<char>, usize>,
                Seq<char>,
            >(error@),
        },
{
    let mut limits: OrderedMap<usize> = OrderedMap::new();
    let count: usize = given.len();
    let ghost keys = sorted_keys(given@.dom());
    let mut i: usize = 0;
    while i < count
        invariant
            i <= count,
            count == keys.len(),
            keys == sorted_keys(given@.dom()),
            state_limits(given@, keys.take(i as int)) == Ok::<
                Map<Seq<char>, usize>,
                Seq<char>,
            >(limits@),
        decreases count - i,
    {
        proof {
            assert(keys.take(i + 1).drop_last() =~= keys.take(i as int));
            lemma_limits_err(given@, keys, i + 1);
            assert(keys.take(keys.len() as int) =~= keys);
        }
        let (state, limit) = given.entry(i);
        let normal = normalize_state(state.as_str());
        if normal.as_str().unicode_len() == 0 {
            return Err(
                ConfigError::invalid_workflow(
                    "agent.max_concurrent_agents_by_state keys must not be blank",
                ),
            );
        }
        if *limit == 0 {
            return Err(
                ConfigError::invalid_workflow(
                    "agent.max_concurrent_agents_by_state values must be positive integers",
                ),
            );
        }
        let _ = limits.insert(normal, *limit);
        i = i + 1;
    }
    assert(keys.take(i as int) =~= keys);
    Ok(limits)
}

/// A key that is refused decides the error for all keys behind it.
proof fn lemma_limits_err(raw: Map<Seq<char>, usize>, keys: Seq<Seq<char>>, n: int)
    requires
        0 <= n <= keys.len(),
    ensures
        state_limits(raw, keys.take(n)) matches Err(message) ==> state_limits(raw, keys) == Err::<
            Map<Seq<char>, usize>,
            Seq<char>,
        >(message),
    decreases keys.len(),
{
    if n == keys.len() {
        assert(keys.take(n) =~= keys);
    } else {
        lemma_limits_err(raw, keys.drop_last(), n);
        assert(keys.drop_last().take(n) =~= keys.take(n));
    }
}

impl Clone for AgentConfig {
    fn clone(&self) -> (r: AgentConfig)
        ensures
            r@ == self@,
    {
        let limits = self.max_concurrent_agents_by_state.clone();
        assert(limits@ =~= self.max_concurrent_agents_by_state@);
        AgentConfig {
            max_concurrent_agents: self.max_concurrent_agents,
            max_turns: self.max_turns,
            max_retry_backoff_ms: self.max_retry_backoff_ms,
            max_concurrent_agents_by_state: limits,
        }
    }
}

// ---------------------------------------------------------------------------
// Codex
// ---------------------------------------------------------------------------

/// How the agent is started, and what it may do.
#[derive(Debug, PartialEq)]
pub struct CodexConfig {
    pub command: String,
    pub approval_policy: JsonValue,
    pub thread_sandbox: String,
    pub turn_sandbox_policy: Option<JsonValue>,
    pub turn_timeout_ms: u64,
    pub read_timeout_ms: u64,
    pub stall_timeout_ms: i64,
}

/// The model of how the agent is started.
pub struct CodexModel {
    pub command: Seq<char>,
    pub approval_policy: Json,
    pub thread_sandbox: Seq<char>,
    pub turn_sandbox_policy: Option<Json>,
    pub turn_timeout_ms: u64,
    pub read_timeout_ms: u64,
    pub stall_timeout_ms: i64,
}

impl View for CodexConfig {
    type V = CodexModel;

    open spec fn view(&self) -> CodexModel {
        CodexModel {
            command: self.command@,
            approval_policy: self.approval_policy@,
            thread_sandbox: self.thread_sandbox@,
            turn_sandbox_policy: opt_json_value(self.turn_sandbox_policy),
            turn_timeout_ms: self.turn_timeout_ms,
            read_timeout_ms: self.read_timeout_ms,
            stall_timeout_ms: self.stall_timeout_ms,
        }
    }
}

/// The agent where none is configured.
pub open spec fn default_codex() -> CodexModel {
    CodexModel {
        command: "codex app-server"@,
        approval_policy: reject_all(),
        thread_sandbox: "workspace-write"@,
        turn_sandbox_policy: None,
        turn_timeout_ms: DEFAULT_TURN_TIMEOUT_MS,
        read_timeout_ms: DEFAULT_READ_TIMEOUT_MS,
        stall_timeout_ms: DEFAULT_STALL_TIMEOUT_MS,
    }
}

/// The agent of a section.
pub open spec fn codex_of(raw: RawCodexConfig) -> Result<CodexModel, Seq<char>> {
    let turn_timeout_ms = value_or(raw.turn_timeout_ms, DEFAULT_TURN_TIMEOUT_MS);
    let read_timeout_ms = value_or(raw.read_timeout_ms, DEFAULT_READ_TIMEOUT_MS);
    if turn_timeout_ms == 0 {
        Err("codex.turn_timeout_ms must be greater than 0"@)
    } else if read_timeout_ms == 0 {
        Err("codex.read_timeout_ms must be greater than 0"@)
    } else {
        Ok(
            CodexModel {
                command: value_or(filled(opt_text(raw.command)), "codex app-server"@),
                approval_policy: value_or(opt_json_value(raw.approval_policy), reject_all()),
                thread_sandbox: value_or(filled(opt_text(raw.thread_sandbox)), "workspace-write"@),
                turn_sandbox_policy: opt_json_value(raw.turn_sandbox_policy),
                turn_timeout_ms,
                read_timeout_ms,
                stall_timeout_ms: value_or(raw.stall_timeout_ms, DEFAULT_STALL_TIMEOUT_MS),
            },
        )
    }
}

impl Default for CodexConfig {
    fn default() -> (r: CodexConfig)
        ensures
            r@ == default_codex(),
    {
        CodexConfig {
            command: DEFAULT_CODEX_COMMAND.to_string(),
            approval_policy: default_approval_policy(),
            thread_sandbox: "workspace-write".to_string(),
            turn_sandbox_policy: None,
            turn_timeout_ms: DEFAULT_TURN_TIMEOUT_MS,
            read_timeout_ms: DEFAULT_READ_TIMEOUT_MS,
            stall_timeout_ms: DEFAULT_STALL_TIMEOUT_MS,
        }
    }
}

impl CodexConfig {
    /// The agent of a section.
    pub fn from_raw(raw: RawCodexConfig) -> (r: Result<CodexConfig, ConfigError>)
        ensures
            match r {
                Ok(config) => codex_of(raw) == Ok::<CodexModel, Seq<char>>(config@),
                Err(error) => codex_of(raw) == Err::<CodexModel, Seq<char>>(error@),
            },
    {
        let command = match normalize_optional_string(raw.command) {
            Some(command) => command,
            None => DEFAULT_CODEX_COMMAND.to_string(),
        };
        let turn_timeout_ms: u64 = raw.turn_timeout_ms.unwrap_or(DEFAULT_TURN_TIMEOUT_MS);
        let read_timeout_ms: u64 = raw.read_timeout_ms.unwrap_or(DEFAULT_READ_TIMEOUT_MS);
        let stall_timeout_ms: i64 = raw.stall_timeout_ms.unwrap_or(DEFAULT_STALL_TIMEOUT_MS);
        if turn_timeout_ms == 0 {
            return Err(
                ConfigError::invalid_workflow("codex.turn_timeout_ms must be greater than 0"),
            );
        }
        if read_timeout_ms == 0 {
            return Err(
                ConfigError::invalid_workflow("codex.read_timeout_ms must be greater than 0"),
            );
        }
        Ok(
            CodexConfig {
                command,
                approval_policy: match raw.approval_policy {
                    Some(policy) => policy,
                    None => default_approval_policy(),
                },
                thread_sandbox: match normalize_optional_string(raw.thread_sandbox) {
                    Some(sandbox) => sandbox,
                    None => "workspace-write".to_string(),
                },
                turn_sandbox_policy: raw.turn_sandbox_policy,
                turn_timeout_ms,
                read_timeout_ms,
                stall_timeout_ms,
            },
        )
    }
}

impl Clone for CodexConfig {
    fn clone(&self) -> (r: CodexConfig)
        ensures
            r@ == self@,
    {
        CodexConfig {
            command: self.command.clone(),
            approval_policy: self.approval_policy.clone(),
            thread_sandbox: self.thread_sandbox.clone(),
            turn_sandbox_policy: clone_in(self.turn_sandbox_policy.as_ref()),
            turn_timeout_ms: self.turn_timeout_ms,
            read_timeout_ms: self.read_timeout_ms,
            stall_timeout_ms: self.stall_timeout_ms,
        }
    }
}

// ---------------------------------------------------------------------------
// Hooks, observability, server
// ---------------------------------------------------------------------------

/// The commands that run around an attempt.
#[derive(Debug, PartialEq, Eq)]
pub struct HooksConfig {
    pub after_create: Option<String>,
    pub before_run: Option<String>,
    pub after_run: Option<String>,
    pub before_remove: Option<String>,
    pub timeout_ms: u64,
}

/// The model of the commands that run around an attempt.
pub struct HooksModel {
    pub after_create: Option<Seq<char>>,
    pub before_run: Option<Seq<char>>,
    pub after_run: Option<Seq<char>>,
    pub before_remove: Option<Seq<char>>,
    pub timeout_ms: u64,
}

impl View for HooksConfig {
    type V = HooksModel;

    open spec fn view(&self) -> HooksModel {
        HooksModel {
            after_create: opt_text(self.after_create),
            before_run: opt_text(self.before_run),
            after_run: opt_text(self.after_run),
            before_remove: opt_text(self.before_remove),
            timeout_ms: self.timeout_ms,
        }
    }
}

/// The hooks where none are configured.
pub open spec fn default_hooks() -> HooksModel {
    HooksModel {
        after_create: None,
        before_run: None,
        after_run: None,
        before_remove: None,
        timeout_ms: DEFAULT_HOOK_TIMEOUT_MS,
    }
}

/// The hooks of a section.
pub open spec fn hooks_of(raw: RawHooksConfig) -> Result<HooksModel, Seq<char>> {
    let timeout_ms = value_or(raw.timeout_ms, DEFAULT_HOOK_TIMEOUT_MS);
    if timeout_ms == 0 {
        Err("hooks.timeout_ms must be greater than 0"@)
    } else {
        Ok(
            HooksModel {
                after_create: filled(opt_text(raw.after_create)),
                before_run: filled(opt_text(raw.before_run)),
                after_run: filled(opt_text(raw.after_run)),
                before_remove: filled(opt_text(raw.before_remove)),
                timeout_ms,
            },
        )
    }
}

impl Default for HooksConfig {
    fn default() -> (r: HooksConfig)
        ensures
            r@ == default_hooks(),
    {
        HooksConfig {
            after_create: None,
            before_run: None,
            after_run: None,
            before_remove: None,
            timeout_ms: DEFAULT_HOOK_TIMEOUT_MS,
        }
    }
}

impl HooksConfig {
    /// The hooks of a section.
    pub fn from_raw(raw: RawHooksConfig) -> (r: Result<HooksConfig, ConfigError>)
        ensures
            match r {
                Ok(config) => hooks_of(raw) == Ok::<HooksModel, Seq<char>>(config@),
                Err(error) => hooks_of(raw) == Err::<HooksModel, Seq<char>>(error@),
            },
    {
        let timeout_ms: u64 = raw.timeout_ms.unwrap_or(DEFAULT_HOOK_TIMEOUT_MS);
        if timeout_ms == 0 {
            return Err(ConfigError::invalid_workflow("hooks.timeout_ms must be greater than 0"));
        }
        Ok(
            HooksConfig {
                after_create: normalize_optional_string(raw.after_create),
                before_run: normalize_optional_string(raw.before_run),
                after_run: normalize_optional_string(raw.after_run),
                before_remove: normalize_optional_string(raw.before_remove),
                timeout_ms,
            },
        )
    }
}

impl Clone for HooksConfig {
    fn clone(&self) -> (r: HooksConfig)
        ensures
            r == *self,
    {
        HooksConfig {
            after_create: clone_opt(&self.after_create),
            before_run: clone_opt(&self.before_run),
            after_run: clone_opt(&self.after_run),
            before_remove: clone_opt(&self.before_remove),
            timeout_ms: self.timeout_ms,
        }
    }
}

/// What is shown of the service.
#[derive(Debug, Clone, Copy, PartialEq, Eq, Structural)]
pub struct ObservabilityConfig {
    pub dashboard_enabled: bool,
    pub refresh_ms: u64,
    pub render_interval_ms: u64,
}

/// The observability of a section.
pub open spec fn observability_of(raw: RawObservabilityConfig) -> Result<
    ObservabilityConfig,
    Seq<char>,
> {
    let refresh_ms = value_or(raw.refresh_ms, 1_000u64);
    let render_interval_ms = value_or(raw.render_interval_ms, 16u64);
    if refresh_ms == 0 {
        Err("observability.refresh_ms must be greater than 0"@)
    } else if render_interval_ms == 0 {
        Err("observability.render_interval_ms must be greater than 0"@)
    } else {
        Ok(
            ObservabilityConfig {
                dashboard_enabled: value_or(raw.dashboard_enabled, true),
                refresh_ms,
                render_interval_ms,
            },
        )
    }
}

impl Default for ObservabilityConfig {
    fn default() -> (r: ObservabilityConfig)
        ensures
            r == (ObservabilityConfig {
                dashboard_enabled: true,
                refresh_ms: 1_000,
                render_interval_ms: 16,
            }),
    {
        ObservabilityConfig { dashboard_enabled: true, refresh_ms: 1_000, render_interval_ms: 16 }
    }
}

impl ObservabilityConfig {
    /// The observability of a section.
    pub fn from_raw(raw: RawObservabilityConfig) -> (r: Result<ObservabilityConfig, ConfigError>)
        ensures
            match r {
                Ok(config) => observability_of(raw) == Ok::<ObservabilityConfig, Seq<char>>(config),
                Err(error) => observability_of(raw) == Err::<ObservabilityConfig, Seq<char>>(
                    error@,
                ),
            },
    {
        let refresh_ms: u64 = raw.refresh_ms.unwrap_or(1_000);
        let render_interval_ms: u64 = raw.render_interval_ms.unwrap_or(16);
        if refresh_ms == 0 {
            return Err(
                ConfigError::invalid_workflow("observability.refresh_ms must be greater than 0"),
            );
        }
        if render_interval_ms == 0 {
            return Err(
                ConfigError::invalid_workflow(
                    "observability.render_interval_ms must be greater than 0",
                ),
            );
        }
        Ok(
            ObservabilityConfig {
                dashboard_enabled: raw.dashboard_enabled.unwrap_or(true),
                refresh_ms,
                render_interval_ms,
            },
        )
    }
}

/// Where the service listens.
#[derive(Debug, PartialEq, Eq)]
pub struct ServerConfig {
    pub port: Option<u16>,
    pub host: String,
}

/// The model of where the service listens.
pub struct ServerModel {
    pub port: Option<u16>,
    pub host: Seq<char>,
}

impl View for ServerConfig {
    type V = ServerModel;

    open spec fn view(&self) -> ServerModel {
        ServerModel { port: self.port, host: self.host@ }
    }
}

/// The server of a section.
pub open spec fn server_of(raw: RawServerConfig) -> ServerModel {
    ServerModel { port: raw.port, host: value_or(filled(opt_text(raw.host)), "127.0.0.1"@) }
}

impl Default for ServerConfig {
    fn default() -> (r: ServerConfig)
        ensures
            r@ == (ServerModel { port: None, host: "127.0.0.1"@ }),
    {
        ServerConfig { port: None, host: "127.0.0.1".to_string() }
    }
}

impl ServerConfig {
    /// The server of a section.
    pub fn from_raw(raw: RawServerConfig) -> (r: Result<ServerConfig, ConfigError>)
        ensures
            r matches Ok(config) && config@ == server_of(raw),
    {
        Ok(
            ServerConfig {
                port: raw.port,
                host: match normalize_optional_string(raw.host) {
                    Some(host) => host,
                    None => "127.0.0.1".to_string(),
                },
            },
        )
    }
}

impl Clone for ServerConfig {
    fn clone(&self) -> (r: ServerConfig)
        ensures
            r == *self,
    {
        ServerConfig { port: self.port, host: self.host.clone() }
    }
}

// ---------------------------------------------------------------------------
// The whole configuration
// ---------------------------------------------------------------------------

/// The configuration of the service.
#[derive(Debug, PartialEq)]
pub struct ServiceConfig {
    pub tracker: TrackerConfig,
    pub polling: PollingConfig,
    pub workspace: WorkspaceConfig,
    pub worker: WorkerConfig,
    pub agent: AgentConfig,
    pub codex: CodexConfig,
    pub hooks: HooksConfig,
    pub observability: ObservabilityConfig,
    pub server: ServerConfig,
}

/// The model of the configuration of the service.
pub struct ServiceModel {
    pub tracker: TrackerModel,
    pub polling: PollingConfig,
    pub workspace: Seq<char>,
    pub worker: WorkerModel,
    pub agent: AgentModel,
    pub codex: CodexModel,
    pub hooks: HooksModel,
    pub observability: ObservabilityConfig,
    pub server: ServerModel,
}

impl View for ServiceConfig {
    type V = ServiceModel;

    open spec fn view(&self) -> ServiceModel {
        ServiceModel {
            tracker: self.tracker@,
            polling: self.polling,
            workspace: self.workspace@,
            worker: self.worker@,
            agent: self.agent@,
            codex: self.codex@,
            hooks: self.hooks@,
            observability: self.observability,
            server: self.server@,
        }
    }
}

/// The configuration where a workflow says nothing.
pub open spec fn default_service(env: Environment) -> ServiceModel {
    ServiceModel {
        tracker: default_tracker(env),
        polling: PollingConfig { interval_ms: DEFAULT_POLL_INTERVAL_MS },
        workspace: workspace_root_default(env),
        worker: WorkerModel { ssh_hosts: Seq::empty(), max_concurrent_agents_per_host: None },
        agent: default_agent(),
        codex: default_codex(),
        hooks: default_hooks(),
        observability: ObservabilityConfig {
            dashboard_enabled: true,
            refresh_ms: 1_000,
            render_interval_ms: 16,
        },
        server: ServerModel { port: None, host: "127.0.0.1"@ },
    }
}

/// What a section gives, or its default where the section is missing.
pub open spec fn section<R, M>(
    raw: Option<R>,
    read: spec_fn(R) -> Result<M, Seq<char>>,
    default: M,
) -> Result<M, Seq<char>> {
    match raw {
        Some(r) => read(r),
        None => Ok(default),
    }
}

/// The configuration of all sections; the first section that is refused decides
/// the error.
pub open spec fn service_of(raw: RawServiceConfig, env: Environment) -> Result<
    ServiceModel,
    Seq<char>,
> {
    let defaults = default_service(env);
    let polling = section(raw.polling, |r: RawPollingConfig| polling_of(r), defaults.polling);
    let worker = section(raw.worker, |r: RawWorkerConfig| worker_of(r), defaults.worker);
    let agent = section(raw.agent, |r: RawAgentConfig| agent_of(r), defaults.agent);
    let codex = section(raw.codex, |r: RawCodexConfig| codex_of(r), defaults.codex);
    let hooks = section(raw.hooks, |r: RawHooksConfig| hooks_of(r), defaults.hooks);
    let observability = section(
        raw.observability,
        |r: RawObservabilityConfig| observability_of(r),
        defaults.observability,
    );
    if polling is Err {
        Err(polling->Err_0)
    } else if worker is Err {
        Err(worker->Err_0)
    } else if agent is Err {
        Err(agent->Err_0)
    } else if codex is Err {
        Err(codex->Err_0)
    } else if hooks is Err {
        Err(hooks->Err_0)
    } else if observability is Err {
        Err(observability->Err_0)
    } else {
        Ok(
            ServiceModel {
                tracker: match raw.tracker {
                    Some(tracker) => tracker_of(tracker, env),
                    None => defaults.tracker,
                },
                polling: polling->Ok_0,
                workspace: match raw.workspace {
                    Some(workspace) => path_value(
                        opt_text(workspace.root),
                        defaults.workspace,
                        env,
                    ),
                    None => defaults.workspace,
                },
                worker: worker->Ok_0,
                agent: agent->Ok_0,
                codex: codex->Ok_0,
                hooks: hooks->Ok_0,
                observability: observability->Ok_0,
                server: match raw.server {
                    Some(server) => server_of(server),
                    None => defaults.server,
                },
            },
        )
    }
}

/// What a decoded workflow gives: a decoding error is passed on.
pub open spec fn decoded_service(raw: Result<RawServiceConfig, String>, env: Environment) -> Result<
    ServiceModel,
    Seq<char>,
> {
    match raw {
        Ok(sections) => service_of(sections, env),
        Err(message) => Err(message@),
    }
}

/// What a configuration lacks before issues can be worked on.
pub open spec fn config_gaps(config: ServiceModel) -> Seq<ConfigGap> {
    let linear = config.tracker.kind == Some("linear"@);
    let kind = match config.tracker.kind {
        Some(kind) => if kind == "linear"@ || kind == "memory"@ {
            Seq::empty()
        } else {
            seq![ConfigGap::UnsupportedTrackerKind(kind)]
        },
        None => seq![ConfigGap::MissingTrackerKind],
    };
    let api_key = if linear && config.tracker.api_key is None {
        seq![ConfigGap::MissingTrackerApiKey]
    } else {
        Seq::empty()
    };
    let project_slug = if linear && filled(config.tracker.project_slug) is None {
        seq![ConfigGap::MissingTrackerProjectSlug]
    } else {
        Seq::empty()
    };
    let command = if is_blank(config.codex.command) {
        seq![ConfigGap::MissingCodexCommand]
    } else {
        Seq::empty()
    };
    kind + api_key + project_slug + command
}

/// The models of a list of gaps.
pub open spec fn gap_models(errors: Seq<ConfigValidationError>) -> Seq<ConfigGap> {
    errors.map_values(|error: ConfigValidationError| error@)
}

/// How many attempts may run at once for issues in a state.
pub open spec fn limit_for_state(agent: AgentModel, state: Seq<char>) -> usize {
    if agent.max_concurrent_agents_by_state.contains_key(normal_state(state)) {
        agent.max_concurrent_agents_by_state[normal_state(state)]
    } else {
        agent.max_concurrent_agents
    }
}

/// The settings of a session.
#[derive(Debug, PartialEq)]
pub struct CodexRuntimeSettings {
    pub approval_policy: JsonValue,
    pub thread_sandbox: String,
    pub turn_sandbox_policy: JsonValue,
}

impl Clone for CodexRuntimeSettings {
    fn clone(&self) -> (r: CodexRuntimeSettings)
        ensures
            r.approval_policy@ == self.approval_policy@,
            r.thread_sandbox@ == self.thread_sandbox@,
            r.turn_sandbox_policy@ == self.turn_sandbox_policy@,
    {
        CodexRuntimeSettings {
            approval_policy: self.approval_policy.clone(),
            thread_sandbox: self.thread_sandbox.clone(),
            turn_sandbox_policy: self.turn_sandbox_policy.clone(),
        }
    }
}

/// The policy of a turn, or the path whose canonical form decides it.
#[derive(Debug, PartialEq)]
pub enum PolicyStep {
    Ready(JsonValue),
    Canonicalize(String),
}

/// The model of what is known of the policy of a turn.
pub enum PolicyModel {
    Ready(Json),
    Canonicalize(Seq<char>),
}

impl View for PolicyStep {
    type V = PolicyModel;

    open spec fn view(&self) -> PolicyModel {
        match *self {
            PolicyStep::Ready(policy) => PolicyModel::Ready(policy@),
            PolicyStep::Canonicalize(path) => PolicyModel::Canonicalize(path@),
        }
    }
}

/// What is known of the policy of a turn in a workspace.
pub open spec fn policy_model(
    config: ServiceModel,
    workspace: Option<Seq<char>>,
    remote: bool,
    env: Environment,
) -> PolicyModel {
    let root = value_or(workspace, local_path(config.workspace, env));
    match config.codex.turn_sandbox_policy {
        Some(configured) => PolicyModel::Ready(configured),
        None => if remote {
            PolicyModel::Ready(write_policy(root))
        } else {
            PolicyModel::Canonicalize(root)
        },
    }
}

/// The members of a list as a set of normal names.
fn state_set(states: &Vec<String>) -> (r: OrderedSet)
    ensures
        r@ == normal_states(texts(states@)).to_set(),
{
    let names = normalize_states(states.as_slice());
    let ghost all = texts(names@);
    let mut out = OrderedSet::new();
    let mut i: usize = 0;
    assert(all.take(0).to_set() =~= Set::<Seq<char>>::empty());
    while i < names.len()
        invariant
            i <= names@.len(),
            all == texts(names@),
            out@ == all.take(i as int).to_set(),
        decreases names@.len() - i,
    {
        let _ = out.insert(names[i].clone());
        proof {
            let name = all[i as int];
            assert(all.take(i + 1) =~= all.take(i as int).push(name));
            assert forall|k: Seq<char>| all.take(i + 1).contains(k) <==> (all.take(
                i as int,
            ).contains(k) || k == name) by {
                if all.take(i as int).contains(k) {
                    let j = choose|j: int| 0 <= j < i && all.take(i as int)[j] == k;
                    assert(all.take(i + 1)[j] == k);
                }
                assert(all.take(i + 1)[i as int] == name);
            }
            assert(out@ =~= all.take(i + 1).to_set());
        }
        i = i + 1;
    }
    assert(all.take(i as int) =~= all);
    out
}

impl ServiceConfig {
    /// The configuration where a workflow says nothing.
    pub fn default(env: &Environment) -> (r: ServiceConfig)
        ensures
            r@ == default_service(*env),
    {
        ServiceConfig {
            tracker: TrackerConfig::default(env),
            polling: PollingConfig::default(),
            workspace: WorkspaceConfig::default(env),
            worker: WorkerConfig::default(),
            agent: AgentConfig::default(),
            codex: CodexConfig::default(),
            hooks: HooksConfig::default(),
            observability: ObservabilityConfig::default(),
            server: ServerConfig::default(),
        }
    }

    /// The configuration of a decoded workflow.
    pub fn from_workflow_config(
        raw: Result<RawServiceConfig, String>,
        env: &Environment,
    ) -> (r: Result<ServiceConfig, ConfigError>)
        ensures
            match r {
                Ok(config) => decoded_service(raw, *env) == Ok::<ServiceModel, Seq<char>>(config@),
                Err(error) => decoded_service(raw, *env) == Err::<ServiceModel, Seq<char>>(error@),
            },
    {
        let sections = match raw {
            Ok(sections) => sections,
            Err(message) => {
                return Err(ConfigError::invalid_workflow(message.as_str()));
            },
        };
        let tracker = match sections.tracker {
            Some(section) => match TrackerConfig::from_raw(section, env) {
                Ok(config) => config,
                Err(error) => {
                    return Err(error);
                },
            },
            None => TrackerConfig::default(env),
        };
        let polling = match sections.polling {
            Some(section) => match PollingConfig::from_raw(section) {
                Ok(config) => config,
                Err(error) => {
                    return Err(error);
                },
            },
            None => PollingConfig::default(),
        };
        let workspace = match sections.workspace {
            Some(section) => match WorkspaceConfig::from_raw(section, env) {
                Ok(config) => config,
                Err(error) => {
                    return Err(error);
                },
            },
            None => WorkspaceConfig::default(env),
        };
        let worker = match sections.worker {
            Some(section) => match WorkerConfig::from_raw(section) {
                Ok(config) => config,
                Err(error) => {
                    return Err(error);
                },
            },
            None => WorkerConfig::default(),
        };
        let agent = match sections.agent {
            Some(section) => match AgentConfig::from_raw(section) {
                Ok(config) => config,
                Err(error) => {
                    return Err(error);
                },
            },
            None => AgentConfig::default(),
        };
        let codex = match sections.codex {
            Some(section) => match CodexConfig::from_raw(section) {
                Ok(config) => config,
                Err(error) => {
                    return Err(error);
                },
            },
            None => CodexConfig::default(),
        };
        let hooks = match sections.hooks {
            Some(section) => match HooksConfig::from_raw(section) {
                Ok(config) => config,
                Err(error) => {
                    return Err(error);
                },
            },
            None => HooksConfig::default(),
        };
        let observability = match sections.observability {
            Some(section) => match ObservabilityConfig::from_raw(section) {
                Ok(config) => config,
                Err(error) => {
                    return Err(error);
                },
            },
            None => ObservabilityConfig::default(),
        };
        let server = match sections.server {
            Some(section) => match ServerConfig::from_raw(section) {
                Ok(config) => config,
                Err(error) => {
                    return Err(error);
                },
            },
            None => ServerConfig::default(),
        };
        Ok(
            ServiceConfig {
                tracker,
                polling,
                workspace,
                worker,
                agent,
                codex,
                hooks,
                observability,
                server,
            },
        )
    }

    /// What the configuration lacks before issues can be worked on.
    pub fn validate_for_dispatch(&self) -> (r: Vec<ConfigValidationError>)
        ensures
            gap_models(r@) == config_gaps(self@),
    {
        let mut errors: Vec<ConfigValidationError> = Vec::new();
        let linear = is_some_text(&self.tracker.kind, "linear");
        match &self.tracker.kind {
            Some(kind) => {
                if !linear && !same_text(kind.as_str(), "memory") {
                    errors.push(ConfigValidationError::UnsupportedTrackerKind(kind.clone()));
                }
            },
            None => {
                errors.push(ConfigValidationError::MissingTrackerKind);
            },
        }
        if linear && self.tracker.api_key.is_none() {
            errors.push(ConfigValidationError::MissingTrackerApiKey);
        }
        if linear && normalize_optional_string(clone_opt(&self.tracker.project_slug)).is_none() {
            errors.push(ConfigValidationError::MissingTrackerProjectSlug);
        }
        if blank(self.codex.command.as_str()) {
            errors.push(ConfigValidationError::MissingCodexCommand);
        }
        assert(gap_models(errors@) =~= config_gaps(self@));
        errors
    }

    /// Whether issues can be worked on.
    pub fn dispatch_ready(&self) -> (r: bool)
        ensures
            r == (config_gaps(self@).len() == 0),
    {
        let errors = self.validate_for_dispatch();
        assert(gap_models(errors@).len() == errors@.len());
        errors.len() == 0
    }

    /// The normal names of the states in which an issue is worked on.
    pub fn normalized_active_states(&self) -> (r: OrderedSet)
        ensures
            r@ == normal_states(self@.tracker.active_states).to_set(),
    {
        state_set(&self.tracker.active_states)
    }

    /// The normal names of the states in which an issue is done with.
    pub fn normalized_terminal_states(&self) -> (r: OrderedSet)
        ensures
            r@ == normal_states(self@.tracker.terminal_states).to_set(),
    {
        state_set(&self.tracker.terminal_states)
    }

    /// How many attempts may run at once for issues in a state.
    pub fn max_concurrent_agents_for_state(&self, state: &str) -> (r: usize)
        ensures
            r == limit_for_state(self@.agent, state@),
    {
        let normal = normalize_state(state);
        match self.agent.max_concurrent_agents_by_state.get(normal.as_str()) {
            Some(limit) => *limit,
            None => self.agent.max_concurrent_agents,
        }
    }

    /// The directory in which the directories of issues are made.
    pub fn workspace_root_path(&self, env: &Environment) -> (r: String)
        ensures
            r@ == local_path(self@.workspace, *env),
    {
        expand_local_path(self.workspace.root.as_str(), env)
    }

    /// The policy of a turn: the configured one; or one that lets the turn write
    /// to the workspace, whose path is taken as it is on a remote host and in its
    /// canonical form on this one.
    pub fn resolve_runtime_turn_sandbox_policy(
        &self,
        workspace: Option<&str>,
        remote: bool,
        env: &Environment,
    ) -> (r: PolicyStep)
        ensures
            r@ == policy_model(self@, opt_str_text(workspace), remote, *env),
            match r {
                PolicyStep::Ready(policy) => match self@.codex.turn_sandbox_policy {
                    Some(configured) => policy@ == configured,
                    None => remote && policy@ == write_policy(
                        value_or(opt_str_text(workspace), local_path(self@.workspace, *env)),
                    ),
                },
                PolicyStep::Canonicalize(path) => {
                    &&& self@.codex.turn_sandbox_policy is None
                    &&& !remote
                    &&& path@ == value_or(
                        opt_str_text(workspace),
                        local_path(self@.workspace, *env),
                    )
                },
            },
    {
        match &self.codex.turn_sandbox_policy {
            Some(policy) => {
                return PolicyStep::Ready(policy.clone());
            },
            None => {},
        }
        let root = match workspace {
            Some(path) => path.to_string(),
            None => self.workspace_root_path(env),
        };
        if remote {
            PolicyStep::Ready(default_turn_sandbox_policy(root.as_str()))
        } else {
            PolicyStep::Canonicalize(root)
        }
    }

    /// The settings of a session, with the policy of its turns.
    pub fn codex_runtime_settings(&self, turn_sandbox_policy: JsonValue) -> (r:
        CodexRuntimeSettings)
        ensures
            r.approval_policy@ == self@.codex.approval_policy,
            r.thread_sandbox@ == self@.codex.thread_sandbox,
            r.turn_sandbox_policy == turn_sandbox_policy,
    {
        CodexRuntimeSettings {
            approval_policy: self.codex.approval_policy.clone(),
            thread_sandbox: self.codex.thread_sandbox.clone(),
            turn_sandbox_policy,
        }
    }
}

/// The policy that lets a turn write to a workspace, by what came of finding the
/// canonical form of its path.
pub fn turn_sandbox_policy_at(canonical: Result<String, PathSafetyError>) -> (r: Result<
    JsonValue,
    ConfigError,
>)
    ensures
        match canonical {
            Ok(path) => r matches Ok(policy) && policy@ == write_policy(path@),
            Err(failure) => r matches Err(error) && error@ == "unsafe turn sandbox policy: "@
                + path_failure(failure@.0, failure@.1),
        },
{
    match canonical {
        Ok(path) => Ok(default_turn_sandbox_policy(path.as_str())),
        Err(failure) => {
            let message = "unsafe turn sandbox policy: ".to_string().concat(
                failure.message().as_str(),
            );
            Err(ConfigError::invalid_workflow(message.as_str()))
        },
    }
}

impl Clone for ServiceConfig {
    fn clone(&self) -> (r: ServiceConfig)
        ensures
            r@ == self@,
    {
        ServiceConfig {
            tracker: self.tracker.clone(),
            polling: self.polling,
            workspace: self.workspace.clone(),
            worker: self.worker.clone(),
            agent: self.agent.clone(),
            codex: self.codex.clone(),
            hooks: self.hooks.clone(),
            observability: self.observability,
            server: self.server.clone(),
        }
    }
}

// ---------------------------------------------------------------------------
// Laws
// ---------------------------------------------------------------------------

/// Whether all limits and times of a configuration that must be positive are.
pub open spec fn all_positive(config: ServiceModel) -> bool {
    &&& config.polling.interval_ms > 0
    &&& config.worker.max_concurrent_agents_per_host != Some(0usize)
    &&& config.agent.max_concurrent_agents > 0
    &&& config.agent.max_turns > 0
    &&& config.agent.max_retry_backoff_ms > 0
    &&& forall|state: Seq<char>| #[trigger] limit_for_state(config.agent, state) > 0
    &&& config.codex.turn_timeout_ms > 0
    &&& config.codex.read_timeout_ms > 0
    &&& config.hooks.timeout_ms > 0
    &&& config.observability.refresh_ms > 0
    &&& config.observability.render_interval_ms > 0
}

proof fn lemma_limits_positive(raw: Map<Seq<char>, usize>, keys: Seq<Seq<char>>)
    ensures
        state_limits(raw, keys) matches Ok(limits) ==> forall|state: Seq<char>| #[trigger]
            limits.contains_key(state) ==> limits[state] > 0 && state.len() > 0,
    decreases keys.len(),
{
    if keys.len() > 0 {
        lemma_limits_positive(raw, keys.drop_last());
    }
}

/// Every configuration that is accepted has positive limits and times.
pub proof fn lemma_config_is_positive(raw: RawServiceConfig, env: Environment)
    ensures
        service_of(raw, env) matches Ok(config) ==> all_positive(config),
{
    match raw.agent {
        Some(agent) => match agent.max_concurrent_agents_by_state {
            Some(map) => {
                lemma_limits_positive(map@, sorted_keys(map@.dom()));
            },
            None => {
                lemma_limits_positive(Map::empty(), sorted_keys(Map::<Seq<char>, usize>::empty().dom()));
            },
        },
        None => {},
    }
}

/// Every configuration that is accepted names a command for the agent.
pub proof fn lemma_config_has_command(raw: RawServiceConfig, env: Environment)
    ensures
        service_of(raw, env) matches Ok(config) ==> !is_blank(config.codex.command),
{
    reveal_strlit("codex app-server");
    let usual = "codex app-server"@;
    assert(usual[0] == 'c');
    assert(usual.last() == 'r');
    assert(trim(usual) == usual);
    match raw.codex {
        Some(codex) => {
            match opt_text(codex.command) {
                Some(text) => {
                    crate::text::lemma_trim_idempotent(text);
                },
                None => {},
            }
        },
        None => {},
    }
}

/// The limit of a state does not depend on the case of letters in its name or
/// on white space around it.
pub proof fn lemma_limit_by_normal_name(agent: AgentModel, state: Seq<char>)
    ensures
        limit_for_state(agent, normal_state(state)) == limit_for_state(agent, state),
{
    crate::domain::lemma_normal_state_idempotent(state);
}

// ---------------------------------------------------------------------------
// Laws on settings
// ---------------------------------------------------------------------------

/// A setting counts without its outer spaces, and a blank one as none; a list keeps
/// those that count, in order, and a list of none counts as none.
pub proof fn lemma_blank_settings_do_not_count(text: Seq<char>, values: Seq<Seq<char>>)
    ensures
        filled(None) is None,
        trim(text).len() == 0 ==> filled(Some(text)) is None,
        trim(text).len() > 0 ==> filled(Some(text)) == Some(trim(text)),
        filled_list(Seq::empty()).len() == 0,
        trim(text).len() == 0 ==> filled_list(values.push(text)) == filled_list(values),
        trim(text).len() > 0 ==> filled_list(values.push(text)) == filled_list(values).push(
            trim(text),
        ),
        filled_list_or_none(None) is None,
        filled_list(values).len() == 0 ==> filled_list_or_none(Some(values)) is None,
        filled_list(values).len() > 0 ==> filled_list_or_none(Some(values)) == Some(
            filled_list(values),
        ),
{
    assert(values.push(text).drop_last() =~= values);
}

/// A dollar sign and the name of a variable stand for the value of the variable, where
/// it has one that is not blank; any other text stands for itself. Outer spaces do not
/// count, and a blank text stands for nothing.
pub proof fn lemma_tokens_stand_for_variables(name: Seq<char>, text: Seq<char>, env: Environment)
    ensures
        is_env_name(name) ==> {
            let token = seq!['$'] + name;
            match env_value(env, name) {
                Some(value) => if trim(value).len() > 0 {
                    env_token(token, env) == Some(trim(value))
                } else {
                    env_token(token, env) is None
                },
                None => env_token(token, env) is None,
            }
        },
        trim(text).len() == 0 ==> env_token(text, env) is None,
        trim(text).len() > 0 && trim(text)[0] != '$' ==> env_token(text, env) == Some(trim(text)),
        trim(text).len() > 0 && !is_env_name(trim(text).drop_first()) ==> env_token(text, env)
            == Some(trim(text)),
        env_token(trim(text), env) == env_token(text, env),
{
    lemma_trim_idempotent(text);
    if is_env_name(name) {
        let token = seq!['$'] + name;
        assert(token.drop_first() =~= name);
        assert(token.last() == name.last());
        assert(!is_space(token[0]));
        let c = name.last();
        assert(name[name.len() - 1] == c);
        assert(!is_space(c));
        assert(trim_start(token) == token);
        assert(trim_end(token) == token);
    }
}

/// The name of a variable is not empty, does not begin with a digit, and holds only
/// letters, digits and underscores.
pub proof fn lemma_names_of_variables(name: Seq<char>)
    ensures
        is_env_name(name) <==> name.len() > 0 && !('0' <= name[0] <= '9') && forall|i: int|
            0 <= i < name.len() ==> ('a' <= #[trigger] name[i] <= 'z') || ('A' <= name[i] <= 'Z')
                || ('0' <= name[i] <= '9') || name[i] == '_',
{
}

/// A setting of its own comes before the variable for it, which counts as it is where
/// it is not blank.
pub proof fn lemma_own_setting_comes_first(
    raw: Option<Seq<char>>,
    env: Environment,
    name: Seq<char>,
)
    ensures
        raw is Some && env_token(raw->0, env) is Some ==> setting_or_env(raw, env, name)
            == env_token(raw->0, env),
        raw is None || env_token(raw->0, env) is None ==> match env_value(env, name) {
            Some(value) => if trim(value).len() > 0 {
                setting_or_env(raw, env, name) == Some(value)
            } else {
                setting_or_env(raw, env, name) is None
            },
            None => setting_or_env(raw, env, name) is None,
        },
{
}

/// A tilde stands for the home directory, at the front of a path or alone, where that
/// is known; other paths stay as they are.
pub proof fn lemma_tilde_is_home(text: Seq<char>, env: Environment, home: Seq<char>)
    requires
        env_token(text, env) is None || env_token(text, env) == Some(text),
    ensures
        env_value(env, "HOME"@) == Some(home) && text == "~"@ ==> local_path(text, env) == home,
        env_value(env, "HOME"@) == Some(home) && text.len() >= 2 && text[0] == '~' && text[1] == '/'
            ==> local_path(text, env) == join_path(home, text.skip(2)),
        text.len() > 0 && text[0] != '~' ==> local_path(text, env) == text,
        env_value(env, "HOME"@) is None ==> local_path(text, env) == text,
{
    reveal_strlit("~/");
    reveal_strlit("~");
    let front = "~/"@;
    if text.len() >= 2 && text[0] == '~' && text[1] == '/' {
        assert(front =~= text.subrange(0, 2));
        assert(front.is_prefix_of(text));
    }
    if text.len() > 0 && text[0] != '~' {
        if front.is_prefix_of(text) {
            assert(text.subrange(0, 2)[0] == front[0]);
        }
        assert(text[0] != "~"@[0]);
    }
    if text == "~"@ {
        assert(!front.is_prefix_of(text));
    }
}

/// A path that is not given is the usual one.
pub proof fn lemma_missing_path_is_the_usual_one(
    raw: Option<Seq<char>>,
    usual: Seq<char>,
    env: Environment,
)
    ensures
        raw is None || trim(raw->0).len() == 0 ==> path_value(raw, usual, env) == usual,
        raw is Some && trim(raw->0).len() > 0 ==> path_value(raw, usual, env) == local_path(
            trim(raw->0),
            env,
        ),
{
}

/// What holds where nothing is set.
pub proof fn lemma_usual_settings(env: Environment)
    ensures
        ({
            let usual = default_service(env);
            &&& usual.tracker.kind == Some("linear"@)
            &&& usual.tracker.endpoint == "https://api.linear.app/graphql"@
            &&& usual.tracker.api_key == setting_or_env(None, env, "LINEAR_API_KEY"@)
            &&& usual.tracker.assignee == setting_or_env(None, env, "LINEAR_ASSIGNEE"@)
            &&& usual.tracker.project_slug is None
            &&& usual.tracker.active_states == seq!["Todo"@, "In Progress"@]
            &&& usual.tracker.terminal_states == seq![
                "Closed"@,
                "Cancelled"@,
                "Canceled"@,
                "Duplicate"@,
                "Done"@,
            ]
            &&& usual.polling.interval_ms == 30_000
            &&& usual.workspace == join_path(env.temp_dir@, "symphony_workspaces"@)
            &&& usual.worker.ssh_hosts.len() == 0
            &&& usual.worker.max_concurrent_agents_per_host is None
            &&& usual.agent.max_concurrent_agents == 10
            &&& usual.agent.max_turns == 20
            &&& usual.agent.max_retry_backoff_ms == 300_000
            &&& usual.agent.max_concurrent_agents_by_state == Map::<Seq<char>, usize>::empty()
            &&& usual.codex.command == "codex app-server"@
            &&& usual.codex.thread_sandbox == "workspace-write"@
            &&& usual.codex.turn_sandbox_policy is None
            &&& usual.codex.turn_timeout_ms == 3_600_000
            &&& usual.codex.read_timeout_ms == 5_000
            &&& usual.codex.stall_timeout_ms == 300_000
            &&& usual.hooks.after_create is None
            &&& usual.hooks.before_run is None
            &&& usual.hooks.after_run is None
            &&& usual.hooks.before_remove is None
            &&& usual.hooks.timeout_ms == 60_000
            &&& usual.observability.dashboard_enabled
            &&& usual.observability.refresh_ms == 1_000
            &&& usual.observability.render_interval_ms == 16
            &&& usual.server.port is None
            &&& usual.server.host == "127.0.0.1"@
        }),
{
}

/// The policies that hold where none is set: all requests for approval are rejected,
/// and only the workspace can be written to, without the network.
pub proof fn lemma_usual_policies(root: Seq<char>)
    ensures
        opt_json_get(json_get(reject_all(), "reject"@), "sandbox_approval"@) == Some(
            Json::Bool(true),
        ),
        opt_json_get(json_get(reject_all(), "reject"@), "rules"@) == Some(Json::Bool(true)),
        opt_json_get(json_get(reject_all(), "reject"@), "mcp_elicitations"@) == Some(
            Json::Bool(true),
        ),
        json_get(write_policy(root), "type"@) == Some(Json::Text("workspaceWrite"@)),
        json_get(write_policy(root), "writableRoots"@) == Some(
            Json::Array(seq![Json::Text(root)]),
        ),
        json_get(write_policy(root), "networkAccess"@) == Some(Json::Bool(false)),
        json_get(write_policy(root), "excludeTmpdirEnvVar"@) == Some(Json::Bool(false)),
        json_get(write_policy(root), "excludeSlashTmp"@) == Some(Json::Bool(false)),
        opt_json_get(json_get(write_policy(root), "readOnlyAccess"@), "type"@) == Some(
            Json::Text("fullAccess"@),
        ),
{
    reveal_strlit("sandbox_approval");
    reveal_strlit("rules");
    reveal_strlit("mcp_elicitations");
    assert("sandbox_approval"@.len() != "rules"@.len());
    assert("sandbox_approval"@[0] != "mcp_elicitations"@[0]);
    assert("rules"@.len() != "mcp_elicitations"@.len());
    reveal_strlit("type");
    reveal_strlit("writableRoots");
    reveal_strlit("readOnlyAccess");
    reveal_strlit("networkAccess");
    reveal_strlit("excludeTmpdirEnvVar");
    reveal_strlit("excludeSlashTmp");
    assert("type"@.len() != "writableRoots"@.len());
    assert("type"@.len() != "readOnlyAccess"@.len());
    assert("type"@.len() != "networkAccess"@.len());
    assert("type"@.len() != "excludeTmpdirEnvVar"@.len());
    assert("type"@.len() != "excludeSlashTmp"@.len());
    assert("writableRoots"@.len() != "readOnlyAccess"@.len());
    assert("writableRoots"@[0] != "networkAccess"@[0]);
    assert("writableRoots"@.len() != "excludeTmpdirEnvVar"@.len());
    assert("writableRoots"@.len() != "excludeSlashTmp"@.len());
    assert("readOnlyAccess"@.len() != "networkAccess"@.len());
    assert("readOnlyAccess"@.len() != "excludeTmpdirEnvVar"@.len());
    assert("readOnlyAccess"@.len() != "excludeSlashTmp"@.len());
    assert("networkAccess"@.len() != "excludeTmpdirEnvVar"@.len());
    assert("networkAccess"@.len() != "excludeSlashTmp"@.len());
    assert("excludeTmpdirEnvVar"@.len() != "excludeSlashTmp"@.len());
}

/// The settings of the tracker, each from the field of its own name.
pub proof fn lemma_tracker_settings(raw: RawTrackerConfig, env: Environment)
    ensures
        ({
            let tracker = tracker_of(raw, env);
            &&& tracker.kind == Some(value_or(opt_text(raw.kind), "linear"@))
            &&& raw.kind matches Some(kind) ==> tracker.kind == Some(kind@)
            &&& raw.endpoint matches Some(endpoint) ==> tracker.endpoint == endpoint@
            &&& raw.endpoint is None ==> tracker.endpoint == "https://api.linear.app/graphql"@
            &&& tracker.api_key == setting_or_env(opt_text(raw.api_key), env, "LINEAR_API_KEY"@)
            &&& tracker.assignee == setting_or_env(opt_text(raw.assignee), env, "LINEAR_ASSIGNEE"@)
            &&& raw.project_slug is None ==> tracker.project_slug is None
            &&& raw.project_slug matches Some(slug) ==> tracker.project_slug == filled(Some(slug@))
            &&& raw.active_states matches Some(states) ==> filled_list(texts(states@)).len() > 0
                ==> tracker.active_states == filled_list(texts(states@))
            &&& raw.active_states is None ==> tracker.active_states == seq![
                "Todo"@,
                "In Progress"@,
            ]
            &&& raw.terminal_states matches Some(states) ==> filled_list(texts(states@)).len() > 0
                ==> tracker.terminal_states == filled_list(texts(states@))
            &&& raw.terminal_states is None ==> tracker.terminal_states == seq![
                "Closed"@,
                "Cancelled"@,
                "Canceled"@,
                "Duplicate"@,
                "Done"@,
            ]
        }),
{
}

/// Each hook has the command that is set under its own name: setting another one there
/// changes the command of that hook, and nothing else.
pub proof fn lemma_hook_settings(raw: RawHooksConfig, command: Option<String>)
    ensures
        hooks_of(raw) matches Ok(hooks) ==> {
            &&& hooks_of(RawHooksConfig { after_create: command, ..raw }) == Ok::<
                HooksModel,
                Seq<char>,
            >(HooksModel { after_create: filled(opt_text(command)), ..hooks })
            &&& hooks_of(RawHooksConfig { before_run: command, ..raw }) == Ok::<
                HooksModel,
                Seq<char>,
            >(HooksModel { before_run: filled(opt_text(command)), ..hooks })
            &&& hooks_of(RawHooksConfig { after_run: command, ..raw }) == Ok::<
                HooksModel,
                Seq<char>,
            >(HooksModel { after_run: filled(opt_text(command)), ..hooks })
            &&& hooks_of(RawHooksConfig { before_remove: command, ..raw }) == Ok::<
                HooksModel,
                Seq<char>,
            >(HooksModel { before_remove: filled(opt_text(command)), ..hooks })
            &&& raw.timeout_ms is None ==> hooks.timeout_ms == 60_000
            &&& raw.timeout_ms is Some ==> Some(hooks.timeout_ms) == raw.timeout_ms
        },
        hooks_of(raw) is Err <==> raw.timeout_ms == Some(0u64),
        hooks_of(raw) matches Err(message) ==> message
            == "hooks.timeout_ms must be greater than 0"@,
{
}

/// The settings of the agent that runs the work, each from the field of its own name.
pub proof fn lemma_codex_settings(raw: RawCodexConfig)
    ensures
        codex_of(raw) is Err <==> raw.turn_timeout_ms == Some(0u64) || raw.read_timeout_ms == Some(
            0u64,
        ),
        raw.turn_timeout_ms == Some(0u64) ==> codex_of(raw) == Err::<CodexModel, Seq<char>>(
            "codex.turn_timeout_ms must be greater than 0"@,
        ),
        raw.turn_timeout_ms != Some(0u64) && raw.read_timeout_ms == Some(0u64) ==> codex_of(raw)
            == Err::<CodexModel, Seq<char>>("codex.read_timeout_ms must be greater than 0"@),
        codex_of(raw) matches Ok(codex) ==> {
            &&& filled(opt_text(raw.command)) matches Some(command) ==> codex.command == command
            &&& filled(opt_text(raw.command)) is None ==> codex.command == "codex app-server"@
            &&& raw.approval_policy matches Some(policy) ==> codex.approval_policy == policy@
            &&& raw.approval_policy is None ==> codex.approval_policy == reject_all()
            &&& filled(opt_text(raw.thread_sandbox)) matches Some(sandbox) ==> codex.thread_sandbox
                == sandbox
            &&& filled(opt_text(raw.thread_sandbox)) is None ==> codex.thread_sandbox
                == "workspace-write"@
            &&& raw.turn_sandbox_policy is None <==> codex.turn_sandbox_policy is None
            &&& raw.turn_sandbox_policy matches Some(policy) ==> codex.turn_sandbox_policy == Some(
                policy@,
            )
            &&& raw.turn_timeout_ms is None ==> codex.turn_timeout_ms == 3_600_000
            &&& raw.turn_timeout_ms is Some ==> Some(codex.turn_timeout_ms) == raw.turn_timeout_ms
            &&& raw.read_timeout_ms is None ==> codex.read_timeout_ms == 5_000
            &&& raw.read_timeout_ms is Some ==> Some(codex.read_timeout_ms) == raw.read_timeout_ms
            &&& raw.stall_timeout_ms is None ==> codex.stall_timeout_ms == 300_000
            &&& raw.stall_timeout_ms is Some ==> Some(codex.stall_timeout_ms)
                == raw.stall_timeout_ms
        },
{
}

/// The limits of the work, each from the field of its own name; none of them can be 0.
pub proof fn lemma_agent_settings(raw: RawAgentConfig)
    ensures
        raw.max_concurrent_agents == Some(0usize) ==> agent_of(raw) == Err::<AgentModel, Seq<char>>(
            "agent.max_concurrent_agents must be greater than 0"@,
        ),
        raw.max_concurrent_agents != Some(0usize) && raw.max_turns == Some(0u32) ==> agent_of(raw)
            == Err::<AgentModel, Seq<char>>("agent.max_turns must be greater than 0"@),
        raw.max_concurrent_agents != Some(0usize) && raw.max_turns != Some(0u32)
            && raw.max_retry_backoff_ms == Some(0u64) ==> agent_of(raw) == Err::<
            AgentModel,
            Seq<char>,
        >("agent.max_retry_backoff_ms must be greater than 0"@),
        raw.max_concurrent_agents != Some(0usize) && raw.max_turns != Some(0u32)
            && raw.max_retry_backoff_ms != Some(0u64) && raw.max_concurrent_agents_by_state is None
            ==> agent_of(raw) is Ok,
        agent_of(raw) matches Ok(agent) ==> {
            &&& raw.max_concurrent_agents is None ==> agent.max_concurrent_agents == 10
            &&& raw.max_concurrent_agents is Some ==> Some(agent.max_concurrent_agents)
                == raw.max_concurrent_agents
            &&& raw.max_turns is None ==> agent.max_turns == 20
            &&& raw.max_turns is Some ==> Some(agent.max_turns) == raw.max_turns
            &&& raw.max_retry_backoff_ms is None ==> agent.max_retry_backoff_ms == 300_000
            &&& raw.max_retry_backoff_ms is Some ==> Some(agent.max_retry_backoff_ms)
                == raw.max_retry_backoff_ms
            &&& raw.max_concurrent_agents_by_state is None
                ==> agent.max_concurrent_agents_by_state == Map::<Seq<char>, usize>::empty()
        },
{
    let none = Map::<Seq<char>, usize>::empty();
    assert(none.dom() =~= Set::empty());
    lemma_sorted_keys_lists(none.dom());
    let keys = sorted_keys(none.dom());
    assert(keys.len() == 0) by {
        if keys.len() > 0 {
            assert(keys.contains(keys[0]));
            assert(none.dom().contains(keys[0]));
        }
    }
}

/// The limits by state count under the plain name of the state, and the last one given
/// for a state counts; a blank state, or a limit of 0, is an error.
pub proof fn lemma_state_limits_are_kept(
    raw: Map<Seq<char>, usize>,
    keys: Seq<Seq<char>>,
    key: Seq<char>,
)
    ensures
        state_limits(raw, Seq::empty()) == Ok::<Map<Seq<char>, usize>, Seq<char>>(Map::empty()),
        state_limits(raw, keys) matches Ok(limits) ==> {
            let name = ascii_lower(trim(key));
            if name.len() == 0 {
                state_limits(raw, keys.push(key)) == Err::<Map<Seq<char>, usize>, Seq<char>>(
                    "agent.max_concurrent_agents_by_state keys must not be blank"@,
                )
            } else if raw[key] == 0 {
                state_limits(raw, keys.push(key)) == Err::<Map<Seq<char>, usize>, Seq<char>>(
                    "agent.max_concurrent_agents_by_state values must be positive integers"@,
                )
            } else {
                state_limits(raw, keys.push(key)) == Ok::<Map<Seq<char>, usize>, Seq<char>>(
                    limits.insert(name, raw[key]),
                )
            }
        },
        state_limits(raw, keys) is Err ==> state_limits(raw, keys.push(key)) == state_limits(
            raw,
            keys,
        ),
{
    assert(keys.push(key).drop_last() =~= keys);
}

/// The other settings, each from the field of its own name.
pub proof fn lemma_other_settings(
    polling: RawPollingConfig,
    worker: RawWorkerConfig,
    observability: RawObservabilityConfig,
    server: RawServerConfig,
)
    ensures
        polling.interval_ms == Some(0u64) <==> polling_of(polling) is Err,
        polling_of(polling) matches Err(message) ==> message
            == "polling.interval_ms must be greater than 0"@,
        polling_of(polling) matches Ok(found) ==> {
            &&& polling.interval_ms is None ==> found.interval_ms == 30_000
            &&& polling.interval_ms is Some ==> Some(found.interval_ms) == polling.interval_ms
        },
        worker.max_concurrent_agents_per_host == Some(0usize) <==> worker_of(worker) is Err,
        worker_of(worker) matches Err(message) ==> message
            == "worker.max_concurrent_agents_per_host must be greater than 0"@,
        worker_of(worker) matches Ok(found) ==> {
            &&& found.max_concurrent_agents_per_host == worker.max_concurrent_agents_per_host
            &&& worker.ssh_hosts is None ==> found.ssh_hosts.len() == 0
            &&& worker.ssh_hosts matches Some(hosts) ==> found.ssh_hosts == filled_list(
                texts(hosts@),
            )
        },
        observability.refresh_ms == Some(0u64) || observability.render_interval_ms == Some(0u64)
            <==> observability_of(observability) is Err,
        observability_of(observability) matches Err(message) ==> message == if (
        observability.refresh_ms == Some(0u64)) {
            "observability.refresh_ms must be greater than 0"@
        } else {
            "observability.render_interval_ms must be greater than 0"@
        },
        observability_of(observability) matches Ok(found) ==> {
            &&& observability.dashboard_enabled is None ==> found.dashboard_enabled
            &&& observability.dashboard_enabled is Some ==> Some(found.dashboard_enabled)
                == observability.dashboard_enabled
            &&& observability.refresh_ms is None ==> found.refresh_ms == 1_000
            &&& observability.refresh_ms is Some ==> Some(found.refresh_ms)
                == observability.refresh_ms
            &&& observability.render_interval_ms is None ==> found.render_interval_ms == 16
            &&& observability.render_interval_ms is Some ==> Some(found.render_interval_ms)
                == observability.render_interval_ms
        },
        server_of(server).port == server.port,
        filled(opt_text(server.host)) is None ==> server_of(server).host == "127.0.0.1"@,
        filled(opt_text(server.host)) matches Some(host) ==> server_of(server).host == host,
{
}

/// Each section of the configuration comes from the section of its own name, and is
/// the usual one where that is missing. The first section with an error decides.
pub proof fn lemma_sections_come_from_their_own(raw: RawServiceConfig, env: Environment)
    ensures
        service_of(raw, env) matches Ok(config) ==> {
            let usual = default_service(env);
            &&& raw.tracker matches Some(own) ==> config.tracker == tracker_of(own, env)
            &&& raw.tracker is None ==> config.tracker == usual.tracker
            &&& raw.polling matches Some(own) ==> polling_of(own) == Ok::<PollingConfig, Seq<char>>(
                config.polling,
            )
            &&& raw.polling is None ==> config.polling == usual.polling
            &&& raw.workspace matches Some(own) ==> config.workspace == path_value(
                opt_text(own.root),
                usual.workspace,
                env,
            )
            &&& raw.workspace is None ==> config.workspace == usual.workspace
            &&& raw.worker matches Some(own) ==> worker_of(own) == Ok::<WorkerModel, Seq<char>>(
                config.worker,
            )
            &&& raw.worker is None ==> config.worker == usual.worker
            &&& raw.agent matches Some(own) ==> agent_of(own) == Ok::<AgentModel, Seq<char>>(
                config.agent,
            )
            &&& raw.agent is None ==> config.agent == usual.agent
            &&& raw.codex matches Some(own) ==> codex_of(own) == Ok::<CodexModel, Seq<char>>(
                config.codex,
            )
            &&& raw.codex is None ==> config.codex == usual.codex
            &&& raw.hooks matches Some(own) ==> hooks_of(own) == Ok::<HooksModel, Seq<char>>(
                config.hooks,
            )
            &&& raw.hooks is None ==> config.hooks == usual.hooks
            &&& raw.observability matches Some(own) ==> observability_of(own) == Ok::<
                ObservabilityConfig,
                Seq<char>,
            >(config.observability)
            &&& raw.observability is None ==> config.observability == usual.observability
            &&& raw.server matches Some(own) ==> config.server == server_of(own)
            &&& raw.server is None ==> config.server == usual.server
        },
        service_of(raw, env) is Err <==> (raw.polling matches Some(own) && polling_of(own) is Err)
            || (raw.worker matches Some(own) && worker_of(own) is Err) || (raw.agent matches Some(
            own,
        ) && agent_of(own) is Err) || (raw.codex matches Some(own) && codex_of(own) is Err) || (
        raw.hooks matches Some(own) && hooks_of(own) is Err) || (raw.observability matches Some(own)
            && observability_of(own) is Err),
{
}

/// What keeps work from being dispatched, each told of exactly where it is so: no
/// tracker, one that is not known, Linear without a key or a project, no command.
pub proof fn lemma_gaps_are_told(config: ServiceModel, kind: Seq<char>)
    ensures
        ({
            let gaps = config_gaps(config);
            let linear = config.tracker.kind == Some("linear"@);
            &&& gaps.contains(ConfigGap::MissingTrackerKind) <==> config.tracker.kind is None
            &&& gaps.contains(ConfigGap::UnsupportedTrackerKind(kind)) <==> config.tracker.kind
                == Some(kind) && kind != "linear"@ && kind != "memory"@
            &&& gaps.contains(ConfigGap::MissingTrackerApiKey) <==> linear
                && config.tracker.api_key is None
            &&& gaps.contains(ConfigGap::MissingTrackerProjectSlug) <==> linear && (
            config.tracker.project_slug is None || trim(config.tracker.project_slug->0).len() == 0)
            &&& gaps.contains(ConfigGap::MissingCodexCommand) <==> trim(config.codex.command).len()
                == 0
        }),
{
    let gaps = config_gaps(config);
    let linear = config.tracker.kind == Some("linear"@);
    let first: Seq<ConfigGap> = match config.tracker.kind {
        Some(own) => if own == "linear"@ || own == "memory"@ {
            Seq::empty()
        } else {
            seq![ConfigGap::UnsupportedTrackerKind(own)]
        },
        None => seq![ConfigGap::MissingTrackerKind],
    };
    let second: Seq<ConfigGap> = if linear && config.tracker.api_key is None {
        seq![ConfigGap::MissingTrackerApiKey]
    } else {
        Seq::empty()
    };
    let third: Seq<ConfigGap> = if linear && filled(config.tracker.project_slug) is None {
        seq![ConfigGap::MissingTrackerProjectSlug]
    } else {
        Seq::empty()
    };
    let fourth: Seq<ConfigGap> = if is_blank(config.codex.command) {
        seq![ConfigGap::MissingCodexCommand]
    } else {
        Seq::empty()
    };
    assert(gaps == first + second + third + fourth);
    assert forall|gap: ConfigGap| #[trigger] gaps.contains(gap) <==> first.contains(gap)
        || second.contains(gap) || third.contains(gap) || fourth.contains(gap) by {
        let a = first.len() as int;
        let b = a + second.len();
        let c = b + third.len();
        if gaps.contains(gap) {
            let i = choose|i: int| 0 <= i < gaps.len() && gaps[i] == gap;
            if i < a {
                assert(first[i] == gap);
            } else if i < b {
                assert(second[i - a] == gap);
            } else if i < c {
                assert(third[i - b] == gap);
            } else {
                assert(fourth[i - c] == gap);
            }
        }
        if first.contains(gap) {
            let i = choose|i: int| 0 <= i < first.len() && first[i] == gap;
            assert(gaps[i] == gap);
        }
        if second.contains(gap) {
            let i = choose|i: int| 0 <= i < second.len() && second[i] == gap;
            assert(gaps[a + i] == gap);
        }
        if third.contains(gap) {
            let i = choose|i: int| 0 <= i < third.len() && third[i] == gap;
            assert(gaps[b + i] == gap);
        }
        if fourth.contains(gap) {
            let i = choose|i: int| 0 <= i < fourth.len() && fourth[i] == gap;
            assert(gaps[c + i] == gap);
        }
    }
    assert(config.tracker.kind is None ==> first[0] == ConfigGap::MissingTrackerKind);
    assert(config.tracker.kind == Some(kind) && kind != "linear"@ && kind != "memory"@ ==> first[0]
        == ConfigGap::UnsupportedTrackerKind(kind));
    assert(second.len() > 0 ==> second[0] == ConfigGap::MissingTrackerApiKey);
    assert(third.len() > 0 ==> third[0] == ConfigGap::MissingTrackerProjectSlug);
    assert(fourth.len() > 0 ==> fourth[0] == ConfigGap::MissingCodexCommand);
}

/// What is missing is told of in its own words.
pub proof fn lemma_gap_words(kind: Seq<char>)
    ensures
        gap_message(ConfigGap::MissingTrackerKind) == "tracker.kind is required"@,
        gap_message(ConfigGap::UnsupportedTrackerKind(kind)) == "tracker.kind `"@ + kind
            + "` is not supported"@,
        gap_message(ConfigGap::MissingTrackerApiKey)
            == "tracker.api_key is missing after environment resolution"@,
        gap_message(ConfigGap::MissingTrackerProjectSlug)
            == "tracker.project_slug is required for Linear dispatch"@,
        gap_message(ConfigGap::MissingCodexCommand) == "codex.command must be non-empty"@,
{
}

/// The limit of a state is the one that is set for it, and where none is set, that of
/// all work: setting one for a state changes the limit of that state and of no other.
pub proof fn lemma_limit_of_a_state(
    agent: AgentModel,
    state: Seq<char>,
    other: Seq<char>,
    limit: usize,
)
    ensures
        ({
            let name = ascii_lower(trim(state));
            let changed = AgentModel {
                max_concurrent_agents_by_state: agent.max_concurrent_agents_by_state.insert(
                    name,
                    limit,
                ),
                ..agent
            };
            &&& limit_for_state(changed, state) == limit
            &&& ascii_lower(trim(other)) != name ==> limit_for_state(changed, other)
                == limit_for_state(agent, other)
            &&& !agent.max_concurrent_agents_by_state.contains_key(name) ==> limit_for_state(
                agent,
                state,
            ) == agent.max_concurrent_agents
        }),
{
}

/// A policy that is set holds everywhere. Otherwise a turn can write to its workspace,
/// or, where that is not known, to the directory of all workspaces: by its path on a
/// remote host, and by its canonical form on this one.
pub proof fn lemma_policy_of_a_turn(
    config: ServiceModel,
    workspace: Seq<char>,
    remote: bool,
    env: Environment,
)
    ensures
        config.codex.turn_sandbox_policy matches Some(policy) ==> policy_model(
            config,
            Some(workspace),
            remote,
            env,
        ) == PolicyModel::Ready(policy),
        config.codex.turn_sandbox_policy is None ==> {
            &&& policy_model(config, Some(workspace), true, env) == PolicyModel::Ready(
                write_policy(workspace),
            )
            &&& policy_model(config, Some(workspace), false, env) == PolicyModel::Canonicalize(
                workspace,
            )
            &&& policy_model(config, None, true, env) == PolicyModel::Ready(
                write_policy(local_path(config.workspace, env)),
            )
            &&& policy_model(config, None, false, env) == PolicyModel::Canonicalize(
                local_path(config.workspace, env),
            )
        },
{
}

} // verus!
