use symphony_rs::config::{
    default_workspace_root, expand_local_path, resolve_env_token, resolve_path_value,
    resolve_secret_setting, turn_sandbox_policy_at, valid_env_name, AgentConfig, CodexConfig,
    ConfigError, ConfigValidationError, HooksConfig, ObservabilityConfig, PolicyStep,
    PollingConfig, RawAgentConfig, RawCodexConfig, RawHooksConfig, RawObservabilityConfig,
    RawPollingConfig, RawServerConfig, RawServiceConfig, RawTrackerConfig, RawWorkerConfig,
    RawWorkspaceConfig, ServerConfig, ServiceConfig, TrackerConfig, WorkerConfig, WorkspaceConfig,
};
use symphony_rs::environment::Environment;
use symphony_rs::json::{json_text, text_value};
use symphony_rs::ordered::OrderedMap;
use symphony_rs::path_safety::PathSafetyError;

fn env() -> Environment {
    Environment::new("/tmp").with_var("HOME", "/home/me")
}

fn workflow_config_from_yaml(yaml: &str) -> RawServiceConfig {
    let value = serde_yaml::from_str::<serde_yaml::Value>(yaml).expect("yaml should parse");
    let mut limits: OrderedMap<usize> = OrderedMap::new();
    let given = value["agent"]["max_concurrent_agents_by_state"].as_mapping().expect("mapping");
    for (key, limit) in given {
        limits.insert(
            key.as_str().expect("text").to_string(),
            limit.as_u64().expect("number") as usize,
        );
    }
    RawServiceConfig {
        agent: Some(RawAgentConfig {
            max_concurrent_agents: None,
            max_turns: None,
            max_retry_backoff_ms: None,
            max_concurrent_agents_by_state: Some(limits),
        }),
        ..RawServiceConfig::default()
    }
}

#[test]
fn parses_and_normalizes_state_limits() {
    let config = ServiceConfig::from_workflow_config(
        Ok(workflow_config_from_yaml(
            r#"
agent:
  max_concurrent_agents_by_state:
    In Progress: 2
    Todo: 1
"#,
        )),
        &env(),
    )
    .expect("config should parse");

    assert_eq!(config.max_concurrent_agents_for_state("In Progress"), 2);
    assert_eq!(config.max_concurrent_agents_for_state("todo"), 1);
    assert_eq!(config.max_concurrent_agents_for_state("Review"), 10);
}

#[test]
fn expands_workspace_root_env_tokens() {
    let value = resolve_path_value(Some("~/demo"), &default_workspace_root(&env()), &env());
    assert!(value.ends_with("/demo"));
    assert_eq!(value, "/home/me/demo");
}

#[test]
fn validation_reports_missing_linear_settings() {
    let mut config = ServiceConfig::default(&env());
    config.tracker.api_key = None;
    config.tracker.project_slug = None;
    let errors = config.validate_for_dispatch();

    assert_eq!(errors.len(), 2);
    assert!(!config.dispatch_ready());
}

#[test]
fn every_gap_has_its_message() {
    let mut config = ServiceConfig::default(&env());
    config.tracker.kind = Some("jira".to_string());
    config.codex.command = "  ".to_string();
    let messages: Vec<String> = config.validate_for_dispatch().iter().map(|e| e.message()).collect();
    assert_eq!(messages, vec!["tracker.kind `jira` is not supported", "codex.command must be non-empty"]);
    config.tracker.kind = None;
    assert_eq!(config.validate_for_dispatch()[0].message(), "tracker.kind is required");
    config.tracker.kind = Some("linear".to_string());
    config.tracker.project_slug = Some(" ".to_string());
    let errors = config.validate_for_dispatch();
    assert_eq!(
        errors,
        vec![
            ConfigValidationError::MissingTrackerApiKey,
            ConfigValidationError::MissingTrackerProjectSlug,
            ConfigValidationError::MissingCodexCommand,
        ]
    );
    assert_eq!(errors[0].message(), "tracker.api_key is missing after environment resolution");
    assert_eq!(errors[1].message(), "tracker.project_slug is required for Linear dispatch");
    config.tracker.kind = Some("memory".to_string());
    config.codex.command = "codex".to_string();
    assert!(config.dispatch_ready());
}

#[test]
fn defaults_stand_where_nothing_is_said() {
    let surroundings = env().with_var("LINEAR_API_KEY", "key").with_var("LINEAR_ASSIGNEE", " ");
    let config = ServiceConfig::from_workflow_config(Ok(RawServiceConfig::default()), &surroundings)
        .expect("config");
    assert_eq!(config, ServiceConfig::default(&surroundings));
    assert_eq!(config.tracker.api_key, Some("key".to_string()));
    assert_eq!(config.tracker.assignee, None);
    assert_eq!(config.tracker.endpoint, "https://api.linear.app/graphql");
    assert_eq!(config.tracker.active_states, vec!["Todo", "In Progress"]);
    assert_eq!(
        config.tracker.terminal_states,
        vec!["Closed", "Cancelled", "Canceled", "Duplicate", "Done"]
    );
    assert_eq!(config.polling.interval_ms, 30_000);
    assert_eq!(config.workspace.root, "/tmp/symphony_workspaces");
    assert_eq!(config.agent.max_turns, 20);
    assert_eq!(config.agent.max_retry_backoff_ms, 300_000);
    assert_eq!(config.codex.command, "codex app-server");
    assert_eq!(config.codex.thread_sandbox, "workspace-write");
    assert_eq!(config.codex.turn_timeout_ms, 3_600_000);
    assert_eq!(config.codex.read_timeout_ms, 5_000);
    assert_eq!(config.codex.stall_timeout_ms, 300_000);
    assert_eq!(
        json_text(&config.codex.approval_policy),
        "{\"reject\":{\"mcp_elicitations\":true,\"rules\":true,\"sandbox_approval\":true}}"
    );
    assert_eq!(config.hooks, HooksConfig::default());
    assert_eq!(config.hooks.timeout_ms, 60_000);
    assert_eq!(config.observability.render_interval_ms, 16);
    assert_eq!(config.server.host, "127.0.0.1");
    assert_eq!(config.clone(), config);
}

#[test]
fn a_decoding_error_is_passed_on() {
    let error = ServiceConfig::from_workflow_config(Err("bad yaml".to_string()), &env()).expect_err("error");
    assert_eq!(error.message(), "bad yaml");
    assert_eq!(error, ConfigError::invalid_workflow("bad yaml"));
}

#[test]
fn settings_are_trimmed_and_resolved() {
    let surroundings = env().with_var("KEY", " secret ").with_var("EMPTY", " ");
    assert_eq!(resolve_env_token("  ", &surroundings), None);
    assert_eq!(resolve_env_token(" plain ", &surroundings), Some("plain".to_string()));
    assert_eq!(resolve_env_token(" $KEY ", &surroundings), Some("secret".to_string()));
    assert_eq!(resolve_secret_setting("$EMPTY", &surroundings), None);
    assert_eq!(resolve_secret_setting("$MISSING", &surroundings), None);
    assert_eq!(resolve_env_token("$1X", &surroundings), Some("$1X".to_string()));
    assert_eq!(resolve_env_token("$A-B", &surroundings), Some("$A-B".to_string()));
    assert!(valid_env_name("_A1"));
    assert!(!valid_env_name("1A"));
    assert!(!valid_env_name(""));
}

#[test]
fn the_home_directory_stands_for_a_tilde() {
    assert_eq!(expand_local_path("~", &env()), "/home/me");
    assert_eq!(expand_local_path("~/a/b", &env()), "/home/me/a/b");
    assert_eq!(expand_local_path("~//a", &env()), "/a");
    assert_eq!(expand_local_path("~x", &env()), "~x");
    assert_eq!(expand_local_path("~/a", &Environment::new("/tmp")), "~/a");
    assert_eq!(expand_local_path("$HOME", &env()), "/home/me");
    assert_eq!(expand_local_path("$NONE", &env()), "$NONE");
    assert_eq!(resolve_path_value(Some("  "), "/d", &env()), "/d");
    assert_eq!(resolve_path_value(None, "/d", &env()), "/d");
}

#[test]
fn tracker_sections_are_read() {
    let surroundings = env().with_var("LINEAR_API_KEY", "fallback");
    let raw = RawTrackerConfig {
        kind: None,
        endpoint: Some("https://example".to_string()),
        api_key: Some("$NOT_SET".to_string()),
        project_slug: Some(" slug ".to_string()),
        assignee: Some(" me ".to_string()),
        active_states: Some(vec![" Todo ".to_string(), " ".to_string()]),
        terminal_states: Some(vec![" ".to_string()]),
    };
    let tracker = TrackerConfig::from_raw(raw, &surroundings).expect("tracker");
    assert_eq!(tracker.kind, Some("linear".to_string()));
    assert_eq!(tracker.endpoint, "https://example");
    assert_eq!(tracker.api_key, Some("fallback".to_string()));
    assert_eq!(tracker.project_slug, Some("slug".to_string()));
    assert_eq!(tracker.assignee, Some("me".to_string()));
    assert_eq!(tracker.active_states, vec!["Todo"]);
    assert_eq!(tracker.terminal_states.len(), 5);
}

fn agent(limits: Vec<(&str, usize)>) -> RawAgentConfig {
    let mut map: OrderedMap<usize> = OrderedMap::new();
    for (key, value) in limits {
        map.insert(key.to_string(), value);
    }
    RawAgentConfig {
        max_concurrent_agents: None,
        max_turns: None,
        max_retry_backoff_ms: None,
        max_concurrent_agents_by_state: Some(map),
    }
}

#[test]
fn state_limits_are_checked_in_key_order() {
    let config = AgentConfig::from_raw(agent(vec![("TODO", 3), ("todo", 4)])).expect("limits");
    assert_eq!(config.max_concurrent_agents_by_state.get("todo"), Some(&4));
    assert_eq!(config.max_concurrent_agents_by_state.len(), 1);
    let error = AgentConfig::from_raw(agent(vec![("b", 0), (" ", 1)])).expect_err("blank first");
    assert_eq!(error.message(), "agent.max_concurrent_agents_by_state keys must not be blank");
    let error = AgentConfig::from_raw(agent(vec![("b", 0), ("c", 1)])).expect_err("zero");
    assert_eq!(
        error.message(),
        "agent.max_concurrent_agents_by_state values must be positive integers"
    );
}

#[test]
fn zero_is_refused_everywhere() {
    let messages = vec![
        PollingConfig::from_raw(RawPollingConfig { interval_ms: Some(0) }).expect_err("zero").message(),
        WorkerConfig::from_raw(RawWorkerConfig { ssh_hosts: None, max_concurrent_agents_per_host: Some(0) })
            .expect_err("zero")
            .message(),
        AgentConfig::from_raw(RawAgentConfig { max_concurrent_agents: Some(0), ..agent(vec![]) })
            .expect_err("zero")
            .message(),
        AgentConfig::from_raw(RawAgentConfig { max_turns: Some(0), ..agent(vec![]) })
            .expect_err("zero")
            .message(),
        AgentConfig::from_raw(RawAgentConfig { max_retry_backoff_ms: Some(0), ..agent(vec![]) })
            .expect_err("zero")
            .message(),
        HooksConfig::from_raw(RawHooksConfig {
            after_create: None,
            before_run: None,
            after_run: None,
            before_remove: None,
            timeout_ms: Some(0),
        })
        .expect_err("zero")
        .message(),
        ObservabilityConfig::from_raw(RawObservabilityConfig {
            dashboard_enabled: None,
            refresh_ms: Some(0),
            render_interval_ms: None,
        })
        .expect_err("zero")
        .message(),
        ObservabilityConfig::from_raw(RawObservabilityConfig {
            dashboard_enabled: None,
            refresh_ms: None,
            render_interval_ms: Some(0),
        })
        .expect_err("zero")
        .message(),
    ];
    assert_eq!(
        messages,
        vec![
            "polling.interval_ms must be greater than 0",
            "worker.max_concurrent_agents_per_host must be greater than 0",
            "agent.max_concurrent_agents must be greater than 0",
            "agent.max_turns must be greater than 0",
            "agent.max_retry_backoff_ms must be greater than 0",
            "hooks.timeout_ms must be greater than 0",
            "observability.refresh_ms must be greater than 0",
            "observability.render_interval_ms must be greater than 0",
        ]
    );
}

fn codex() -> RawCodexConfig {
    RawCodexConfig {
        command: Some(" run ".to_string()),
        approval_policy: Some(text_value("never")),
        thread_sandbox: Some(" ".to_string()),
        turn_sandbox_policy: None,
        turn_timeout_ms: None,
        read_timeout_ms: None,
        stall_timeout_ms: Some(-1),
    }
}

#[test]
fn codex_sections_are_read() {
    let config = CodexConfig::from_raw(codex()).expect("codex");
    assert_eq!(config.command, "run");
    assert!(config.approval_policy.is_text("never"));
    assert_eq!(config.thread_sandbox, "workspace-write");
    assert_eq!(config.stall_timeout_ms, -1);
    let error = CodexConfig::from_raw(RawCodexConfig { turn_timeout_ms: Some(0), ..codex() }).expect_err("zero");
    assert_eq!(error.message(), "codex.turn_timeout_ms must be greater than 0");
    let error = CodexConfig::from_raw(RawCodexConfig { read_timeout_ms: Some(0), ..codex() }).expect_err("zero");
    assert_eq!(error.message(), "codex.read_timeout_ms must be greater than 0");
}

#[test]
fn other_sections_are_read() {
    let worker = WorkerConfig::from_raw(RawWorkerConfig {
        ssh_hosts: Some(vec![" a ".to_string(), "".to_string(), "b".to_string()]),
        max_concurrent_agents_per_host: Some(2),
    })
    .expect("worker");
    assert_eq!(worker.ssh_hosts, vec!["a", "b"]);
    let server = ServerConfig::from_raw(RawServerConfig { port: Some(80), host: Some(" ".to_string()) })
        .expect("server");
    assert_eq!(server, ServerConfig { port: Some(80), host: "127.0.0.1".to_string() });
    let workspace = WorkspaceConfig::from_raw(RawWorkspaceConfig { root: Some("~/w".to_string()) }, &env())
        .expect("workspace");
    assert_eq!(workspace.root, "/home/me/w");
}

#[test]
fn turn_policies_follow_the_workspace() {
    let mut config = ServiceConfig::default(&env());
    let step = config.resolve_runtime_turn_sandbox_policy(Some("/w"), false, &env());
    assert!(matches!(&step, PolicyStep::Canonicalize(path) if path.as_str() == "/w"));
    let step = config.resolve_runtime_turn_sandbox_policy(None, true, &env());
    match step {
        PolicyStep::Ready(policy) => assert_eq!(
            json_text(&policy),
            "{\"excludeSlashTmp\":false,\"excludeTmpdirEnvVar\":false,\"networkAccess\":false,\"readOnlyAccess\":{\"type\":\"fullAccess\"},\"type\":\"workspaceWrite\",\"writableRoots\":[\"/tmp/symphony_workspaces\"]}"
        ),
        PolicyStep::Canonicalize(_) => panic!("remote policies need no canonical path"),
    }
    let failure = PathSafetyError::new("/w".to_string(), "denied".to_string());
    assert_eq!(
        turn_sandbox_policy_at(Err(failure)).expect_err("unsafe").message(),
        "unsafe turn sandbox policy: path_canonicalize_failed: /w (denied)"
    );
    config.codex.turn_sandbox_policy = Some(text_value("own"));
    let step = config.resolve_runtime_turn_sandbox_policy(Some("/w"), false, &env());
    assert!(matches!(&step, PolicyStep::Ready(policy) if policy.is_text("own")));
    let settings = config.codex_runtime_settings(text_value("own"));
    assert_eq!(settings.thread_sandbox, "workspace-write");
    assert!(settings.turn_sandbox_policy.is_text("own"));
}
