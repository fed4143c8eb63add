use symphony_rs::config::ServiceConfig;
use symphony_rs::domain::Issue;
use symphony_rs::environment::Environment;
use symphony_rs::path_safety::PathSafetyError;
use symphony_rs::workspace::{
    can_show_output, ensure_local_workspace, ensure_remote_workspace, handle_hook_result,
    hook_done, hook_script, local_plan, local_removal_result, parse_remote_workspace_output,
    path_checked, remote_removal_result, remote_shell_assign, sanitize_output,
    sanitize_workspace_key, validate_local_path, validate_remote_path, CommandOutput, CreateStep,
    Hook, LocalPlan, WorkspaceAssignment, WorkspaceError, WorkspaceManager,
};

fn config() -> ServiceConfig {
    let mut config = ServiceConfig::default(&Environment::new("/tmp"));
    config.workspace.root = "/root/ws".to_string();
    config
}

fn output(success: bool, code: Option<i32>, stdout: &str) -> CommandOutput {
    CommandOutput { success, code, stdout: stdout.to_string() }
}

#[test]
fn sanitizes_workspace_key_to_spec_charset() {
    assert_eq!(sanitize_workspace_key("ABC-123/fix bug"), "ABC-123_fix_bug");
    assert_eq!(sanitize_workspace_key(""), "_");
    assert_eq!(sanitize_workspace_key("é.x"), "_.x");
    assert_eq!(sanitize_workspace_key(&sanitize_workspace_key("a b")), "a_b");
}

#[test]
fn workspaces_lie_below_the_root() {
    let manager = WorkspaceManager::new(config());
    let path = manager.workspace_path_for_issue("../x", Some("h")).expect("path");
    assert_eq!(path, "/root/ws/.._x");
    assert_eq!(manager.root(), "/root/ws");
    assert_ne!(
        manager.workspace_path_for_issue("A-1", None),
        manager.workspace_path_for_issue("A-2", None)
    );
    assert_eq!(
        manager.workspace_path_for_issue("a b", None),
        manager.workspace_path_for_issue("a_b", None)
    );
}

#[test]
fn variables_are_assigned_in_a_remote_shell() {
    assert_eq!(
        remote_shell_assign("w", "~/a'b"),
        "w='~/a'\"'\"'b'\ncase \"$$w\" in\n  '~') w=\"$HOME\" ;;\n  '~/'*) w=\"$HOME/${w#~/}\" ;;\nesac"
    );
}

#[test]
fn workspaces_are_made_in_steps() {
    let mut configured = config();
    configured.hooks.after_create = Some("setup".to_string());
    let manager = WorkspaceManager::new(configured);
    let issue = Issue::example();
    match manager.create_for_issue(&issue, None) {
        CreateStep::CheckLocal { path, root } => {
            assert_eq!(path, "/root/ws/ABC-123");
            assert_eq!(root, "/root/ws");
        }
        _ => panic!("a check"),
    }
    match manager.create_for_issue(&issue, Some("h")) {
        CreateStep::RunRemote { script } => {
            assert!(script.starts_with("set -eu\nworkspace='/root/ws/ABC-123'\ncase "));
            assert!(script.ends_with(
                "\nelse\n  mkdir -p \"$workspace\"\n  created=1\nfi\ncd \"$workspace\"\nprintf '%s\\t%s\\t%s\\n' '__SYMPHONY_WORKSPACE__' \"$created\" \"$(pwd -P)\""
            ));
        }
        _ => panic!("a script"),
    }
    assert!(matches!(path_checked("/p".to_string(), Ok(())), CreateStep::MakeLocal { path } if path == "/p"));
    assert!(matches!(path_checked("/p".to_string(), Err(WorkspaceError::new("e"))), CreateStep::Fail(_)));
    let made = ensure_local_workspace("/p", "a b", Ok(true));
    let assignment = made.clone().expect("assignment");
    assert_eq!(assignment.workspace_key, "a_b");
    match manager.workspace_made(made) {
        CreateStep::RunHook { command, assignment: same } => {
            assert_eq!(command, "setup");
            assert_eq!(same, assignment);
        }
        _ => panic!("a hook"),
    }
    let kept = WorkspaceAssignment { created_now: false, ..assignment.clone() };
    assert!(matches!(manager.workspace_made(Ok(kept)), CreateStep::Done(_)));
    assert!(matches!(
        manager.workspace_made(ensure_local_workspace("/p", "a", Err("full".to_string()))),
        CreateStep::Fail(error) if error.message() == "workspace_prepare_failed: full"
    ));
    assert!(matches!(hook_done(assignment.clone(), Ok(())), CreateStep::Done(_)));
    assert!(matches!(hook_done(assignment, Err(WorkspaceError::new("e"))), CreateStep::Fail(_)));
}

#[test]
fn remote_hosts_tell_of_their_workspaces() {
    let text = "noise\n__SYMPHONY_WORKSPACE__\tx\n__SYMPHONY_WORKSPACE__\t1\t/w\tx\nmore";
    assert_eq!(parse_remote_workspace_output(text), Ok((true, "/w\tx".to_string())));
    assert_eq!(
        parse_remote_workspace_output("__SYMPHONY_WORKSPACE__\t0\t/w\r\n"),
        Ok((false, "/w".to_string()))
    );
    assert_eq!(
        parse_remote_workspace_output("nothing").expect_err("none").message(),
        "workspace_prepare_failed: invalid output nothing"
    );
    let made = ensure_remote_workspace("A/B", Ok(output(true, Some(0), "__SYMPHONY_WORKSPACE__\t1\t/w")))
        .expect("workspace");
    assert_eq!(
        made,
        WorkspaceAssignment { path: "/w".to_string(), workspace_key: "A_B".to_string(), created_now: true }
    );
    assert_eq!(
        ensure_remote_workspace("A", Ok(output(false, None, "bad"))).expect_err("failed").message(),
        "workspace_prepare_failed: status=-1 output=bad"
    );
    assert_eq!(
        ensure_remote_workspace("A", Err("gone".to_string())).expect_err("failed").message(),
        "workspace_prepare_failed: gone"
    );
}

#[test]
fn paths_are_checked() {
    assert!(validate_remote_path("/w", "/r").is_ok());
    assert_eq!(
        validate_remote_path(" ", "/r").expect_err("blank").message(),
        "workspace_path_unreadable: empty"
    );
    assert_eq!(
        validate_remote_path("a\rb", "/r").expect_err("break").message(),
        "workspace_path_unreadable: invalid characters"
    );
    let path = |text: &str| Ok::<String, PathSafetyError>(text.to_string());
    assert!(validate_local_path(path("/r/w"), path("/r")).is_ok());
    assert_eq!(
        validate_local_path(path("/r"), path("/r")).expect_err("root").message(),
        "workspace_equals_root"
    );
    assert_eq!(
        validate_local_path(path("/x"), path("/r")).expect_err("outside").message(),
        "workspace_outside_root"
    );
    let failure = || Err(PathSafetyError::new("/p".to_string(), "e".to_string()));
    assert_eq!(
        validate_local_path(path("/x"), failure()).expect_err("failed").message(),
        "workspace_path_unreadable: path_canonicalize_failed: /p (e)"
    );
    assert!(validate_local_path(failure(), path("/x")).is_err());
    assert_eq!(local_plan(true, true), LocalPlan::Keep);
    assert_eq!(local_plan(false, true), LocalPlan::Replace);
    assert_eq!(local_plan(false, false), LocalPlan::Create);
}

#[test]
fn hooks_fail_only_where_it_matters() {
    let failed = || Ok(output(false, Some(2), "oops"));
    assert!(handle_hook_result(Hook::BeforeRun, "/w", Ok(output(true, Some(0), ""))).is_ok());
    assert_eq!(
        handle_hook_result(Hook::BeforeRun, "/w", failed()).expect_err("fatal").message(),
        "workspace_hook_failed: hook=before_run workspace=/w status=2 output=oops"
    );
    assert_eq!(
        handle_hook_result(Hook::AfterCreate, "/w", failed()).expect_err("fatal").message(),
        "workspace_hook_failed: hook=after_create workspace=/w status=2 output=oops"
    );
    assert!(handle_hook_result(Hook::AfterRun, "/w", failed()).is_ok());
    assert!(handle_hook_result(Hook::BeforeRemove, "/w", failed()).is_ok());
    assert_eq!(
        handle_hook_result(Hook::AfterRun, "/w", Err("x".to_string())).expect_err("not run").message(),
        "workspace_hook_failed: x"
    );
    let mut issue = Issue::example();
    issue.id = "i'd".to_string();
    let script = hook_script("make", "/w", &issue);
    assert!(script.starts_with("workspace='/w'\n"));
    assert!(script.ends_with(
        "\nesac\ncd \"$workspace\"\nexport SYMPHONY_ISSUE_ID='i'\"'\"'d'\nexport SYMPHONY_ISSUE_IDENTIFIER='ABC-123'\nmake"
    ));
}

#[test]
fn long_outputs_are_cut() {
    let short = "x".repeat(2_048);
    assert_eq!(sanitize_output(&short), short);
    let long = "x".repeat(2_049);
    assert_eq!(sanitize_output(&long), format!("{}... (truncated)", short));
    let wide = "é".repeat(1_025);
    assert_eq!(sanitize_output(&wide), format!("{}... (truncated)", "é".repeat(1_024)));
    let odd = format!("x{}", "é".repeat(1_024));
    assert!(!can_show_output(&odd));
    assert!(can_show_output(&wide));
    let exact = format!("x{}", "\u{1f600}".repeat(511));
    assert_eq!(sanitize_output(&exact), exact);
}

#[test]
fn workspaces_are_removed() {
    let mut configured = config();
    configured.hooks.before_remove = Some("teardown".to_string());
    let manager = WorkspaceManager::new(configured);
    let plan = manager.remove_path("/root/ws/A-1", Some("h")).expect("plan");
    let (command, issue) = plan.hook.expect("hook");
    assert_eq!(command, "teardown");
    assert_eq!(issue.identifier, "A-1");
    assert_eq!(issue.id, "issue_001");
    assert!(plan.script.expect("script").ends_with("\nesac\nrm -rf \"$workspace\""));
    let plan = WorkspaceManager::new(config()).remove_path("/", None).expect("plan");
    assert!(plan.hook.is_none());
    assert!(plan.script.is_none());
    let plan = manager.remove_path("/", None).expect("plan");
    assert_eq!(plan.hook.expect("hook").1.identifier, "issue");
    let (path, plan) = manager.remove_issue_workspaces("A/1", Some("h")).expect("plan");
    assert_eq!(path, format!("{}/A_1", manager.root()));
    assert_eq!(plan.hook.expect("hook").1.identifier, "A_1");
    assert!(plan.script.is_some());
    assert!(remote_removal_result(Ok(output(true, Some(0), ""))).is_ok());
    assert_eq!(
        remote_removal_result(Ok(output(false, Some(1), "no"))).expect_err("failed").message(),
        "workspace_remove_failed: status=1 output=no"
    );
    assert_eq!(
        local_removal_result(Err("busy".to_string())).expect_err("failed").message(),
        "workspace_remove_failed: busy"
    );
    assert!(local_removal_result(Ok(())).is_ok());
    assert_eq!(manager.clone().root(), manager.root());
}

#[test]
fn no_workspace_goes_up() {
    let path = |text: &str| Ok::<String, PathSafetyError>(text.to_string());
    for outside in ["/r/..", "/r/a/..", "/r/../x", "/r/a/../../b"] {
        assert_eq!(
            validate_local_path(path(outside), path("/r")).expect_err("outside").message(),
            "workspace_outside_root"
        );
    }
    assert!(validate_local_path(path("/r/..a"), path("/r")).is_ok());
    assert!(validate_local_path(path("/r/a/../b"), path("/r")).is_ok());
    assert!(validate_remote_path("/r/a/../b", "/r").is_ok());
    assert_eq!(
        validate_remote_path("/r/a/..", "/r").expect_err("root").message(),
        "workspace_outside_root"
    );
    assert!(validate_local_path(path("/x/../r/a"), path("/x/../r")).is_ok());
    let manager = WorkspaceManager::new(config());
    let root = manager.root();
    for host in [None, Some("h")] {
        assert_eq!(
            manager.remove_issue_workspaces("..", host).expect_err("up").message(),
            "workspace_outside_root"
        );
        assert_eq!(
            manager.remove_issue_workspaces(".", host).expect_err("here").message(),
            "workspace_equals_root"
        );
        assert_eq!(
            manager.remove_path(&root, host).expect_err("root").message(),
            "workspace_equals_root"
        );
        assert!(manager.remove_path(&format!("{root}/a/../.."), host).is_err());
        assert!(manager.remove_path(&format!("{root}/a/../b"), host).is_ok());
        assert!(manager.remove_issue_workspaces("..a", host).is_ok());
    }
    for (identifier, message) in
        [("..", "workspace_outside_root"), (".", "workspace_equals_root")]
    {
        let mut issue = Issue::example();
        issue.identifier = identifier.to_string();
        match manager.create_for_issue(&issue, Some("h")) {
            CreateStep::Fail(error) => assert_eq!(error.message(), message),
            _ => panic!("a failure"),
        }
        match manager.create_for_issue(&issue, None) {
            CreateStep::CheckLocal { path, root } => {
                assert_eq!(path, format!("{root}/{identifier}"));
            }
            _ => panic!("a check"),
        }
    }
}
