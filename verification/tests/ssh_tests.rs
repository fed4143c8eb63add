use symphony_rs::environment::Environment;
use symphony_rs::ssh::{
    parse_target, remote_shell_command, shell_escape, ssh_args, ssh_executable, SshError,
};

#[test]
fn wraps_remote_command_in_bash() {
    assert!(remote_shell_command("echo hi").starts_with("bash -lc "));
    assert_eq!(remote_shell_command("echo hi"), "bash -lc 'echo hi'");
}

#[test]
fn quotes_are_escaped() {
    assert_eq!(shell_escape(""), "''");
    assert_eq!(shell_escape("it's"), "'it'\"'\"'s'");
    assert_eq!(shell_escape("$HOME `x` \\"), "'$HOME `x` \\'");
}

fn parts(target: &str) -> (String, Option<String>) {
    let parsed = parse_target(target);
    (parsed.destination, parsed.port)
}

#[test]
fn ports_stand_behind_the_last_colon() {
    assert_eq!(parts(" user@host:22 "), ("user@host".to_string(), Some("22".to_string())));
    assert_eq!(parts("host"), ("host".to_string(), None));
    assert_eq!(parts("host:"), ("host".to_string(), Some("".to_string())));
    assert_eq!(parts("host:2x"), ("host:2x".to_string(), None));
    assert_eq!(parts(":22"), (":22".to_string(), None));
    assert_eq!(parts("fe80::1"), ("fe80::1".to_string(), None));
    assert_eq!(parts("[fe80::1]:22"), ("[fe80::1]".to_string(), Some("22".to_string())));
}

#[test]
fn arguments_are_in_order() {
    let env = Environment::new("/tmp").with_var("SYMPHONY_SSH_CONFIG", "/cfg");
    assert_eq!(
        ssh_args("h:1", "ls", &env),
        vec!["-F", "/cfg", "-T", "-p", "1", "h", "bash -lc 'ls'"]
    );
    let env = Environment::new("/tmp").with_var("SYMPHONY_SSH_CONFIG", " ");
    assert_eq!(ssh_args("h", "ls", &env), vec!["-T", "h", "bash -lc 'ls'"]);
    assert_eq!(ssh_executable().expect("program"), "ssh");
}

#[test]
fn errors_have_their_messages() {
    assert_eq!(SshError::new("m").message(), "m");
    assert_eq!(SshError::run_failed("x").message(), "ssh_run_failed: x");
    assert_eq!(SshError::spawn_failed("x").message(), "ssh_spawn_failed: x");
}
