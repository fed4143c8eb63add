use symphony_rs::domain::{normalize_state, AttemptStatus, Issue, IssueBlockerRef, LiveSession};

#[test]
fn states_are_compared_without_case_and_space() {
    assert_eq!(normalize_state("  In Progress "), "in progress");
    assert_eq!(normalize_state(&normalize_state("  In Progress ")), "in progress");
}

#[test]
fn required_fields_must_not_be_blank() {
    let mut issue = Issue::example();
    assert!(issue.has_required_fields());
    issue.title = " \t".to_string();
    assert!(!issue.has_required_fields());
}

#[test]
fn only_waiting_issues_are_blocked() {
    let terminal = vec!["Done".to_string()];
    let mut issue = Issue::example();
    assert!(!issue.has_non_terminal_blocker(&terminal));
    issue.blocked_by = vec![IssueBlockerRef { id: None, identifier: None, state: Some("DONE".to_string()) }];
    assert!(!issue.has_non_terminal_blocker(&terminal));
    issue.blocked_by.push(IssueBlockerRef { id: None, identifier: None, state: None });
    assert!(issue.has_non_terminal_blocker(&terminal));
    issue.state = "In Progress".to_string();
    assert!(!issue.has_non_terminal_blocker(&terminal));
}

#[test]
fn copies_of_issues_are_equal() {
    let issue = Issue::example();
    assert_eq!(issue.clone(), issue);
    assert_eq!(issue.labels, vec!["rust", "orchestration"]);
    assert_eq!(issue.normalized_state(), "todo");
}

#[test]
fn fresh_sessions_have_counted_nothing() {
    let session = LiveSession::default();
    assert_eq!(session.codex_total_tokens, 0);
    assert_eq!(session.turn_count, 0);
    assert_eq!(session.clone(), session);
    assert_ne!(AttemptStatus::Failed, AttemptStatus::Succeeded);
}
