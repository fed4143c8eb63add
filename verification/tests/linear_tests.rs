use symphony_rs::config::ServiceConfig;
use symphony_rs::domain::{Issue, IssueBlockerRef};
use symphony_rs::environment::Environment;
use symphony_rs::json::{
    array_value, bool_value, empty_object, json_text, number_value, parse_json, text_value,
    JsonValue,
};
use symphony_rs::linear::{
    comment_result, comment_variables, decode_failed, decode_linear_page_response,
    decode_linear_response, graphql_request, graphql_response, ids_to_fetch, normalize_issue,
    order_by_ids, parse_datetime, project_slug_of, request_failed, resolve_assignee_filter,
    resolve_state_id, state_lookup_variables, state_update_result, state_update_variables,
    viewer_filter, AssigneeStep, BatchFetch, PageFetch, PageStep, QUERY_BY_IDS, QUERY_BY_STATES,
    VIEWER_QUERY,
};

fn object(members: Vec<(&str, JsonValue)>) -> JsonValue {
    let mut value = empty_object();
    for (key, member) in members {
        value = value.with(key, member);
    }
    value
}

fn config() -> ServiceConfig {
    let mut config = ServiceConfig::default(&Environment::new("/tmp"));
    config.tracker.api_key = Some("key".to_string());
    config.tracker.project_slug = Some("slug".to_string());
    config
}

fn node(id: &str) -> JsonValue {
    object(vec![
        ("id", text_value(id)),
        ("identifier", text_value("I")),
        ("title", text_value("T")),
        ("assignee", object(vec![("id", text_value("me_id"))])),
    ])
}

fn page(nodes: Vec<JsonValue>, info: JsonValue) -> JsonValue {
    let issues = object(vec![("nodes", array_value(nodes)), ("pageInfo", info)]);
    object(vec![("data", object(vec![("issues", issues)]))])
}

#[test]
fn normalizes_linear_issue_payload() {
    let issue = normalize_issue(
        &object(vec![
            ("id", text_value("1")),
            ("identifier", text_value("ABC-1")),
            ("title", text_value("Example")),
            ("description", text_value("Body")),
            ("priority", number_value(2)),
            ("state", object(vec![("name", text_value("Todo"))])),
            ("branchName", text_value("abc-1")),
            ("url", text_value("https://linear.app")),
            ("assignee", object(vec![("id", text_value("user_1"))])),
            (
                "labels",
                object(vec![("nodes", array_value(vec![object(vec![("name", text_value("Bug"))])]))]),
            ),
            (
                "inverseRelations",
                object(vec![(
                    "nodes",
                    array_value(vec![object(vec![
                        ("type", text_value("blocks")),
                        (
                            "issue",
                            object(vec![
                                ("id", text_value("2")),
                                ("identifier", text_value("ABC-0")),
                                ("state", object(vec![("name", text_value("In Progress"))])),
                            ]),
                        ),
                    ])]),
                )]),
            ),
            ("createdAt", text_value("2026-03-21T00:00:00Z")),
            ("updatedAt", text_value("2026-03-21T00:00:00Z")),
        ]),
        None,
    )
    .expect("issue should normalize");

    assert_eq!(issue.identifier, "ABC-1");
    assert_eq!(issue.labels, vec!["bug"]);
    assert_eq!(issue.priority, Some(2));
    assert_eq!(issue.state, "Todo");
    assert_eq!(issue.assignee_id, Some("user_1".to_string()));
    assert!(issue.assigned_to_worker);
    assert_eq!(
        issue.blocked_by,
        vec![IssueBlockerRef {
            id: Some("2".to_string()),
            identifier: Some("ABC-0".to_string()),
            state: Some("In Progress".to_string()),
        }]
    );
    assert_eq!(issue.created_at.map(|t| t.to_rfc3339()), Some("2026-03-21T00:00:00+00:00".to_string()));
}

#[test]
fn example_issue_still_compiles() {
    let issue = Issue::example();
    assert_eq!(issue.identifier, "ABC-123");
}

#[test]
fn nodes_without_their_names_describe_nothing() {
    assert!(normalize_issue(&empty_object(), None).is_none());
    assert!(normalize_issue(&object(vec![("id", text_value("1")), ("identifier", text_value("I"))]), None).is_none());
    let bare = normalize_issue(
        &object(vec![("id", text_value("1")), ("identifier", text_value("I")), ("title", text_value("T"))]),
        None,
    )
    .expect("issue");
    assert_eq!(bare.state, "");
    assert_eq!(bare.created_at, None);
    assert!(bare.labels.is_empty());
}

#[test]
fn relations_of_other_kinds_do_not_block() {
    let relation = |kind: JsonValue| object(vec![("type", kind), ("issue", empty_object())]);
    let value = node("1").with(
        "inverseRelations",
        object(vec![(
            "nodes",
            array_value(vec![
                relation(text_value("related")),
                relation(text_value(" BLOCKS ")),
                relation(number_value(1)),
                object(vec![("type", text_value("blocks"))]),
            ]),
        )]),
    );
    let issue = normalize_issue(&value, None).expect("issue");
    assert_eq!(issue.blocked_by, vec![IssueBlockerRef { id: None, identifier: None, state: None }]);
}

#[test]
fn assignees_are_matched() {
    let mut config = config();
    assert!(matches!(resolve_assignee_filter(&config), AssigneeStep::Ready(None)));
    config.tracker.assignee = Some(" ".to_string());
    assert!(matches!(resolve_assignee_filter(&config), AssigneeStep::Ready(None)));
    config.tracker.assignee = Some("me".to_string());
    assert!(matches!(resolve_assignee_filter(&config), AssigneeStep::AskViewer));
    config.tracker.assignee = Some(" me_id ".to_string());
    match resolve_assignee_filter(&config) {
        AssigneeStep::Ready(Some(filter)) => {
            assert!(normalize_issue(&node("1"), Some(&filter)).expect("issue").assigned_to_worker);
            let other = node("1").with("assignee", object(vec![("id", text_value("you"))]));
            assert!(!normalize_issue(&other, Some(&filter)).expect("issue").assigned_to_worker);
            let none = node("1").with("assignee", number_value(1));
            assert!(!normalize_issue(&none, Some(&filter)).expect("issue").assigned_to_worker);
        }
        _ => panic!("a filter"),
    }
    let viewer = parse_json("{\"data\":{\"viewer\":{\"id\":\"v\"}}}").expect("json");
    assert!(viewer_filter(&viewer).expect("filter").match_values.contains("v"));
    assert_eq!(
        viewer_filter(&empty_object()).expect_err("missing").message(),
        "missing_linear_viewer_identity"
    );
    assert!(VIEWER_QUERY.contains("viewer { id }"));
}

#[test]
fn requests_need_a_key() {
    let request = graphql_request(&config(), "q", empty_object()).expect("request");
    assert_eq!(request.endpoint, "https://api.linear.app/graphql");
    assert_eq!(request.api_key, "key");
    assert_eq!(json_text(&request.body), "{\"query\":\"q\",\"variables\":{}}");
    let mut bare = config();
    bare.tracker.api_key = None;
    bare.tracker.project_slug = None;
    assert_eq!(
        graphql_request(&bare, "q", empty_object()).expect_err("no key").message(),
        "missing_linear_api_token"
    );
    assert_eq!(project_slug_of(&bare).expect_err("no slug").message(), "missing_linear_project_slug");
    assert_eq!(project_slug_of(&config()).expect("slug"), "slug");
}

#[test]
fn answers_need_a_good_status() {
    assert_eq!(graphql_response(200, number_value(1)).expect("ok"), number_value(1));
    assert!(graphql_response(299, number_value(1)).is_ok());
    assert_eq!(
        graphql_response(300, text_value("x")).expect_err("status").message(),
        "linear_api_status: 300 body=\"x\""
    );
    assert_eq!(request_failed("e").message(), "linear_api_request: e");
    assert_eq!(decode_failed("e").message(), "linear_api_decode_failed: e");
}

#[test]
fn answers_with_errors_are_refused() {
    let errors = object(vec![("errors", array_value(vec![number_value(1)]))]);
    assert_eq!(
        decode_linear_response(&errors, None).expect_err("errors").message(),
        "linear_graphql_errors: [1]"
    );
    assert_eq!(
        decode_linear_response(&empty_object(), None).expect_err("payload").message(),
        "linear_unknown_payload"
    );
    let page = decode_linear_page_response(&page(vec![node("1"), empty_object()], empty_object()), None)
        .expect("page");
    assert_eq!(page.issues.len(), 1);
    assert!(!page.has_next_page);
    assert_eq!(page.end_cursor, None);
}

#[test]
fn pages_follow_each_other() {
    let states = vec!["Todo".to_string(), " ".to_string()];
    let fetch = match PageFetch::fetch_by_states("slug".to_string(), &states, None) {
        PageStep::Next(fetch) => fetch,
        PageStep::Done(_) => panic!("there are states"),
    };
    assert_eq!(
        json_text(&fetch.variables()),
        "{\"after\":null,\"first\":50,\"projectSlug\":\"slug\",\"relationFirst\":50,\"stateNames\":[\"Todo\"]}"
    );
    let info = object(vec![("hasNextPage", bool_value(true)), ("endCursor", text_value("c"))]);
    let fetch = match fetch.step(&page(vec![node("1")], info)).expect("page") {
        PageStep::Next(fetch) => fetch,
        PageStep::Done(_) => panic!("more follows"),
    };
    assert!(json_text(&fetch.variables()).contains("\"after\":\"c\""));
    match fetch.step(&page(vec![node("2")], empty_object())).expect("page") {
        PageStep::Done(issues) => {
            assert_eq!(issues.len(), 2);
            assert_eq!(issues[1].id, "2");
        }
        PageStep::Next(_) => panic!("no more follows"),
    }
    assert!(matches!(
        PageFetch::fetch_by_states("slug".to_string(), &vec!["  ".to_string()], None),
        PageStep::Done(issues) if issues.is_empty()
    ));
    assert!(QUERY_BY_STATES.contains("$stateNames"));
}

#[test]
fn ids_are_asked_for_in_batches() {
    let mut ids: Vec<String> = (0..51).map(|n| format!("id{}", n)).collect();
    ids.push(" ".to_string());
    let kept = ids_to_fetch(&ids);
    assert_eq!(kept.len(), 51);
    let fetch = BatchFetch::fetch_issue_states_by_ids(kept, None);
    let variables = fetch.variables().expect("first batch");
    assert_eq!(variables.get("first").and_then(|v| v.as_u64()), Some(50));
    assert_eq!(variables.get("relationFirst").and_then(|v| v.as_u64()), Some(50));
    let fetch = fetch.step(&page(vec![node("id1"), node("id0")], empty_object())).expect("batch");
    let variables = fetch.variables().expect("second batch");
    assert_eq!(json_text(variables.get("ids").expect("ids")), "[\"id50\"]");
    let fetch = fetch.step(&page(vec![node("other"), node("id50")], empty_object())).expect("batch");
    assert!(fetch.variables().is_none());
    let issues: Vec<String> = fetch.finish().iter().map(|issue| issue.id.clone()).collect();
    assert_eq!(issues, vec!["id0", "id1", "id50", "other"]);
    assert!(QUERY_BY_IDS.contains("$ids"));
}

#[test]
fn the_last_place_of_an_id_counts() {
    let make = |id: &str| normalize_issue(&node(id), None).expect("issue");
    let ids = vec!["a".to_string(), "b".to_string(), "a".to_string()];
    let ordered = order_by_ids(&vec![make("a"), make("x"), make("b"), make("y")], &ids);
    let names: Vec<String> = ordered.iter().map(|issue| issue.id.clone()).collect();
    assert_eq!(names, vec!["b", "a", "x", "y"]);
}

#[test]
fn comments_and_states_are_sent() {
    assert_eq!(json_text(&comment_variables("i", "b")), "{\"body\":\"b\",\"issueId\":\"i\"}");
    let done = parse_json("{\"data\":{\"commentCreate\":{\"success\":true}}}").expect("json");
    assert!(comment_result(&done).is_ok());
    assert_eq!(comment_result(&empty_object()).expect_err("failed").message(), "comment_create_failed");
    assert_eq!(json_text(&state_lookup_variables("i", "s")), "{\"issueId\":\"i\",\"stateName\":\"s\"}");
    let found = parse_json("{\"data\":{\"issue\":{\"team\":{\"states\":{\"nodes\":[{\"id\":\"sid\"}]}}}}}")
        .expect("json");
    assert_eq!(resolve_state_id(&found).expect("id"), "sid");
    let none = parse_json("{\"data\":{\"issue\":{\"team\":{\"states\":{\"nodes\":[]}}}}}").expect("json");
    assert_eq!(resolve_state_id(&none).expect_err("none").message(), "state_not_found");
    assert_eq!(json_text(&state_update_variables("i", "s")), "{\"issueId\":\"i\",\"stateId\":\"s\"}");
    let moved = parse_json("{\"data\":{\"issueUpdate\":{\"success\":true}}}").expect("json");
    assert!(state_update_result(&moved).is_ok());
    assert_eq!(state_update_result(&done).expect_err("failed").message(), "issue_update_failed");
}

#[test]
fn times_are_read_from_values() {
    assert!(parse_datetime(None).is_none());
    assert!(parse_datetime(Some(&number_value(1))).is_none());
    assert!(parse_datetime(Some(&text_value("yesterday"))).is_none());
    let time = parse_datetime(Some(&text_value("1970-01-01T00:00:01Z"))).expect("time");
    assert_eq!(time.seconds(), 1);
}
