use symphony_rs::domain::{Issue, IssueBlockerRef};
use symphony_rs::prompt::{
    parse_nodes, resolve_expression, tokenize, LiquidLikePromptRenderer, PromptError,
    PromptRenderer, PromptValue, Token,
};
use symphony_rs::timestamp::Timestamp;

fn render(template: &str, issue: &Issue, attempt: Option<u32>) -> Result<String, PromptError> {
    LiquidLikePromptRenderer.render(template, issue, attempt)
}

#[test]
fn renders_variables_and_if_blocks() {
    let renderer = LiquidLikePromptRenderer;
    let issue = Issue::example();
    let output = renderer
        .render(
            "{% if issue.description %}{{ issue.identifier }}: {{ issue.description }}{% else %}missing{% endif %}",
            &issue,
            Some(1),
        )
        .expect("template should render");

    assert!(output.contains("ABC-123"));
    assert_eq!(output, "ABC-123: Create a Rust implementation of Symphony.");
}

#[test]
fn fails_on_unknown_variables() {
    let renderer = LiquidLikePromptRenderer;
    let issue = Issue::example();
    let error = renderer
        .render("{{ issue.nope }}", &issue, None)
        .expect_err("unknown variables should fail");

    assert_eq!(
        error.message(),
        "template_render_error: unknown variable `issue.nope`"
    );
}

#[test]
fn plain_text_is_trimmed() {
    assert_eq!(render("  Hello { world } \n", &Issue::example(), None), Ok("Hello { world }".to_string()));
    assert_eq!(render("", &Issue::example(), None), Ok(String::new()));
}

#[test]
fn every_variable_has_its_value() {
    let time = Timestamp::new(1_774_051_200, 0).expect("valid");
    let mut issue = Issue::example_at(time, time);
    issue.blocked_by = vec![
        IssueBlockerRef { id: Some("i".to_string()), identifier: Some("A-1".to_string()), state: None },
        IssueBlockerRef { id: Some("i".to_string()), identifier: None, state: None },
        IssueBlockerRef { id: None, identifier: None, state: Some("Todo".to_string()) },
        IssueBlockerRef { id: None, identifier: None, state: None },
    ];
    let cases = [
        ("attempt", "3"),
        ("issue.id", "issue_001"),
        ("issue.identifier", "ABC-123"),
        ("issue.title", "Port Symphony orchestrator to Rust"),
        ("issue.description", "Create a Rust implementation of Symphony."),
        ("issue.priority", "1"),
        ("issue.state", "Todo"),
        ("issue.branch_name", "abc-123-port-symphony-to-rust"),
        ("issue.url", "https://linear.app/example/issue/ABC-123"),
        ("issue.assignee_id", ""),
        ("issue.labels", "rust, orchestration"),
        ("issue.blocked_by", "A-1, i, Todo, unknown-blocker"),
        ("issue.created_at", "2026-03-21T00:00:00+00:00"),
        ("issue.updated_at", "2026-03-21T00:00:00+00:00"),
    ];
    for (expression, expected) in cases {
        let value = resolve_expression(expression, &issue, Some(3)).expect("known");
        assert_eq!(value.render(), expected);
    }
    assert_eq!(resolve_expression("attempt", &issue, None), Ok(PromptValue::Null));
    issue.priority = Some(-4);
    assert_eq!(render("p={{issue.priority}}", &issue, None), Ok("p=-4".to_string()));
}

#[test]
fn filters_are_refused() {
    let error = render("{{ issue.id | upcase }}", &Issue::example(), None).expect_err("filter");
    assert_eq!(error, PromptError::UnknownFilter("issue.id | upcase".to_string()));
    assert_eq!(error.message(), "template_render_error: filters are not supported `issue.id | upcase`");
}

#[test]
fn open_tags_are_refused() {
    let issue = Issue::example();
    let error = render("a {{ issue.id", &issue, None).expect_err("open");
    assert_eq!(error.message(), "template_parse_error: unterminated `{ ... }` expression");
    let error = render("a {% if x", &issue, None).expect_err("open");
    assert_eq!(error.message(), "template_parse_error: unterminated `{% ... %}` control tag");
    let error = render("{% for x %}", &issue, None).expect_err("unknown");
    assert_eq!(error.message(), "template_parse_error: unsupported control tag `for x`");
}

#[test]
fn blocks_must_be_closed_and_opened() {
    let issue = Issue::example();
    assert_eq!(
        render("{% if issue.id %}x", &issue, None),
        Err(PromptError::UnexpectedControlTag("missing endif".to_string()))
    );
    assert_eq!(
        render("x{% endif %}", &issue, None),
        Err(PromptError::UnexpectedControlTag("unexpected trailing control tag".to_string()))
    );
    assert_eq!(
        render("x{% else %}y", &issue, None),
        Err(PromptError::UnexpectedControlTag("unexpected trailing control tag".to_string()))
    );
}

#[test]
fn blocks_choose_by_truth() {
    let mut issue = Issue::example();
    let template = "{% if attempt %}again{% else %}first{% endif %}";
    assert_eq!(render(template, &issue, None), Ok("first".to_string()));
    assert_eq!(render(template, &issue, Some(0)), Ok("first".to_string()));
    assert_eq!(render(template, &issue, Some(2)), Ok("again".to_string()));
    issue.labels = Vec::new();
    assert_eq!(render("{% if issue.labels %}y{% else %}n{% endif %}", &issue, None), Ok("n".to_string()));
    assert_eq!(
        render("a{% if issue.id %} b {% if attempt %}c{% endif %} d {% endif %}e", &issue, None),
        Ok("ab  de".to_string())
    );
}

#[test]
fn a_branch_that_is_not_taken_is_not_resolved() {
    let issue = Issue::example();
    assert_eq!(render("{% if attempt %}{{ nope }}{% endif %}ok", &issue, None), Ok("ok".to_string()));
}

#[test]
fn tokens_split_at_the_nearest_tag() {
    let tokens = tokenize("a{{%b}}c{% if x %}").expect("tokens");
    assert_eq!(
        tokens,
        vec![
            Token::Text("a".to_string()),
            Token::Variable("%b".to_string()),
            Token::Text("c".to_string()),
            Token::If("x".to_string()),
        ]
    );
    let mut index = 0;
    assert!(parse_nodes(&tokens, &mut index).is_err());
}
