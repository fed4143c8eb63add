use symphony_rs::domain::Issue;
use symphony_rs::prompt::{LiquidLikePromptRenderer, PromptRenderer};
use symphony_rs::workflow::{
    config_of_document, split_front_matter, WorkflowError, WorkflowLoader, YamlDocument,
};

#[test]
fn parses_front_matter_and_prompt_body() {
    let workflow = WorkflowLoader::parse(
        "---\ntracker:\n  kind: linear\n---\n\nHello {{ issue.identifier }}\n",
    )
    .expect("workflow should parse");

    assert!(workflow.config.contains_key("tracker"));
    assert_eq!(workflow.prompt_template, "Hello {{ issue.identifier }}");
    assert_eq!(workflow.clone(), workflow);
}

#[test]
fn supports_prompt_only_workflow_files() {
    let workflow =
        WorkflowLoader::parse("Investigate {{ issue.title }}").expect("valid prompt");
    assert!(workflow.config.is_empty());
    assert_eq!(workflow.prompt_template, "Investigate {{ issue.title }}");
}

#[test]
fn front_matter_that_is_not_closed_is_all_there_is() {
    let workflow = WorkflowLoader::parse("---\nagent: {}\n").expect("workflow");
    assert!(workflow.config.contains_key("agent"));
    assert_eq!(workflow.prompt_template, "");
}

#[test]
fn empty_front_matter_is_an_empty_config() {
    let workflow = WorkflowLoader::parse("---\n\n---\nDo it\r\nnow\n").expect("workflow");
    assert!(workflow.config.is_empty());
    assert_eq!(workflow.prompt_template, "Do it\nnow");
}

#[test]
fn other_front_matter_is_refused() {
    let error = WorkflowLoader::parse("---\n- a\n---\n").expect_err("a list");
    assert_eq!(error, WorkflowError::WorkflowFrontMatterNotMap);
    assert_eq!(error.message(), "workflow_front_matter_not_a_map");
    let error = WorkflowLoader::parse("---\na: [\n---\n").expect_err("broken");
    assert!(matches!(error, WorkflowError::WorkflowParseError(_)));
    assert!(error.message().starts_with("workflow_parse_error: "));
    assert_eq!(
        config_of_document(YamlDocument::Invalid("x".to_string())),
        Err(WorkflowError::WorkflowParseError("x".to_string()))
    );
}

#[test]
fn a_missing_file_is_named() {
    let error = WorkflowLoader::from_contents("W.md", None).expect_err("missing");
    assert_eq!(error, WorkflowError::MissingWorkflowFile("W.md".to_string()));
    assert_eq!(error.message(), "missing_workflow_file: W.md");
    assert!(WorkflowLoader::from_contents("W.md", Some("x".to_string())).is_ok());
}

#[test]
fn lines_go_to_the_two_parts() {
    let (front, prompt) = split_front_matter("---\na\nb\n---\nc\n---\nd");
    assert_eq!(front, vec!["a", "b"]);
    assert_eq!(prompt, vec!["c", "---", "d"]);
}

#[test]
fn a_whole_workflow_is_read() {
    let workflow = WorkflowLoader::parse(
        "---\ntracker:\n  kind: linear\n  api_key: $LINEAR_API_KEY\n  project_slug: demo-project\nagent:\n  max_turns: 20\n---\n\n# Task\n\nWork on issue {{ issue.identifier }}: {{ issue.title }}\n\nCurrent state: {{ issue.state }}\nAttempt: {{ attempt }}\n",
    )
    .expect("workflow");
    assert_eq!(workflow.config.len(), 2);
    assert_eq!(
        workflow.config["tracker"]["project_slug"],
        serde_yaml::Value::from("demo-project")
    );
    let prompt = LiquidLikePromptRenderer
        .render(&workflow.prompt_template, &Issue::example(), None)
        .expect("prompt");
    assert!(prompt.starts_with("# Task\n\nWork on issue ABC-123: "));
    assert!(prompt.ends_with("Current state: Todo\nAttempt:"));
}
