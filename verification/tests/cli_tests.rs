use symphony_rs::cli::{parse_workflow_path, read_arguments, validation_report, Command, ACK_FLAG};
use symphony_rs::config::ServiceConfig;
use symphony_rs::environment::Environment;
use symphony_rs::workflow::WorkflowLoader;

fn words(text: &[&str]) -> Vec<String> {
    text.iter().map(|word| word.to_string()).collect()
}

#[test]
fn the_first_plain_word_is_the_workflow() {
    assert_eq!(parse_workflow_path(&words(&["once", "--x", "W.md", "V.md"])), Some("W.md".to_string()));
    assert_eq!(parse_workflow_path(&words(&["once", "--x"])), None);
}

#[test]
fn commands_are_read() {
    let invocation = read_arguments(&words(&["validate"])).expect("command");
    assert_eq!(invocation.command, Command::Validate);
    assert_eq!(invocation.workflow_path, "WORKFLOW.md");
    assert_eq!(read_arguments(&words(&["once", "W.md"])).expect("command").workflow_path, "W.md");
    assert_eq!(read_arguments(&words(&["snapshot"])).expect("command").command, Command::Snapshot);
    assert_eq!(read_arguments(&words(&["serve", ACK_FLAG])).expect("command").command, Command::Serve);
    assert_eq!(
        read_arguments(&words(&["serve"])).expect_err("flag"),
        "missing required acknowledgement flag `--i-understand-that-this-will-be-running-without-the-usual-guardrails`"
    );
    assert_eq!(
        read_arguments(&words(&["x"])).expect_err("unknown"),
        "unknown command `x`\nusage: symphony-rs [validate|once|snapshot|serve] [WORKFLOW.md] [--i-understand-that-this-will-be-running-without-the-usual-guardrails]"
    );
}

#[test]
fn reports_list_what_is_missing() {
    let mut config = ServiceConfig::default(&Environment::new("/tmp"));
    config.tracker.api_key = None;
    let workflow = WorkflowLoader::parse("").expect("workflow");
    assert_eq!(
        validation_report("W.md", &workflow, &config),
        vec![
            "workflow_path=W.md",
            "prompt_present=false",
            "dispatch_ready=false",
            "validation_errors:",
            "  - tracker.api_key is missing after environment resolution",
            "  - tracker.project_slug is required for Linear dispatch",
        ]
    );
    config.tracker.kind = Some("memory".to_string());
    let workflow = WorkflowLoader::parse("x").expect("workflow");
    assert_eq!(
        validation_report("W.md", &workflow, &config),
        vec!["workflow_path=W.md", "prompt_present=true", "dispatch_ready=true"]
    );
}
