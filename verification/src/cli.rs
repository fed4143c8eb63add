//! The command line.

use crate::config::{config_gaps, gap_message, ServiceConfig, ServiceModel};
use crate::domain::WorkflowDefinition;
use crate::service::{gap_messages, validation_messages};
use crate::text::{blank, has_prefix, is_blank, list_has, opt_text, same_text, texts, trim};
use vstd::prelude::*;
use vstd::string::*;

verus! {

/// The word without which the service is not started.
pub const ACK_FLAG: &'static str = "--i-understand-that-this-will-be-running-without-the-usual-guardrails";

/// What the program is told to do.
#[derive(Debug, Clone, Copy, PartialEq, Eq, Structural)]
pub enum Command {
    Validate,
    Once,
    Snapshot,
    Serve,
}

/// What the program is told to do, and with which workflow.
#[derive(Debug)]
pub struct Invocation {
    pub command: Command,
    pub workflow_path: String,
}

/// The first of the words, from `k` on, that is no option.
pub open spec fn first_plain(words: Seq<Seq<char>>, k: int) -> Option<Seq<char>>
    decreases words.len() - k,
{
    if k < 0 || k >= words.len() {
        None
    } else if "--"@.is_prefix_of(words[k]) {
        first_plain(words, k + 1)
    } else {
        Some(words[k])
    }
}

/// The first of the words behind the command that is no option.
pub fn parse_workflow_path(args: &Vec<String>) -> (r: Option<String>)
    requires
        args@.len() > 0,
    ensures
        opt_text(r) == first_plain(texts(args@), 1),
{
    let ghost words = texts(args@);
    let mut i: usize = 1;
    while i < args.len()
        invariant
            1 <= i <= args@.len(),
            words == texts(args@),
            first_plain(words, 1) == first_plain(words, i as int),
        decreases args@.len() - i,
    {
        assert(words[i as int] == args@[i as int]@);
        if !has_prefix(args[i].as_str(), "--") {
            return Some(args[i].clone());
        }
        i = i + 1;
    }
    None
}

/// The command that a word stands for.
pub open spec fn command_of(word: Seq<char>) -> Option<Command> {
    if word == "validate"@ {
        Some(Command::Validate)
    } else if word == "once"@ {
        Some(Command::Once)
    } else if word == "snapshot"@ {
        Some(Command::Snapshot)
    } else if word == "serve"@ {
        Some(Command::Serve)
    } else {
        None
    }
}

/// The word without which the service is not started.
pub open spec fn ack_flag() -> Seq<char> {
    "--i-understand-that-this-will-be-running-without-the-usual-guardrails"@
}

/// What is said of a word that stands for no command.
pub open spec fn usage_message(word: Seq<char>) -> Seq<char> {
    "unknown command `"@ + word
        + "`\nusage: symphony-rs [validate|once|snapshot|serve] [WORKFLOW.md] ["@ + ack_flag()
        + "]"@
}

/// What is said where the word without which the service is not started is missing.
pub open spec fn missing_flag_message() -> Seq<char> {
    "missing required acknowledgement flag `"@ + ack_flag() + "`"@
}

/// What the program is told to do: the command and the path of the workflow, or what
/// is wrong.
pub open spec fn invocation_of(words: Seq<Seq<char>>) -> Result<(Command, Seq<char>), Seq<char>> {
    match command_of(words[0]) {
        None => Err(usage_message(words[0])),
        Some(command) => if command == Command::Serve && !words.contains(ack_flag()) {
            Err(missing_flag_message())
        } else {
            Ok(
                (
                    command,
                    match first_plain(words, 1) {
                        Some(path) => path,
                        None => "WORKFLOW.md"@,
                    },
                ),
            )
        },
    }
}

/// What the program is told to do by its arguments: the first is the command, and
/// the first behind it that is no option is the workflow. The service is started
/// only with the word that acknowledges what that means.
pub fn read_arguments(args: &Vec<String>) -> (r: Result<Invocation, String>)
    requires
        args@.len() > 0,
    ensures
        match r {
            Ok(invocation) => invocation_of(texts(args@)) == Ok::<(Command, Seq<char>), Seq<char>>(
                (invocation.command, invocation.workflow_path@),
            ),
            Err(message) => invocation_of(texts(args@)) == Err::<(Command, Seq<char>), Seq<char>>(
                message@,
            ),
        },
        match command_of(args@[0]@) {
            None => r matches Err(message) && message@ == usage_message(args@[0]@),
            Some(command) => if command == Command::Serve && !texts(args@).contains(ack_flag()) {
                r matches Err(message) && message@ == missing_flag_message()
            } else {
                &&& r matches Ok(invocation)
                &&& invocation.command == command
                &&& invocation.workflow_path@ == match first_plain(texts(args@), 1) {
                    Some(path) => path,
                    None => "WORKFLOW.md"@,
                }
            },
        },
{
    let word = args[0].as_str();
    let workflow_path = match parse_workflow_path(args) {
        Some(path) => path,
        None => "WORKFLOW.md".to_string(),
    };
    let command = if same_text(word, "validate") {
        Command::Validate
    } else if same_text(word, "once") {
        Command::Once
    } else if same_text(word, "snapshot") {
        Command::Snapshot
    } else if same_text(word, "serve") {
        if !list_has(args, ACK_FLAG) {
            return Err(
                "missing required acknowledgement flag `".to_string().concat(ACK_FLAG).concat("`"),
            );
        }
        Command::Serve
    } else {
        return Err(
            "unknown command `".to_string().concat(word).concat(
                "`\nusage: symphony-rs [validate|once|snapshot|serve] [WORKFLOW.md] [",
            ).concat(ACK_FLAG).concat("]"),
        );
    };
    Ok(Invocation { command, workflow_path })
}

/// The text of a truth value.
pub open spec fn bool_text(b: bool) -> Seq<char> {
    if b {
        "true"@
    } else {
        "false"@
    }
}

fn bool_string(b: bool) -> (r: String)
    ensures
        r@ == bool_text(b),
{
    if b {
        "true".to_string()
    } else {
        "false".to_string()
    }
}

/// The lines that say whether a workflow can be used.
pub open spec fn report_lines(path: Seq<char>, prompt: Seq<char>, config: ServiceModel) -> Seq<
    Seq<char>,
> {
    let head = seq![
        "workflow_path="@ + path,
        "prompt_present="@ + bool_text(!is_blank(prompt)),
        "dispatch_ready="@ + bool_text(config_gaps(config).len() == 0),
    ];
    if config_gaps(config).len() == 0 {
        head
    } else {
        head + seq!["validation_errors:"@] + gap_messages(config).map_values(
            |message: Seq<char>| "  - "@ + message,
        )
    }
}

/// The lines that say whether a workflow can be used.
pub fn validation_report(path: &str, workflow: &WorkflowDefinition, config: &ServiceConfig) -> (r:
    Vec<String>)
    ensures
        texts(r@) == report_lines(path@, workflow.prompt_template@, config@),
{
    let errors = validation_messages(config);
    let ghost messages = gap_messages(config@);
    assert(messages.len() == errors@.len());
    assert(messages.len() == config_gaps(config@).len());
    let present = bool_string(!blank(workflow.prompt_template.as_str()));
    let ready = bool_string(errors.len() == 0);
    let mut lines: Vec<String> = vec![
        "workflow_path=".to_string().concat(path),
        "prompt_present=".to_string().concat(present.as_str()),
        "dispatch_ready=".to_string().concat(ready.as_str()),
    ];
    let ghost head = seq![
        "workflow_path="@ + path@,
        "prompt_present="@ + bool_text(!is_blank(workflow.prompt_template@)),
        "dispatch_ready="@ + bool_text(config_gaps(config@).len() == 0),
    ];
    assert(texts(lines@) =~= head);
    if errors.len() == 0 {
        return lines;
    }
    lines.push("validation_errors:".to_string());
    let ghost start = head + seq!["validation_errors:"@];
    assert(texts(lines@) =~= start);
    let ghost marked = messages.map_values(|message: Seq<char>| "  - "@ + message);
    let mut i: usize = 0;
    assert(texts(lines@) =~= start + marked.take(0));
    while i < errors.len()
        invariant
            i <= errors@.len(),
            messages == texts(errors@),
            marked == messages.map_values(|message: Seq<char>| "  - "@ + message),
            texts(lines@) == start + marked.take(i as int),
        decreases errors@.len() - i,
    {
        let ghost before = lines@;
        let line = "  - ".to_string().concat(errors[i].as_str());
        lines.push(line);
        proof {
            assert(messages[i as int] == errors@[i as int]@);
            assert(marked[i as int] == line@);
            assert(texts(lines@) =~= texts(before).push(line@));
            assert(marked.take(i + 1) =~= marked.take(i as int).push(line@));
            assert(texts(lines@) =~= start + marked.take(i + 1));
        }
        i = i + 1;
    }
    assert(marked.take(i as int) =~= marked);
    lines
}

// ---------------------------------------------------------------------------
// Laws
// ---------------------------------------------------------------------------

/// Each command goes by its own word, and no other word is a command.
pub proof fn lemma_commands_by_word(word: Seq<char>)
    ensures
        command_of(word) == Some(Command::Validate) <==> word == "validate"@,
        command_of(word) == Some(Command::Once) <==> word == "once"@,
        command_of(word) == Some(Command::Snapshot) <==> word == "snapshot"@,
        command_of(word) == Some(Command::Serve) <==> word == "serve"@,
{
    reveal_strlit("validate");
    reveal_strlit("once");
    reveal_strlit("snapshot");
    reveal_strlit("serve");
    assert("validate"@.len() != "once"@.len());
    assert("validate"@[0] != "snapshot"@[0]);
    assert("validate"@.len() != "serve"@.len());
    assert("once"@.len() != "snapshot"@.len());
    assert("once"@.len() != "serve"@.len());
    assert("snapshot"@.len() != "serve"@.len());
}

/// The first plain word is the first one at or behind a place that is no option; there
/// is none exactly if all are options.
pub proof fn lemma_first_plain_word(words: Seq<Seq<char>>, k: int)
    requires
        0 <= k <= words.len(),
    ensures
        first_plain(words, k) is None <==> forall|i: int|
            k <= i < words.len() ==> "--"@.is_prefix_of(#[trigger] words[i]),
        first_plain(words, k) matches Some(word) ==> !"--"@.is_prefix_of(word) && exists|i: int|
            k <= i < words.len() && #[trigger] words[i] == word && forall|j: int|
                k <= j < i ==> "--"@.is_prefix_of(#[trigger] words[j]),
    decreases words.len() - k,
{
    if k < words.len() {
        lemma_first_plain_word(words, k + 1);
        if "--"@.is_prefix_of(words[k]) {
            if let Some(word) = first_plain(words, k + 1) {
                let i = choose|i: int|
                    k + 1 <= i < words.len() && #[trigger] words[i] == word && forall|j: int|
                        k + 1 <= j < i ==> "--"@.is_prefix_of(#[trigger] words[j]);
                assert(words[i] == word);
            }
        } else {
            assert(words[k] == first_plain(words, k)->0);
        }
    }
}

/// A report tells of the path, of whether there is a prompt, of whether work can be
/// dispatched, and, where it cannot, of everything that is missing, one in each line.
pub proof fn lemma_report_tells_what_is_missing(
    path: Seq<char>,
    prompt: Seq<char>,
    config: ServiceModel,
)
    ensures
        ({
            let lines = report_lines(path, prompt, config);
            let gaps = config_gaps(config);
            &&& lines[0] == "workflow_path="@ + path
            &&& trim(prompt).len() > 0 ==> lines[1] == "prompt_present="@ + "true"@
            &&& trim(prompt).len() == 0 ==> lines[1] == "prompt_present="@ + "false"@
            &&& gaps.len() == 0 ==> lines.len() == 3 && lines[2] == "dispatch_ready="@ + "true"@
            &&& gaps.len() > 0 ==> lines.len() == 4 + gaps.len() && lines[2] == "dispatch_ready="@
                + "false"@ && lines[3] == "validation_errors:"@ && forall|i: int|
                0 <= i < gaps.len() ==> lines[4 + i] == "  - "@ + #[trigger] gap_message(gaps[i])
        }),
{
}

/// The words by which wrong arguments are answered name what is wrong.
pub proof fn lemma_usage_words(word: Seq<char>)
    ensures
        usage_message(word) == "unknown command `"@ + word
            + "`\nusage: symphony-rs [validate|once|snapshot|serve] [WORKFLOW.md] ["@
            + "--i-understand-that-this-will-be-running-without-the-usual-guardrails"@ + "]"@,
        missing_flag_message() == "missing required acknowledgement flag `"@
            + "--i-understand-that-this-will-be-running-without-the-usual-guardrails"@ + "`"@,
{
}

/// The service is started only with the word that acknowledges what that means, which
/// no other command needs. The workflow is the first word behind the command that is
/// no option, or `WORKFLOW.md`.
pub proof fn lemma_service_needs_its_word(words: Seq<Seq<char>>)
    requires
        words.len() > 0,
    ensures
        ({
            let flag = "--i-understand-that-this-will-be-running-without-the-usual-guardrails"@;
            let other = words[0] == "validate"@ || words[0] == "once"@ || words[0] == "snapshot"@;
            &&& words[0] == "serve"@ ==> (invocation_of(words) is Ok <==> words.contains(flag))
            &&& other ==> invocation_of(words) is Ok
            &&& !other && words[0] != "serve"@ ==> invocation_of(words) is Err
            &&& invocation_of(words) matches Ok((command, path)) ==> {
                &&& command == Command::Validate <==> words[0] == "validate"@
                &&& command == Command::Once <==> words[0] == "once"@
                &&& command == Command::Snapshot <==> words[0] == "snapshot"@
                &&& command == Command::Serve <==> words[0] == "serve"@
                &&& words.len() > 1 && !"--"@.is_prefix_of(words[1]) ==> path == words[1]
                &&& words.len() == 1 ==> path == "WORKFLOW.md"@
            }
        }),
{
    lemma_commands_by_word(words[0]);
}

} // verus!
