//! Workflow files: a configuration between two lines of dashes, and the template
//! of the prompt below it.

use crate::domain::WorkflowDefinition;
use crate::text::{
    blank, is_blank, join, joined, lines, same_text, split_lines, strings_from, texts, trim,
    trimmed,
};
use vstd::prelude::*;
use vstd::string::*;

verus! {

// ---------------------------------------------------------------------------
// Errors
// ---------------------------------------------------------------------------

/// Why a workflow cannot be used.
#[derive(Debug, PartialEq, Eq)]
pub enum WorkflowError {
    MissingWorkflowFile(String),
    WorkflowParseError(String),
    WorkflowFrontMatterNotMap,
}

/// The model of why a workflow cannot be used.
pub enum WorkflowFault {
    MissingWorkflowFile(Seq<char>),
    WorkflowParseError(Seq<char>),
    WorkflowFrontMatterNotMap,
}

impl View for WorkflowError {
    type V = WorkflowFault;

    open spec fn view(&self) -> WorkflowFault {
        match *self {
            WorkflowError::MissingWorkflowFile(path) => WorkflowFault::MissingWorkflowFile(path@),
            WorkflowError::WorkflowParseError(reason) => WorkflowFault::WorkflowParseError(reason@),
            WorkflowError::WorkflowFrontMatterNotMap => WorkflowFault::WorkflowFrontMatterNotMap,
        }
    }
}

/// The message of an error.
pub open spec fn workflow_message(fault: WorkflowFault) -> Seq<char> {
    match fault {
        WorkflowFault::MissingWorkflowFile(path) => "missing_workflow_file: "@ + path,
        WorkflowFault::WorkflowParseError(reason) => "workflow_parse_error: "@ + reason,
        WorkflowFault::WorkflowFrontMatterNotMap => "workflow_front_matter_not_a_map"@,
    }
}

impl WorkflowError {
    /// The message of the error.
    pub fn message(&self) -> (r: String)
        ensures
            r@ == workflow_message(self@),
    {
        match self {
            WorkflowError::MissingWorkflowFile(path) => "missing_workflow_file: ".to_string()
                .concat(path.as_str()),
            WorkflowError::WorkflowParseError(reason) => "workflow_parse_error: ".to_string()
                .concat(reason.as_str()),
            WorkflowError::WorkflowFrontMatterNotMap =>
                "workflow_front_matter_not_a_map".to_string(),
        }
    }
}

impl Clone for WorkflowError {
    fn clone(&self) -> (r: WorkflowError)
        ensures
            r == *self,
    {
        match self {
            WorkflowError::MissingWorkflowFile(path) => WorkflowError::MissingWorkflowFile(
                path.clone(),
            ),
            WorkflowError::WorkflowParseError(reason) => WorkflowError::WorkflowParseError(
                reason.clone(),
            ),
            WorkflowError::WorkflowFrontMatterNotMap => WorkflowError::WorkflowFrontMatterNotMap,
        }
    }
}

// ---------------------------------------------------------------------------
// The two parts of a file
// ---------------------------------------------------------------------------

/// Where the line of dashes that ends the configuration stands, looking from
/// line `from` on.
pub open spec fn closing_line(all: Seq<Seq<char>>, from: int) -> Option<int>
    decreases all.len() - from,
{
    if from < 0 || from >= all.len() {
        None
    } else if all[from] == "---"@ {
        Some(from)
    } else {
        closing_line(all, from + 1)
    }
}

/// The lines of the configuration and those of the prompt. Without a line of
/// dashes at the top all lines are prompt; without a second one none are.
pub open spec fn front_and_prompt(all: Seq<Seq<char>>) -> (Seq<Seq<char>>, Seq<Seq<char>>) {
    if all.len() > 0 && all[0] == "---"@ {
        match closing_line(all, 1) {
            Some(end) => (all.subrange(1, end), all.skip(end + 1)),
            None => (all.skip(1), Seq::empty()),
        }
    } else {
        (Seq::empty(), all)
    }
}

/// The lines of the configuration and those of the prompt.
pub fn split_front_matter(contents: &str) -> (r: (Vec<String>, Vec<String>))
    ensures
        (texts(r.0@), texts(r.1@)) == front_and_prompt(lines(contents@)),
{
    let all = split_lines(contents);
    let ghost whole = texts(all@);
    assert(whole.len() == all@.len());
    if all.len() == 0 || !same_text(all[0].as_str(), "---") {
        let none: Vec<String> = Vec::new();
        assert(texts(none@) =~= Seq::empty());
        proof {
            if all@.len() > 0 {
                assert(whole[0] == all@[0]@);
            }
        }
        return (none, all);
    }
    assert(whole[0] == all@[0]@);
    let mut front: Vec<String> = Vec::new();
    let mut i: usize = 1;
    assert(texts(front@) =~= whole.subrange(1, 1));
    while i < all.len() && !same_text(all[i].as_str(), "---")
        invariant
            1 <= i <= all@.len(),
            whole == texts(all@),
            texts(front@) == whole.subrange(1, i as int),
            closing_line(whole, 1) == closing_line(whole, i as int),
        decreases all@.len() - i,
    {
        let ghost before = front@;
        front.push(all[i].clone());
        assert(texts(front@) =~= texts(before).push(whole[i as int]));
        assert(whole.subrange(1, i + 1) =~= whole.subrange(1, i as int).push(whole[i as int]));
        i = i + 1;
    }
    if i < all.len() {
        assert(whole[i as int] == all@[i as int]@);
        let prompt = strings_from(&all, i + 1);
        assert(texts(prompt@) =~= whole.skip(i + 1));
        (front, prompt)
    } else {
        let none: Vec<String> = Vec::new();
        assert(texts(none@) =~= Seq::empty());
        assert(whole.subrange(1, i as int) =~= whole.skip(1));
        (front, none)
    }
}

// ---------------------------------------------------------------------------
// The configuration
// ---------------------------------------------------------------------------

/// What a YAML text holds.
#[derive(Debug)]
pub enum YamlDocument {
    Mapping(serde_yaml::Mapping),
    Other,
    Invalid(String),
}

/// The model of what a YAML text holds.
pub enum YamlModel {
    Mapping(serde_yaml::Mapping),
    Other,
    Invalid(Seq<char>),
}

impl View for YamlDocument {
    type V = YamlModel;

    open spec fn view(&self) -> YamlModel {
        match *self {
            YamlDocument::Mapping(mapping) => YamlModel::Mapping(mapping),
            YamlDocument::Other => YamlModel::Other,
            YamlDocument::Invalid(message) => YamlModel::Invalid(message@),
        }
    }
}

/// What `serde_yaml` reads from a text.
pub uninterp spec fn yaml_parsed(text: Seq<char>) -> YamlModel;

/// How many entries a mapping of `serde_yaml` has.
pub uninterp spec fn mapping_size(mapping: serde_yaml::Mapping) -> nat;

/// `serde_yaml::from_str` into a `Value`: what it reads depends on the text
/// alone. A mapping, another value and an error are told apart.
#[verifier::external_body]
fn serde_yaml_parse(text: &str) -> (r: YamlDocument)
    ensures
        r@ == yaml_parsed(text@),
{
    match serde_yaml::from_str::<serde_yaml::Value>(text) {
        Ok(serde_yaml::Value::Mapping(mapping)) => YamlDocument::Mapping(mapping),
        Ok(_) => YamlDocument::Other,
        Err(error) => YamlDocument::Invalid(error.to_string()),
    }
}

/// `Mapping::new`: the mapping has no entries.
#[verifier::external_body]
fn serde_yaml_mapping() -> (r: serde_yaml::Mapping)
    ensures
        mapping_size(r) == 0,
{
    serde_yaml::Mapping::new()
}

/// The configuration that a YAML text holds.
pub fn config_of_document(document: YamlDocument) -> (r: Result<serde_yaml::Mapping, WorkflowError>)
    ensures
        match document {
            YamlDocument::Mapping(mapping) => r == Ok::<serde_yaml::Mapping, WorkflowError>(mapping),
            YamlDocument::Other => r == Err::<serde_yaml::Mapping, WorkflowError>(
                WorkflowError::WorkflowFrontMatterNotMap,
            ),
            YamlDocument::Invalid(message) => r == Err::<serde_yaml::Mapping, WorkflowError>(
                WorkflowError::WorkflowParseError(message),
            ),
        },
{
    match document {
        YamlDocument::Mapping(mapping) => Ok(mapping),
        YamlDocument::Other => Err(WorkflowError::WorkflowFrontMatterNotMap),
        YamlDocument::Invalid(message) => Err(WorkflowError::WorkflowParseError(message)),
    }
}

/// Whether a result is the configuration of a text: an empty one for a blank
/// text, and otherwise the mapping that the text holds, or why there is none.
pub open spec fn is_config_of(text: Seq<char>, r: Result<serde_yaml::Mapping, WorkflowFault>) -> bool {
    if is_blank(text) {
        r matches Ok(mapping) && mapping_size(mapping) == 0
    } else {
        match yaml_parsed(text) {
            YamlModel::Mapping(mapping) => r == Ok::<serde_yaml::Mapping, WorkflowFault>(mapping),
            YamlModel::Other => r == Err::<serde_yaml::Mapping, WorkflowFault>(
                WorkflowFault::WorkflowFrontMatterNotMap,
            ),
            YamlModel::Invalid(message) => r == Err::<serde_yaml::Mapping, WorkflowFault>(
                WorkflowFault::WorkflowParseError(message),
            ),
        }
    }
}

/// The configuration of a text.
pub fn parse_front_matter(contents: &str) -> (r: Result<serde_yaml::Mapping, WorkflowError>)
    ensures
        is_config_of(
            contents@,
            match r {
                Ok(mapping) => Ok(mapping),
                Err(error) => Err(error@),
            },
        ),
{
    if blank(contents) {
        return Ok(serde_yaml_mapping());
    }
    config_of_document(serde_yaml_parse(contents))
}

/// The reader of workflow files.
pub struct WorkflowLoader;

impl WorkflowLoader {
    /// The workflow of a file that was read, or could not be read.
    pub fn from_contents(path: &str, contents: Option<String>) -> (r: Result<
        WorkflowDefinition,
        WorkflowError,
    >)
        ensures
            match contents {
                Some(text) => is_workflow_of(text@, r),
                None => r matches Err(error) && error@ == WorkflowFault::MissingWorkflowFile(path@),
            },
    {
        match contents {
            Some(text) => WorkflowLoader::parse(text.as_str()),
            None => Err(WorkflowError::MissingWorkflowFile(path.to_string())),
        }
    }

    /// The workflow of a text.
    pub fn parse(contents: &str) -> (r: Result<WorkflowDefinition, WorkflowError>)
        ensures
            is_workflow_of(contents@, r),
    {
        let (front, prompt) = split_front_matter(contents);
        let yaml = joined(&front, "\n");
        match parse_front_matter(yaml.as_str()) {
            Ok(config) => {
                let prompt_template = trimmed(joined(&prompt, "\n").as_str());
                Ok(WorkflowDefinition { config, prompt_template })
            },
            Err(error) => Err(error),
        }
    }
}

/// The text of the configuration of a workflow.
pub open spec fn front_text(contents: Seq<char>) -> Seq<char> {
    join(front_and_prompt(lines(contents)).0, "\n"@)
}

/// The template of the prompt of a workflow.
pub open spec fn prompt_text(contents: Seq<char>) -> Seq<char> {
    trim(join(front_and_prompt(lines(contents)).1, "\n"@))
}

/// Whether a result is the workflow of a text.
pub open spec fn is_workflow_of(
    contents: Seq<char>,
    r: Result<WorkflowDefinition, WorkflowError>,
) -> bool {
    match r {
        Ok(workflow) => {
            &&& is_config_of(front_text(contents), Ok(workflow.config))
            &&& workflow.prompt_template@ == prompt_text(contents)
        },
        Err(error) => is_config_of(front_text(contents), Err(error@)),
    }
}

// ---------------------------------------------------------------------------
// Laws
// ---------------------------------------------------------------------------

/// A file without a line of dashes at its top is all prompt: it is accepted,
/// with an empty configuration.
pub proof fn lemma_prompt_only(contents: Seq<char>, r: Result<WorkflowDefinition, WorkflowError>)
    requires
        is_workflow_of(contents, r),
        lines(contents).len() == 0 || lines(contents)[0] != "---"@,
    ensures
        r matches Ok(workflow) && mapping_size(workflow.config) == 0
            && workflow.prompt_template@ == trim(join(lines(contents), "\n"@)),
{
    let nothing = front_text(contents);
    assert(nothing =~= Seq::<char>::empty());
    assert(trim(nothing) =~= Seq::<char>::empty());
}

/// The lines between the first two lines of dashes are the configuration, and
/// those behind are the prompt, whatever they hold.
pub proof fn lemma_front_and_prompt(front: Seq<Seq<char>>, prompt: Seq<Seq<char>>)
    requires
        forall|i: int| 0 <= i < front.len() ==> #[trigger] front[i] != "---"@,
    ensures
        front_and_prompt(seq!["---"@] + front + seq!["---"@] + prompt) == (front, prompt),
{
    let all = seq!["---"@] + front + seq!["---"@] + prompt;
    lemma_closing_line(all, front, 1);
    let end = front.len() as int + 1;
    assert(all.subrange(1, end) =~= front);
    assert(all.skip(end + 1) =~= prompt);
}

proof fn lemma_closing_line(all: Seq<Seq<char>>, front: Seq<Seq<char>>, from: int)
    requires
        1 <= from <= front.len() + 1,
        all.len() > front.len() + 1,
        all[front.len() as int + 1] == "---"@,
        forall|i: int| 0 <= i < front.len() ==> all[i + 1] == #[trigger] front[i],
        forall|i: int| 0 <= i < front.len() ==> #[trigger] front[i] != "---"@,
    ensures
        closing_line(all, from) == Some(front.len() as int + 1),
    decreases front.len() + 1 - from,
{
    if from <= front.len() {
        assert(all[from] == front[from - 1]);
        lemma_closing_line(all, front, from + 1);
    }
}

/// A file whose front part is not closed has no prompt: all behind its first line is
/// configuration.
pub proof fn lemma_open_front_has_no_prompt(front: Seq<Seq<char>>)
    requires
        forall|i: int| 0 <= i < front.len() ==> #[trigger] front[i] != "---"@,
    ensures
        front_and_prompt(seq!["---"@] + front) == (front, Seq::<Seq<char>>::empty()),
{
    let all = seq!["---"@] + front;
    assert forall|i: int| 1 <= i < all.len() implies #[trigger] all[i] != "---"@ by {
        assert(all[i] == front[i - 1]);
    }
    lemma_no_closing_line(all, 1);
    assert(all.skip(1) =~= front);
}

proof fn lemma_no_closing_line(all: Seq<Seq<char>>, from: int)
    requires
        0 <= from,
        forall|i: int| from <= i < all.len() ==> #[trigger] all[i] != "---"@,
    ensures
        closing_line(all, from) is None,
    decreases all.len() - from,
{
    if from < all.len() {
        lemma_no_closing_line(all, from + 1);
    }
}

/// A workflow has its configuration from what stands between the two lines of dashes,
/// and its prompt from what stands behind them, without outer blanks.
pub proof fn lemma_workflow_is_read_in_parts(
    contents: Seq<char>,
    front: Seq<Seq<char>>,
    prompt: Seq<Seq<char>>,
    r: Result<WorkflowDefinition, WorkflowError>,
)
    requires
        lines(contents) == seq!["---"@] + front + seq!["---"@] + prompt,
        forall|i: int| 0 <= i < front.len() ==> #[trigger] front[i] != "---"@,
        is_workflow_of(contents, r),
    ensures
        ({
            let text = join(front, "\n"@);
            &&& r matches Ok(workflow) ==> workflow.prompt_template@ == trim(join(prompt, "\n"@))
            &&& trim(text).len() == 0 ==> (r matches Ok(workflow) && mapping_size(workflow.config)
                == 0)
            &&& trim(text).len() > 0 ==> match yaml_parsed(text) {
                YamlModel::Mapping(mapping) => r matches Ok(workflow) && workflow.config == mapping,
                YamlModel::Other => r matches Err(error) && error@
                    == WorkflowFault::WorkflowFrontMatterNotMap,
                YamlModel::Invalid(message) => r matches Err(error) && error@
                    == WorkflowFault::WorkflowParseError(message),
            }
        }),
{
    lemma_front_and_prompt(front, prompt);
}

/// The messages of errors name what they are about.
pub proof fn lemma_workflow_messages(text: Seq<char>)
    ensures
        workflow_message(WorkflowFault::MissingWorkflowFile(text)) == "missing_workflow_file: "@
            + text,
        workflow_message(WorkflowFault::WorkflowParseError(text)) == "workflow_parse_error: "@
            + text,
        workflow_message(WorkflowFault::WorkflowFrontMatterNotMap)
            == "workflow_front_matter_not_a_map"@,
{
}

} // verus!
