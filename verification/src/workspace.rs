//! Workspaces: the directories in which attempts at issues work, and the
//! commands that run around them.

use crate::codex::{breaks_line, has_line_break};
use crate::config::{HooksModel, ServiceConfig, ServiceModel};
use crate::domain::{example_issue, Issue, IssueModel};
use crate::path_safety::{
    climbs, components, file_name, is_absolute, is_below, is_name, join_all, join_path, joined_path,
    leads_down, lemma_below_leads_down, lemma_components_of_child, lemma_components_of_dot,
    lemma_join_all_end, lemma_join_all_push, lemma_one_part_leads_down, lemma_parts_are_names,
    lemma_walk_without_links, lies_below, names_below, path_climbs, path_failure, path_file_name,
    path_parts, same_path, walk_run, walk_start, without_links, PathSafetyError, ProbeModel,
};
use crate::ssh::{escaped, lemma_shell_reads_escaped, shell_escape, shell_reads, Quote};
use crate::text::{
    blank, char_is_digit, char_is_letter, chars_of, find_char, first_char, is_blank, is_digit,
    is_letter, join, joined, lines, opt_text, same_text, signed_decimal, signed_decimal_text,
    split_lines, string_of, texts, trim,
};
use crate::timestamp::{valid_time, TimePoint};
use vstd::prelude::*;
use vstd::string::*;

verus! {

/// The word by which the answer of a remote host is found in its output.
pub const REMOTE_WORKSPACE_MARKER: &'static str = "__SYMPHONY_WORKSPACE__";

// ---------------------------------------------------------------------------
// Errors
// ---------------------------------------------------------------------------

/// Why a workspace cannot be used.
#[derive(Debug, PartialEq, Eq)]
pub struct WorkspaceError {
    message: String,
}

impl View for WorkspaceError {
    type V = Seq<char>;

    closed spec fn view(&self) -> Seq<char> {
        self.message@
    }
}

impl WorkspaceError {
    /// The error with a message.
    pub fn new(message: &str) -> (r: WorkspaceError)
        ensures
            r@ == message@,
    {
        WorkspaceError { message: message.to_string() }
    }

    /// The message of the error.
    pub fn message(&self) -> (r: String)
        ensures
            r@ == self@,
    {
        self.message.clone()
    }

    /// The error of something that failed for a reason.
    pub fn failed(what: &str, reason: &str) -> (r: WorkspaceError)
        ensures
            r@ == what@ + ": "@ + reason@,
    {
        WorkspaceError::new(what.to_string().concat(": ").concat(reason).as_str())
    }
}

impl Clone for WorkspaceError {
    fn clone(&self) -> (r: WorkspaceError)
        ensures
            r@ == self@,
    {
        WorkspaceError { message: self.message.clone() }
    }
}

/// A check that passed, or the message of what it found.
pub open spec fn passed(r: Result<(), WorkspaceError>) -> Option<Seq<char>> {
    match r {
        Ok(_) => None,
        Err(error) => Some(error@),
    }
}

// ---------------------------------------------------------------------------
// Names of workspaces
// ---------------------------------------------------------------------------

/// Whether a character can stand in the name of a workspace.
pub open spec fn is_key_char(c: char) -> bool {
    is_letter(c) || is_digit(c) || c == '.' || c == '_' || c == '-'
}

/// The character that stands in the name of a workspace.
pub open spec fn key_char(c: char) -> char {
    if is_key_char(c) {
        c
    } else {
        '_'
    }
}

/// The name of the workspace of an issue.
pub open spec fn workspace_key(identifier: Seq<char>) -> Seq<char> {
    if identifier.len() == 0 {
        "_"@
    } else {
        identifier.map_values(|c: char| key_char(c))
    }
}

/// The name of the workspace of an issue.
pub fn sanitize_workspace_key(identifier: &str) -> (r: String)
    ensures
        r@ == workspace_key(identifier@),
{
    let cs = chars_of(identifier);
    if cs.len() == 0 {
        return "_".to_string();
    }
    let mut out = String::new();
    let mut i: usize = 0;
    while i < cs.len()
        invariant
            i <= cs@.len(),
            cs@ == identifier@,
            out@.len() == i,
            forall|j: int| 0 <= j < i ==> #[trigger] out@[j] == key_char(cs@[j]),
        decreases cs@.len() - i,
    {
        let c = cs[i];
        if char_is_letter(c) || char_is_digit(c) || c == '.' || c == '_' || c == '-' {
            out.push(c);
        } else {
            out.push('_');
        }
        i = i + 1;
    }
    assert(out@ =~= identifier@.map_values(|c: char| key_char(c)));
    out
}

/// The path of the workspace of an issue.
pub open spec fn workspace_path(root: Seq<char>, identifier: Seq<char>) -> Seq<char> {
    join_path(root, workspace_key(identifier))
}

// ---------------------------------------------------------------------------
// Remote scripts
// ---------------------------------------------------------------------------

/// The lines that set a variable of a remote shell to a path. The `case` behind it
/// looks at the number of the shell's process followed by the name of the variable,
/// so none of its patterns is met and the path stays as it is given.
pub open spec fn assign_lines(variable: Seq<char>, path: Seq<char>) -> Seq<Seq<char>> {
    seq![
        variable + "="@ + escaped(path),
        "case \"$$"@ + variable + "\" in"@,
        "  '~') "@ + variable + "=\"$HOME\" ;;"@,
        "  '~/'*) "@ + variable + "=\"$HOME/${"@ + variable + "#~/}\" ;;"@,
        "esac"@,
    ]
}

/// The text of the lines that set a variable of a remote shell to a path.
pub fn remote_shell_assign(variable_name: &str, raw_path: &str) -> (r: String)
    ensures
        r@ == join(assign_lines(variable_name@, raw_path@), "\n"@),
{
    let lines = vec![
        variable_name.to_string().concat("=").concat(shell_escape(raw_path).as_str()),
        "case \"$$".to_string().concat(variable_name).concat("\" in"),
        "  '~') ".to_string().concat(variable_name).concat("=\"$HOME\" ;;"),
        "  '~/'*) ".to_string().concat(variable_name).concat("=\"$HOME/${").concat(variable_name)
            .concat("#~/}\" ;;"),
        "esac".to_string(),
    ];
    assert(texts(lines@) =~= assign_lines(variable_name@, raw_path@));
    joined(&lines, "\n")
}

/// The lines that make a workspace on a remote host and tell of it.
pub open spec fn prepare_lines(path: Seq<char>) -> Seq<Seq<char>> {
    seq![
        "set -eu"@,
        join(assign_lines("workspace"@, path), "\n"@),
        "if [ -d \"$workspace\" ]; then"@,
        "  created=0"@,
        "elif [ -e \"$workspace\" ]; then"@,
        "  rm -rf \"$workspace\""@,
        "  mkdir -p \"$workspace\""@,
        "  created=1"@,
        "else"@,
        "  mkdir -p \"$workspace\""@,
        "  created=1"@,
        "fi"@,
        "cd \"$workspace\""@,
        "printf '%s\\t%s\\t%s\\n' '__SYMPHONY_WORKSPACE__' \"$created\" \"$(pwd -P)\""@,
    ]
}

/// The script that makes a workspace on a remote host and tells of it.
pub fn prepare_script(workspace: &str) -> (r: String)
    ensures
        r@ == join(prepare_lines(workspace@), "\n"@),
{
    let lines = vec![
        "set -eu".to_string(),
        remote_shell_assign("workspace", workspace),
        "if [ -d \"$workspace\" ]; then".to_string(),
        "  created=0".to_string(),
        "elif [ -e \"$workspace\" ]; then".to_string(),
        "  rm -rf \"$workspace\"".to_string(),
        "  mkdir -p \"$workspace\"".to_string(),
        "  created=1".to_string(),
        "else".to_string(),
        "  mkdir -p \"$workspace\"".to_string(),
        "  created=1".to_string(),
        "fi".to_string(),
        "cd \"$workspace\"".to_string(),
        "printf '%s\\t%s\\t%s\\n' '__SYMPHONY_WORKSPACE__' \"$created\" \"$(pwd -P)\"".to_string(),
    ];
    assert(texts(lines@) =~= prepare_lines(workspace@));
    joined(&lines, "\n")
}

/// The script that removes a workspace from a remote host.
pub fn remove_script(workspace: &str) -> (r: String)
    ensures
        r@ == join(assign_lines("workspace"@, workspace@), "\n"@) + "\nrm -rf \"$workspace\""@,
{
    remote_shell_assign("workspace", workspace).concat("\nrm -rf \"$workspace\"")
}

/// The script that runs a hook for an issue in its workspace.
pub open spec fn hook_script_text(
    command: Seq<char>,
    workspace: Seq<char>,
    id: Seq<char>,
    identifier: Seq<char>,
) -> Seq<char> {
    join(assign_lines("workspace"@, workspace), "\n"@)
        + "\ncd \"$workspace\"\nexport SYMPHONY_ISSUE_ID="@ + escaped(id)
        + "\nexport SYMPHONY_ISSUE_IDENTIFIER="@ + escaped(identifier) + "\n"@ + command
}

/// The script that runs a hook on a remote host.
pub fn hook_script(command: &str, workspace: &str, issue: &Issue) -> (r: String)
    ensures
        r@ == hook_script_text(command@, workspace@, issue@.id, issue@.identifier),
        r@ == join(assign_lines("workspace"@, workspace@), "\n"@)
            + "\ncd \"$workspace\"\nexport SYMPHONY_ISSUE_ID="@ + escaped(issue@.id)
            + "\nexport SYMPHONY_ISSUE_IDENTIFIER="@ + escaped(issue@.identifier) + "\n"@
            + command@,
{
    remote_shell_assign("workspace", workspace).concat(
        "\ncd \"$workspace\"\nexport SYMPHONY_ISSUE_ID=",
    ).concat(shell_escape(issue.id.as_str()).as_str()).concat(
        "\nexport SYMPHONY_ISSUE_IDENTIFIER=",
    ).concat(shell_escape(issue.identifier.as_str()).as_str()).concat("\n").concat(command)
}

/// What stands before and behind the first two tabs of a line.
pub open spec fn tab_parts(line: Seq<char>) -> Option<(Seq<char>, Seq<char>, Seq<char>)> {
    match first_char(line, '\t') {
        Some(i) => {
            let rest = line.skip(i + 1);
            match first_char(rest, '\t') {
                Some(j) => Some((line.take(i), rest.take(j), rest.skip(j + 1))),
                None => None,
            }
        },
        None => None,
    }
}

/// Whether a line tells of a workspace: whether it was made, and where it is.
pub open spec fn marked_line(line: Seq<char>) -> Option<(bool, Seq<char>)> {
    match tab_parts(line) {
        Some((marker, made, path)) => if marker == "__SYMPHONY_WORKSPACE__"@ {
            Some((made == "1"@, path))
        } else {
            None
        },
        None => None,
    }
}

/// The first of the lines, from `k` on, that tells of a workspace.
pub open spec fn first_marked(all: Seq<Seq<char>>, k: int) -> Option<(bool, Seq<char>)>
    decreases all.len() - k,
{
    if k < 0 || k >= all.len() {
        None
    } else {
        match marked_line(all[k]) {
            Some(found) => Some(found),
            None => first_marked(all, k + 1),
        }
    }
}

fn read_marked_line(line: &str) -> (r: Option<(bool, String)>)
    ensures
        match r {
            Some((made, path)) => marked_line(line@) == Some((made, path@)),
            None => marked_line(line@) is None,
        },
{
    let cs = chars_of(line);
    assert(cs@.skip(0) =~= cs@);
    let length: usize = cs.len();
    match find_char(&cs, 0, '\t') {
        Some(i) => {
            assert(i < length);
            match find_char(&cs, i + 1, '\t') {
                Some(j) => {
                    assert(j < length);
                    let marker = string_of(&cs, 0, i);
                    let made = string_of(&cs, i + 1, j);
                    let path = string_of(&cs, j + 1, cs.len());
                    proof {
                        let rest = line@.skip(i + 1);
                        assert(marker@ =~= line@.take(i as int));
                        assert(made@ =~= rest.take(j - (i + 1)));
                        assert(path@ =~= rest.skip(j - (i + 1) + 1));
                    }
                    if same_text(marker.as_str(), REMOTE_WORKSPACE_MARKER) {
                        Some((same_text(made.as_str(), "1"), path))
                    } else {
                        None
                    }
                },
                None => None,
            }
        },
        None => None,
    }
}

/// What a remote host says of a workspace that it was to make.
pub fn parse_remote_workspace_output(output: &str) -> (r: Result<(bool, String), WorkspaceError>)
    ensures
        match first_marked(lines(output@), 0) {
            Some((made, path)) => r matches Ok(found) && found.0 == made && found.1@ == path,
            None => r matches Err(error) && error@ == "workspace_prepare_failed"@ + ": "@
                + ("invalid output "@ + output@),
        },
{
    let all = split_lines(output);
    let ghost whole = texts(all@);
    let mut i: usize = 0;
    while i < all.len()
        invariant
            i <= all@.len(),
            whole == texts(all@),
            whole == lines(output@),
            first_marked(whole, 0) == first_marked(whole, i as int),
        decreases all@.len() - i,
    {
        assert(whole[i as int] == all@[i as int]@);
        match read_marked_line(all[i].as_str()) {
            Some(found) => {
                return Ok(found);
            },
            None => {},
        }
        i = i + 1;
    }
    Err(
        WorkspaceError::failed(
            "workspace_prepare_failed",
            "invalid output ".to_string().concat(output).as_str(),
        ),
    )
}

// ---------------------------------------------------------------------------
// Output of commands
// ---------------------------------------------------------------------------

/// How a command ended, and what it wrote.
#[derive(Debug)]
pub struct CommandOutput {
    pub success: bool,
    pub code: Option<i32>,
    pub stdout: String,
}

/// The status of a command, or minus one where it has none.
pub open spec fn status_number(code: Option<i32>) -> int {
    match code {
        Some(n) => n as int,
        None => -1,
    }
}

fn status_text(code: Option<i32>) -> (r: String)
    ensures
        r@ == signed_decimal(status_number(code)),
{
    let number: i64 = match code {
        Some(n) => n as i64,
        None => -1,
    };
    signed_decimal_text(number)
}

/// How many bytes a character takes in UTF-8.
pub open spec fn byte_width(c: char) -> nat {
    if c <= '\u{7f}' {
        1
    } else if c <= '\u{7ff}' {
        2
    } else if c <= '\u{ffff}' {
        3
    } else {
        4
    }
}

/// How many bytes a text takes in UTF-8.
pub open spec fn byte_length(s: Seq<char>) -> nat
    decreases s.len(),
{
    if s.len() == 0 {
        0
    } else {
        byte_length(s.drop_last()) + byte_width(s.last())
    }
}

/// Whether the first 2048 bytes of a text end with a whole character.
pub open spec fn cuts_at_limit(s: Seq<char>, k: int) -> bool {
    0 <= k <= s.len() && byte_length(s.take(k)) == 2048
}

/// Whether a text is short, or can be cut at the limit between two characters.
pub open spec fn can_be_shown(s: Seq<char>) -> bool {
    byte_length(s) <= 2048 || exists|k: int| cuts_at_limit(s, k)
}

/// Whether a text is what is shown of an output: the whole of a short one, and
/// the first 2048 bytes of a longer one.
pub open spec fn is_shown(s: Seq<char>, shown: Seq<char>) -> bool {
    if byte_length(s) <= 2048 {
        shown == s
    } else {
        exists|k: int| #[trigger] cuts_at_limit(s, k) && shown == s.take(k) + "... (truncated)"@
    }
}

fn width_of(c: char) -> (r: usize)
    ensures
        r == byte_width(c),
        1 <= r <= 4,
{
    if c <= '\u{7f}' {
        1
    } else if c <= '\u{7ff}' {
        2
    } else if c <= '\u{ffff}' {
        3
    } else {
        4
    }
}

proof fn lemma_byte_length_grows(s: Seq<char>, a: int, b: int)
    requires
        0 <= a <= b <= s.len(),
    ensures
        byte_length(s.take(b)) >= byte_length(s.take(a)) + (b - a),
    decreases b - a,
{
    if a < b {
        lemma_byte_length_grows(s, a, b - 1);
        assert(s.take(b).drop_last() =~= s.take(b - 1));
    }
}

/// Where the characters that start within the first 2048 bytes end, and how many
/// bytes they take.
fn limit_of(cs: &Vec<char>) -> (r: (usize, usize))
    ensures
        r.0 <= cs@.len(),
        r.1 == byte_length(cs@.take(r.0 as int)),
        r.1 >= 2048 || r.0 == cs@.len(),
        r.0 > 0 ==> byte_length(cs@.take(r.0 - 1)) < 2048,
{
    let mut i: usize = 0;
    let mut total: usize = 0;
    assert(cs@.take(0) =~= Seq::empty());
    while i < cs.len() && total < 2048
        invariant
            i <= cs@.len(),
            total == byte_length(cs@.take(i as int)),
            total < 2048 + 4,
            i > 0 ==> byte_length(cs@.take(i - 1)) < 2048,
        decreases cs@.len() - i,
    {
        total = total + width_of(cs[i]);
        assert(cs@.take(i + 1).drop_last() =~= cs@.take(i as int));
        i = i + 1;
    }
    (i, total)
}

proof fn lemma_limit_decides(s: Seq<char>, end: int, total: nat)
    requires
        0 <= end <= s.len(),
        total == byte_length(s.take(end)),
        total >= 2048 || end == s.len(),
        end > 0 ==> byte_length(s.take(end - 1)) < 2048,
    ensures
        byte_length(s) <= 2048 <==> end == s.len() && total <= 2048,
        forall|k: int| #[trigger] cuts_at_limit(s, k) ==> k == end && total == 2048,
        total == 2048 ==> cuts_at_limit(s, end),
{
    assert(s.take(s.len() as int) =~= s);
    lemma_byte_length_grows(s, end, s.len() as int);
    assert forall|k: int| #[trigger] cuts_at_limit(s, k) implies k == end && total == 2048 by {
        if k < end {
            lemma_byte_length_grows(s, k, end - 1);
        } else {
            lemma_byte_length_grows(s, end, k);
        }
    }
}

/// Whether an output is short, or can be cut at the limit between two characters.
pub fn can_show_output(output: &str) -> (r: bool)
    ensures
        r == can_be_shown(output@),
{
    let cs = chars_of(output);
    let (end, total) = limit_of(&cs);
    proof {
        lemma_limit_decides(cs@, end as int, total as nat);
    }
    (end == cs.len() && total <= 2048) || total == 2048
}

/// What is shown of an output.
pub fn sanitize_output(output: &str) -> (r: String)
    requires
        can_be_shown(output@),
    ensures
        is_shown(output@, r@),
{
    let cs = chars_of(output);
    let (end, total) = limit_of(&cs);
    proof {
        lemma_limit_decides(cs@, end as int, total as nat);
    }
    if end == cs.len() && total <= 2048 {
        output.to_string()
    } else {
        let front = string_of(&cs, 0, end);
        assert(front@ =~= output@.take(end as int));
        assert(cuts_at_limit(output@, end as int));
        front.concat("... (truncated)")
    }
}

// ---------------------------------------------------------------------------
// The manager
// ---------------------------------------------------------------------------

/// A workspace that has been made ready.
#[derive(Debug, PartialEq, Eq)]
pub struct WorkspaceAssignment {
    pub path: String,
    pub workspace_key: String,
    pub created_now: bool,
}

impl Clone for WorkspaceAssignment {
    fn clone(&self) -> (r: WorkspaceAssignment)
        ensures
            r == *self,
    {
        WorkspaceAssignment {
            path: self.path.clone(),
            workspace_key: self.workspace_key.clone(),
            created_now: self.created_now,
        }
    }
}

/// What is done to a path of this host so that it is a directory.
#[derive(Debug, Clone, Copy, PartialEq, Eq, Structural)]
pub enum LocalPlan {
    /// It is one.
    Keep,
    /// Something else is there: remove that, and make the directory.
    Replace,
    /// Make the directory.
    Create,
}

/// The commands that run around the life of a workspace.
#[derive(Debug, Clone, Copy, PartialEq, Eq, Structural)]
pub enum Hook {
    AfterCreate,
    BeforeRun,
    AfterRun,
    BeforeRemove,
}

/// The name of a hook in messages.
pub open spec fn hook_label(hook: Hook) -> Seq<char> {
    match hook {
        Hook::AfterCreate => "after_create"@,
        Hook::BeforeRun => "before_run"@,
        Hook::AfterRun => "after_run"@,
        Hook::BeforeRemove => "before_remove"@,
    }
}

/// Whether the failure of a hook ends what it was run for.
pub open spec fn hook_is_fatal(hook: Hook) -> bool {
    hook == Hook::AfterCreate || hook == Hook::BeforeRun
}

impl Hook {
    /// The name of the hook in messages.
    pub fn label(&self) -> (r: String)
        ensures
            r@ == hook_label(*self),
    {
        match self {
            Hook::AfterCreate => "after_create".to_string(),
            Hook::BeforeRun => "before_run".to_string(),
            Hook::AfterRun => "after_run".to_string(),
            Hook::BeforeRemove => "before_remove".to_string(),
        }
    }

    /// Whether the failure of the hook ends what it was run for.
    pub fn fatal(&self) -> (r: bool)
        ensures
            r == hook_is_fatal(*self),
    {
        match self {
            Hook::AfterCreate => true,
            Hook::BeforeRun => true,
            Hook::AfterRun => false,
            Hook::BeforeRemove => false,
        }
    }
}

/// Whether the hook for new workspaces is run.
pub open spec fn hook_is_due(created_now: bool, command: Option<Seq<char>>) -> bool {
    created_now && command is Some
}

/// The command of a hook.
pub open spec fn hook_command_of(config: ServiceModel, hook: Hook) -> Option<Seq<char>> {
    match hook {
        Hook::AfterCreate => config.hooks.after_create,
        Hook::BeforeRun => config.hooks.before_run,
        Hook::AfterRun => config.hooks.after_run,
        Hook::BeforeRemove => config.hooks.before_remove,
    }
}

/// Why a path, as it is written, is no place of its own: it is the directory of all
/// workspaces, or it begins with it but leads out of it or back to it.
pub open spec fn place_fault(path: Seq<char>, root: Seq<char>) -> Option<Seq<char>> {
    if components(path) == components(root) {
        Some("workspace_equals_root"@)
    } else if climbs(path, root) {
        Some("workspace_outside_root"@)
    } else {
        None
    }
}

/// Why a path of a remote host cannot be a workspace.
pub open spec fn remote_path_fault(path: Seq<char>, root: Seq<char>) -> Option<Seq<char>> {
    if is_blank(path) {
        Some("workspace_path_unreadable: empty"@)
    } else if has_line_break(path) {
        Some("workspace_path_unreadable: invalid characters"@)
    } else {
        place_fault(path, root)
    }
}

/// Why a canonical path of this host cannot be a workspace: it is the directory of
/// all workspaces, or it does not lie below it.
pub open spec fn local_path_fault(path: Seq<char>, root: Seq<char>) -> Option<Seq<char>> {
    if components(path) == components(root) {
        Some("workspace_equals_root"@)
    } else if lies_below(path, root) {
        None
    } else {
        Some("workspace_outside_root"@)
    }
}

/// Whether a path, as it is written, is a place of its own.
pub fn validate_place(workspace: &str, root: &str) -> (r: Result<(), WorkspaceError>)
    ensures
        passed(r) == place_fault(workspace@, root@),
{
    if same_path(workspace, root) {
        return Err(WorkspaceError::new("workspace_equals_root"));
    }
    if path_climbs(workspace, root) {
        return Err(WorkspaceError::new("workspace_outside_root"));
    }
    Ok(())
}

/// Whether a path of a remote host can be a workspace.
pub fn validate_remote_path(workspace: &str, root: &str) -> (r: Result<(), WorkspaceError>)
    ensures
        passed(r) == remote_path_fault(workspace@, root@),
{
    if blank(workspace) {
        return Err(WorkspaceError::new("workspace_path_unreadable: empty"));
    }
    if breaks_line(workspace) {
        return Err(WorkspaceError::new("workspace_path_unreadable: invalid characters"));
    }
    validate_place(workspace, root)
}

/// Whether a path of this host can be a workspace, by what came of finding its
/// canonical form and that of the directory of all workspaces.
pub fn validate_local_path(
    workspace: Result<String, PathSafetyError>,
    root: Result<String, PathSafetyError>,
) -> (r: Result<(), WorkspaceError>)
    ensures
        match (workspace, root) {
            (Err(failure), _) => passed(r) == Some(
                "workspace_path_unreadable"@ + ": "@ + path_failure(failure@.0, failure@.1),
            ),
            (Ok(_), Err(failure)) => passed(r) == Some(
                "workspace_path_unreadable"@ + ": "@ + path_failure(failure@.0, failure@.1),
            ),
            (Ok(path), Ok(outer)) => passed(r) == local_path_fault(path@, outer@),
        },
{
    let path = match workspace {
        Ok(path) => path,
        Err(failure) => {
            return Err(
                WorkspaceError::failed("workspace_path_unreadable", failure.message().as_str()),
            );
        },
    };
    let outer = match root {
        Ok(outer) => outer,
        Err(failure) => {
            return Err(
                WorkspaceError::failed("workspace_path_unreadable", failure.message().as_str()),
            );
        },
    };
    if same_path(path.as_str(), outer.as_str()) {
        return Err(WorkspaceError::new("workspace_equals_root"));
    }
    if is_below(path.as_str(), outer.as_str()) {
        Ok(())
    } else {
        Err(WorkspaceError::new("workspace_outside_root"))
    }
}

/// What is done for a directory, by what stands at its path.
pub open spec fn plan_for(is_dir: bool, exists_at_all: bool) -> LocalPlan {
    if is_dir {
        LocalPlan::Keep
    } else if exists_at_all {
        LocalPlan::Replace
    } else {
        LocalPlan::Create
    }
}

/// What is done to a path of this host so that it is a directory.
pub fn local_plan(is_dir: bool, exists_at_all: bool) -> (r: LocalPlan)
    ensures
        r == plan_for(is_dir, exists_at_all),
        r == if is_dir {
            LocalPlan::Keep
        } else if exists_at_all {
            LocalPlan::Replace
        } else {
            LocalPlan::Create
        },
{
    if is_dir {
        LocalPlan::Keep
    } else if exists_at_all {
        LocalPlan::Replace
    } else {
        LocalPlan::Create
    }
}

/// What a workspace is known by, as its path, its key and whether it is new; or what
/// went wrong.
pub open spec fn prepared(r: Result<WorkspaceAssignment, WorkspaceError>) -> Result<
    (Seq<char>, Seq<char>, bool),
    Seq<char>,
> {
    match r {
        Ok(assignment) => Ok(
            (assignment.path@, assignment.workspace_key@, assignment.created_now),
        ),
        Err(error) => Err(error@),
    }
}

/// The workspace of an issue on this host.
pub open spec fn local_workspace(
    workspace: Seq<char>,
    identifier: Seq<char>,
    made: Result<bool, String>,
) -> Result<(Seq<char>, Seq<char>, bool), Seq<char>> {
    match made {
        Ok(created) => Ok((workspace, workspace_key(identifier), created)),
        Err(reason) => Err("workspace_prepare_failed"@ + ": "@ + reason@),
    }
}

/// The workspace of an issue on a remote host.
pub open spec fn remote_workspace(
    identifier: Seq<char>,
    run: Result<CommandOutput, String>,
) -> Result<(Seq<char>, Seq<char>, bool), Seq<char>> {
    match run {
        Err(reason) => Err("workspace_prepare_failed"@ + ": "@ + reason@),
        Ok(output) => if !output.success {
            Err(command_failure("workspace_prepare_failed"@, output.code, output.stdout@))
        } else {
            match first_marked(lines(output.stdout@), 0) {
                Some((made, path)) => Ok((path, workspace_key(identifier), made)),
                None => Err(
                    "workspace_prepare_failed"@ + ": "@ + ("invalid output "@ + output.stdout@),
                ),
            }
        },
    }
}

/// The workspace that was made ready on this host; `made` tells whether the
/// directory was made, or why it could not be.
pub fn ensure_local_workspace(
    workspace: &str,
    issue_identifier: &str,
    made: Result<bool, String>,
) -> (r: Result<WorkspaceAssignment, WorkspaceError>)
    ensures
        prepared(r) == local_workspace(workspace@, issue_identifier@, made),
        match made {
            Ok(created) => {
                &&& r matches Ok(assignment)
                &&& assignment.path@ == workspace@
                &&& assignment.workspace_key@ == workspace_key(issue_identifier@)
                &&& assignment.created_now == created
            },
            Err(reason) => r matches Err(error) && error@ == "workspace_prepare_failed"@ + ": "@
                + reason@,
        },
{
    match made {
        Ok(created) => Ok(
            WorkspaceAssignment {
                path: workspace.to_string(),
                workspace_key: sanitize_workspace_key(issue_identifier),
                created_now: created,
            },
        ),
        Err(reason) => Err(WorkspaceError::failed("workspace_prepare_failed", reason.as_str())),
    }
}

/// The message of a remote command that failed.
pub open spec fn command_failure(
    what: Seq<char>,
    code: Option<i32>,
    stdout: Seq<char>,
) -> Seq<char> {
    what + ": "@ + ("status="@ + signed_decimal(status_number(code)) + " output="@ + stdout)
}

fn command_failed(what: &str, output: &CommandOutput) -> (r: WorkspaceError)
    ensures
        r@ == command_failure(what@, output.code, output.stdout@),
{
    let reason = "status=".to_string().concat(status_text(output.code).as_str()).concat(
        " output=",
    ).concat(output.stdout.as_str());
    WorkspaceError::failed(what, reason.as_str())
}

/// The workspace that was made ready on a remote host, by what came of the
/// script for it.
pub fn ensure_remote_workspace(
    issue_identifier: &str,
    run: Result<CommandOutput, String>,
) -> (r: Result<WorkspaceAssignment, WorkspaceError>)
    ensures
        prepared(r) == remote_workspace(issue_identifier@, run),
        match run {
            Err(reason) => r matches Err(error) && error@ == "workspace_prepare_failed"@ + ": "@
                + reason@,
            Ok(output) => if !output.success {
                r matches Err(error) && error@ == command_failure(
                    "workspace_prepare_failed"@,
                    output.code,
                    output.stdout@,
                )
            } else {
                match first_marked(lines(output.stdout@), 0) {
                    Some((made, path)) => {
                        &&& r matches Ok(assignment)
                        &&& assignment.path@ == path
                        &&& assignment.workspace_key@ == workspace_key(issue_identifier@)
                        &&& assignment.created_now == made
                    },
                    None => r matches Err(error) && error@ == "workspace_prepare_failed"@ + ": "@
                        + ("invalid output "@ + output.stdout@),
                }
            },
        },
{
    let output = match run {
        Ok(output) => output,
        Err(reason) => {
            return Err(WorkspaceError::failed("workspace_prepare_failed", reason.as_str()));
        },
    };
    if !output.success {
        return Err(command_failed("workspace_prepare_failed", &output));
    }
    match parse_remote_workspace_output(output.stdout.as_str()) {
        Ok((created_now, path)) => Ok(
            WorkspaceAssignment {
                path,
                workspace_key: sanitize_workspace_key(issue_identifier),
                created_now,
            },
        ),
        Err(error) => Err(error),
    }
}

/// What went wrong with a removal on a remote host, if anything did.
pub open spec fn remote_removal_fault(run: Result<CommandOutput, String>) -> Option<Seq<char>> {
    match run {
        Err(reason) => Some("workspace_remove_failed"@ + ": "@ + reason@),
        Ok(output) => if output.success {
            None
        } else {
            Some(command_failure("workspace_remove_failed"@, output.code, output.stdout@))
        },
    }
}

/// What came of removing a workspace from a remote host.
pub fn remote_removal_result(run: Result<CommandOutput, String>) -> (r: Result<(), WorkspaceError>)
    ensures
        passed(r) == remote_removal_fault(run),
        passed(r) == match run {
            Err(reason) => Some("workspace_remove_failed"@ + ": "@ + reason@),
            Ok(output) => if output.success {
                None
            } else {
                Some(
                    command_failure("workspace_remove_failed"@, output.code, output.stdout@),
                )
            },
        },
{
    match run {
        Err(reason) => Err(WorkspaceError::failed("workspace_remove_failed", reason.as_str())),
        Ok(output) => if output.success {
            Ok(())
        } else {
            Err(command_failed("workspace_remove_failed", &output))
        },
    }
}

/// What came of removing a workspace from this host.
pub fn local_removal_result(removed: Result<(), String>) -> (r: Result<(), WorkspaceError>)
    ensures
        passed(r) == match removed {
            Err(reason) => Some("workspace_remove_failed"@ + ": "@ + reason@),
            Ok(_) => None,
        },
{
    match removed {
        Err(reason) => Err(WorkspaceError::failed("workspace_remove_failed", reason.as_str())),
        Ok(_) => Ok(()),
    }
}

/// The message of a hook that failed, with what is shown of its output.
pub open spec fn hook_failure(
    hook: Hook,
    workspace: Seq<char>,
    code: Option<i32>,
    shown: Seq<char>,
) -> Seq<char> {
    "workspace_hook_failed: hook="@ + hook_label(hook) + " workspace="@ + workspace + " status="@
        + signed_decimal(status_number(code)) + " output="@ + shown
}

/// Whether the run of a hook stops what it was run for.
pub open spec fn hook_stops(hook: Hook, run: Result<CommandOutput, String>) -> bool {
    match run {
        Err(_) => true,
        Ok(output) => !output.success && hook_is_fatal(hook),
    }
}

/// What came of a hook: a hook that could not be run, or that failed and is
/// fatal, is an error.
pub fn handle_hook_result(
    hook: Hook,
    workspace: &str,
    run: Result<CommandOutput, String>,
) -> (r: Result<(), WorkspaceError>)
    requires
        run matches Ok(output) ==> !output.success ==> can_be_shown(output.stdout@),
    ensures
        r is Err <==> hook_stops(hook, run),
        match run {
            Err(reason) => passed(r) == Some("workspace_hook_failed"@ + ": "@ + reason@),
            Ok(output) => if output.success || !hook_is_fatal(hook) {
                r is Ok
            } else {
                r matches Err(error) && exists|shown: Seq<char>| #[trigger]
                    is_shown(output.stdout@, shown) && error@ == hook_failure(
                        hook,
                        workspace@,
                        output.code,
                        shown,
                    )
            },
        },
{
    let output = match run {
        Ok(output) => output,
        Err(reason) => {
            return Err(WorkspaceError::failed("workspace_hook_failed", reason.as_str()));
        },
    };
    if output.success {
        return Ok(());
    }
    let shown = sanitize_output(output.stdout.as_str());
    let message = "workspace_hook_failed: hook=".to_string().concat(hook.label().as_str()).concat(
        " workspace=",
    ).concat(workspace).concat(" status=").concat(status_text(output.code).as_str()).concat(
        " output=",
    ).concat(shown.as_str());
    assert(is_shown(output.stdout@, shown@));
    if hook.fatal() {
        Err(WorkspaceError::new(message.as_str()))
    } else {
        Ok(())
    }
}

/// The issue under whose name a workspace is removed: that of its directory.
pub open spec fn removal_identifier(workspace: Seq<char>) -> Seq<char> {
    match file_name(workspace) {
        Some(name) => name,
        None => "issue"@,
    }
}

/// What making a workspace ready does next.
#[derive(Debug)]
pub enum CreateStep {
    /// Run a script on the remote host; its output goes to `ensure_remote_workspace`.
    RunRemote { script: String },
    /// Find the canonical forms of two paths; they go to `validate_local_path`.
    CheckLocal { path: String, root: String },
    /// Make the directory; what came of it goes to `ensure_local_workspace`.
    MakeLocal { path: String },
    /// Run the hook for new workspaces.
    RunHook { command: String, assignment: WorkspaceAssignment },
    Done(WorkspaceAssignment),
    Fail(WorkspaceError),
}

/// How a workspace is removed: the hook to run first and the issue it is run for,
/// and the script for a remote host.
#[derive(Debug)]
pub struct RemovalPlan {
    pub hook: Option<(String, Issue)>,
    pub script: Option<String>,
}

/// Whether a plan removes a workspace: the hook is run, if there is one, for an
/// issue that has the name of the directory as its identifier, and a remote host is
/// given the script.
pub open spec fn is_removal_of(
    plan: RemovalPlan,
    workspace: Seq<char>,
    remote: bool,
    command: Option<Seq<char>>,
) -> bool {
    &&& match (command, plan.hook) {
        (Some(text), Some((word, issue))) => word@ == text && exists|
            created_at: TimePoint,
            updated_at: TimePoint,
        |
            issue@ == (IssueModel {
                identifier: removal_identifier(workspace),
                ..#[trigger] example_issue(created_at, updated_at)
            }) && valid_time(created_at.seconds, created_at.nanos) && valid_time(
                updated_at.seconds,
                updated_at.nanos,
            ),
        (None, None) => true,
        _ => false,
    }
    &&& match plan.script {
        Some(script) => remote && script@ == join(assign_lines("workspace"@, workspace), "\n"@)
            + "\nrm -rf \"$workspace\""@,
        None => !remote,
    }
}

/// The maker and remover of workspaces.
#[derive(Debug)]
pub struct WorkspaceManager {
    config: ServiceConfig,
}

impl WorkspaceManager {
    /// The configuration by which the manager works.
    pub closed spec fn configuration(self) -> ServiceModel {
        self.config@
    }

    /// A manager that works by a configuration.
    pub fn new(config: ServiceConfig) -> (r: WorkspaceManager)
        ensures
            r.configuration() == config@,
    {
        WorkspaceManager { config }
    }

    /// The directory of all workspaces.
    pub fn root(&self) -> (r: String)
        ensures
            r@ == self.configuration().workspace,
    {
        self.config.workspace.root.clone()
    }

    /// The path of the workspace of an issue; it is the same on all hosts.
    pub fn workspace_path_for_issue(
        &self,
        issue_identifier: &str,
        worker_host: Option<&str>,
    ) -> (r: Result<String, WorkspaceError>)
        ensures
            r matches Ok(path) && path@ == workspace_path(
                self.configuration().workspace,
                issue_identifier@,
            ),
    {
        let key = sanitize_workspace_key(issue_identifier);
        Ok(joined_path(self.config.workspace.root.as_str(), key.as_str()))
    }

    /// The command of a hook.
    pub fn hook_command(&self, hook: Hook) -> (r: Option<String>)
        ensures
            opt_text(r) == hook_command_of(self.configuration(), hook),
            hook is AfterCreate ==> opt_text(r) == self.configuration().hooks.after_create,
            hook is BeforeRun ==> opt_text(r) == self.configuration().hooks.before_run,
            hook is AfterRun ==> opt_text(r) == self.configuration().hooks.after_run,
            hook is BeforeRemove ==> opt_text(r) == self.configuration().hooks.before_remove,
    {
        let command = match hook {
            Hook::AfterCreate => &self.config.hooks.after_create,
            Hook::BeforeRun => &self.config.hooks.before_run,
            Hook::AfterRun => &self.config.hooks.after_run,
            Hook::BeforeRemove => &self.config.hooks.before_remove,
        };
        crate::text::clone_opt(command)
    }

    /// The first step of making the workspace of an issue ready: on a remote host
    /// its path is checked and the script for it is run; on this host the canonical
    /// forms of its path and of the directory of all workspaces are looked for.
    pub fn create_for_issue(&self, issue: &Issue, worker_host: Option<&str>) -> (r: CreateStep)
        ensures
            ({
                let path = workspace_path(self.configuration().workspace, issue@.identifier);
                match worker_host {
                    Some(_) => match remote_path_fault(path, self.configuration().workspace) {
                        Some(message) => r matches CreateStep::Fail(error) && error@ == message,
                        None => r matches CreateStep::RunRemote { script } && script@ == join(
                            prepare_lines(path),
                            "\n"@,
                        ),
                    },
                    None => r matches CreateStep::CheckLocal { path: p, root } && p@ == path
                        && root@ == self.configuration().workspace,
                }
            }),
    {
        let path = match self.workspace_path_for_issue(issue.identifier.as_str(), worker_host) {
            Ok(path) => path,
            Err(error) => {
                return CreateStep::Fail(error);
            },
        };
        match worker_host {
            Some(_) => match validate_remote_path(path.as_str(), self.root().as_str()) {
                Ok(_) => CreateStep::RunRemote { script: prepare_script(path.as_str()) },
                Err(error) => CreateStep::Fail(error),
            },
            None => CreateStep::CheckLocal { path, root: self.root() },
        }
    }

    /// The step that follows when a workspace is ready or could not be made: the
    /// hook for new workspaces is run if there is one and the directory is new.
    pub fn workspace_made(&self, made: Result<WorkspaceAssignment, WorkspaceError>) -> (r:
        CreateStep)
        ensures
            r is RunHook <==> (made matches Ok(assignment) && hook_is_due(
                assignment.created_now,
                hook_command_of(self.configuration(), Hook::AfterCreate),
            )),
            match made {
                Err(error) => r == CreateStep::Fail(error),
                Ok(assignment) => match hook_command_of(self.configuration(), Hook::AfterCreate) {
                    Some(text) => if assignment.created_now {
                        r matches CreateStep::RunHook { command, assignment: a } && command@ == text
                            && a == assignment
                    } else {
                        r == CreateStep::Done(assignment)
                    },
                    None => r == CreateStep::Done(assignment),
                },
            },
    {
        let assignment = match made {
            Ok(assignment) => assignment,
            Err(error) => {
                return CreateStep::Fail(error);
            },
        };
        if assignment.created_now {
            match self.hook_command(Hook::AfterCreate) {
                Some(command) => {
                    return CreateStep::RunHook { command, assignment };
                },
                None => {},
            }
        }
        CreateStep::Done(assignment)
    }

    /// How a workspace is removed: first the hook for it is run, if there is one,
    /// for an issue that has the name of the directory as its identifier; then the
    /// directory is removed, by a script on a remote host. The directory of all
    /// workspaces, and a path that leads out of it or back to it, are not removed.
    pub fn remove_path(&self, workspace: &str, worker_host: Option<&str>) -> (r: Result<
        RemovalPlan,
        WorkspaceError,
    >)
        ensures
            match place_fault(workspace@, self.configuration().workspace) {
                Some(message) => r matches Err(error) && error@ == message,
                None => r matches Ok(plan) && is_removal_of(
                    plan,
                    workspace@,
                    worker_host is Some,
                    hook_command_of(self.configuration(), Hook::BeforeRemove),
                ),
            },
    {
        match validate_place(workspace, self.root().as_str()) {
            Ok(_) => {},
            Err(error) => {
                return Err(error);
            },
        }
        let hook = match self.hook_command(Hook::BeforeRemove) {
            Some(command) => {
                let identifier = match path_file_name(workspace) {
                    Some(name) => name,
                    None => "issue".to_string(),
                };
                Some((command, Issue { identifier, ..Issue::example() }))
            },
            None => None,
        };
        let script = match worker_host {
            Some(_) => Some(remove_script(workspace)),
            None => None,
        };
        Ok(RemovalPlan { hook, script })
    }

    /// How the workspace of an issue is removed, and where it is.
    pub fn remove_issue_workspaces(&self, identifier: &str, worker_host: Option<&str>) -> (r:
        Result<(String, RemovalPlan), WorkspaceError>)
        ensures
            ({
                let root = self.configuration().workspace;
                let path = workspace_path(root, identifier@);
                match place_fault(path, root) {
                    Some(message) => r matches Err(error) && error@ == message,
                    None => {
                        &&& r matches Ok((place, plan))
                        &&& place@ == path
                        &&& is_removal_of(
                            plan,
                            path,
                            worker_host is Some,
                            hook_command_of(self.configuration(), Hook::BeforeRemove),
                        )
                    },
                }
            }),
    {
        let path = match self.workspace_path_for_issue(identifier, worker_host) {
            Ok(path) => path,
            Err(error) => {
                return Err(error);
            },
        };
        match self.remove_path(path.as_str(), worker_host) {
            Ok(plan) => Ok((path, plan)),
            Err(error) => Err(error),
        }
    }
}

/// The step that follows the check of the canonical paths.
pub fn path_checked(path: String, checked: Result<(), WorkspaceError>) -> (r: CreateStep)
    ensures
        match checked {
            Ok(_) => r == (CreateStep::MakeLocal { path }),
            Err(error) => r == CreateStep::Fail(error),
        },
{
    match checked {
        Ok(_) => CreateStep::MakeLocal { path },
        Err(error) => CreateStep::Fail(error),
    }
}

/// The step that follows the hook for new workspaces.
pub fn hook_done(assignment: WorkspaceAssignment, result: Result<(), WorkspaceError>) -> (r:
    CreateStep)
    ensures
        match result {
            Ok(_) => r == CreateStep::Done(assignment),
            Err(error) => r == CreateStep::Fail(error),
        },
{
    match result {
        Ok(_) => CreateStep::Done(assignment),
        Err(error) => CreateStep::Fail(error),
    }
}

impl Clone for WorkspaceManager {
    fn clone(&self) -> (r: WorkspaceManager)
        ensures
            r.configuration() == self.configuration(),
    {
        WorkspaceManager { config: self.config.clone() }
    }
}

// ---------------------------------------------------------------------------
// Laws
// ---------------------------------------------------------------------------

/// The name of a workspace is not empty and holds only letters, digits, dots,
/// underscores and hyphens.
pub proof fn lemma_key_is_safe(identifier: Seq<char>)
    ensures
        workspace_key(identifier).len() > 0,
        forall|i: int|
            0 <= i < workspace_key(identifier).len() ==> is_key_char(
                #[trigger] workspace_key(identifier)[i],
            ),
{
    reveal_strlit("_");
}

/// A name that is safe stays as it is.
pub proof fn lemma_safe_key_is_kept(key: Seq<char>)
    requires
        key.len() > 0,
        forall|i: int| 0 <= i < key.len() ==> is_key_char(#[trigger] key[i]),
    ensures
        workspace_key(key) == key,
{
    assert(workspace_key(key) =~= key);
}

/// Whether the name of a workspace is a place of its own in a directory.
pub open spec fn is_own_place(key: Seq<char>) -> bool {
    key != "."@ && key != ".."@
}

proof fn lemma_key_has_no_slash(identifier: Seq<char>)
    ensures
        !workspace_key(identifier).contains('/'),
        workspace_key(identifier)[0] != '/',
{
    lemma_key_is_safe(identifier);
    let key = workspace_key(identifier);
    assert(is_key_char(key[0]));
    if key.contains('/') {
        let i = choose|i: int| 0 <= i < key.len() && key[i] == '/';
        assert(is_key_char(key[i]));
    }
}

/// The workspace of an issue lies directly below the directory of all workspaces:
/// it has one component more, the name of the workspace, unless that name is a dot
/// or two dots.
pub proof fn lemma_workspace_lies_below_root(root: Seq<char>, identifier: Seq<char>)
    requires
        root.len() > 0,
        is_own_place(workspace_key(identifier)),
    ensures
        components(workspace_path(root, identifier)) == components(root).push(
            workspace_key(identifier),
        ),
{
    lemma_key_is_safe(identifier);
    lemma_key_has_no_slash(identifier);
    lemma_components_of_child(root, workspace_key(identifier));
}

/// The workspace of an issue can be made on a remote host, and be removed, exactly
/// if its name is a place of its own: a dot stands for the directory of all
/// workspaces, and two dots lead out of it.
pub proof fn lemma_own_place_decides(root: Seq<char>, identifier: Seq<char>)
    requires
        root.len() > 0,
    ensures
        place_fault(workspace_path(root, identifier), root) == if workspace_key(identifier)
            == "."@ {
            Some("workspace_equals_root"@)
        } else if workspace_key(identifier) == ".."@ {
            Some("workspace_outside_root"@)
        } else {
            None
        },
        remote_path_fault(workspace_path(root, identifier), root) is None ==> is_own_place(
            workspace_key(identifier),
        ),
{
    let key = workspace_key(identifier);
    let path = workspace_path(root, identifier);
    lemma_key_is_safe(identifier);
    lemma_key_has_no_slash(identifier);
    if key == "."@ {
        lemma_components_of_dot(root);
    } else {
        lemma_components_of_child(root, key);
        let outer = components(root);
        assert(components(path) == outer.push(key));
        assert(components(path).len() != outer.len());
        assert(components(path).last() == key);
        assert(components(path).skip(outer.len() as int) =~= seq![key]);
        assert(outer =~= components(path).subrange(0, outer.len() as int));
        lemma_one_part_leads_down(key);
    }
}

/// Issues whose identifiers differ and are safe as they are have different
/// workspaces.
pub proof fn lemma_issues_have_their_own_workspaces(root: Seq<char>, a: Seq<char>, b: Seq<char>)
    requires
        a != b,
        a.len() > 0,
        b.len() > 0,
        forall|i: int| 0 <= i < a.len() ==> is_key_char(#[trigger] a[i]),
        forall|i: int| 0 <= i < b.len() ==> is_key_char(#[trigger] b[i]),
    ensures
        workspace_path(root, a) != workspace_path(root, b),
{
    lemma_safe_key_is_kept(a);
    lemma_safe_key_is_kept(b);
    assert(is_key_char(a[0]));
    assert(is_key_char(b[0]));
    let base = if root.len() > 0 && root.last() != '/' {
        root.push('/')
    } else {
        root
    };
    let left = workspace_path(root, a);
    let right = workspace_path(root, b);
    assert(left == base + a);
    assert(right == base + b);
    if left == right {
        assert(a =~= left.skip(base.len() as int));
        assert(b =~= right.skip(base.len() as int));
    }
}

/// A path that is accepted as a workspace leads to a place below the directory of all
/// workspaces: its components are those of the directory and then more, which lead
/// down by at least one name and never out of it.
pub proof fn lemma_accepted_path_is_below_root(path: Seq<char>, root: Seq<char>)
    requires
        local_path_fault(path, root) is None,
    ensures
        ({
            let rest = components(path).skip(components(root).len() as int);
            &&& components(path) == components(root) + rest
            &&& names_below(rest) matches Some(names)
            &&& names.len() > 0
            &&& !names.contains("."@)
            &&& !names.contains(".."@)
        }),
{
    lemma_below_leads_down(path, root);
}

/// With no links about, the workspace of an issue is accepted exactly if its name is
/// a place of its own: the canonical forms of its path and of the directory of all
/// workspaces pass the check, unless the name is a dot or two dots.
pub proof fn lemma_own_workspace_is_accepted(
    files: spec_fn(Seq<char>) -> ProbeModel,
    working_dir: Option<Seq<char>>,
    root: Seq<char>,
    identifier: Seq<char>,
)
    requires
        without_links(files),
        is_absolute(root),
        path_parts(root).len() > 0,
    ensures
        ({
            let first = walk_start(workspace_path(root, identifier), working_dir);
            let second = walk_start(root, working_dir);
            match (
                walk_run(files, first, first.remaining.len()),
                walk_run(files, second, second.remaining.len()),
            ) {
                (Some(inner), Some(outer)) => {
                    &&& inner.remaining.len() == 0
                    &&& outer.remaining.len() == 0
                    &&& local_path_fault(inner.resolved, outer.resolved)
                        == if workspace_key(identifier) == "."@ {
                        Some("workspace_equals_root"@)
                    } else if workspace_key(identifier) == ".."@ {
                        Some("workspace_outside_root"@)
                    } else {
                        None
                    }
                },
                _ => false,
            }
        }),
{
    lemma_walk_without_links(files, walk_start(workspace_path(root, identifier), working_dir));
    lemma_walk_without_links(files, walk_start(root, working_dir));
    let key = workspace_key(identifier);
    let parts = path_parts(root);
    let whole = workspace_path(root, identifier);
    lemma_key_is_safe(identifier);
    lemma_key_has_no_slash(identifier);
    assert(is_absolute(whole)) by {
        assert(whole[0] == root[0]);
    }
    assert(components(root).skip(1) =~= parts);
    assert(components(whole).skip(1) =~= path_parts(whole));
    if key == "."@ {
        lemma_components_of_dot(root);
    } else {
        lemma_components_of_child(root, key);
        assert(path_parts(whole) =~= parts.push(key)) by {
            let left = seq!["/"@] + path_parts(whole);
            let right = (seq!["/"@] + parts).push(key);
            assert(left =~= right);
            assert(path_parts(whole) =~= left.skip(1));
            assert(right.skip(1) =~= parts.push(key));
        }
        lemma_parts_are_names(root);
        lemma_join_all_end("/"@, parts);
        lemma_join_all_push("/"@, parts, key);
        let outer = join_all("/"@, parts);
        let inner = join_all("/"@, parts.push(key));
        assert(inner == join_path(outer, key));
        assert(inner =~= outer.push('/') + key);
        assert(inner.push('/').subrange(0, outer.len() as int + 1) =~= outer.push('/'));
        lemma_components_of_child(outer, key);
        let depth = components(outer).len() as int;
        let rest = components(inner).skip(depth);
        assert(components(inner).len() == depth + 1);
        assert(rest =~= seq![key]);
        lemma_one_part_leads_down(key);
    }
}

// ---------------------------------------------------------------------------
// Laws on hooks
// ---------------------------------------------------------------------------

/// Each hook has the command that the configuration names for it: naming another one
/// for that hook changes the command of that hook, and of no other.
pub proof fn lemma_hooks_have_their_own_commands(
    config: ServiceModel,
    command: Option<Seq<char>>,
    hook: Hook,
)
    ensures
        ({
            let after_create = ServiceModel {
                hooks: HooksModel { after_create: command, ..config.hooks },
                ..config
            };
            let before_run = ServiceModel {
                hooks: HooksModel { before_run: command, ..config.hooks },
                ..config
            };
            let after_run = ServiceModel {
                hooks: HooksModel { after_run: command, ..config.hooks },
                ..config
            };
            let before_remove = ServiceModel {
                hooks: HooksModel { before_remove: command, ..config.hooks },
                ..config
            };
            &&& hook_command_of(after_create, hook) == if hook is AfterCreate {
                command
            } else {
                hook_command_of(config, hook)
            }
            &&& hook_command_of(before_run, hook) == if hook is BeforeRun {
                command
            } else {
                hook_command_of(config, hook)
            }
            &&& hook_command_of(after_run, hook) == if hook is AfterRun {
                command
            } else {
                hook_command_of(config, hook)
            }
            &&& hook_command_of(before_remove, hook) == if hook is BeforeRemove {
                command
            } else {
                hook_command_of(config, hook)
            }
        }),
{
}

/// Hooks before the work can stop it, those behind it cannot; each goes by its own
/// name.
pub proof fn lemma_hooks_by_name()
    ensures
        hook_is_fatal(Hook::AfterCreate),
        hook_is_fatal(Hook::BeforeRun),
        !hook_is_fatal(Hook::AfterRun),
        !hook_is_fatal(Hook::BeforeRemove),
        hook_label(Hook::AfterCreate) == "after_create"@,
        hook_label(Hook::BeforeRun) == "before_run"@,
        hook_label(Hook::AfterRun) == "after_run"@,
        hook_label(Hook::BeforeRemove) == "before_remove"@,
{
}

/// The messages of what failed name the hook, the workspace, the status, -1 where
/// there is none, and the output, in this order.
pub proof fn lemma_failures_are_told(
    hook: Hook,
    what: Seq<char>,
    workspace: Seq<char>,
    code: i32,
    output: Seq<char>,
)
    ensures
        command_failure(what, Some(code), output) == what + ": status="@ + signed_decimal(
            code as int,
        ) + " output="@ + output,
        command_failure(what, None, output) == what + ": status="@ + signed_decimal(-1)
            + " output="@ + output,
        hook_failure(hook, workspace, Some(code), output) == "workspace_hook_failed: hook="@
            + hook_label(hook) + " workspace="@ + workspace + " status="@ + signed_decimal(
            code as int,
        ) + " output="@ + output,
        hook_failure(hook, workspace, None, output) == "workspace_hook_failed: hook="@
            + hook_label(hook) + " workspace="@ + workspace + " status="@ + signed_decimal(-1)
            + " output="@ + output,
{
    reveal_strlit(": ");
    reveal_strlit("status=");
    reveal_strlit(": status=");
    assert(": status="@ =~= ": "@ + "status="@);
    assert(command_failure(what, Some(code), output) =~= what + ": status="@ + signed_decimal(
        code as int,
    ) + " output="@ + output);
    assert(command_failure(what, None, output) =~= what + ": status="@ + signed_decimal(-1)
        + " output="@ + output);
}

// ---------------------------------------------------------------------------
// Laws on names and places
// ---------------------------------------------------------------------------

/// The name of a workspace has a character for each one of the identifier: the same
/// one where it is a letter, a digit, a dot, an underscore or a hyphen, else an
/// underscore. For an empty identifier it is an underscore.
pub proof fn lemma_key_follows_the_identifier(identifier: Seq<char>, i: int)
    ensures
        workspace_key(Seq::empty()) == seq!['_'],
        identifier.len() > 0 ==> workspace_key(identifier).len() == identifier.len(),
        0 <= i < identifier.len() ==> {
            let c = identifier[i];
            let kept = ('a' <= c <= 'z') || ('A' <= c <= 'Z') || ('0' <= c <= '9') || c == '.' || c
                == '_' || c == '-';
            workspace_key(identifier)[i] == if kept {
                c
            } else {
                '_'
            }
        },
{
    reveal_strlit("_");
    assert(workspace_key(Seq::empty()) =~= seq!['_']);
}

/// The workspace of an issue has the path of the directory of all workspaces and then,
/// behind a slash, its name.
pub proof fn lemma_workspace_path_is_below_the_root(root: Seq<char>, identifier: Seq<char>)
    requires
        root.len() > 0,
        root.last() != '/',
    ensures
        workspace_path(root, identifier) == root.push('/') + workspace_key(identifier),
{
    lemma_key_has_no_slash(identifier);
    lemma_key_is_safe(identifier);
}

/// A path of a remote host is refused exactly if it is blank, would end a line, is the
/// directory of all workspaces, or begins with it and leads out of it or back to it.
pub proof fn lemma_remote_path_decides(path: Seq<char>, root: Seq<char>)
    ensures
        trim(path).len() == 0 ==> remote_path_fault(path, root) == Some(
            "workspace_path_unreadable: empty"@,
        ),
        trim(path).len() > 0 && (path.contains('\n') || path.contains('\r') || path.contains('\0'))
            ==> remote_path_fault(path, root) == Some(
            "workspace_path_unreadable: invalid characters"@,
        ),
        trim(path).len() > 0 && !path.contains('\n') && !path.contains('\r') && !path.contains('\0')
            ==> remote_path_fault(path, root) == place_fault(path, root),
        components(path) == components(root) ==> place_fault(path, root) == Some(
            "workspace_equals_root"@,
        ),
        components(path) != components(root) ==> place_fault(path, root) == if components(
            root,
        ).is_prefix_of(components(path)) && !leads_down(
            components(path).skip(components(root).len() as int),
        ) {
            Some("workspace_outside_root"@)
        } else {
            None
        },
{
}

/// A path of this host is accepted exactly if it is not the directory of all
/// workspaces and lies below it.
pub proof fn lemma_local_path_decides(path: Seq<char>, root: Seq<char>)
    ensures
        components(path) == components(root) ==> local_path_fault(path, root) == Some(
            "workspace_equals_root"@,
        ),
        components(path) != components(root) ==> local_path_fault(path, root) == if lies_below(
            path,
            root,
        ) {
            None
        } else {
            Some("workspace_outside_root"@)
        },
{
}

/// A workspace is removed for the issue that has the name of its directory.
pub proof fn lemma_removal_names_the_directory(root: Seq<char>, name: Seq<char>)
    requires
        root.len() > 0,
        is_name(name),
        name != ".."@,
    ensures
        removal_identifier(join_path(root, name)) == name,
        file_name(root) is None ==> removal_identifier(root) == "issue"@,
{
    lemma_components_of_child(root, name);
}

/// How a workspace is removed: the hook is run with its own command, if there is one,
/// for the issue of the directory; and a script that ends with the removal of the
/// workspace is there exactly on a remote host.
pub proof fn lemma_removal_plan(
    plan: RemovalPlan,
    workspace: Seq<char>,
    remote: bool,
    command: Option<Seq<char>>,
)
    requires
        is_removal_of(plan, workspace, remote, command),
    ensures
        plan.hook is Some <==> command is Some,
        command is Some ==> (plan.hook->0).0@ == command->0 && (plan.hook->0).1@.identifier
            == removal_identifier(workspace),
        plan.script is Some <==> remote,
        remote ==> plan.script->0@ == join(assign_lines("workspace"@, workspace), "\n"@)
            + "\nrm -rf \"$workspace\""@,
{
}

// ---------------------------------------------------------------------------
// Laws on remote hosts
// ---------------------------------------------------------------------------

proof fn lemma_first_of_front(front: Seq<char>, c: char, rest: Seq<char>)
    requires
        !front.contains(c),
    ensures
        first_char(front.push(c) + rest, c) == Some(front.len() as int),
    decreases front.len(),
{
    let whole = front.push(c) + rest;
    if front.len() == 0 {
        assert(whole[0] == c);
    } else {
        assert(whole[0] == front[0]);
        assert(front.contains(front[0]));
        let tail = front.drop_first();
        assert(!tail.contains(c)) by {
            if tail.contains(c) {
                let j = choose|j: int| 0 <= j < tail.len() && tail[j] == c;
                assert(front[j + 1] == c);
            }
        }
        lemma_first_of_front(tail, c, rest);
        assert(whole.drop_first() =~= tail.push(c) + rest);
    }
}

/// The line by which a remote host tells of a workspace is read back: what it says of
/// whether the directory was made, and all that follows as the path. The first such
/// line counts.
pub proof fn lemma_marked_line_is_read_back(made: bool, path: Seq<char>, rest: Seq<Seq<char>>)
    ensures
        ({
            let word = if made {
                "1"@
            } else {
                "0"@
            };
            let line = "__SYMPHONY_WORKSPACE__"@.push('\t') + (word.push('\t') + path);
            &&& marked_line(line) == Some((made, path))
            &&& first_marked(seq![line] + rest, 0) == Some((made, path))
        }),
{
    let word = if made {
        "1"@
    } else {
        "0"@
    };
    let marker = "__SYMPHONY_WORKSPACE__"@;
    let behind = word.push('\t') + path;
    let line = marker.push('\t') + behind;
    reveal_strlit("__SYMPHONY_WORKSPACE__");
    reveal_strlit("1");
    reveal_strlit("0");
    assert("1"@[0] != "0"@[0]);
    assert(!marker.contains('\t')) by {
        if marker.contains('\t') {
            let j = choose|j: int| 0 <= j < marker.len() && marker[j] == '\t';
        }
    }
    assert(!word.contains('\t')) by {
        if word.contains('\t') {
            let j = choose|j: int| 0 <= j < word.len() && word[j] == '\t';
        }
    }
    lemma_first_of_front(marker, '\t', behind);
    lemma_first_of_front(word, '\t', path);
    assert(line.skip(marker.len() as int + 1) =~= behind);
    assert(line.take(marker.len() as int) =~= marker);
    assert(behind.take(word.len() as int) =~= word);
    assert(behind.skip(word.len() as int + 1) =~= path);
    assert((seq![line] + rest)[0] == line);
}

/// A line that tells of no workspace is passed over.
pub proof fn lemma_other_lines_are_passed_over(line: Seq<char>, rest: Seq<Seq<char>>)
    requires
        marked_line(line) is None,
    ensures
        first_marked(seq![line] + rest, 0) == first_marked(rest, 0),
        first_marked(Seq::empty(), 0) is None,
{
    lemma_first_marked_behind(line, rest, 0);
    assert((seq![line] + rest)[0] == line);
}

proof fn lemma_first_marked_behind(line: Seq<char>, rest: Seq<Seq<char>>, k: int)
    requires
        0 <= k <= rest.len(),
    ensures
        first_marked(seq![line] + rest, k + 1) == first_marked(rest, k),
    decreases rest.len() - k,
{
    let all = seq![line] + rest;
    if k < rest.len() {
        assert(all[k + 1] == rest[k]);
        lemma_first_marked_behind(line, rest, k + 1);
    }
}

/// A variable of a script is set to the path, in a form that the shell reads as that
/// path.
pub proof fn lemma_script_sets_the_path(variable: Seq<char>, path: Seq<char>)
    ensures
        ({
            let line = assign_lines(variable, path)[0];
            let k = variable.len() as int;
            &&& line.take(k) == variable
            &&& line[k] == '='
            &&& shell_reads(line.skip(k + 1), Quote::Outside) == Some(path)
        }),
        ({
            let lines = assign_lines(variable, path);
            &&& lines.len() == 5
            &&& lines[1] == "case \"$$"@ + variable + "\" in"@
            &&& lines[2] == "  '~') "@ + variable + "=\"$HOME\" ;;"@
            &&& lines[3] == "  '~/'*) "@ + variable + "=\"$HOME/${"@ + variable + "#~/}\" ;;"@
            &&& lines[4] == "esac"@
        }),
{
    reveal_strlit("=");
    let line = assign_lines(variable, path)[0];
    let k = variable.len() as int;
    assert(line =~= variable + "="@ + escaped(path));
    assert(line.take(k) =~= variable);
    assert(line.skip(k + 1) =~= escaped(path));
    lemma_shell_reads_escaped(path);
}

/// The script for a workspace sets its path first. It keeps a directory, and says so;
/// it removes anything else and makes the directory anew. It then tells of the
/// directory by the marker.
pub proof fn lemma_prepare_script_order(path: Seq<char>)
    ensures
        ({
            let lines = prepare_lines(path);
            &&& lines.len() == 14
            &&& lines[0] == "set -eu"@
            &&& lines[1] == join(assign_lines("workspace"@, path), "\n"@)
            &&& lines[2] == "if [ -d \"$workspace\" ]; then"@
            &&& lines[3] == "  created=0"@
            &&& lines[4] == "elif [ -e \"$workspace\" ]; then"@
            &&& lines[5] == "  rm -rf \"$workspace\""@
            &&& lines[6] == "  mkdir -p \"$workspace\""@
            &&& lines[7] == "  created=1"@
            &&& lines[8] == "else"@
            &&& lines[9] == "  mkdir -p \"$workspace\""@
            &&& lines[10] == "  created=1"@
            &&& lines[11] == "fi"@
            &&& lines[12] == "cd \"$workspace\""@
            &&& lines[13]
                == "printf '%s\\t%s\\t%s\\n' '__SYMPHONY_WORKSPACE__' \"$created\" \"$(pwd -P)\""@
        }),
{
}

// ---------------------------------------------------------------------------
// Laws on outputs
// ---------------------------------------------------------------------------

/// The bytes of a text are those of its parts; a character takes one to four of them.
pub proof fn lemma_bytes_add_up(a: Seq<char>, b: Seq<char>)
    ensures
        byte_length(a + b) == byte_length(a) + byte_length(b),
        a.len() <= byte_length(a) <= 4 * a.len(),
    decreases b.len(), a.len(),
{
    if a.len() > 0 {
        lemma_bytes_add_up(a.drop_last(), Seq::empty());
    }
    if b.len() == 0 {
        assert(a + b =~= a);
    } else {
        lemma_bytes_add_up(a, b.drop_last());
        assert((a + b).drop_last() =~= a + b.drop_last());
        assert((a + b).last() == b.last());
    }
}

proof fn lemma_plain_bytes(s: Seq<char>)
    requires
        forall|i: int| 0 <= i < s.len() ==> #[trigger] s[i] <= '\u{7f}',
    ensures
        byte_length(s) == s.len(),
    decreases s.len(),
{
    if s.len() > 0 {
        lemma_plain_bytes(s.drop_last());
    }
}

/// An output of at most 2048 bytes is shown whole. A longer one of plain characters is
/// cut behind 2048 of them, and the cut is marked.
pub proof fn lemma_outputs_are_cut(s: Seq<char>, shown: Seq<char>)
    requires
        is_shown(s, shown),
    ensures
        byte_length(s) <= 2048 ==> shown == s,
        byte_length(s) > 2048 ==> exists|k: int|
            0 <= k < s.len() && byte_length(#[trigger] s.take(k)) == 2048 && shown == s.take(k)
                + "... (truncated)"@,
        (forall|i: int| 0 <= i < s.len() ==> #[trigger] s[i] <= '\u{7f}') ==> {
            &&& s.len() <= 2048 ==> shown == s
            &&& s.len() > 2048 ==> shown == s.take(2048) + "... (truncated)"@
        },
{
    if byte_length(s) > 2048 {
        let k = choose|k: int| #[trigger] cuts_at_limit(s, k) && shown == s.take(k)
            + "... (truncated)"@;
        if k == s.len() {
            assert(s.take(k) =~= s);
        }
        assert(byte_length(s.take(k)) == 2048);
        if forall|i: int| 0 <= i < s.len() ==> #[trigger] s[i] <= '\u{7f}' {
            lemma_plain_bytes(s.take(k));
        }
    }
    if forall|i: int| 0 <= i < s.len() ==> #[trigger] s[i] <= '\u{7f}' {
        lemma_plain_bytes(s);
    }
}

/// A directory is kept, so nothing in it is lost; only something that is no directory
/// is replaced.
pub proof fn lemma_directories_are_kept(exists_at_all: bool)
    ensures
        plan_for(true, exists_at_all) is Keep,
        plan_for(false, true) is Replace,
        plan_for(false, false) is Create,
{
}

/// The script of a hook goes to the workspace, names the issue by its id and its
/// identifier, and runs the command last.
pub proof fn lemma_hook_script_parts(
    command: Seq<char>,
    workspace: Seq<char>,
    id: Seq<char>,
    identifier: Seq<char>,
)
    ensures
        ({
            let text = hook_script_text(command, workspace, id, identifier);
            let place = join(assign_lines("workspace"@, workspace), "\n"@)
                + "\ncd \"$workspace\"\n"@;
            let named = "export SYMPHONY_ISSUE_ID="@ + escaped(id)
                + "\nexport SYMPHONY_ISSUE_IDENTIFIER="@ + escaped(identifier) + "\n"@;
            &&& place.is_prefix_of(text)
            &&& text.skip(place.len() as int) == named + command
            &&& command.is_suffix_of(text)
        }),
{
    let text = hook_script_text(command, workspace, id, identifier);
    let place = join(assign_lines("workspace"@, workspace), "\n"@) + "\ncd \"$workspace\"\n"@;
    let named = "export SYMPHONY_ISSUE_ID="@ + escaped(id) + "\nexport SYMPHONY_ISSUE_IDENTIFIER="@
        + escaped(identifier) + "\n"@;
    reveal_strlit("\ncd \"$workspace\"\nexport SYMPHONY_ISSUE_ID=");
    reveal_strlit("\ncd \"$workspace\"\n");
    reveal_strlit("export SYMPHONY_ISSUE_ID=");
    assert("\ncd \"$workspace\"\nexport SYMPHONY_ISSUE_ID="@ =~= "\ncd \"$workspace\"\n"@
        + "export SYMPHONY_ISSUE_ID="@);
    assert(text =~= place + (named + command));
    assert(text.take(place.len() as int) =~= place);
    assert(text.skip(place.len() as int) =~= named + command);
    assert(text.skip(text.len() - command.len()) =~= command);
}

/// A workspace on this host is the one that was asked for; one on a remote host is
/// where the host says. Either has the key of its issue, and is new if it was made.
pub proof fn lemma_prepared_workspaces(
    workspace: Seq<char>,
    identifier: Seq<char>,
    created: bool,
    reason: String,
    output: CommandOutput,
)
    ensures
        local_workspace(workspace, identifier, Ok(created)) == Ok::<
            (Seq<char>, Seq<char>, bool),
            Seq<char>,
        >((workspace, workspace_key(identifier), created)),
        local_workspace(workspace, identifier, Err(reason)) == Err::<
            (Seq<char>, Seq<char>, bool),
            Seq<char>,
        >("workspace_prepare_failed: "@ + reason@),
        remote_workspace(identifier, Err(reason)) == Err::<
            (Seq<char>, Seq<char>, bool),
            Seq<char>,
        >("workspace_prepare_failed: "@ + reason@),
        !output.success ==> remote_workspace(identifier, Ok(output)) == Err::<
            (Seq<char>, Seq<char>, bool),
            Seq<char>,
        >(command_failure("workspace_prepare_failed"@, output.code, output.stdout@)),
        output.success && first_marked(lines(output.stdout@), 0) is None ==> remote_workspace(
            identifier,
            Ok(output),
        ) == Err::<(Seq<char>, Seq<char>, bool), Seq<char>>(
            "workspace_prepare_failed: invalid output "@ + output.stdout@,
        ),
        remote_workspace(identifier, Ok(output)) is Ok <==> output.success && first_marked(
            lines(output.stdout@),
            0,
        ) is Some,
        remote_workspace(identifier, Ok(output)) matches Ok((path, key, made)) ==> {
            &&& first_marked(lines(output.stdout@), 0) == Some((made, path))
            &&& key == workspace_key(identifier)
        },
{
    reveal_strlit("workspace_prepare_failed");
    reveal_strlit(": ");
    reveal_strlit("workspace_prepare_failed: ");
    reveal_strlit("invalid output ");
    reveal_strlit("workspace_prepare_failed: invalid output ");
    assert("workspace_prepare_failed: "@ =~= "workspace_prepare_failed"@ + ": "@);
    assert("workspace_prepare_failed: invalid output "@ =~= "workspace_prepare_failed: "@
        + "invalid output "@);
    assert("workspace_prepare_failed: "@ + ("invalid output "@ + output.stdout@)
        =~= "workspace_prepare_failed: invalid output "@ + output.stdout@);
}

/// A removal on a remote host is done if the command ran and succeeded.
pub proof fn lemma_removals_are_told(reason: String, output: CommandOutput)
    ensures
        remote_removal_fault(Err(reason)) == Some("workspace_remove_failed: "@ + reason@),
        remote_removal_fault(Ok(output)) is None <==> output.success,
        !output.success ==> remote_removal_fault(Ok(output)) == Some(
            command_failure("workspace_remove_failed"@, output.code, output.stdout@),
        ),
{
    reveal_strlit("workspace_remove_failed");
    reveal_strlit(": ");
    reveal_strlit("workspace_remove_failed: ");
    assert("workspace_remove_failed: "@ =~= "workspace_remove_failed"@ + ": "@);
}

/// A hook that could not be run stops what it was run for; one that ran and failed does
/// so before the work, and not behind it; one that succeeded never does.
pub proof fn lemma_failed_hooks_stop_the_work(hook: Hook, reason: String, output: CommandOutput)
    ensures
        hook_stops(hook, Err(reason)),
        output.success ==> !hook_stops(hook, Ok(output)),
        !output.success ==> {
            &&& hook_stops(Hook::AfterCreate, Ok(output))
            &&& hook_stops(Hook::BeforeRun, Ok(output))
            &&& !hook_stops(Hook::AfterRun, Ok(output))
            &&& !hook_stops(Hook::BeforeRemove, Ok(output))
        },
{
}

/// The hook for new workspaces is run for those that were just made, and for no others.
pub proof fn lemma_only_new_workspaces_have_their_hook(command: Seq<char>, created_now: bool)
    ensures
        hook_is_due(true, Some(command)),
        !hook_is_due(false, Some(command)),
        !hook_is_due(created_now, None),
{
}

} // verus!
