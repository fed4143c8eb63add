//! Commands for remote hosts.

use crate::config::env_not_blank;
use crate::environment::{env_value, Environment};
use crate::text::{
    blank, char_is_digit, chars_of, has_char, is_digit, is_space, lemma_trimmed_text_stays,
    opt_text, replace_char, replaced, string_of, texts, trim, trimmed,
};
use vstd::prelude::*;
use vstd::string::*;

verus! {

// ---------------------------------------------------------------------------
// Errors
// ---------------------------------------------------------------------------

/// Why a remote command could not be run.
#[derive(Debug)]
pub struct SshError {
    message: String,
}

impl View for SshError {
    type V = Seq<char>;

    closed spec fn view(&self) -> Seq<char> {
        self.message@
    }
}

impl SshError {
    /// The error with a message.
    pub fn new(message: &str) -> (r: SshError)
        ensures
            r@ == message@,
    {
        SshError { message: message.to_string() }
    }

    /// The message of the error.
    pub fn message(&self) -> (r: String)
        ensures
            r@ == self@,
    {
        self.message.clone()
    }

    /// The error of a command that could not be run to its end.
    pub fn run_failed(error: &str) -> (r: SshError)
        ensures
            r@ == "ssh_run_failed: "@ + error@,
    {
        SshError::new("ssh_run_failed: ".to_string().concat(error).as_str())
    }

    /// The error of a command that could not be started.
    pub fn spawn_failed(error: &str) -> (r: SshError)
        ensures
            r@ == "ssh_spawn_failed: "@ + error@,
    {
        SshError::new("ssh_spawn_failed: ".to_string().concat(error).as_str())
    }
}

// ---------------------------------------------------------------------------
// Quoting
// ---------------------------------------------------------------------------

/// What stands for a single quote inside a quoted text: the end of the quoted
/// part, a single quote between double quotes, and the start of the next part.
pub open spec fn quote_mark() -> Seq<char> {
    "'\"'\"'"@
}

/// The text as one word of a shell, whatever it holds.
pub open spec fn escaped(value: Seq<char>) -> Seq<char> {
    "'"@ + replace_char(value, '\'', quote_mark()) + "'"@
}

/// The text as one word of a shell, whatever it holds.
pub fn shell_escape(value: &str) -> (r: String)
    ensures
        r@ == escaped(value@),
{
    let inside = replaced(value, '\'', "'\"'\"'");
    "'".to_string().concat(inside.as_str()).concat("'")
}

/// Between which quotes the reading of a word stands.
pub enum Quote {
    Outside,
    Single,
    Double,
}

/// What a shell reads from a word that is made of quoted parts. A part between
/// double quotes may hold only characters that have no meaning there.
pub open spec fn shell_reads(word: Seq<char>, quote: Quote) -> Option<Seq<char>>
    decreases word.len(),
{
    if word.len() == 0 {
        if quote is Outside {
            Some(Seq::empty())
        } else {
            None
        }
    } else {
        let c = word[0];
        let rest = word.drop_first();
        match quote {
            Quote::Outside => if c == '\'' {
                shell_reads(rest, Quote::Single)
            } else if c == '"' {
                shell_reads(rest, Quote::Double)
            } else {
                None
            },
            Quote::Single => if c == '\'' {
                shell_reads(rest, Quote::Outside)
            } else {
                read_on(c, shell_reads(rest, Quote::Single))
            },
            Quote::Double => if c == '"' {
                shell_reads(rest, Quote::Outside)
            } else if c == '$' || c == '`' || c == '\\' || c == '!' {
                None
            } else {
                read_on(c, shell_reads(rest, Quote::Double))
            },
        }
    }
}

/// A character before what is read behind it.
pub open spec fn read_on(c: char, rest: Option<Seq<char>>) -> Option<Seq<char>> {
    match rest {
        Some(text) => Some(seq![c] + text),
        None => None,
    }
}

proof fn lemma_replace_first(value: Seq<char>, c: char, with: Seq<char>)
    requires
        value.len() > 0,
    ensures
        replace_char(value, c, with) == (if value[0] == c {
            with
        } else {
            seq![value[0]]
        }) + replace_char(value.drop_first(), c, with),
    decreases value.len(),
{
    if value.len() == 1 {
        assert(value.drop_last() =~= Seq::empty());
        assert(value.drop_first() =~= Seq::empty());
        assert(replace_char(value, c, with) =~= (if value[0] == c {
            with
        } else {
            seq![value[0]]
        }) + replace_char(value.drop_first(), c, with));
    } else {
        lemma_replace_first(value.drop_last(), c, with);
        assert(value.drop_last().drop_first() =~= value.drop_first().drop_last());
        assert(value.drop_first().last() == value.last());
        assert(replace_char(value, c, with) =~= (if value[0] == c {
            with
        } else {
            seq![value[0]]
        }) + replace_char(value.drop_first(), c, with));
    }
}

proof fn lemma_inside_reads(value: Seq<char>)
    ensures
        shell_reads(replace_char(value, '\'', quote_mark()) + "'"@, Quote::Single) == Some(value),
    decreases value.len(),
{
    reveal_strlit("'");
    reveal_strlit("'\"'\"'");
    let close = "'"@;
    let mark = quote_mark();
    if value.len() == 0 {
        assert(replace_char(value, '\'', mark) + close =~= close);
        assert(close.drop_first() =~= Seq::empty());
        assert(shell_reads(close.drop_first(), Quote::Outside) == Some(Seq::<char>::empty()));
        assert(value =~= Seq::empty());
    } else {
        let rest = value.drop_first();
        lemma_replace_first(value, '\'', mark);
        lemma_inside_reads(rest);
        let tail = replace_char(rest, '\'', mark) + close;
        let whole = replace_char(value, '\'', mark) + close;
        assert(seq![value[0]] + rest =~= value);
        if value[0] == '\'' {
            assert(whole =~= mark + tail);
            let w1 = whole.drop_first();
            let w2 = w1.drop_first();
            let w3 = w2.drop_first();
            let w4 = w3.drop_first();
            let w5 = w4.drop_first();
            assert(w5 =~= tail);
            assert(whole[0] == '\'');
            assert(w1[0] == '"');
            assert(w2[0] == '\'');
            assert(w3[0] == '"');
            assert(w4[0] == '\'');
            assert(shell_reads(w4, Quote::Outside) == Some(rest));
            assert(shell_reads(w3, Quote::Double) == Some(rest));
            assert(shell_reads(w2, Quote::Double) == Some(seq!['\''] + rest));
            assert(shell_reads(w1, Quote::Outside) == Some(seq!['\''] + rest));
        } else {
            assert(whole =~= seq![value[0]] + tail);
            assert(whole.drop_first() =~= tail);
        }
    }
}

/// A shell reads an escaped text as one word that is the text itself, whatever
/// characters it holds.
pub proof fn lemma_shell_reads_escaped(value: Seq<char>)
    ensures
        shell_reads(escaped(value), Quote::Outside) == Some(value),
{
    reveal_strlit("'");
    lemma_inside_reads(value);
    let inside = replace_char(value, '\'', quote_mark()) + "'"@;
    assert(escaped(value) =~= "'"@ + inside);
    assert(escaped(value).drop_first() =~= inside);
    assert(escaped(value)[0] == '\'');
}

// ---------------------------------------------------------------------------
// Commands
// ---------------------------------------------------------------------------

/// A command as a remote shell is given it.
pub open spec fn remote_command(command: Seq<char>) -> Seq<char> {
    "bash -lc "@ + escaped(command)
}

/// A command as a remote shell is given it.
pub fn remote_shell_command(command: &str) -> (r: String)
    ensures
        r@ == remote_command(command@),
{
    "bash -lc ".to_string().concat(shell_escape(command).as_str())
}

/// The program that runs remote commands.
pub fn ssh_executable() -> (r: Result<String, SshError>)
    ensures
        r matches Ok(program) && program@ == "ssh"@,
{
    Ok("ssh".to_string())
}

/// A host and the port to reach it by.
#[derive(Debug)]
pub struct ParsedTarget {
    pub destination: String,
    pub port: Option<String>,
}

/// Where the character stands last.
pub open spec fn last_char(s: Seq<char>, c: char) -> Option<int>
    decreases s.len(),
{
    if s.len() == 0 {
        None
    } else if s.last() == c {
        Some(s.len() - 1)
    } else {
        last_char(s.drop_last(), c)
    }
}

/// Whether all characters are digits.
pub open spec fn all_digits(s: Seq<char>) -> bool {
    forall|i: int| 0 <= i < s.len() ==> is_digit(#[trigger] s[i])
}

/// Whether a text is put between square brackets.
pub open spec fn bracketed(s: Seq<char>) -> bool {
    s.len() > 0 && s[0] == '[' && s.last() == ']'
}

/// The host and the port of a target: digits behind the last colon are the port,
/// unless what stands before is empty or is an address with colons that is not
/// put between brackets.
pub open spec fn target_parts(target: Seq<char>) -> (Seq<char>, Option<Seq<char>>) {
    let whole = trim(target);
    match last_char(whole, ':') {
        Some(i) => {
            let host = whole.take(i);
            let port = whole.skip(i + 1);
            if host.len() > 0 && all_digits(port) && (!host.contains(':') || bracketed(host)) {
                (host, Some(port))
            } else {
                (whole, None)
            }
        },
        None => (whole, None),
    }
}

/// The host and the port of a target.
pub fn parse_target(target: &str) -> (r: ParsedTarget)
    ensures
        (r.destination@, opt_text(r.port)) == target_parts(target@),
{
    let whole = trimmed(target);
    let cs = chars_of(whole.as_str());
    let mut end: usize = cs.len();
    assert(cs@.take(end as int) =~= cs@);
    while end > 0 && cs[end - 1] != ':'
        invariant
            end <= cs@.len(),
            cs@ == whole@,
            last_char(cs@, ':') == last_char(cs@.take(end as int), ':'),
        decreases end,
    {
        assert(cs@.take(end as int).drop_last() =~= cs@.take(end - 1));
        end = end - 1;
    }
    if end > 0 {
        let i: usize = end - 1;
        let host = string_of(&cs, 0, i);
        let port = string_of(&cs, end, cs.len());
        assert(host@ =~= whole@.take(i as int));
        assert(port@ =~= whole@.skip(i + 1));
        let mut digits: bool = true;
        let mut j: usize = end;
        while j < cs.len()
            invariant
                end <= j <= cs@.len(),
                port@ == cs@.subrange(end as int, cs@.len() as int),
                digits == (forall|k: int| 0 <= k < j - end ==> is_digit(#[trigger] port@[k])),
            decreases cs@.len() - j,
        {
            assert(port@[j - end] == cs@[j as int]);
            if !char_is_digit(cs[j]) {
                digits = false;
            }
            j = j + 1;
        }
        let in_brackets = i > 0 && cs[0] == '[' && cs[i - 1] == ']';
        if i > 0 && digits && (!has_char(host.as_str(), ':') || in_brackets) {
            return ParsedTarget { destination: host, port: Some(port) };
        }
    }
    ParsedTarget { destination: whole, port: None }
}

/// The arguments with which a command is run on a host.
pub open spec fn ssh_words(host: Seq<char>, command: Seq<char>, env: Environment) -> Seq<
    Seq<char>,
> {
    let (destination, port) = target_parts(host);
    let config = match env_not_blank(env, "SYMPHONY_SSH_CONFIG"@) {
        Some(path) => seq!["-F"@, path],
        None => Seq::empty(),
    };
    let port_words = match port {
        Some(digits) => seq!["-p"@, digits],
        None => Seq::empty(),
    };
    config + seq!["-T"@] + port_words + seq![destination, remote_command(command)]
}

/// The arguments with which a command is run on a host.
pub fn ssh_args(host: &str, command: &str, env: &Environment) -> (r: Vec<String>)
    ensures
        texts(r@) == ssh_words(host@, command@, *env),
{
    let target = parse_target(host);
    let mut args: Vec<String> = Vec::new();
    match env.var("SYMPHONY_SSH_CONFIG") {
        Some(path) => {
            if !blank(path.as_str()) {
                args.push("-F".to_string());
                args.push(path);
            }
        },
        None => {},
    }
    args.push("-T".to_string());
    match target.port {
        Some(port) => {
            args.push("-p".to_string());
            args.push(port);
        },
        None => {},
    }
    args.push(target.destination);
    args.push(remote_shell_command(command));
    assert(texts(args@) =~= ssh_words(host@, command@, *env));
    args
}

// ---------------------------------------------------------------------------
// Laws on targets
// ---------------------------------------------------------------------------

proof fn lemma_last_place(s: Seq<char>, c: char)
    ensures
        last_char(s, c) is None <==> !s.contains(c),
        last_char(s, c) matches Some(i) ==> 0 <= i < s.len() && s[i] == c && forall|j: int|
            i < j < s.len() ==> #[trigger] s[j] != c,
    decreases s.len(),
{
    if s.len() > 0 {
        let front = s.drop_last();
        let last = s.len() - 1;
        lemma_last_place(front, c);
        if s.last() == c {
            assert(s[last] == c);
        } else {
            if s.contains(c) {
                let j = choose|j: int| 0 <= j < s.len() && s[j] == c;
                assert(front[j] == c);
            }
            if front.contains(c) {
                let j = choose|j: int| 0 <= j < front.len() && front[j] == c;
                assert(s[j] == c);
            }
            if let Some(i) = last_char(front, c) {
                assert forall|j: int| i < j < s.len() implies #[trigger] s[j] != c by {
                    if j < last {
                        assert(front[j] == s[j]);
                    }
                }
            }
        }
    }
}

/// A host, a colon and digits are the host and its port; a host without a colon has
/// none. A host with colons of its own has a port only if it stands in brackets.
pub proof fn lemma_targets_are_read(host: Seq<char>, port: Seq<char>)
    requires
        host.len() > 0,
        !is_space(host[0]),
        !is_space(host.last()),
    ensures
        !host.contains(':') ==> target_parts(host) == (host, None::<Seq<char>>),
        (forall|i: int| 0 <= i < port.len() ==> '0' <= #[trigger] port[i] <= '9') ==> {
            let target = host.push(':') + port;
            &&& !host.contains(':') ==> target_parts(target) == (host, Some(port))
            &&& host.contains(':') && host[0] == '[' && host.last() == ']' ==> target_parts(target)
                == (host, Some(port))
            &&& host.contains(':') && !(host[0] == '[' && host.last() == ']') ==> target_parts(
                target,
            ) == (target, None::<Seq<char>>)
        },
{
    lemma_last_place(host, ':');
    lemma_trimmed_text_stays(host);
    if forall|i: int| 0 <= i < port.len() ==> '0' <= #[trigger] port[i] <= '9' {
        let target = host.push(':') + port;
        let n = host.len() as int;
        assert(target[0] == host[0]);
        assert(!is_space(target.last())) by {
            if port.len() > 0 {
                assert(target.last() == port[port.len() - 1]);
            } else {
                assert(target.last() == ':');
            }
        }
        lemma_trimmed_text_stays(target);
        lemma_last_place(target, ':');
        assert(target[n] == ':');
        assert(target.contains(':'));
        let i = last_char(target, ':')->0;
        assert(i == n) by {
            if i > n {
                assert(port[i - n - 1] == ':');
            } else if i < n {
                assert(target[n] != ':');
            }
        }
        assert(target.take(i) =~= host);
        assert(target.skip(i + 1) =~= port);
    }
}

/// What `ssh` is called with: the file with its settings, if the environment names
/// one; no terminal; the port, if there is one; the host; and the command for a shell
/// there, which reads it as it was given.
pub proof fn lemma_words_for_ssh(host: Seq<char>, command: Seq<char>, env: Environment)
    ensures
        ({
            let words = ssh_words(host, command, env);
            let (destination, port) = target_parts(host);
            let file = env_value(env, "SYMPHONY_SSH_CONFIG"@);
            let named = file is Some && trim(file->0).len() > 0;
            let k = if named {
                2int
            } else {
                0int
            };
            let n = words.len() as int;
            &&& named ==> words[0] == "-F"@ && words[1] == file->0
            &&& words[k] == "-T"@
            &&& port is Some ==> n == k + 5 && words[k + 1] == "-p"@ && words[k + 2] == port->0
            &&& port is None ==> n == k + 3
            &&& words[n - 2] == destination
            &&& words[n - 1].take(9) == "bash -lc "@
            &&& shell_reads(words[n - 1].skip(9), Quote::Outside) == Some(command)
        }),
{
    reveal_strlit("bash -lc ");
    lemma_shell_reads_escaped(command);
    assert(remote_command(command).take(9) =~= "bash -lc "@);
    assert(remote_command(command).skip(9) =~= escaped(command));
}

/// A port is what stands behind the last colon, is made of digits alone, and has a host
/// in front of it; a target without one is taken whole.
pub proof fn lemma_ports_are_digits(target: Seq<char>)
    ensures
        ({
            let (host, port) = target_parts(target);
            &&& port is None ==> host == trim(target)
            &&& port matches Some(digits) ==> {
                &&& trim(target) == host.push(':') + digits
                &&& host.len() > 0
                &&& forall|i: int| 0 <= i < digits.len() ==> '0' <= #[trigger] digits[i] <= '9'
                &&& host.contains(':') ==> host[0] == '[' && host.last() == ']'
            }
        }),
{
    let whole = trim(target);
    lemma_last_place(whole, ':');
    if let Some(i) = last_char(whole, ':') {
        assert(whole.take(i).push(':') + whole.skip(i + 1) =~= whole);
    }
}

} // verus!
