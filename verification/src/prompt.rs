//! Prompt templates: text with `{{ variable }}` expressions and
//! `{% if variable %} .. {% else %} .. {% endif %}` blocks.

use crate::domain::{BlockerModel, Issue, IssueBlockerRef, IssueModel};
use crate::text::{
    chars_of, clone_strings, decimal, decimal_text, find_pair, first_pair, has_char, has_prefix,
    join, joined, lemma_first_place_of_pair, opt_text, same_text, signed_decimal,
    signed_decimal_text, string_of, texts, trim, trimmed,
};
use crate::timestamp::{opt_time, rfc3339_text, TimePoint, Timestamp};
use vstd::prelude::*;
use vstd::string::*;

verus! {

// ---------------------------------------------------------------------------
// Errors
// ---------------------------------------------------------------------------

/// Why a template cannot be rendered.
#[derive(Debug, PartialEq, Eq)]
pub enum PromptError {
    UnterminatedExpression,
    UnterminatedControlTag,
    UnknownVariable(String),
    UnknownFilter(String),
    UnexpectedControlTag(String),
}

/// The model of an error.
pub enum PromptFault {
    UnterminatedExpression,
    UnterminatedControlTag,
    UnknownVariable(Seq<char>),
    UnknownFilter(Seq<char>),
    UnexpectedControlTag(Seq<char>),
}

impl View for PromptError {
    type V = PromptFault;

    open spec fn view(&self) -> PromptFault {
        match *self {
            PromptError::UnterminatedExpression => PromptFault::UnterminatedExpression,
            PromptError::UnterminatedControlTag => PromptFault::UnterminatedControlTag,
            PromptError::UnknownVariable(value) => PromptFault::UnknownVariable(value@),
            PromptError::UnknownFilter(value) => PromptFault::UnknownFilter(value@),
            PromptError::UnexpectedControlTag(value) => PromptFault::UnexpectedControlTag(value@),
        }
    }
}

/// The message of an error.
pub open spec fn fault_message(fault: PromptFault) -> Seq<char> {
    match fault {
        PromptFault::UnterminatedExpression =>
            "template_parse_error: unterminated `{ ... }` expression"@,
        PromptFault::UnterminatedControlTag =>
            "template_parse_error: unterminated `{% ... %}` control tag"@,
        PromptFault::UnknownVariable(value) => "template_render_error: unknown variable `"@ + value
            + "`"@,
        PromptFault::UnknownFilter(value) =>
            "template_render_error: filters are not supported `"@ + value + "`"@,
        PromptFault::UnexpectedControlTag(value) =>
            "template_parse_error: unsupported control tag `"@ + value + "`"@,
    }
}

/// `value` between `before` and a closing backquote.
fn quoted(before: &str, value: &str) -> (r: String)
    ensures
        r@ == before@ + value@ + "`"@,
{
    before.to_string().concat(value).concat("`")
}

impl PromptError {
    /// The message of the error.
    pub fn message(&self) -> (r: String)
        ensures
            r@ == fault_message(self@),
    {
        match self {
            PromptError::UnterminatedExpression =>
                "template_parse_error: unterminated `{ ... }` expression".to_string(),
            PromptError::UnterminatedControlTag =>
                "template_parse_error: unterminated `{% ... %}` control tag".to_string(),
            PromptError::UnknownVariable(value) => quoted(
                "template_render_error: unknown variable `",
                value.as_str(),
            ),
            PromptError::UnknownFilter(value) => quoted(
                "template_render_error: filters are not supported `",
                value.as_str(),
            ),
            PromptError::UnexpectedControlTag(value) => quoted(
                "template_parse_error: unsupported control tag `",
                value.as_str(),
            ),
        }
    }
}

impl Clone for PromptError {
    fn clone(&self) -> (r: PromptError)
        ensures
            r == *self,
    {
        match self {
            PromptError::UnterminatedExpression => PromptError::UnterminatedExpression,
            PromptError::UnterminatedControlTag => PromptError::UnterminatedControlTag,
            PromptError::UnknownVariable(value) => PromptError::UnknownVariable(value.clone()),
            PromptError::UnknownFilter(value) => PromptError::UnknownFilter(value.clone()),
            PromptError::UnexpectedControlTag(value) => PromptError::UnexpectedControlTag(
                value.clone(),
            ),
        }
    }
}

// ---------------------------------------------------------------------------
// Tokens
// ---------------------------------------------------------------------------

/// A piece of a template.
#[derive(Debug, PartialEq, Eq)]
pub enum Token {
    Text(String),
    Variable(String),
    If(String),
    Else,
    EndIf,
}

/// The model of a piece of a template.
pub enum TokenModel {
    Text(Seq<char>),
    Variable(Seq<char>),
    If(Seq<char>),
    Else,
    EndIf,
}

impl View for Token {
    type V = TokenModel;

    open spec fn view(&self) -> TokenModel {
        match *self {
            Token::Text(text) => TokenModel::Text(text@),
            Token::Variable(expression) => TokenModel::Variable(expression@),
            Token::If(expression) => TokenModel::If(expression@),
            Token::Else => TokenModel::Else,
            Token::EndIf => TokenModel::EndIf,
        }
    }
}

/// The models of a list of tokens.
pub open spec fn token_models(tokens: Seq<Token>) -> Seq<TokenModel> {
    tokens.map_values(|token: Token| token@)
}

/// Where the next tag of a template starts.
pub open spec fn next_tag(s: Seq<char>) -> Option<int> {
    match (first_pair(s, '{', '{'), first_pair(s, '{', '%')) {
        (Some(a), Some(b)) => Some(if a <= b { a } else { b }),
        (Some(a), None) => Some(a),
        (None, Some(b)) => Some(b),
        (None, None) => None,
    }
}

/// The token of the words inside a control tag.
pub open spec fn control_token(control: Seq<char>) -> Result<TokenModel, PromptFault> {
    if control == "else"@ {
        Ok(TokenModel::Else)
    } else if control == "endif"@ {
        Ok(TokenModel::EndIf)
    } else if "if "@.is_prefix_of(control) {
        Ok(TokenModel::If(trim(control.skip(3))))
    } else {
        Err(PromptFault::UnexpectedControlTag(control))
    }
}

/// A list of tokens with more before it.
pub open spec fn after_tokens(
    front: Seq<TokenModel>,
    rest: Result<Seq<TokenModel>, PromptFault>,
) -> Result<Seq<TokenModel>, PromptFault> {
    match rest {
        Ok(tokens) => Ok(front + tokens),
        Err(fault) => Err(fault),
    }
}

/// The token of the tag at `start` and the place behind it.
pub open spec fn tag_at(s: Seq<char>, start: int) -> Result<(TokenModel, int), PromptFault> {
    let rest = s.skip(start + 2);
    if s[start + 1] == '{' {
        match first_pair(rest, '}', '}') {
            None => Err(PromptFault::UnterminatedExpression),
            Some(end) => Ok((TokenModel::Variable(trim(rest.take(end))), start + 2 + end + 2)),
        }
    } else {
        match first_pair(rest, '%', '}') {
            None => Err(PromptFault::UnterminatedControlTag),
            Some(end) => match control_token(trim(rest.take(end))) {
                Err(fault) => Err(fault),
                Ok(token) => Ok((token, start + 2 + end + 2)),
            },
        }
    }
}

/// The tokens of a template: the text between tags and the tags themselves.
pub open spec fn tokens_of(s: Seq<char>) -> Result<Seq<TokenModel>, PromptFault>
    decreases s.len(),
{
    if s.len() == 0 {
        Ok(Seq::empty())
    } else {
        match next_tag(s) {
            None => Ok(seq![TokenModel::Text(s)]),
            Some(start) => {
                let front = if start > 0 {
                    seq![TokenModel::Text(s.take(start))]
                } else {
                    Seq::empty()
                };
                match tag_at(s, start) {
                    Err(fault) => Err(fault),
                    Ok((token, next)) => if 0 < next <= s.len() {
                        after_tokens(front.push(token), tokens_of(s.skip(next)))
                    } else {
                        Ok(front.push(token))
                    },
                }
            },
        }
    }
}

/// The result of reading tokens or nodes, as a model.
pub open spec fn tokens_result(r: Result<Vec<Token>, PromptError>) -> Result<
    Seq<TokenModel>,
    PromptFault,
> {
    match r {
        Ok(tokens) => Ok(token_models(tokens@)),
        Err(error) => Err(error@),
    }
}

/// Where the next tag starts at `cursor` or behind it.
fn find_tag(cs: &Vec<char>, cursor: usize) -> (r: Option<usize>)
    requires
        cursor <= cs@.len(),
    ensures
        match r {
            Some(start) => {
                &&& next_tag(cs@.skip(cursor as int)) == Some(start - cursor)
                &&& cursor <= start
                &&& start + 2 <= cs@.len()
            },
            None => next_tag(cs@.skip(cursor as int)) is None,
        },
{
    match (find_pair(cs, cursor, '{', '{'), find_pair(cs, cursor, '{', '%')) {
        (Some(a), Some(b)) => Some(
            if a <= b {
                a
            } else {
                b
            },
        ),
        (Some(a), None) => Some(a),
        (None, Some(b)) => Some(b),
        (None, None) => None,
    }
}

/// The token of the words inside a control tag.
fn read_control(control: String) -> (r: Result<Token, PromptError>)
    ensures
        match r {
            Ok(token) => control_token(control@) == Ok::<TokenModel, PromptFault>(token@),
            Err(error) => control_token(control@) == Err::<TokenModel, PromptFault>(error@),
        },
{
    if same_text(control.as_str(), "else") {
        Ok(Token::Else)
    } else if same_text(control.as_str(), "endif") {
        Ok(Token::EndIf)
    } else if has_prefix(control.as_str(), "if ") {
        let cs = chars_of(control.as_str());
        proof {
            reveal_strlit("if ");
        }
        let rest = string_of(&cs, 3, cs.len());
        assert(rest@ =~= control@.skip(3));
        Ok(Token::If(trimmed(rest.as_str())))
    } else {
        Err(PromptError::UnexpectedControlTag(control))
    }
}

/// The token of the tag at `start` and the place behind it.
fn read_tag(
    cs: &Vec<char>,
    start: usize,
    Ghost(s): Ghost<Seq<char>>,
    Ghost(cursor): Ghost<int>,
) -> (r: Result<(Token, usize), PromptError>)
    requires
        0 <= cursor <= start,
        start + 2 <= cs@.len(),
        s == cs@.skip(cursor),
    ensures
        match r {
            Ok((token, next)) => {
                &&& tag_at(s, start - cursor) == Ok::<(TokenModel, int), PromptFault>(
                    (token@, next - cursor),
                )
                &&& start < next <= cs@.len()
            },
            Err(error) => tag_at(s, start - cursor) == Err::<(TokenModel, int), PromptFault>(
                error@,
            ),
        },
{
    let length: usize = cs.len();
    assert(start + 2 <= length);
    let ghost rest = s.skip(start - cursor + 2);
    assert(rest =~= cs@.skip(start + 2));
    if cs[start + 1] == '{' {
        match find_pair(cs, start + 2, '}', '}') {
            None => Err(PromptError::UnterminatedExpression),
            Some(end) => {
                let inside = string_of(cs, start + 2, end);
                assert(inside@ =~= rest.take(end - (start + 2)));
                Ok((Token::Variable(trimmed(inside.as_str())), end + 2))
            },
        }
    } else {
        match find_pair(cs, start + 2, '%', '}') {
            None => Err(PromptError::UnterminatedControlTag),
            Some(end) => {
                let inside = string_of(cs, start + 2, end);
                assert(inside@ =~= rest.take(end - (start + 2)));
                match read_control(trimmed(inside.as_str())) {
                    Err(error) => Err(error),
                    Ok(token) => Ok((token, end + 2)),
                }
            },
        }
    }
}

/// The tokens of a template.
pub fn tokenize(template: &str) -> (r: Result<Vec<Token>, PromptError>)
    ensures
        tokens_result(r) == tokens_of(template@),
{
    let cs = chars_of(template);
    let mut tokens: Vec<Token> = Vec::new();
    let mut cursor: usize = 0;
    assert(cs@.skip(0) =~= cs@);
    assert(after_tokens(token_models(tokens@), tokens_of(cs@)) == tokens_of(cs@)) by {
        match tokens_of(cs@) {
            Ok(all) => {
                assert(token_models(tokens@) + all =~= all);
            },
            Err(_) => {},
        }
    }
    while cursor < cs.len()
        invariant
            cursor <= cs@.len(),
            cs@ == template@,
            tokens_of(cs@) == after_tokens(
                token_models(tokens@),
                tokens_of(cs@.skip(cursor as int)),
            ),
        decreases cs@.len() - cursor,
    {
        let ghost s = cs@.skip(cursor as int);
        let ghost before = token_models(tokens@);
        match find_tag(&cs, cursor) {
            Some(start) => {
                if start > cursor {
                    let text = string_of(&cs, cursor, start);
                    assert(text@ =~= s.take(start - cursor));
                    tokens.push(Token::Text(text));
                }
                let ghost front = if start - cursor > 0 {
                    seq![TokenModel::Text(s.take(start - cursor))]
                } else {
                    Seq::empty()
                };
                assert(token_models(tokens@) =~= before + front);
                match read_tag(&cs, start, Ghost(s), Ghost(cursor as int)) {
                    Err(error) => {
                        return Err(error);
                    },
                    Ok((token, next)) => {
                        tokens.push(token);
                        proof {
                            assert(token_models(tokens@) =~= before + front.push(token@));
                            assert(s.skip(next - cursor) =~= cs@.skip(next as int));
                            match tokens_of(cs@.skip(next as int)) {
                                Ok(rest) => {
                                    assert(before + (front.push(token@) + rest) =~= (before
                                        + front.push(token@)) + rest);
                                },
                                Err(_) => {},
                            }
                        }
                        cursor = next;
                    },
                }
            },
            None => {
                let text = string_of(&cs, cursor, cs.len());
                assert(text@ =~= s);
                tokens.push(Token::Text(text));
                proof {
                    assert(token_models(tokens@) =~= before + seq![TokenModel::Text(s)]);
                    assert(cs@.skip(cs@.len() as int) =~= Seq::<char>::empty());
                    assert(token_models(tokens@) + Seq::<TokenModel>::empty() =~= token_models(
                        tokens@,
                    ));
                }
                cursor = cs.len();
            },
        }
    }
    proof {
        assert(cs@.skip(cursor as int) =~= Seq::<char>::empty());
        assert(token_models(tokens@) + Seq::<TokenModel>::empty() =~= token_models(tokens@));
    }
    Ok(tokens)
}

// ---------------------------------------------------------------------------
// Nodes
// ---------------------------------------------------------------------------

/// A part of a template with its blocks nested.
#[derive(Debug, PartialEq, Eq)]
pub enum Node {
    Text(String),
    Variable(String),
    If { expression: String, when_true: Vec<Node>, when_false: Vec<Node> },
}

/// The model of a part of a template.
pub enum NodeModel {
    Text(Seq<char>),
    Variable(Seq<char>),
    If { expression: Seq<char>, when_true: Seq<NodeModel>, when_false: Seq<NodeModel> },
}

/// The model of a node.
pub closed spec fn node_model(node: Node) -> NodeModel
    decreases node, 0nat,
{
    match node {
        Node::Text(text) => NodeModel::Text(text@),
        Node::Variable(expression) => NodeModel::Variable(expression@),
        Node::If { expression, when_true, when_false } => NodeModel::If {
            expression: expression@,
            when_true: nodes_prefix(when_true, when_true@.len()),
            when_false: nodes_prefix(when_false, when_false@.len()),
        },
    }
}

closed spec fn nodes_prefix(nodes: Vec<Node>, n: nat) -> Seq<NodeModel>
    decreases nodes, n,
{
    if n == 0 || n > nodes@.len() {
        Seq::empty()
    } else {
        nodes_prefix(nodes, (n - 1) as nat).push(node_model(nodes@[n - 1]))
    }
}

/// The models of a list of nodes.
pub open spec fn node_models(nodes: Seq<Node>) -> Seq<NodeModel> {
    nodes.map_values(|node: Node| node_model(node))
}

proof fn lemma_nodes_prefix(nodes: Vec<Node>, n: nat)
    requires
        n <= nodes@.len(),
    ensures
        nodes_prefix(nodes, n) == node_models(nodes@.take(n as int)),
    decreases n,
{
    if n > 0 {
        lemma_nodes_prefix(nodes, (n - 1) as nat);
        assert(node_models(nodes@.take(n as int)) =~= node_models(nodes@.take(n - 1)).push(
            node_model(nodes@[n - 1]),
        ));
    } else {
        assert(node_models(nodes@.take(0)) =~= Seq::empty());
    }
}

/// The model of a node by its shape.
pub proof fn lemma_node_model(node: Node)
    ensures
        node_model(node) == match node {
            Node::Text(text) => NodeModel::Text(text@),
            Node::Variable(expression) => NodeModel::Variable(expression@),
            Node::If { expression, when_true, when_false } => NodeModel::If {
                expression: expression@,
                when_true: node_models(when_true@),
                when_false: node_models(when_false@),
            },
        },
{
    match node {
        Node::If { expression, when_true, when_false } => {
            lemma_nodes_prefix(when_true, when_true@.len());
            lemma_nodes_prefix(when_false, when_false@.len());
            assert(when_true@.take(when_true@.len() as int) =~= when_true@);
            assert(when_false@.take(when_false@.len() as int) =~= when_false@);
        },
        _ => {},
    }
}

/// What parsing from some token on gives: the nodes and the place of the token
/// that ended them.
pub type Parsed = Result<(Seq<NodeModel>, int), PromptFault>;

/// Parsed nodes with more before them.
pub open spec fn after_nodes(front: Seq<NodeModel>, rest: Parsed) -> Parsed {
    match rest {
        Ok((nodes, end)) => Ok((front + nodes, end)),
        Err(fault) => Err(fault),
    }
}

/// The nodes from token `i` on, up to an `else` or `endif` that belongs to no
/// block among them, or to the end.
pub open spec fn parse_from(tokens: Seq<TokenModel>, i: int) -> Parsed
    decreases tokens.len() - i,
{
    if i < 0 || i >= tokens.len() {
        Ok((Seq::empty(), i))
    } else {
        match tokens[i] {
            TokenModel::Text(text) => after_nodes(
                seq![NodeModel::Text(text)],
                parse_from(tokens, i + 1),
            ),
            TokenModel::Variable(expression) => after_nodes(
                seq![NodeModel::Variable(expression)],
                parse_from(tokens, i + 1),
            ),
            TokenModel::If(expression) => match parse_from(tokens, i + 1) {
                Err(fault) => Err(fault),
                Ok((when_true, j)) => {
                    let otherwise = if i < j < tokens.len() && tokens[j] is Else {
                        parse_from(tokens, j + 1)
                    } else {
                        Ok((Seq::empty(), j))
                    };
                    match otherwise {
                        Err(fault) => Err(fault),
                        Ok((when_false, k)) => if i < k < tokens.len() && tokens[k] is EndIf {
                            after_nodes(
                                seq![NodeModel::If { expression, when_true, when_false }],
                                parse_from(tokens, k + 1),
                            )
                        } else {
                            Err(PromptFault::UnexpectedControlTag("missing endif"@))
                        },
                    }
                },
            },
            TokenModel::Else => Ok((Seq::empty(), i)),
            TokenModel::EndIf => Ok((Seq::empty(), i)),
        }
    }
}

/// Parsing never goes back, and stops only at an `else`, an `endif` or the end.
pub proof fn lemma_parse_from_end(tokens: Seq<TokenModel>, i: int)
    requires
        0 <= i <= tokens.len(),
    ensures
        parse_from(tokens, i) matches Ok((_, end)) ==> {
            &&& i <= end <= tokens.len()
            &&& end < tokens.len() ==> (tokens[end] is Else || tokens[end] is EndIf)
        },
    decreases tokens.len() - i,
{
    if i < tokens.len() {
        match tokens[i] {
            TokenModel::Text(_) => {
                lemma_parse_from_end(tokens, i + 1);
            },
            TokenModel::Variable(_) => {
                lemma_parse_from_end(tokens, i + 1);
            },
            TokenModel::If(expression) => {
                lemma_parse_from_end(tokens, i + 1);
                match parse_from(tokens, i + 1) {
                    Err(_) => {},
                    Ok((when_true, j)) => {
                        if j < tokens.len() && tokens[j] is Else {
                            lemma_parse_from_end(tokens, j + 1);
                        }
                        let otherwise: Parsed = if i < j < tokens.len() && tokens[j] is Else {
                            parse_from(tokens, j + 1)
                        } else {
                            Ok((Seq::empty(), j))
                        };
                        match otherwise {
                            Err(_) => {},
                            Ok((when_false, k)) => {
                                if k < tokens.len() && tokens[k] is EndIf {
                                    lemma_parse_from_end(tokens, k + 1);
                                }
                            },
                        }
                    },
                }
            },
            _ => {},
        }
    }
}

/// The nodes from the token at `index` on; `index` moves to the token that
/// ended them.
pub fn parse_nodes(tokens: &Vec<Token>, index: &mut usize) -> (r: Result<Vec<Node>, PromptError>)
    ensures
        match r {
            Ok(nodes) => {
                &&& parse_from(token_models(tokens@), *old(index) as int) == Ok::<
                    (Seq<NodeModel>, int),
                    PromptFault,
                >((node_models(nodes@), *final(index) as int))
                &&& *old(index) <= *final(index)
                &&& *old(index) <= tokens@.len() ==> *final(index) <= tokens@.len()
            },
            Err(error) => parse_from(token_models(tokens@), *old(index) as int) == Err::<
                (Seq<NodeModel>, int),
                PromptFault,
            >(error@),
        },
    decreases tokens@.len() - *old(index),
{
    let ghost all = token_models(tokens@);
    let ghost start = *index as int;
    let mut nodes: Vec<Node> = Vec::new();
    proof {
        match parse_from(all, start) {
            Ok((rest, _)) => {
                assert(node_models(nodes@) + rest =~= rest);
            },
            Err(_) => {},
        }
    }
    while *index < tokens.len()
        invariant
            all == token_models(tokens@),
            start == *old(index),
            start <= *index,
            start <= tokens@.len() ==> *index <= tokens@.len(),
            parse_from(all, start) == after_nodes(
                node_models(nodes@),
                parse_from(all, *index as int),
            ),
        decreases tokens@.len() - *index,
    {
        let ghost at = *index as int;
        let ghost before = node_models(nodes@);
        assert(all[at] == tokens@[at]@);
        match &tokens[*index] {
            Token::Text(value) => {
                let node = Node::Text(value.clone());
                nodes.push(node);
                *index = *index + 1;
                proof {
                    lemma_node_model(node);
                    lemma_after_node(before, node_model(node), parse_from(all, at + 1));
                    assert(node_models(nodes@) =~= before.push(node_model(node)));
                }
            },
            Token::Variable(value) => {
                let node = Node::Variable(value.clone());
                nodes.push(node);
                *index = *index + 1;
                proof {
                    lemma_node_model(node);
                    lemma_after_node(before, node_model(node), parse_from(all, at + 1));
                    assert(node_models(nodes@) =~= before.push(node_model(node)));
                }
            },
            Token::If(expression) => {
                *index = *index + 1;
                let when_true = match parse_nodes(tokens, index) {
                    Ok(inner) => inner,
                    Err(error) => {
                        return Err(error);
                    },
                };
                proof {
                    lemma_parse_from_end(all, at + 1);
                }
                let when_false = if *index < tokens.len() && matches!(tokens[*index], Token::Else) {
                    *index = *index + 1;
                    match parse_nodes(tokens, index) {
                        Ok(inner) => inner,
                        Err(error) => {
                            return Err(error);
                        },
                    }
                } else {
                    let none: Vec<Node> = Vec::new();
                    assert(node_models(none@) =~= Seq::empty());
                    none
                };
                let ghost k = *index as int;
                if *index < tokens.len() && matches!(tokens[*index], Token::EndIf) {
                    *index = *index + 1;
                    let node = Node::If { expression: expression.clone(), when_true, when_false };
                    nodes.push(node);
                    proof {
                        lemma_node_model(node);
                        lemma_after_node(before, node_model(node), parse_from(all, k + 1));
                        assert(node_models(nodes@) =~= before.push(node_model(node)));
                    }
                } else {
                    return Err(PromptError::UnexpectedControlTag("missing endif".to_string()));
                }
            },
            Token::Else => {
                assert(before + Seq::<NodeModel>::empty() =~= before);
                return Ok(nodes);
            },
            Token::EndIf => {
                assert(before + Seq::<NodeModel>::empty() =~= before);
                return Ok(nodes);
            },
        }
    }
    assert(node_models(nodes@) + Seq::<NodeModel>::empty() =~= node_models(nodes@));
    Ok(nodes)
}

proof fn lemma_after_node(front: Seq<NodeModel>, node: NodeModel, rest: Parsed)
    ensures
        after_nodes(front, after_nodes(seq![node], rest)) == after_nodes(front.push(node), rest),
{
    match rest {
        Ok((nodes, _)) => {
            assert(front + (seq![node] + nodes) =~= front.push(node) + nodes);
        },
        Err(_) => {},
    }
}

// ---------------------------------------------------------------------------
// Values
// ---------------------------------------------------------------------------

/// What an expression stands for.
#[derive(Debug, PartialEq, Eq)]
pub enum PromptValue {
    Null,
    Number(String),
    Text(String),
    List(Vec<String>),
}

/// The model of what an expression stands for.
pub enum ValueModel {
    Null,
    Number(Seq<char>),
    Text(Seq<char>),
    List(Seq<Seq<char>>),
}

impl View for PromptValue {
    type V = ValueModel;

    open spec fn view(&self) -> ValueModel {
        match *self {
            PromptValue::Null => ValueModel::Null,
            PromptValue::Number(digits) => ValueModel::Number(digits@),
            PromptValue::Text(text) => ValueModel::Text(text@),
            PromptValue::List(items) => ValueModel::List(texts(items@)),
        }
    }
}

/// Whether a value opens the first branch of a block.
pub open spec fn is_truthy(value: ValueModel) -> bool {
    match value {
        ValueModel::Null => false,
        ValueModel::Number(digits) => digits != "0"@,
        ValueModel::Text(text) => text.len() > 0,
        ValueModel::List(items) => items.len() > 0,
    }
}

/// The text of a value.
pub open spec fn value_text(value: ValueModel) -> Seq<char> {
    match value {
        ValueModel::Null => Seq::empty(),
        ValueModel::Number(digits) => digits,
        ValueModel::Text(text) => text,
        ValueModel::List(items) => join(items, ", "@),
    }
}

impl PromptValue {
    /// Whether the value opens the first branch of a block.
    pub fn truthy(&self) -> (r: bool)
        ensures
            r == is_truthy(self@),
    {
        match self {
            PromptValue::Null => false,
            PromptValue::Number(digits) => !same_text(digits.as_str(), "0"),
            PromptValue::Text(text) => text.as_str().unicode_len() > 0,
            PromptValue::List(items) => items.len() > 0,
        }
    }

    /// The text of the value.
    pub fn render(&self) -> (r: String)
        ensures
            r@ == value_text(self@),
    {
        match self {
            PromptValue::Null => String::new(),
            PromptValue::Number(digits) => digits.clone(),
            PromptValue::Text(text) => text.clone(),
            PromptValue::List(items) => joined(items, ", "),
        }
    }
}

/// A number that may be missing.
pub open spec fn number_or_null(digits: Option<Seq<char>>) -> ValueModel {
    match digits {
        Some(text) => ValueModel::Number(text),
        None => ValueModel::Null,
    }
}

/// A text that may be missing.
pub open spec fn text_or_null(text: Option<Seq<char>>) -> ValueModel {
    match text {
        Some(t) => ValueModel::Text(t),
        None => ValueModel::Null,
    }
}

/// The name under which a blocker is shown.
pub open spec fn blocker_label(blocker: BlockerModel) -> Seq<char> {
    match (blocker.identifier, blocker.id, blocker.state) {
        (Some(identifier), _, _) => identifier,
        (None, Some(id), _) => id,
        (None, None, Some(state)) => state,
        (None, None, None) => "unknown-blocker"@,
    }
}

/// The text of an optional point in time.
pub open spec fn time_text(time: Option<TimePoint>) -> Option<Seq<char>> {
    match time {
        Some(t) => Some(rfc3339_text(t.seconds as i64, t.nanos as u32)),
        None => None,
    }
}

/// What an expression stands for.
pub open spec fn value_of(
    expression: Seq<char>,
    issue: IssueModel,
    attempt: Option<u32>,
) -> Result<ValueModel, PromptFault> {
    if expression.contains('|') {
        Err(PromptFault::UnknownFilter(expression))
    } else if expression == "attempt"@ {
        Ok(
            number_or_null(
                match attempt {
                    Some(n) => Some(decimal(n as nat)),
                    None => None,
                },
            ),
        )
    } else if expression == "issue.id"@ {
        Ok(ValueModel::Text(issue.id))
    } else if expression == "issue.identifier"@ {
        Ok(ValueModel::Text(issue.identifier))
    } else if expression == "issue.title"@ {
        Ok(ValueModel::Text(issue.title))
    } else if expression == "issue.description"@ {
        Ok(text_or_null(issue.description))
    } else if expression == "issue.priority"@ {
        Ok(
            number_or_null(
                match issue.priority {
                    Some(n) => Some(signed_decimal(n as int)),
                    None => None,
                },
            ),
        )
    } else if expression == "issue.state"@ {
        Ok(ValueModel::Text(issue.state))
    } else if expression == "issue.branch_name"@ {
        Ok(text_or_null(issue.branch_name))
    } else if expression == "issue.url"@ {
        Ok(text_or_null(issue.url))
    } else if expression == "issue.assignee_id"@ {
        Ok(text_or_null(issue.assignee_id))
    } else if expression == "issue.labels"@ {
        Ok(ValueModel::List(issue.labels))
    } else if expression == "issue.blocked_by"@ {
        Ok(ValueModel::List(issue.blocked_by.map_values(|b: BlockerModel| blocker_label(b))))
    } else if expression == "issue.created_at"@ {
        Ok(text_or_null(time_text(issue.created_at)))
    } else if expression == "issue.updated_at"@ {
        Ok(text_or_null(time_text(issue.updated_at)))
    } else {
        Err(PromptFault::UnknownVariable(expression))
    }
}

/// A copy of a text that may be missing.
fn optional_text(text: &Option<String>) -> (r: PromptValue)
    ensures
        r@ == text_or_null(opt_text(*text)),
{
    match text {
        Some(t) => PromptValue::Text(t.clone()),
        None => PromptValue::Null,
    }
}

/// The text of a point in time that may be missing.
fn optional_time(time: &Option<Timestamp>) -> (r: PromptValue)
    ensures
        r@ == text_or_null(time_text(opt_time(*time))),
{
    match time {
        Some(t) => PromptValue::Text(t.to_rfc3339()),
        None => PromptValue::Null,
    }
}

/// The names under which blockers are shown.
fn blocker_labels(blockers: &Vec<IssueBlockerRef>) -> (r: Vec<String>)
    ensures
        texts(r@) == crate::domain::blockers(blockers@).map_values(
            |b: BlockerModel| blocker_label(b),
        ),
{
    let mut out: Vec<String> = Vec::new();
    let mut i: usize = 0;
    while i < blockers.len()
        invariant
            i <= blockers@.len(),
            out@.len() == i,
            forall|j: int| 0 <= j < i ==> (#[trigger] out@[j])@ == blocker_label(blockers@[j]@),
        decreases blockers@.len() - i,
    {
        let blocker = &blockers[i];
        let label = match (&blocker.identifier, &blocker.id, &blocker.state) {
            (Some(identifier), _, _) => identifier.clone(),
            (None, Some(id), _) => id.clone(),
            (None, None, Some(state)) => state.clone(),
            (None, None, None) => "unknown-blocker".to_string(),
        };
        out.push(label);
        i = i + 1;
    }
    assert(texts(out@) =~= crate::domain::blockers(blockers@).map_values(
        |b: BlockerModel| blocker_label(b),
    ));
    out
}

/// What an expression stands for.
pub fn resolve_expression(expression: &str, issue: &Issue, attempt: Option<u32>) -> (r: Result<
    PromptValue,
    PromptError,
>)
    ensures
        match r {
            Ok(value) => value_of(expression@, issue@, attempt) == Ok::<ValueModel, PromptFault>(
                value@,
            ),
            Err(error) => value_of(expression@, issue@, attempt) == Err::<ValueModel, PromptFault>(
                error@,
            ),
        },
{
    if has_char(expression, '|') {
        return Err(PromptError::UnknownFilter(expression.to_string()));
    }
    if same_text(expression, "attempt") {
        Ok(
            match attempt {
                Some(n) => PromptValue::Number(decimal_text(n as u64)),
                None => PromptValue::Null,
            },
        )
    } else if same_text(expression, "issue.id") {
        Ok(PromptValue::Text(issue.id.clone()))
    } else if same_text(expression, "issue.identifier") {
        Ok(PromptValue::Text(issue.identifier.clone()))
    } else if same_text(expression, "issue.title") {
        Ok(PromptValue::Text(issue.title.clone()))
    } else if same_text(expression, "issue.description") {
        Ok(optional_text(&issue.description))
    } else if same_text(expression, "issue.priority") {
        Ok(
            match issue.priority {
                Some(n) => PromptValue::Number(signed_decimal_text(n)),
                None => PromptValue::Null,
            },
        )
    } else if same_text(expression, "issue.state") {
        Ok(PromptValue::Text(issue.state.clone()))
    } else if same_text(expression, "issue.branch_name") {
        Ok(optional_text(&issue.branch_name))
    } else if same_text(expression, "issue.url") {
        Ok(optional_text(&issue.url))
    } else if same_text(expression, "issue.assignee_id") {
        Ok(optional_text(&issue.assignee_id))
    } else if same_text(expression, "issue.labels") {
        Ok(PromptValue::List(clone_strings(&issue.labels)))
    } else if same_text(expression, "issue.blocked_by") {
        Ok(PromptValue::List(blocker_labels(&issue.blocked_by)))
    } else if same_text(expression, "issue.created_at") {
        Ok(optional_time(&issue.created_at))
    } else if same_text(expression, "issue.updated_at") {
        Ok(optional_time(&issue.updated_at))
    } else {
        Err(PromptError::UnknownVariable(expression.to_string()))
    }
}

// ---------------------------------------------------------------------------
// Rendering
// ---------------------------------------------------------------------------

/// A rendered text, or why there is none.
pub type Rendered = Result<Seq<char>, PromptFault>;

/// The text of one node.
pub open spec fn node_text(node: NodeModel, issue: IssueModel, attempt: Option<u32>) -> Rendered
    decreases node, 0int,
{
    match node {
        NodeModel::Text(text) => Ok(text),
        NodeModel::Variable(expression) => match value_of(expression, issue, attempt) {
            Ok(value) => Ok(value_text(value)),
            Err(fault) => Err(fault),
        },
        NodeModel::If { expression, when_true, when_false } => match value_of(
            expression,
            issue,
            attempt,
        ) {
            Ok(value) => {
                let branch = if is_truthy(value) {
                    nodes_text(when_true, 0, issue, attempt)
                } else {
                    nodes_text(when_false, 0, issue, attempt)
                };
                match branch {
                    Ok(text) => Ok(trim(text)),
                    Err(fault) => Err(fault),
                }
            },
            Err(fault) => Err(fault),
        },
    }
}

/// The texts of the nodes from `k` on, one behind the other; the first node
/// without a text decides the error.
pub open spec fn nodes_text(
    nodes: Seq<NodeModel>,
    k: int,
    issue: IssueModel,
    attempt: Option<u32>,
) -> Rendered
    decreases nodes, nodes.len() - k,
{
    if k < 0 || k >= nodes.len() {
        Ok(Seq::empty())
    } else {
        match node_text(nodes[k], issue, attempt) {
            Ok(text) => match nodes_text(nodes, k + 1, issue, attempt) {
                Ok(rest) => Ok(text + rest),
                Err(fault) => Err(fault),
            },
            Err(fault) => Err(fault),
        }
    }
}

/// The trimmed text of a list of nodes.
pub open spec fn block_text(
    nodes: Seq<NodeModel>,
    issue: IssueModel,
    attempt: Option<u32>,
) -> Rendered {
    match nodes_text(nodes, 0, issue, attempt) {
        Ok(text) => Ok(trim(text)),
        Err(fault) => Err(fault),
    }
}

/// A rendered text, as a model.
pub open spec fn rendered(r: Result<String, PromptError>) -> Rendered {
    match r {
        Ok(text) => Ok(text@),
        Err(error) => Err(error@),
    }
}

/// A text put before a rendered one.
pub open spec fn after_text(front: Seq<char>, rest: Rendered) -> Rendered {
    match rest {
        Ok(text) => Ok(front + text),
        Err(fault) => Err(fault),
    }
}

/// The trimmed text of a list of nodes.
pub fn render_nodes(nodes: &Vec<Node>, issue: &Issue, attempt: Option<u32>) -> (r: Result<
    String,
    PromptError,
>)
    ensures
        rendered(r) == block_text(node_models(nodes@), issue@, attempt),
    decreases nodes,
{
    let ghost all = node_models(nodes@);
    let mut output = String::new();
    let mut i: usize = 0;
    proof {
        match nodes_text(all, 0, issue@, attempt) {
            Ok(text) => {
                assert(output@ + text =~= text);
            },
            Err(_) => {},
        }
    }
    while i < nodes.len()
        invariant
            i <= nodes@.len(),
            all == node_models(nodes@),
            nodes_text(all, 0, issue@, attempt) == after_text(
                output@,
                nodes_text(all, i as int, issue@, attempt),
            ),
        decreases nodes@.len() - i,
    {
        let ghost before = output@;
        let node = &nodes[i];
        proof {
            lemma_node_model(*node);
            assert(all[i as int] == node_model(*node));
        }
        match node {
            Node::Text(value) => {
                output.append(value.as_str());
            },
            Node::Variable(expression) => {
                match resolve_expression(expression.as_str(), issue, attempt) {
                    Ok(value) => {
                        let text = value.render();
                        output.append(text.as_str());
                    },
                    Err(error) => {
                        return Err(error);
                    },
                }
            },
            Node::If { expression, when_true, when_false } => {
                match resolve_expression(expression.as_str(), issue, attempt) {
                    Ok(value) => {
                        let branch = if value.truthy() {
                            render_nodes(when_true, issue, attempt)
                        } else {
                            render_nodes(when_false, issue, attempt)
                        };
                        match branch {
                            Ok(text) => {
                                output.append(text.as_str());
                            },
                            Err(error) => {
                                return Err(error);
                            },
                        }
                    },
                    Err(error) => {
                        return Err(error);
                    },
                }
            },
        }
        proof {
            match node_text(all[i as int], issue@, attempt) {
                Ok(text) => {
                    assert(output@ =~= before + text);
                    match nodes_text(all, i + 1, issue@, attempt) {
                        Ok(rest) => {
                            assert(before + (text + rest) =~= output@ + rest);
                        },
                        Err(_) => {},
                    }
                },
                Err(_) => {},
            }
        }
        i = i + 1;
    }
    assert(output@ + Seq::<char>::empty() =~= output@);
    Ok(trimmed(output.as_str()))
}

/// The text of a template for an issue and an attempt at it.
pub open spec fn template_text(
    template: Seq<char>,
    issue: IssueModel,
    attempt: Option<u32>,
) -> Rendered {
    match tokens_of(template) {
        Err(fault) => Err(fault),
        Ok(tokens) => match parse_from(tokens, 0) {
            Err(fault) => Err(fault),
            Ok((nodes, end)) => if end != tokens.len() {
                Err(PromptFault::UnexpectedControlTag("unexpected trailing control tag"@))
            } else {
                block_text(nodes, issue, attempt)
            },
        },
    }
}

/// What turns a template into a prompt.
pub trait PromptRenderer {
    /// The prompt for an issue and an attempt at it.
    fn render(&self, template: &str, issue: &Issue, attempt: Option<u32>) -> Result<
        String,
        PromptError,
    >;
}

/// The renderer of templates with variables and `if` blocks.
#[derive(Debug, Clone, Copy, Default)]
pub struct LiquidLikePromptRenderer;

impl PromptRenderer for LiquidLikePromptRenderer {
    fn render(&self, template: &str, issue: &Issue, attempt: Option<u32>) -> (r: Result<
        String,
        PromptError,
    >)
        ensures
            rendered(r) == template_text(template@, issue@, attempt),
    {
        let tokens = match tokenize(template) {
            Ok(tokens) => tokens,
            Err(error) => {
                return Err(error);
            },
        };
        let mut index: usize = 0;
        let nodes = match parse_nodes(&tokens, &mut index) {
            Ok(nodes) => nodes,
            Err(error) => {
                return Err(error);
            },
        };
        if index != tokens.len() {
            return Err(
                PromptError::UnexpectedControlTag("unexpected trailing control tag".to_string()),
            );
        }
        render_nodes(&nodes, issue, attempt)
    }
}

// ---------------------------------------------------------------------------
// Laws
// ---------------------------------------------------------------------------

/// A template without tags renders to its own text, trimmed.
pub proof fn lemma_plain_template(template: Seq<char>, issue: IssueModel, attempt: Option<u32>)
    requires
        next_tag(template) is None,
    ensures
        template_text(template, issue, attempt) == Ok::<Seq<char>, PromptFault>(trim(template)),
{
    if template.len() == 0 {
        let none = Seq::<TokenModel>::empty();
        assert(parse_from(none, 0) == Ok::<(Seq<NodeModel>, int), PromptFault>((Seq::empty(), 0)));
        assert(template =~= Seq::empty());
    } else {
        let tokens = seq![TokenModel::Text(template)];
        let nodes = seq![NodeModel::Text(template)];
        assert(parse_from(tokens, 1) == Ok::<(Seq<NodeModel>, int), PromptFault>((Seq::empty(), 1)));
        assert(nodes + Seq::<NodeModel>::empty() =~= nodes);
        assert(parse_from(tokens, 0) == Ok::<(Seq<NodeModel>, int), PromptFault>((nodes, 1)));
        assert(nodes_text(nodes, 1, issue, attempt) == Ok::<Seq<char>, PromptFault>(Seq::empty()));
        assert(node_text(nodes[0], issue, attempt) == Ok::<Seq<char>, PromptFault>(template));
        assert(template + Seq::<char>::empty() =~= template);
        assert(nodes_text(nodes, 0, issue, attempt) == Ok::<Seq<char>, PromptFault>(template));
    }
}

/// A rendered prompt has no white space at its ends.
pub proof fn lemma_prompt_is_trimmed(template: Seq<char>, issue: IssueModel, attempt: Option<u32>)
    ensures
        template_text(template, issue, attempt) matches Ok(text) ==> trim(text) == text,
{
    match tokens_of(template) {
        Ok(tokens) => match parse_from(tokens, 0) {
            Ok((nodes, end)) => match nodes_text(nodes, 0, issue, attempt) {
                Ok(text) => {
                    crate::text::lemma_trim_idempotent(text);
                },
                Err(_) => {},
            },
            Err(_) => {},
        },
        Err(_) => {},
    }
}

/// The tokens that spell a node; an `else` stands only before a branch that is
/// not empty.
pub open spec fn spell_node(node: NodeModel) -> Seq<TokenModel>
    decreases node, 0int,
{
    match node {
        NodeModel::Text(text) => seq![TokenModel::Text(text)],
        NodeModel::Variable(expression) => seq![TokenModel::Variable(expression)],
        NodeModel::If { expression, when_true, when_false } => {
            let otherwise = if when_false.len() > 0 {
                seq![TokenModel::Else] + spell(when_false, 0)
            } else {
                Seq::empty()
            };
            seq![TokenModel::If(expression)] + spell(when_true, 0) + otherwise
                + seq![TokenModel::EndIf]
        },
    }
}

/// The tokens that spell the nodes from `k` on.
pub open spec fn spell(nodes: Seq<NodeModel>, k: int) -> Seq<TokenModel>
    decreases nodes, nodes.len() - k,
{
    if k < 0 || k >= nodes.len() {
        Seq::empty()
    } else {
        spell_node(nodes[k]) + spell(nodes, k + 1)
    }
}

/// Whether `part` stands in `tokens` from `i` on.
spec fn stands_at(tokens: Seq<TokenModel>, i: int, part: Seq<TokenModel>) -> bool {
    &&& 0 <= i
    &&& i + part.len() <= tokens.len()
    &&& forall|j: int| 0 <= j < part.len() ==> tokens[i + j] == #[trigger] part[j]
}

proof fn lemma_stands_split(
    tokens: Seq<TokenModel>,
    i: int,
    a: Seq<TokenModel>,
    b: Seq<TokenModel>,
)
    requires
        stands_at(tokens, i, a + b),
    ensures
        stands_at(tokens, i, a),
        stands_at(tokens, i + a.len(), b),
{
    assert forall|j: int| 0 <= j < a.len() implies tokens[i + j] == #[trigger] a[j] by {
        assert((a + b)[j] == a[j]);
    }
    assert forall|j: int| 0 <= j < b.len() implies tokens[i + a.len() + j] == #[trigger] b[j] by {
        assert((a + b)[a.len() + j] == b[j]);
    }
}

proof fn lemma_parse_spelled_node(tokens: Seq<TokenModel>, i: int, node: NodeModel)
    requires
        stands_at(tokens, i, spell_node(node)),
    ensures
        parse_from(tokens, i) == after_nodes(
            seq![node],
            parse_from(tokens, i + spell_node(node).len()),
        ),
    decreases node, 0int,
{
    match node {
        NodeModel::Text(text) => {
            assert(spell_node(node)[0] == TokenModel::Text(text));
        },
        NodeModel::Variable(expression) => {
            assert(spell_node(node)[0] == TokenModel::Variable(expression));
        },
        NodeModel::If { expression, when_true, when_false } => {
            let open = seq![TokenModel::If(expression)];
            let yes = spell(when_true, 0);
            let otherwise = if when_false.len() > 0 {
                seq![TokenModel::Else] + spell(when_false, 0)
            } else {
                Seq::empty()
            };
            let close = seq![TokenModel::EndIf];
            lemma_stands_split(tokens, i, open + yes + otherwise, close);
            lemma_stands_split(tokens, i, open + yes, otherwise);
            lemma_stands_split(tokens, i, open, yes);
            assert(open[0] == TokenModel::If(expression));
            assert(close[0] == TokenModel::EndIf);
            let j = i + 1 + yes.len();
            let k = j + otherwise.len();
            assert(tokens[i + 0] == open[0]);
            assert(tokens[k + 0] == close[0]);
            if when_false.len() > 0 {
                let no = spell(when_false, 0);
                lemma_stands_split(tokens, j, seq![TokenModel::Else], no);
                assert(seq![TokenModel::Else][0] == TokenModel::Else);
                assert(tokens[j + 0] == seq![TokenModel::Else][0]);
                lemma_parse_spelled(tokens, i + 1, when_true, 0);
                lemma_parse_spelled(tokens, j + 1, when_false, 0);
                assert(when_true.skip(0) =~= when_true);
                assert(when_false.skip(0) =~= when_false);
            } else {
                lemma_parse_spelled(tokens, i + 1, when_true, 0);
                assert(when_true.skip(0) =~= when_true);
                assert(when_false =~= Seq::empty());
            }
            assert(i + spell_node(node).len() == k + 1);
        },
    }
}

proof fn lemma_parse_spelled(tokens: Seq<TokenModel>, i: int, nodes: Seq<NodeModel>, k: int)
    requires
        0 <= k <= nodes.len(),
        stands_at(tokens, i, spell(nodes, k)),
        i + spell(nodes, k).len() < tokens.len() ==> {
            let end = tokens[i + spell(nodes, k).len()];
            end is Else || end is EndIf
        },
    ensures
        parse_from(tokens, i) == Ok::<(Seq<NodeModel>, int), PromptFault>(
            (nodes.skip(k), i + spell(nodes, k).len()),
        ),
    decreases nodes, nodes.len() - k,
{
    if k == nodes.len() {
        assert(nodes.skip(k) =~= Seq::empty());
    } else {
        lemma_stands_split(tokens, i, spell_node(nodes[k]), spell(nodes, k + 1));
        lemma_parse_spelled_node(tokens, i, nodes[k]);
        lemma_parse_spelled(tokens, i + spell_node(nodes[k]).len(), nodes, k + 1);
        assert(seq![nodes[k]] + nodes.skip(k + 1) =~= nodes.skip(k));
    }
}

/// Every nesting of blocks can be written down: the tokens that spell a list of
/// nodes are parsed to exactly those nodes.
pub proof fn lemma_parse_spell(nodes: Seq<NodeModel>)
    ensures
        parse_from(spell(nodes, 0), 0) == Ok::<(Seq<NodeModel>, int), PromptFault>(
            (nodes, spell(nodes, 0).len() as int),
        ),
{
    lemma_parse_spelled(spell(nodes, 0), 0, nodes, 0);
    assert(nodes.skip(0) =~= nodes);
}

// ---------------------------------------------------------------------------
// Laws on what expressions stand for
// ---------------------------------------------------------------------------

/// The expressions that stand for something are all different, and none has a filter.
proof fn lemma_expressions_differ()
    ensures
        "attempt"@ != "issue.id"@,
        "attempt"@ != "issue.identifier"@,
        "attempt"@ != "issue.title"@,
        "attempt"@ != "issue.description"@,
        "attempt"@ != "issue.priority"@,
        "attempt"@ != "issue.state"@,
        "attempt"@ != "issue.branch_name"@,
        "attempt"@ != "issue.url"@,
        "attempt"@ != "issue.assignee_id"@,
        "attempt"@ != "issue.labels"@,
        "attempt"@ != "issue.blocked_by"@,
        "attempt"@ != "issue.created_at"@,
        "attempt"@ != "issue.updated_at"@,
        "issue.id"@ != "issue.identifier"@,
        "issue.id"@ != "issue.title"@,
        "issue.id"@ != "issue.description"@,
        "issue.id"@ != "issue.priority"@,
        "issue.id"@ != "issue.state"@,
        "issue.id"@ != "issue.branch_name"@,
        "issue.id"@ != "issue.url"@,
        "issue.id"@ != "issue.assignee_id"@,
        "issue.id"@ != "issue.labels"@,
        "issue.id"@ != "issue.blocked_by"@,
        "issue.id"@ != "issue.created_at"@,
        "issue.id"@ != "issue.updated_at"@,
        "issue.identifier"@ != "issue.title"@,
        "issue.identifier"@ != "issue.description"@,
        "issue.identifier"@ != "issue.priority"@,
        "issue.identifier"@ != "issue.state"@,
        "issue.identifier"@ != "issue.branch_name"@,
        "issue.identifier"@ != "issue.url"@,
        "issue.identifier"@ != "issue.assignee_id"@,
        "issue.identifier"@ != "issue.labels"@,
        "issue.identifier"@ != "issue.blocked_by"@,
        "issue.identifier"@ != "issue.created_at"@,
        "issue.identifier"@ != "issue.updated_at"@,
        "issue.title"@ != "issue.description"@,
        "issue.title"@ != "issue.priority"@,
        "issue.title"@ != "issue.state"@,
        "issue.title"@ != "issue.branch_name"@,
        "issue.title"@ != "issue.url"@,
        "issue.title"@ != "issue.assignee_id"@,
        "issue.title"@ != "issue.labels"@,
        "issue.title"@ != "issue.blocked_by"@,
        "issue.title"@ != "issue.created_at"@,
        "issue.title"@ != "issue.updated_at"@,
        "issue.description"@ != "issue.priority"@,
        "issue.description"@ != "issue.state"@,
        "issue.description"@ != "issue.branch_name"@,
        "issue.description"@ != "issue.url"@,
        "issue.description"@ != "issue.assignee_id"@,
        "issue.description"@ != "issue.labels"@,
        "issue.description"@ != "issue.blocked_by"@,
        "issue.description"@ != "issue.created_at"@,
        "issue.description"@ != "issue.updated_at"@,
        "issue.priority"@ != "issue.state"@,
        "issue.priority"@ != "issue.branch_name"@,
        "issue.priority"@ != "issue.url"@,
        "issue.priority"@ != "issue.assignee_id"@,
        "issue.priority"@ != "issue.labels"@,
        "issue.priority"@ != "issue.blocked_by"@,
        "issue.priority"@ != "issue.created_at"@,
        "issue.priority"@ != "issue.updated_at"@,
        "issue.state"@ != "issue.branch_name"@,
        "issue.state"@ != "issue.url"@,
        "issue.state"@ != "issue.assignee_id"@,
        "issue.state"@ != "issue.labels"@,
        "issue.state"@ != "issue.blocked_by"@,
        "issue.state"@ != "issue.created_at"@,
        "issue.state"@ != "issue.updated_at"@,
        "issue.branch_name"@ != "issue.url"@,
        "issue.branch_name"@ != "issue.assignee_id"@,
        "issue.branch_name"@ != "issue.labels"@,
        "issue.branch_name"@ != "issue.blocked_by"@,
        "issue.branch_name"@ != "issue.created_at"@,
        "issue.branch_name"@ != "issue.updated_at"@,
        "issue.url"@ != "issue.assignee_id"@,
        "issue.url"@ != "issue.labels"@,
        "issue.url"@ != "issue.blocked_by"@,
        "issue.url"@ != "issue.created_at"@,
        "issue.url"@ != "issue.updated_at"@,
        "issue.assignee_id"@ != "issue.labels"@,
        "issue.assignee_id"@ != "issue.blocked_by"@,
        "issue.assignee_id"@ != "issue.created_at"@,
        "issue.assignee_id"@ != "issue.updated_at"@,
        "issue.labels"@ != "issue.blocked_by"@,
        "issue.labels"@ != "issue.created_at"@,
        "issue.labels"@ != "issue.updated_at"@,
        "issue.blocked_by"@ != "issue.created_at"@,
        "issue.blocked_by"@ != "issue.updated_at"@,
        "issue.created_at"@ != "issue.updated_at"@,
        !"attempt"@.contains('|'),
        !"issue.id"@.contains('|'),
        !"issue.identifier"@.contains('|'),
        !"issue.title"@.contains('|'),
        !"issue.description"@.contains('|'),
        !"issue.priority"@.contains('|'),
        !"issue.state"@.contains('|'),
        !"issue.branch_name"@.contains('|'),
        !"issue.url"@.contains('|'),
        !"issue.assignee_id"@.contains('|'),
        !"issue.labels"@.contains('|'),
        !"issue.blocked_by"@.contains('|'),
        !"issue.created_at"@.contains('|'),
        !"issue.updated_at"@.contains('|'),
{
    reveal_strlit("attempt");
    reveal_strlit("issue.id");
    reveal_strlit("issue.identifier");
    reveal_strlit("issue.title");
    reveal_strlit("issue.description");
    reveal_strlit("issue.priority");
    reveal_strlit("issue.state");
    reveal_strlit("issue.branch_name");
    reveal_strlit("issue.url");
    reveal_strlit("issue.assignee_id");
    reveal_strlit("issue.labels");
    reveal_strlit("issue.blocked_by");
    reveal_strlit("issue.created_at");
    reveal_strlit("issue.updated_at");
    assert("attempt"@.len() != "issue.id"@.len());
    assert("attempt"@.len() != "issue.identifier"@.len());
    assert("attempt"@.len() != "issue.title"@.len());
    assert("attempt"@.len() != "issue.description"@.len());
    assert("attempt"@.len() != "issue.priority"@.len());
    assert("attempt"@.len() != "issue.state"@.len());
    assert("attempt"@.len() != "issue.branch_name"@.len());
    assert("attempt"@.len() != "issue.url"@.len());
    assert("attempt"@.len() != "issue.assignee_id"@.len());
    assert("attempt"@.len() != "issue.labels"@.len());
    assert("attempt"@.len() != "issue.blocked_by"@.len());
    assert("attempt"@.len() != "issue.created_at"@.len());
    assert("attempt"@.len() != "issue.updated_at"@.len());
    assert("issue.id"@.len() != "issue.identifier"@.len());
    assert("issue.id"@.len() != "issue.title"@.len());
    assert("issue.id"@.len() != "issue.description"@.len());
    assert("issue.id"@.len() != "issue.priority"@.len());
    assert("issue.id"@.len() != "issue.state"@.len());
    assert("issue.id"@.len() != "issue.branch_name"@.len());
    assert("issue.id"@.len() != "issue.url"@.len());
    assert("issue.id"@.len() != "issue.assignee_id"@.len());
    assert("issue.id"@.len() != "issue.labels"@.len());
    assert("issue.id"@.len() != "issue.blocked_by"@.len());
    assert("issue.id"@.len() != "issue.created_at"@.len());
    assert("issue.id"@.len() != "issue.updated_at"@.len());
    assert("issue.identifier"@.len() != "issue.title"@.len());
    assert("issue.identifier"@.len() != "issue.description"@.len());
    assert("issue.identifier"@.len() != "issue.priority"@.len());
    assert("issue.identifier"@.len() != "issue.state"@.len());
    assert("issue.identifier"@.len() != "issue.branch_name"@.len());
    assert("issue.identifier"@.len() != "issue.url"@.len());
    assert("issue.identifier"@.len() != "issue.assignee_id"@.len());
    assert("issue.identifier"@.len() != "issue.labels"@.len());
    assert("issue.identifier"@[6] != "issue.blocked_by"@[6]);
    assert("issue.identifier"@[6] != "issue.created_at"@[6]);
    assert("issue.identifier"@[6] != "issue.updated_at"@[6]);
    assert("issue.title"@.len() != "issue.description"@.len());
    assert("issue.title"@.len() != "issue.priority"@.len());
    assert("issue.title"@[6] != "issue.state"@[6]);
    assert("issue.title"@.len() != "issue.branch_name"@.len());
    assert("issue.title"@.len() != "issue.url"@.len());
    assert("issue.title"@.len() != "issue.assignee_id"@.len());
    assert("issue.title"@.len() != "issue.labels"@.len());
    assert("issue.title"@.len() != "issue.blocked_by"@.len());
    assert("issue.title"@.len() != "issue.created_at"@.len());
    assert("issue.title"@.len() != "issue.updated_at"@.len());
    assert("issue.description"@.len() != "issue.priority"@.len());
    assert("issue.description"@.len() != "issue.state"@.len());
    assert("issue.description"@[6] != "issue.branch_name"@[6]);
    assert("issue.description"@.len() != "issue.url"@.len());
    assert("issue.description"@[6] != "issue.assignee_id"@[6]);
    assert("issue.description"@.len() != "issue.labels"@.len());
    assert("issue.description"@.len() != "issue.blocked_by"@.len());
    assert("issue.description"@.len() != "issue.created_at"@.len());
    assert("issue.description"@.len() != "issue.updated_at"@.len());
    assert("issue.priority"@.len() != "issue.state"@.len());
    assert("issue.priority"@.len() != "issue.branch_name"@.len());
    assert("issue.priority"@.len() != "issue.url"@.len());
    assert("issue.priority"@.len() != "issue.assignee_id"@.len());
    assert("issue.priority"@.len() != "issue.labels"@.len());
    assert("issue.priority"@.len() != "issue.blocked_by"@.len());
    assert("issue.priority"@.len() != "issue.created_at"@.len());
    assert("issue.priority"@.len() != "issue.updated_at"@.len());
    assert("issue.state"@.len() != "issue.branch_name"@.len());
    assert("issue.state"@.len() != "issue.url"@.len());
    assert("issue.state"@.len() != "issue.assignee_id"@.len());
    assert("issue.state"@.len() != "issue.labels"@.len());
    assert("issue.state"@.len() != "issue.blocked_by"@.len());
    assert("issue.state"@.len() != "issue.created_at"@.len());
    assert("issue.state"@.len() != "issue.updated_at"@.len());
    assert("issue.branch_name"@.len() != "issue.url"@.len());
    assert("issue.branch_name"@[6] != "issue.assignee_id"@[6]);
    assert("issue.branch_name"@.len() != "issue.labels"@.len());
    assert("issue.branch_name"@.len() != "issue.blocked_by"@.len());
    assert("issue.branch_name"@.len() != "issue.created_at"@.len());
    assert("issue.branch_name"@.len() != "issue.updated_at"@.len());
    assert("issue.url"@.len() != "issue.assignee_id"@.len());
    assert("issue.url"@.len() != "issue.labels"@.len());
    assert("issue.url"@.len() != "issue.blocked_by"@.len());
    assert("issue.url"@.len() != "issue.created_at"@.len());
    assert("issue.url"@.len() != "issue.updated_at"@.len());
    assert("issue.assignee_id"@.len() != "issue.labels"@.len());
    assert("issue.assignee_id"@.len() != "issue.blocked_by"@.len());
    assert("issue.assignee_id"@.len() != "issue.created_at"@.len());
    assert("issue.assignee_id"@.len() != "issue.updated_at"@.len());
    assert("issue.labels"@.len() != "issue.blocked_by"@.len());
    assert("issue.labels"@.len() != "issue.created_at"@.len());
    assert("issue.labels"@.len() != "issue.updated_at"@.len());
    assert("issue.blocked_by"@[6] != "issue.created_at"@[6]);
    assert("issue.blocked_by"@[6] != "issue.updated_at"@[6]);
    assert("issue.created_at"@[6] != "issue.updated_at"@[6]);
    assert(!"attempt"@.contains('|')) by {
        if "attempt"@.contains('|') {
            let j = choose|j: int| 0 <= j < "attempt"@.len() && "attempt"@[j] == '|';
        }
    }
    assert(!"issue.id"@.contains('|')) by {
        if "issue.id"@.contains('|') {
            let j = choose|j: int| 0 <= j < "issue.id"@.len() && "issue.id"@[j] == '|';
        }
    }
    assert(!"issue.identifier"@.contains('|')) by {
        if "issue.identifier"@.contains('|') {
            let j = choose|j: int| 0 <= j < "issue.identifier"@.len() && "issue.identifier"@[j] == '|';
        }
    }
    assert(!"issue.title"@.contains('|')) by {
        if "issue.title"@.contains('|') {
            let j = choose|j: int| 0 <= j < "issue.title"@.len() && "issue.title"@[j] == '|';
        }
    }
    assert(!"issue.description"@.contains('|')) by {
        if "issue.description"@.contains('|') {
            let j = choose|j: int| 0 <= j < "issue.description"@.len() && "issue.description"@[j] == '|';
        }
    }
    assert(!"issue.priority"@.contains('|')) by {
        if "issue.priority"@.contains('|') {
            let j = choose|j: int| 0 <= j < "issue.priority"@.len() && "issue.priority"@[j] == '|';
        }
    }
    assert(!"issue.state"@.contains('|')) by {
        if "issue.state"@.contains('|') {
            let j = choose|j: int| 0 <= j < "issue.state"@.len() && "issue.state"@[j] == '|';
        }
    }
    assert(!"issue.branch_name"@.contains('|')) by {
        if "issue.branch_name"@.contains('|') {
            let j = choose|j: int| 0 <= j < "issue.branch_name"@.len() && "issue.branch_name"@[j] == '|';
        }
    }
    assert(!"issue.url"@.contains('|')) by {
        if "issue.url"@.contains('|') {
            let j = choose|j: int| 0 <= j < "issue.url"@.len() && "issue.url"@[j] == '|';
        }
    }
    assert(!"issue.assignee_id"@.contains('|')) by {
        if "issue.assignee_id"@.contains('|') {
            let j = choose|j: int| 0 <= j < "issue.assignee_id"@.len() && "issue.assignee_id"@[j] == '|';
        }
    }
    assert(!"issue.labels"@.contains('|')) by {
        if "issue.labels"@.contains('|') {
            let j = choose|j: int| 0 <= j < "issue.labels"@.len() && "issue.labels"@[j] == '|';
        }
    }
    assert(!"issue.blocked_by"@.contains('|')) by {
        if "issue.blocked_by"@.contains('|') {
            let j = choose|j: int| 0 <= j < "issue.blocked_by"@.len() && "issue.blocked_by"@[j] == '|';
        }
    }
    assert(!"issue.created_at"@.contains('|')) by {
        if "issue.created_at"@.contains('|') {
            let j = choose|j: int| 0 <= j < "issue.created_at"@.len() && "issue.created_at"@[j] == '|';
        }
    }
    assert(!"issue.updated_at"@.contains('|')) by {
        if "issue.updated_at"@.contains('|') {
            let j = choose|j: int| 0 <= j < "issue.updated_at"@.len() && "issue.updated_at"@[j] == '|';
        }
    }
}

/// Each expression stands for the field of its own name: the texts of an issue as they
/// are, and nothing where there is none.
pub proof fn lemma_expressions_stand_for_fields(issue: IssueModel, attempt: Option<u32>)
    ensures
        value_of("issue.id"@, issue, attempt) == Ok::<ValueModel, PromptFault>(
            ValueModel::Text(issue.id),
        ),
        value_of("issue.identifier"@, issue, attempt) == Ok::<ValueModel, PromptFault>(
            ValueModel::Text(issue.identifier),
        ),
        value_of("issue.title"@, issue, attempt) == Ok::<ValueModel, PromptFault>(
            ValueModel::Text(issue.title),
        ),
        value_of("issue.state"@, issue, attempt) == Ok::<ValueModel, PromptFault>(
            ValueModel::Text(issue.state),
        ),
        value_of("issue.labels"@, issue, attempt) == Ok::<ValueModel, PromptFault>(
            ValueModel::List(issue.labels),
        ),
        value_of("issue.description"@, issue, attempt) == Ok::<ValueModel, PromptFault>(
            match issue.description {
                Some(text) => ValueModel::Text(text),
                None => ValueModel::Null,
            },
        ),
        value_of("issue.branch_name"@, issue, attempt) == Ok::<ValueModel, PromptFault>(
            match issue.branch_name {
                Some(text) => ValueModel::Text(text),
                None => ValueModel::Null,
            },
        ),
        value_of("issue.url"@, issue, attempt) == Ok::<ValueModel, PromptFault>(
            match issue.url {
                Some(text) => ValueModel::Text(text),
                None => ValueModel::Null,
            },
        ),
        value_of("issue.assignee_id"@, issue, attempt) == Ok::<ValueModel, PromptFault>(
            match issue.assignee_id {
                Some(text) => ValueModel::Text(text),
                None => ValueModel::Null,
            },
        ),
        value_of("issue.priority"@, issue, attempt) == Ok::<ValueModel, PromptFault>(
            match issue.priority {
                Some(n) => ValueModel::Number(signed_decimal(n as int)),
                None => ValueModel::Null,
            },
        ),
        value_of("attempt"@, issue, attempt) == Ok::<ValueModel, PromptFault>(
            match attempt {
                Some(n) => ValueModel::Number(decimal(n as nat)),
                None => ValueModel::Null,
            },
        ),
        value_of("issue.created_at"@, issue, attempt) == Ok::<ValueModel, PromptFault>(
            match issue.created_at {
                Some(t) => ValueModel::Text(rfc3339_text(t.seconds as i64, t.nanos as u32)),
                None => ValueModel::Null,
            },
        ),
        value_of("issue.updated_at"@, issue, attempt) == Ok::<ValueModel, PromptFault>(
            match issue.updated_at {
                Some(t) => ValueModel::Text(rfc3339_text(t.seconds as i64, t.nanos as u32)),
                None => ValueModel::Null,
            },
        ),
{
    lemma_expressions_differ();
}

/// What blocks an issue is listed in order, each by its identifier, else by its id,
/// else by its state.
pub proof fn lemma_blockers_are_listed(issue: IssueModel, attempt: Option<u32>, i: int)
    requires
        0 <= i < issue.blocked_by.len(),
    ensures
        value_of("issue.blocked_by"@, issue, attempt) matches Ok(ValueModel::List(labels))
            && labels.len() == issue.blocked_by.len() && {
            let blocker = issue.blocked_by[i];
            &&& blocker.identifier is Some ==> labels[i] == blocker.identifier->0
            &&& blocker.identifier is None && blocker.id is Some ==> labels[i] == blocker.id->0
            &&& blocker.identifier is None && blocker.id is None && blocker.state is Some
                ==> labels[i] == blocker.state->0
            &&& blocker.identifier is None && blocker.id is None && blocker.state is None
                ==> labels[i] == "unknown-blocker"@
        },
{
    lemma_expressions_differ();
}

/// An expression with a filter, or one that stands for nothing, is an error that names
/// it.
pub proof fn lemma_unknown_expressions(
    expression: Seq<char>,
    issue: IssueModel,
    attempt: Option<u32>,
)
    ensures
        expression.contains('|') ==> value_of(expression, issue, attempt) == Err::<
            ValueModel,
            PromptFault,
        >(PromptFault::UnknownFilter(expression)),
        value_of(expression, issue, attempt) matches Err(fault) && !expression.contains('|')
            ==> value_of(expression, issue, attempt) == Err::<ValueModel, PromptFault>(
            PromptFault::UnknownVariable(expression),
        ),
        expression.len() == 0 ==> value_of(expression, issue, attempt) == Err::<
            ValueModel,
            PromptFault,
        >(PromptFault::UnknownVariable(expression)),
{
    reveal_strlit("attempt");
    reveal_strlit("issue.id");
    reveal_strlit("issue.identifier");
    reveal_strlit("issue.title");
    reveal_strlit("issue.description");
    reveal_strlit("issue.priority");
    reveal_strlit("issue.state");
    reveal_strlit("issue.branch_name");
    reveal_strlit("issue.url");
    reveal_strlit("issue.assignee_id");
    reveal_strlit("issue.labels");
    reveal_strlit("issue.blocked_by");
    reveal_strlit("issue.created_at");
    reveal_strlit("issue.updated_at");
}

/// Nothing, the number 0, an empty text and an empty list do not hold; all else does.
/// A value is written as its text, and a list with commas between.
pub proof fn lemma_values_are_written(text: Seq<char>, items: Seq<Seq<char>>)
    ensures
        !is_truthy(ValueModel::Null),
        is_truthy(ValueModel::Number(text)) <==> text != "0"@,
        is_truthy(ValueModel::Text(text)) <==> text.len() > 0,
        is_truthy(ValueModel::List(items)) <==> items.len() > 0,
        value_text(ValueModel::Null).len() == 0,
        value_text(ValueModel::Number(text)) == text,
        value_text(ValueModel::Text(text)) == text,
        value_text(ValueModel::List(items)) == join(items, ", "@),
{
}

/// A condition gives what it holds for where its expression holds, and otherwise what
/// stands behind the other word, each without outer blanks.
pub proof fn lemma_conditions_choose(
    expression: Seq<char>,
    when_true: Seq<NodeModel>,
    when_false: Seq<NodeModel>,
    issue: IssueModel,
    attempt: Option<u32>,
    value: ValueModel,
)
    requires
        value_of(expression, issue, attempt) == Ok::<ValueModel, PromptFault>(value),
    ensures
        ({
            let node = NodeModel::If { expression, when_true, when_false };
            &&& is_truthy(value) ==> node_text(node, issue, attempt) == block_text(
                when_true,
                issue,
                attempt,
            )
            &&& !is_truthy(value) ==> node_text(node, issue, attempt) == block_text(
                when_false,
                issue,
                attempt,
            )
            &&& node_text(NodeModel::Variable(expression), issue, attempt) == Ok::<
                Seq<char>,
                PromptFault,
            >(value_text(value))
        }),
{
}

/// Texts stand for themselves, and the texts of a list of nodes come one behind the
/// other; the first error counts.
pub proof fn lemma_nodes_are_written_in_order(
    node: NodeModel,
    rest: Seq<NodeModel>,
    text: Seq<char>,
    issue: IssueModel,
    attempt: Option<u32>,
)
    ensures
        node_text(NodeModel::Text(text), issue, attempt) == Ok::<Seq<char>, PromptFault>(text),
        nodes_text(Seq::empty(), 0, issue, attempt) == Ok::<Seq<char>, PromptFault>(Seq::empty()),
        match (node_text(node, issue, attempt), nodes_text(rest, 0, issue, attempt)) {
            (Ok(a), Ok(b)) => nodes_text(seq![node] + rest, 0, issue, attempt) == Ok::<
                Seq<char>,
                PromptFault,
            >(a + b),
            (Ok(_), Err(fault)) => nodes_text(seq![node] + rest, 0, issue, attempt) == Err::<
                Seq<char>,
                PromptFault,
            >(fault),
            (Err(fault), _) => nodes_text(seq![node] + rest, 0, issue, attempt) == Err::<
                Seq<char>,
                PromptFault,
            >(fault),
        },
{
    lemma_nodes_text_behind(node, rest, 0, issue, attempt);
    assert((seq![node] + rest)[0] == node);
}

proof fn lemma_nodes_text_behind(
    node: NodeModel,
    rest: Seq<NodeModel>,
    k: int,
    issue: IssueModel,
    attempt: Option<u32>,
)
    requires
        0 <= k <= rest.len(),
    ensures
        nodes_text(seq![node] + rest, k + 1, issue, attempt) == nodes_text(rest, k, issue, attempt),
    decreases rest.len() - k,
{
    let all = seq![node] + rest;
    if k < rest.len() {
        assert(all[k + 1] == rest[k]);
        lemma_nodes_text_behind(node, rest, k + 1, issue, attempt);
    }
}

// ---------------------------------------------------------------------------
// Laws on how templates are read
// ---------------------------------------------------------------------------

proof fn lemma_first_pair_behind(front: Seq<char>, rest: Seq<char>, a: char, b: char)
    requires
        !front.contains(a),
    ensures
        first_pair(front + rest, a, b) == match first_pair(rest, a, b) {
            Some(i) => Some(i + front.len()),
            None => None,
        },
    decreases front.len(),
{
    if front.len() == 0 {
        assert(front + rest =~= rest);
    } else {
        let tail = front.drop_first();
        assert(front.contains(front[0]));
        assert(!tail.contains(a)) by {
            if tail.contains(a) {
                let j = choose|j: int| 0 <= j < tail.len() && tail[j] == a;
                assert(front[j + 1] == a);
            }
        }
        lemma_first_pair_behind(tail, rest, a, b);
        assert((front + rest).drop_first() =~= tail + rest);
        if (front + rest).len() < 2 {
            assert(rest.len() < 2);
        }
    }
}

/// An expression in double braces is read as that expression, without outer blanks;
/// the text in front of it stands for itself, and what follows is read on.
pub proof fn lemma_variables_are_read(
    front: Seq<char>,
    expression: Seq<char>,
    rest: Seq<char>,
)
    requires
        !front.contains('{'),
        !expression.contains('}'),
    ensures
        ({
            let template = front + (seq!['{', '{'] + (expression + (seq!['}', '}'] + rest)));
            let before = if front.len() > 0 {
                seq![TokenModel::Text(front)]
            } else {
                Seq::empty()
            };
            tokens_of(template) == after_tokens(
                before.push(TokenModel::Variable(trim(expression))),
                tokens_of(rest),
            )
        }),
{
    let close = seq!['}', '}'] + rest;
    let inner = expression + close;
    let open = seq!['{', '{'] + inner;
    let template = front + open;
    let n = front.len() as int;
    let m = expression.len() as int;
    assert(open[0] == '{' && open[1] == '{');
    assert(first_pair(open, '{', '{') == Some(0int));
    lemma_first_pair_behind(front, open, '{', '{');
    lemma_first_pair_behind(front, open, '{', '%');
    lemma_first_place_of_pair(open, '{', '%');
    assert(next_tag(template) == Some(n));
    assert(template.take(n) =~= front);
    assert(template[n + 1] == open[1]);
    assert(template.skip(n + 2) =~= inner);
    assert(close[0] == '}' && close[1] == '}');
    assert(first_pair(close, '}', '}') == Some(0int));
    lemma_first_pair_behind(expression, close, '}', '}');
    assert(inner.take(m) =~= expression);
    assert(template.skip(n + 2 + m + 2) =~= rest);
}

/// A tag between brace and percent sign is read as the word in it, without outer
/// blanks: a condition, its other branch, or its end; any other word is an error.
pub proof fn lemma_tags_are_read(front: Seq<char>, words: Seq<char>, rest: Seq<char>)
    requires
        !front.contains('{'),
        !words.contains('%'),
    ensures
        ({
            let template = front + (seq!['{', '%'] + (words + (seq!['%', '}'] + rest)));
            let before = if front.len() > 0 {
                seq![TokenModel::Text(front)]
            } else {
                Seq::empty()
            };
            match control_token(trim(words)) {
                Ok(token) => tokens_of(template) == after_tokens(
                    before.push(token),
                    tokens_of(rest),
                ),
                Err(fault) => tokens_of(template) == Err::<Seq<TokenModel>, PromptFault>(fault),
            }
        }),
{
    let close = seq!['%', '}'] + rest;
    let inner = words + close;
    let open = seq!['{', '%'] + inner;
    let template = front + open;
    let n = front.len() as int;
    let m = words.len() as int;
    assert(open[0] == '{' && open[1] == '%');
    assert(first_pair(open, '{', '%') == Some(0int));
    lemma_first_pair_behind(front, open, '{', '{');
    lemma_first_pair_behind(front, open, '{', '%');
    lemma_first_place_of_pair(open, '{', '{');
    assert(next_tag(template) == Some(n));
    assert(template.take(n) =~= front);
    assert(template[n + 1] == open[1]);
    assert(template.skip(n + 2) =~= inner);
    assert(close[0] == '%' && close[1] == '}');
    assert(first_pair(close, '%', '}') == Some(0int));
    lemma_first_pair_behind(words, close, '%', '}');
    assert(inner.take(m) =~= words);
    assert(template.skip(n + 2 + m + 2) =~= rest);
}

/// The words of tags.
pub proof fn lemma_words_of_tags(expression: Seq<char>, other: Seq<char>)
    ensures
        control_token("else"@) == Ok::<TokenModel, PromptFault>(TokenModel::Else),
        control_token("endif"@) == Ok::<TokenModel, PromptFault>(TokenModel::EndIf),
        control_token("if "@ + expression) == Ok::<TokenModel, PromptFault>(
            TokenModel::If(trim(expression)),
        ),
        other != "else"@ && other != "endif"@ && !"if "@.is_prefix_of(other) ==> control_token(
            other,
        ) == Err::<TokenModel, PromptFault>(PromptFault::UnexpectedControlTag(other)),
{
    reveal_strlit("else");
    reveal_strlit("endif");
    assert("else"@.len() != "endif"@.len());
    reveal_strlit("if ");
    let words = "if "@ + expression;
    assert("if "@ =~= words.subrange(0, 3));
    assert(words.skip(3) =~= expression);
    assert(words[0] == 'i');
    assert("else"@[0] == 'e' && "endif"@[0] == 'e');
}

/// A template that cannot be read is an error: an expression or a tag without an end.
pub proof fn lemma_open_ends_are_errors(front: Seq<char>, rest: Seq<char>)
    requires
        !front.contains('{'),
    ensures
        !rest.contains('}') ==> tokens_of(front + (seq!['{', '{'] + rest)) == Err::<
            Seq<TokenModel>,
            PromptFault,
        >(PromptFault::UnterminatedExpression),
        !rest.contains('%') ==> tokens_of(front + (seq!['{', '%'] + rest)) == Err::<
            Seq<TokenModel>,
            PromptFault,
        >(PromptFault::UnterminatedControlTag),
{
    let n = front.len() as int;
    let a = seq!['{', '{'] + rest;
    let b = seq!['{', '%'] + rest;
    assert(a[0] == '{' && a[1] == '{' && b[0] == '{' && b[1] == '%');
    lemma_first_pair_behind(front, a, '{', '{');
    lemma_first_pair_behind(front, a, '{', '%');
    lemma_first_place_of_pair(a, '{', '%');
    lemma_first_pair_behind(front, b, '{', '{');
    lemma_first_pair_behind(front, b, '{', '%');
    lemma_first_place_of_pair(b, '{', '{');
    assert(first_pair(a, '{', '{') == Some(0int));
    assert(first_pair(b, '{', '%') == Some(0int));
    assert((front + a).skip(n + 2) =~= rest);
    assert((front + b).skip(n + 2) =~= rest);
    lemma_first_place_of_pair(rest, '}', '}');
    lemma_first_place_of_pair(rest, '%', '}');
    if !rest.contains('}') && first_pair(rest, '}', '}') is Some {
        assert(rest.contains(rest[first_pair(rest, '}', '}')->0]));
    }
    if !rest.contains('%') && first_pair(rest, '%', '}') is Some {
        assert(rest.contains(rest[first_pair(rest, '%', '}')->0]));
    }
}

/// The messages of errors name what they are about.
pub proof fn lemma_prompt_messages(value: Seq<char>)
    ensures
        fault_message(PromptFault::UnterminatedExpression)
            == "template_parse_error: unterminated `{ ... }` expression"@,
        fault_message(PromptFault::UnterminatedControlTag)
            == "template_parse_error: unterminated `{% ... %}` control tag"@,
        fault_message(PromptFault::UnknownVariable(value))
            == "template_render_error: unknown variable `"@ + value + "`"@,
        fault_message(PromptFault::UnknownFilter(value))
            == "template_render_error: filters are not supported `"@ + value + "`"@,
        fault_message(PromptFault::UnexpectedControlTag(value))
            == "template_parse_error: unsupported control tag `"@ + value + "`"@,
{
}

/// A condition that is opened and not closed is told of; so is a tag that closes, or
/// turns, a condition that was not opened.
pub proof fn lemma_conditions_must_be_closed(
    expression: Seq<char>,
    nodes: Seq<NodeModel>,
    template: Seq<char>,
    issue: IssueModel,
    attempt: Option<u32>,
)
    ensures
        ({
            let fault = PromptFault::UnexpectedControlTag("unexpected trailing control tag"@);
            let ended = spell(nodes, 0).push(TokenModel::EndIf);
            let turned = spell(nodes, 0).push(TokenModel::Else);
            tokens_of(template) == Ok::<Seq<TokenModel>, PromptFault>(ended) || tokens_of(template)
                == Ok::<Seq<TokenModel>, PromptFault>(turned) ==> template_text(
                template,
                issue,
                attempt,
            ) == Err::<Seq<char>, PromptFault>(fault)
        }),
        parse_from(seq![TokenModel::If(expression)] + spell(nodes, 0), 0) == Err::<
            (Seq<NodeModel>, int),
            PromptFault,
        >(PromptFault::UnexpectedControlTag("missing endif"@)),
        parse_from(spell(nodes, 0).push(TokenModel::EndIf), 0) == Ok::<
            (Seq<NodeModel>, int),
            PromptFault,
        >((nodes, spell(nodes, 0).len() as int)),
        parse_from(spell(nodes, 0).push(TokenModel::Else), 0) == Ok::<
            (Seq<NodeModel>, int),
            PromptFault,
        >((nodes, spell(nodes, 0).len() as int)),
{
    let open = seq![TokenModel::If(expression)] + spell(nodes, 0);
    let ended = spell(nodes, 0).push(TokenModel::EndIf);
    let turned = spell(nodes, 0).push(TokenModel::Else);
    assert(nodes.skip(0) =~= nodes);
    assert(stands_at(open, 1, spell(nodes, 0)));
    lemma_parse_spelled(open, 1, nodes, 0);
    assert(open[0] == TokenModel::If(expression));
    assert(stands_at(ended, 0, spell(nodes, 0)));
    lemma_parse_spelled(ended, 0, nodes, 0);
    assert(stands_at(turned, 0, spell(nodes, 0)));
    lemma_parse_spelled(turned, 0, nodes, 0);
}

} // verus!
