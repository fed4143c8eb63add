//! What sessions report: the state they are in, the tokens they have used, and the
//! limits they work under.

use crate::domain::{AgentUpdate, AttemptStatus, CodexTotals, LiveSession};
use crate::json::{
    array_of, json_get, json_u64, lemma_json_of, object_of, opt_json, opt_json_value, Json,
    JsonValue,
};
use crate::ordered::{lemma_sorted_keys_lists, sorted_keys, OrderedMap};
use crate::text::{clone_opt, parse_u64, parse_unsigned, same_text, trim, trimmed};
use vstd::prelude::*;

verus! {

// ---------------------------------------------------------------------------
// Updates of sessions
// ---------------------------------------------------------------------------

/// The status that an event leaves an attempt in.
pub open spec fn event_status(event: Seq<char>) -> AttemptStatus {
    if event == "turn_completed"@ {
        AttemptStatus::Succeeded
    } else if event == "turn_failed"@ || event == "tool_call_failed"@ || event
        == "approval_required"@ {
        AttemptStatus::Failed
    } else if event == "turn_cancelled"@ {
        AttemptStatus::Canceled
    } else if event == "turn_input_required"@ {
        AttemptStatus::TurnInputRequired
    } else {
        AttemptStatus::RunningTurn
    }
}

/// The status that an event leaves an attempt in.
pub fn status_from_event(event: &str) -> (r: AttemptStatus)
    ensures
        r == event_status(event@),
{
    if same_text(event, "turn_completed") {
        AttemptStatus::Succeeded
    } else if same_text(event, "turn_failed") || same_text(event, "tool_call_failed") || same_text(
        event,
        "approval_required",
    ) {
        AttemptStatus::Failed
    } else if same_text(event, "turn_cancelled") {
        AttemptStatus::Canceled
    } else if same_text(event, "turn_input_required") {
        AttemptStatus::TurnInputRequired
    } else {
        AttemptStatus::RunningTurn
    }
}

/// What tokens are counted.
#[derive(Debug, Clone, Copy, PartialEq, Eq, Structural)]
pub enum TokenKind {
    Input,
    Output,
    Total,
}

/// The names under which a count of tokens is reported.
pub open spec fn token_keys(kind: TokenKind) -> Seq<Seq<char>> {
    match kind {
        TokenKind::Input => seq![
            "input_tokens"@,
            "prompt_tokens"@,
            "inputTokens"@,
            "promptTokens"@,
        ],
        TokenKind::Output => seq![
            "output_tokens"@,
            "completion_tokens"@,
            "outputTokens"@,
            "completionTokens"@,
        ],
        TokenKind::Total => seq!["total_tokens"@, "total"@, "totalTokens"@],
    }
}

/// The first of the members that is there.
pub open spec fn first_member(value: Json, keys: Seq<Seq<char>>) -> Option<Json>
    decreases keys.len(),
{
    if keys.len() == 0 {
        None
    } else {
        match json_get(value, keys[0]) {
            Some(member) => Some(member),
            None => first_member(value, keys.drop_first()),
        }
    }
}

/// The number that a value stands for: an unsigned integer, or a text of one.
pub open spec fn integer_of(value: Json) -> Option<u64> {
    match value {
        Json::Text(text) => parse_unsigned(trim(text)),
        other => json_u64(Some(other)),
    }
}

/// The count of tokens that a report gives.
pub open spec fn token_count(usage: Json, kind: TokenKind) -> Option<u64> {
    match first_member(usage, token_keys(kind)) {
        Some(member) => integer_of(member),
        None => None,
    }
}

/// The number that a value stands for.
pub fn integer_like(value: &JsonValue) -> (r: Option<u64>)
    ensures
        r == integer_of(value@),
{
    proof {
        lemma_json_of(*value);
    }
    match value {
        JsonValue::Text(text) => parse_u64(trimmed(text.as_str()).as_str()),
        other => other.as_u64(),
    }
}

/// The first of four members that is there.
fn first_of<'a>(value: &'a JsonValue, a: &str, b: &str, c: &str, d: &str) -> (r: Option<
    &'a JsonValue,
>)
    ensures
        opt_json(r) == first_member(value@, seq![a@, b@, c@, d@]),
{
    proof {
        let keys = seq![a@, b@, c@, d@];
        assert(keys.drop_first() =~= seq![b@, c@, d@]);
        assert(keys.drop_first().drop_first() =~= seq![c@, d@]);
        assert(keys.drop_first().drop_first().drop_first() =~= seq![d@]);
        assert(keys.drop_first().drop_first().drop_first().drop_first() =~= Seq::empty());
        reveal_with_fuel(first_member, 5);
    }
    match value.get(a) {
        Some(member) => Some(member),
        None => match value.get(b) {
            Some(member) => Some(member),
            None => match value.get(c) {
                Some(member) => Some(member),
                None => value.get(d),
            },
        },
    }
}

/// The count of tokens that a report gives.
pub fn get_token_usage(usage: &JsonValue, kind: TokenKind) -> (r: Option<u64>)
    ensures
        r == token_count(usage@, kind),
{
    let member = match kind {
        TokenKind::Input => first_of(
            usage,
            "input_tokens",
            "prompt_tokens",
            "inputTokens",
            "promptTokens",
        ),
        TokenKind::Output => first_of(
            usage,
            "output_tokens",
            "completion_tokens",
            "outputTokens",
            "completionTokens",
        ),
        TokenKind::Total => {
            let found = first_of(usage, "total_tokens", "total", "totalTokens", "totalTokens");
            proof {
                let three = seq!["total_tokens"@, "total"@, "totalTokens"@];
                let four = seq!["total_tokens"@, "total"@, "totalTokens"@, "totalTokens"@];
                assert(three.drop_first() =~= seq!["total"@, "totalTokens"@]);
                assert(three.drop_first().drop_first() =~= seq!["totalTokens"@]);
                assert(four.drop_first() =~= seq!["total"@, "totalTokens"@, "totalTokens"@]);
                assert(four.drop_first().drop_first() =~= seq!["totalTokens"@, "totalTokens"@]);
                assert(four.drop_first().drop_first().drop_first() =~= seq!["totalTokens"@]);
                reveal_with_fuel(first_member, 5);
            }
            found
        },
    };
    match member {
        Some(value) => integer_like(value),
        None => None,
    }
}

/// By how much a reported count has grown; a missing or a smaller count adds
/// nothing.
pub open spec fn token_growth(usage: Option<Json>, kind: TokenKind, last: u64) -> u64 {
    match usage {
        Some(report) => match token_count(report, kind) {
            Some(count) => if count >= last {
                (count - last) as u64
            } else {
                0
            },
            None => 0,
        },
        None => 0,
    }
}

/// The count that was reported last.
pub open spec fn token_report(usage: Option<Json>, kind: TokenKind, last: u64) -> u64 {
    match usage {
        Some(report) => match token_count(report, kind) {
            Some(count) => count,
            None => last,
        },
        None => last,
    }
}

/// By how much one reported count has grown.
fn growth(usage: &JsonValue, kind: TokenKind, last: u64) -> (r: u64)
    ensures
        r == token_growth(Some(usage@), kind, last),
{
    match get_token_usage(usage, kind) {
        Some(count) => if count >= last {
            count - last
        } else {
            0
        },
        None => 0,
    }
}

/// By how much the counts of input, output and all tokens have grown.
pub fn token_deltas(session: &LiveSession, usage: Option<&JsonValue>) -> (r: (u64, u64, u64))
    ensures
        r.0 == token_growth(
            opt_json(usage),
            TokenKind::Input,
            session.last_reported_input_tokens,
        ),
        r.1 == token_growth(
            opt_json(usage),
            TokenKind::Output,
            session.last_reported_output_tokens,
        ),
        r.2 == token_growth(
            opt_json(usage),
            TokenKind::Total,
            session.last_reported_total_tokens,
        ),
{
    match usage {
        Some(report) => (
            growth(report, TokenKind::Input, session.last_reported_input_tokens),
            growth(report, TokenKind::Output, session.last_reported_output_tokens),
            growth(report, TokenKind::Total, session.last_reported_total_tokens),
        ),
        None => (0, 0, 0),
    }
}

/// The part of a value that tells of rate limits: the value itself if it has a
/// `limit_id`, or else the first such part inside it.
pub open spec fn rate_limits_in(value: Json) -> Option<Json>
    decreases value, 0int,
{
    if json_get(value, "limit_id"@) is Some {
        Some(value)
    } else {
        match value {
            Json::Object(map) => rate_limits_in_members(map, sorted_keys(map.dom()), 0),
            Json::Array(items) => rate_limits_in_items(items, 0),
            _ => None,
        }
    }
}

/// The first part that tells of rate limits among the members of an object.
pub open spec fn rate_limits_in_members(
    map: Map<Seq<char>, Json>,
    keys: Seq<Seq<char>>,
    k: int,
) -> Option<Json>
    decreases map, keys.len() - k,
{
    if k < 0 || k >= keys.len() {
        None
    } else {
        let own = if map.dom().finite() && map.contains_key(keys[k]) {
            rate_limits_in(map[keys[k]])
        } else {
            None
        };
        match own {
            Some(found) => Some(found),
            None => rate_limits_in_members(map, keys, k + 1),
        }
    }
}

/// The first part that tells of rate limits among the items of an array.
pub open spec fn rate_limits_in_items(items: Seq<Json>, k: int) -> Option<Json>
    decreases items, items.len() - k,
{
    if k < 0 || k >= items.len() {
        None
    } else {
        match rate_limits_in(items[k]) {
            Some(found) => Some(found),
            None => rate_limits_in_items(items, k + 1),
        }
    }
}

/// The part of a value that tells of rate limits.
pub fn search_rate_limits(value: &JsonValue) -> (r: Option<JsonValue>)
    ensures
        opt_json_value(r) == rate_limits_in(value@),
    decreases value,
{
    if value.get("limit_id").is_some() {
        return Some(value.clone());
    }
    proof {
        lemma_json_of(*value);
    }
    match value {
        JsonValue::Object(map) => search_members(map),
        JsonValue::Array(items) => {
            let mut i: usize = 0;
            while i < items.len()
                invariant
                    i <= items@.len(),
                    decreases_to!(value => items),
                    rate_limits_in_items(array_of(items@), 0) == rate_limits_in_items(
                        array_of(items@),
                        i as int,
                    ),
                    value@ == Json::Array(array_of(items@)),
                    json_get(value@, "limit_id"@) is None,
                decreases items@.len() - i,
            {
                assert(array_of(items@)[i as int] == items@[i as int]@);
                match search_rate_limits(&items[i]) {
                    Some(found) => {
                        return Some(found);
                    },
                    None => {},
                }
                i = i + 1;
            }
            None
        },
        _ => None,
    }
}

/// The first part that tells of rate limits among the members of an object.
fn search_members(map: &OrderedMap<JsonValue>) -> (r: Option<JsonValue>)
    ensures
        opt_json_value(r) == rate_limits_in_members(
            object_of(*map),
            sorted_keys(object_of(*map).dom()),
            0,
        ),
    decreases map,
{
    let ghost members = object_of(*map);
    let total: usize = map.len();
    let ghost keys = sorted_keys(map@.dom());
    assert(members.dom() =~= map@.dom());
    let mut i: usize = 0;
    while i < total
        invariant
            i <= total,
            members == object_of(*map),
            members.dom() == map@.dom(),
            keys == sorted_keys(map@.dom()),
            total == keys.len(),
            members.dom().finite(),
            rate_limits_in_members(members, keys, 0) == rate_limits_in_members(
                members,
                keys,
                i as int,
            ),
        decreases total - i,
    {
        let (key, member) = map.entry(i);
        assert(members[key@] == member@);
        match search_rate_limits(member) {
            Some(found) => {
                return Some(found);
            },
            None => {},
        }
        i = i + 1;
    }
    None
}

/// The rate limits that an update tells of.
pub open spec fn update_rate_limits(update: AgentUpdate) -> Option<Json> {
    match opt_json_value(update.rate_limits) {
        Some(limits) => Some(limits),
        None => match opt_json_value(update.payload) {
            Some(payload) => rate_limits_in(payload),
            None => None,
        },
    }
}

/// The rate limits that an update tells of.
pub fn extract_rate_limits(update: &AgentUpdate) -> (r: Option<JsonValue>)
    ensures
        opt_json_value(r) == update_rate_limits(*update),
{
    match &update.rate_limits {
        Some(limits) => Some(limits.clone()),
        None => match &update.payload {
            Some(payload) => search_rate_limits(payload),
            None => None,
        },
    }
}

/// The new value if there is one, or else the old one.
pub open spec fn newer<T>(new: Option<T>, old: Option<T>) -> Option<T> {
    match new {
        Some(value) => Some(value),
        None => old,
    }
}

/// The count of a kind of tokens that a session reported last.
pub open spec fn last_report(session: LiveSession, kind: TokenKind) -> u64 {
    match kind {
        TokenKind::Input => session.last_reported_input_tokens,
        TokenKind::Output => session.last_reported_output_tokens,
        TokenKind::Total => session.last_reported_total_tokens,
    }
}

/// The count of a kind of tokens that a session has used.
pub open spec fn tokens_used(session: LiveSession, kind: TokenKind) -> u64 {
    match kind {
        TokenKind::Input => session.codex_input_tokens,
        TokenKind::Output => session.codex_output_tokens,
        TokenKind::Total => session.codex_total_tokens,
    }
}

/// By how much an update adds to the count of a kind of tokens.
pub open spec fn update_growth(session: LiveSession, update: AgentUpdate, kind: TokenKind) -> u64 {
    token_growth(opt_json_value(update.usage), kind, last_report(session, kind))
}

/// Whether an update starts a session.
pub open spec fn starts_session(update: AgentUpdate) -> bool {
    update.event@ == "session_started"@
}

/// The session after an update.
pub open spec fn updated_session(session: LiveSession, update: AgentUpdate) -> LiveSession {
    let usage = opt_json_value(update.usage);
    LiveSession {
        session_id: newer(update.session_id, session.session_id),
        thread_id: newer(update.thread_id, session.thread_id),
        turn_id: newer(update.turn_id, session.turn_id),
        codex_app_server_pid: newer(update.codex_app_server_pid, session.codex_app_server_pid),
        last_codex_event: Some(update.event),
        last_codex_timestamp: Some(update.timestamp),
        last_codex_message: update.last_message,
        codex_input_tokens: (session.codex_input_tokens + update_growth(
            session,
            update,
            TokenKind::Input,
        )) as u64,
        codex_output_tokens: (session.codex_output_tokens + update_growth(
            session,
            update,
            TokenKind::Output,
        )) as u64,
        codex_total_tokens: (session.codex_total_tokens + update_growth(
            session,
            update,
            TokenKind::Total,
        )) as u64,
        last_reported_input_tokens: token_report(
            usage,
            TokenKind::Input,
            session.last_reported_input_tokens,
        ),
        last_reported_output_tokens: token_report(
            usage,
            TokenKind::Output,
            session.last_reported_output_tokens,
        ),
        last_reported_total_tokens: token_report(
            usage,
            TokenKind::Total,
            session.last_reported_total_tokens,
        ),
        turn_count: if starts_session(update) {
            (session.turn_count + 1) as u32
        } else {
            session.turn_count
        },
    }
}

/// The totals after an update of a session.
pub open spec fn updated_totals(
    totals: CodexTotals,
    session: LiveSession,
    update: AgentUpdate,
) -> CodexTotals {
    CodexTotals {
        input_tokens: (totals.input_tokens + update_growth(
            session,
            update,
            TokenKind::Input,
        )) as u64,
        output_tokens: (totals.output_tokens + update_growth(
            session,
            update,
            TokenKind::Output,
        )) as u64,
        total_tokens: (totals.total_tokens + update_growth(
            session,
            update,
            TokenKind::Total,
        )) as u64,
        runtime_seconds: totals.runtime_seconds,
    }
}

/// Whether the counts of a session and the totals stay within 64 bits, and the
/// count of turns within 32, when an update is added.
pub open spec fn update_fits(
    totals: CodexTotals,
    session: LiveSession,
    update: AgentUpdate,
) -> bool {
    let input = update_growth(session, update, TokenKind::Input);
    let output = update_growth(session, update, TokenKind::Output);
    let total = update_growth(session, update, TokenKind::Total);
    &&& session.codex_input_tokens + input <= u64::MAX
    &&& session.codex_output_tokens + output <= u64::MAX
    &&& session.codex_total_tokens + total <= u64::MAX
    &&& totals.input_tokens + input <= u64::MAX
    &&& totals.output_tokens + output <= u64::MAX
    &&& totals.total_tokens + total <= u64::MAX
    &&& starts_session(update) ==> session.turn_count < u32::MAX
}

/// A copy of the new value if there is one, or else the old one.
fn newer_text(new: &Option<String>, old: Option<String>) -> (r: Option<String>)
    ensures
        r == newer(*new, old),
{
    match new {
        Some(value) => Some(value.clone()),
        None => old,
    }
}

/// The count that was reported last.
fn report(usage: &Option<JsonValue>, kind: TokenKind, last: u64) -> (r: u64)
    ensures
        r == token_report(opt_json_value(*usage), kind, last),
{
    match usage {
        Some(value) => match get_token_usage(value, kind) {
            Some(count) => count,
            None => last,
        },
        None => last,
    }
}

/// Whether an update can be added to a session and to the totals.
pub fn sums_fit(totals: &CodexTotals, session: &LiveSession, update: &AgentUpdate) -> (r: bool)
    ensures
        r == update_fits(*totals, *session, *update),
{
    let (input, output, total) = token_deltas(session, update.usage.as_ref());
    session.codex_input_tokens.checked_add(input).is_some()
        && session.codex_output_tokens.checked_add(output).is_some()
        && session.codex_total_tokens.checked_add(total).is_some()
        && totals.input_tokens.checked_add(input).is_some()
        && totals.output_tokens.checked_add(output).is_some()
        && totals.total_tokens.checked_add(total).is_some() && (!same_text(
        update.event.as_str(),
        "session_started",
    ) || session.turn_count < u32::MAX)
}

/// The session after an update.
pub fn apply_update(session: LiveSession, update: &AgentUpdate, totals: &CodexTotals) -> (r: LiveSession)
    requires
        update_fits(*totals, session, *update),
    ensures
        r == updated_session(session, *update),
{
    let (input, output, total) = token_deltas(&session, update.usage.as_ref());
    let turn_count: u32 = if same_text(update.event.as_str(), "session_started") {
        session.turn_count + 1
    } else {
        session.turn_count
    };
    LiveSession {
        session_id: newer_text(&update.session_id, session.session_id),
        thread_id: newer_text(&update.thread_id, session.thread_id),
        turn_id: newer_text(&update.turn_id, session.turn_id),
        codex_app_server_pid: newer_text(
            &update.codex_app_server_pid,
            session.codex_app_server_pid,
        ),
        last_codex_event: Some(update.event.clone()),
        last_codex_timestamp: Some(update.timestamp),
        last_codex_message: clone_opt(&update.last_message),
        codex_input_tokens: session.codex_input_tokens + input,
        codex_output_tokens: session.codex_output_tokens + output,
        codex_total_tokens: session.codex_total_tokens + total,
        last_reported_input_tokens: report(
            &update.usage,
            TokenKind::Input,
            session.last_reported_input_tokens,
        ),
        last_reported_output_tokens: report(
            &update.usage,
            TokenKind::Output,
            session.last_reported_output_tokens,
        ),
        last_reported_total_tokens: report(
            &update.usage,
            TokenKind::Total,
            session.last_reported_total_tokens,
        ),
        turn_count,
    }
}

// ---------------------------------------------------------------------------
// Laws
// ---------------------------------------------------------------------------

/// The counts of a session and the totals grow by the same amounts, and never
/// shrink.
pub proof fn lemma_counts_grow_together(
    totals: CodexTotals,
    session: LiveSession,
    update: AgentUpdate,
)
    requires
        update_fits(totals, session, update),
    ensures
        ({
            let after = updated_session(session, update);
            let sums = updated_totals(totals, session, update);
            &&& after.codex_input_tokens - session.codex_input_tokens == sums.input_tokens
                - totals.input_tokens >= 0
            &&& after.codex_output_tokens - session.codex_output_tokens == sums.output_tokens
                - totals.output_tokens >= 0
            &&& after.codex_total_tokens - session.codex_total_tokens == sums.total_tokens
                - totals.total_tokens >= 0
            &&& sums.runtime_seconds == totals.runtime_seconds
        }),
{
}

/// A report that does not fall below the last one is counted exactly: a session
/// that has counted what was reported so far has then counted the new report.
pub proof fn lemma_rising_reports_are_counted(
    totals: CodexTotals,
    session: LiveSession,
    update: AgentUpdate,
    usage: Json,
    kind: TokenKind,
    count: u64,
)
    requires
        update_fits(totals, session, update),
        opt_json_value(update.usage) == Some(usage),
        token_count(usage, kind) == Some(count),
        count >= last_report(session, kind),
        tokens_used(session, kind) == last_report(session, kind),
    ensures
        tokens_used(updated_session(session, update), kind) == count,
        last_report(updated_session(session, update), kind) == count,
{
}

/// A report that comes twice is counted once: after one update, another with the
/// same report leaves the totals, and what the session has counted and was last
/// told, as they are. It can be added, unless it starts one turn too many.
pub proof fn lemma_repeated_report_is_counted_once(
    totals: CodexTotals,
    session: LiveSession,
    first: AgentUpdate,
    second: AgentUpdate,
    kind: TokenKind,
)
    requires
        update_fits(totals, session, first),
        opt_json_value(first.usage) == opt_json_value(second.usage),
    ensures
        ({
            let told = updated_session(session, first);
            let sums = updated_totals(totals, session, first);
            let again = updated_session(told, second);
            &&& update_growth(told, second, kind) == 0
            &&& tokens_used(again, kind) == tokens_used(told, kind)
            &&& last_report(again, kind) == last_report(told, kind)
            &&& updated_totals(sums, told, second) == sums
            &&& (starts_session(second) ==> told.turn_count < u32::MAX) ==> update_fits(
                sums,
                told,
                second,
            )
        }),
{
    let told = updated_session(session, first);
    assert(update_growth(told, second, TokenKind::Input) == 0);
    assert(update_growth(told, second, TokenKind::Output) == 0);
    assert(update_growth(told, second, TokenKind::Total) == 0);
}

// ---------------------------------------------------------------------------
// Laws on single reports
// ---------------------------------------------------------------------------

/// What an event says of the attempt that tells of it.
pub proof fn lemma_events_tell_the_status(event: Seq<char>)
    ensures
        event == "turn_completed"@ <==> event_status(event) is Succeeded,
        event == "turn_failed"@ || event == "tool_call_failed"@ || event == "approval_required"@
            <==> event_status(event) is Failed,
        event == "turn_cancelled"@ <==> event_status(event) is Canceled,
        event == "turn_input_required"@ <==> event_status(event) is TurnInputRequired,
        event_status(event) is Succeeded || event_status(event) is Failed || event_status(
            event,
        ) is Canceled || event_status(event) is TurnInputRequired || event_status(
            event,
        ) is RunningTurn,
{
    reveal_strlit("turn_completed");
    reveal_strlit("turn_failed");
    reveal_strlit("tool_call_failed");
    reveal_strlit("approval_required");
    reveal_strlit("turn_cancelled");
    reveal_strlit("turn_input_required");
    assert("turn_completed"@.len() != "turn_failed"@.len());
    assert("turn_completed"@.len() != "tool_call_failed"@.len());
    assert("turn_completed"@.len() != "approval_required"@.len());
    assert("turn_completed"@[6] != "turn_cancelled"@[6]);
    assert("turn_completed"@.len() != "turn_input_required"@.len());
    assert("turn_failed"@.len() != "tool_call_failed"@.len());
    assert("turn_failed"@.len() != "approval_required"@.len());
    assert("turn_failed"@.len() != "turn_cancelled"@.len());
    assert("turn_failed"@.len() != "turn_input_required"@.len());
    assert("tool_call_failed"@.len() != "approval_required"@.len());
    assert("tool_call_failed"@.len() != "turn_cancelled"@.len());
    assert("tool_call_failed"@.len() != "turn_input_required"@.len());
    assert("approval_required"@.len() != "turn_cancelled"@.len());
    assert("approval_required"@.len() != "turn_input_required"@.len());
    assert("turn_cancelled"@.len() != "turn_input_required"@.len());
}

/// The tokens of each kind are read from the first member of a report that has one of
/// the names for that kind, in their order.
pub proof fn lemma_counts_are_read_by_name(usage: Json)
    ensures
        ({
            let count = token_count(usage, TokenKind::Input);
            let first = json_get(usage, "input_tokens"@);
            let second = json_get(usage, "prompt_tokens"@);
            let third = json_get(usage, "inputTokens"@);
            let fourth = json_get(usage, "promptTokens"@);
            &&& first is Some ==> count == integer_of(first->0)
            &&& first is None && second is Some ==> count == integer_of(second->0)
            &&& first is None && second is None && third is Some ==> count == integer_of(third->0)
            &&& first is None && second is None && third is None && fourth is Some
                ==> count == integer_of(fourth->0)
            &&& first is None && second is None && third is None && fourth is None ==> count is None
        }),
        ({
            let count = token_count(usage, TokenKind::Output);
            let first = json_get(usage, "output_tokens"@);
            let second = json_get(usage, "completion_tokens"@);
            let third = json_get(usage, "outputTokens"@);
            let fourth = json_get(usage, "completionTokens"@);
            &&& first is Some ==> count == integer_of(first->0)
            &&& first is None && second is Some ==> count == integer_of(second->0)
            &&& first is None && second is None && third is Some ==> count == integer_of(third->0)
            &&& first is None && second is None && third is None && fourth is Some
                ==> count == integer_of(fourth->0)
            &&& first is None && second is None && third is None && fourth is None ==> count is None
        }),
        ({
            let count = token_count(usage, TokenKind::Total);
            let first = json_get(usage, "total_tokens"@);
            let second = json_get(usage, "total"@);
            let third = json_get(usage, "totalTokens"@);
            &&& first is Some ==> count == integer_of(first->0)
            &&& first is None && second is Some ==> count == integer_of(second->0)
            &&& first is None && second is None && third is Some ==> count == integer_of(third->0)
            &&& first is None && second is None && third is None ==> count is None
        }),
{
    reveal_with_fuel(first_member, 5);
    let input = token_keys(TokenKind::Input);
    let output = token_keys(TokenKind::Output);
    let total = token_keys(TokenKind::Total);
    assert(input.drop_first()[0] == input[1]);
    assert(input.drop_first().drop_first()[0] == input[2]);
    assert(input.drop_first().drop_first().drop_first()[0] == input[3]);
    assert(input.drop_first().drop_first().drop_first().drop_first().len() == 0);
    assert(output.drop_first()[0] == output[1]);
    assert(output.drop_first().drop_first()[0] == output[2]);
    assert(output.drop_first().drop_first().drop_first()[0] == output[3]);
    assert(output.drop_first().drop_first().drop_first().drop_first().len() == 0);
    assert(total.drop_first()[0] == total[1]);
    assert(total.drop_first().drop_first()[0] == total[2]);
    assert(total.drop_first().drop_first().drop_first().len() == 0);
}

/// A count is a whole number that is not negative, as a number or as its digits.
pub proof fn lemma_counts_are_whole_numbers(n: u64, text: Seq<char>, below: int)
    ensures
        integer_of(Json::Integer(n as int)) == Some(n),
        below < 0 ==> integer_of(Json::Integer(below)) is None,
        integer_of(Json::Text(text)) == parse_unsigned(trim(text)),
        integer_of(Json::Null) is None,
{
}

/// What a report adds is what it counts beyond the last report, and nothing where it
/// counts less or not at all. What it counts is then the last report.
pub proof fn lemma_reports_add_what_is_new(usage: Json, kind: TokenKind, last: u64)
    ensures
        token_growth(None, kind, last) == 0,
        token_report(None, kind, last) == last,
        match token_count(usage, kind) {
            Some(count) => {
                &&& count >= last ==> last + token_growth(Some(usage), kind, last) == count
                &&& count < last ==> token_growth(Some(usage), kind, last) == 0
                &&& token_report(Some(usage), kind, last) == count
            },
            None => token_growth(Some(usage), kind, last) == 0 && token_report(
                Some(usage),
                kind,
                last,
            ) == last,
        },
{
}

/// What a report does to a session: its event, its time and its message are the last
/// ones; the ids and the process that it names are those of the session, which keeps
/// those that it does not name; a started session counts as a turn; and each kind of
/// token grows by what is new of that kind, here and in the totals.
pub proof fn lemma_report_is_taken_in(
    totals: CodexTotals,
    session: LiveSession,
    update: AgentUpdate,
)
    requires
        update_fits(totals, session, update),
    ensures
        ({
            let after = updated_session(session, update);
            let sums = updated_totals(totals, session, update);
            let usage = opt_json_value(update.usage);
            &&& after.last_codex_event == Some(update.event)
            &&& after.last_codex_timestamp == Some(update.timestamp)
            &&& after.last_codex_message == update.last_message
            &&& update.session_id is Some ==> after.session_id == update.session_id
            &&& update.session_id is None ==> after.session_id == session.session_id
            &&& update.thread_id is Some ==> after.thread_id == update.thread_id
            &&& update.thread_id is None ==> after.thread_id == session.thread_id
            &&& update.turn_id is Some ==> after.turn_id == update.turn_id
            &&& update.turn_id is None ==> after.turn_id == session.turn_id
            &&& update.codex_app_server_pid is Some ==> after.codex_app_server_pid
                == update.codex_app_server_pid
            &&& update.codex_app_server_pid is None ==> after.codex_app_server_pid
                == session.codex_app_server_pid
            &&& update.event@ == "session_started"@ ==> after.turn_count == session.turn_count + 1
            &&& update.event@ != "session_started"@ ==> after.turn_count == session.turn_count
            &&& after.codex_input_tokens == session.codex_input_tokens + token_growth(
                usage,
                TokenKind::Input,
                session.last_reported_input_tokens,
            )
            &&& after.codex_output_tokens == session.codex_output_tokens + token_growth(
                usage,
                TokenKind::Output,
                session.last_reported_output_tokens,
            )
            &&& after.codex_total_tokens == session.codex_total_tokens + token_growth(
                usage,
                TokenKind::Total,
                session.last_reported_total_tokens,
            )
            &&& sums.input_tokens == totals.input_tokens + token_growth(
                usage,
                TokenKind::Input,
                session.last_reported_input_tokens,
            )
            &&& sums.output_tokens == totals.output_tokens + token_growth(
                usage,
                TokenKind::Output,
                session.last_reported_output_tokens,
            )
            &&& sums.total_tokens == totals.total_tokens + token_growth(
                usage,
                TokenKind::Total,
                session.last_reported_total_tokens,
            )
            &&& after.last_reported_input_tokens == token_report(
                usage,
                TokenKind::Input,
                session.last_reported_input_tokens,
            )
            &&& after.last_reported_output_tokens == token_report(
                usage,
                TokenKind::Output,
                session.last_reported_output_tokens,
            )
            &&& after.last_reported_total_tokens == token_report(
                usage,
                TokenKind::Total,
                session.last_reported_total_tokens,
            )
        }),
{
}

/// An update names its rate limits, or they are looked for in what it tells of; where
/// there are none, the older ones stay.
pub proof fn lemma_rate_limits_of_an_update(update: AgentUpdate, older: Option<Json>)
    ensures
        update.rate_limits matches Some(limits) ==> update_rate_limits(update) == Some(limits@),
        update.rate_limits is None && update.payload is None ==> update_rate_limits(update) is None,
        update.rate_limits is None && update.payload is Some ==> update_rate_limits(update)
            == rate_limits_in((update.payload->0)@),
        update_rate_limits(update) is None ==> newer(update_rate_limits(update), older) == older,
        update_rate_limits(update) is Some ==> newer(update_rate_limits(update), older)
            == update_rate_limits(update),
{
}

/// What is found as rate limits has an id of a limit; a value that has one is found
/// itself.
pub proof fn lemma_rate_limits_have_an_id(value: Json)
    ensures
        json_get(value, "limit_id"@) is Some ==> rate_limits_in(value) == Some(value),
        rate_limits_in(value) matches Some(found) ==> json_get(found, "limit_id"@) is Some,
    decreases value, 0int,
{
    if json_get(value, "limit_id"@) is None {
        match value {
            Json::Object(map) => {
                lemma_limits_in_members_have_an_id(map, sorted_keys(map.dom()), 0);
            },
            Json::Array(items) => {
                lemma_limits_in_items_have_an_id(items, 0);
            },
            _ => {},
        }
    }
}

proof fn lemma_limits_in_members_have_an_id(
    map: Map<Seq<char>, Json>,
    keys: Seq<Seq<char>>,
    k: int,
)
    ensures
        rate_limits_in_members(map, keys, k) matches Some(found) ==> json_get(
            found,
            "limit_id"@,
        ) is Some,
    decreases map, keys.len() - k,
{
    if 0 <= k < keys.len() {
        if map.dom().finite() && map.contains_key(keys[k]) {
            lemma_rate_limits_have_an_id(map[keys[k]]);
        }
        lemma_limits_in_members_have_an_id(map, keys, k + 1);
    }
}

proof fn lemma_limits_in_items_have_an_id(items: Seq<Json>, k: int)
    ensures
        rate_limits_in_items(items, k) matches Some(found) ==> json_get(
            found,
            "limit_id"@,
        ) is Some,
    decreases items, items.len() - k,
{
    if 0 <= k < items.len() {
        lemma_rate_limits_have_an_id(items[k]);
        lemma_limits_in_items_have_an_id(items, k + 1);
    }
}

/// In a list the first item counts in which rate limits are found.
pub proof fn lemma_first_rate_limits_count(items: Seq<Json>, i: int)
    requires
        0 <= i < items.len(),
        rate_limits_in(items[i]) is Some,
        forall|j: int| 0 <= j < i ==> rate_limits_in(#[trigger] items[j]) is None,
    ensures
        rate_limits_in(Json::Array(items)) == rate_limits_in(items[i]),
{
    lemma_first_limits_from(items, 0, i);
}

proof fn lemma_first_limits_from(items: Seq<Json>, k: int, i: int)
    requires
        0 <= k <= i < items.len(),
        rate_limits_in(items[i]) is Some,
        forall|j: int| 0 <= j < i ==> rate_limits_in(#[trigger] items[j]) is None,
    ensures
        rate_limits_in_items(items, k) == rate_limits_in(items[i]),
    decreases i - k,
{
    if k < i {
        lemma_first_limits_from(items, k + 1, i);
    }
}

/// Rate limits are found in a list or an object exactly if they are in something that
/// it holds, or the object is such itself.
pub proof fn lemma_rate_limits_are_found_inside(map: Map<Seq<char>, Json>, key: Seq<char>)
    requires
        map.dom().finite(),
        map.contains_key(key),
        rate_limits_in(map[key]) is Some,
    ensures
        rate_limits_in(Json::Object(map)) is Some,
{
    let keys = sorted_keys(map.dom());
    lemma_sorted_keys_lists(map.dom());
    assert(map.dom().contains(key));
    let i = choose|i: int| 0 <= i < keys.len() && keys[i] == key;
    lemma_limits_found_by(map, keys, 0, i);
}

proof fn lemma_limits_found_by(
    map: Map<Seq<char>, Json>,
    keys: Seq<Seq<char>>,
    k: int,
    i: int,
)
    requires
        0 <= k <= i < keys.len(),
        map.dom().finite(),
        map.contains_key(keys[i]),
        rate_limits_in(map[keys[i]]) is Some,
    ensures
        rate_limits_in_members(map, keys, k) is Some,
    decreases i - k,
{
    if k < i {
        lemma_limits_found_by(map, keys, k + 1, i);
    }
}

} // verus!
