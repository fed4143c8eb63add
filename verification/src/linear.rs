//! The issue tracker: queries, and what their answers say.

use crate::config::{ServiceConfig, TrackerModel};
use crate::domain::{blockers, BlockerModel, Issue, IssueBlockerRef, IssueModel};
use crate::json::{
    array_of, bool_in, empty_object, get_in, json_array, json_bool, json_compact, json_get,
    json_i64, json_str, json_text, json_with, null_value, number_value, opt_json, opt_json_get,
    str_in, string_in, text_array, text_value, Json, JsonValue,
};
use crate::ordered::OrderedSet;
use crate::text::{ascii_lower, blank, is_blank, lowered, opt_text, same_text, texts, trim, trimmed};
use crate::timestamp::{opt_time, parsed_time, TimePoint, Timestamp};
use crate::tracker::TrackerError;
use vstd::prelude::*;
use vstd::string::*;

verus! {

/// How many issues, and how many relations of one, are asked for at once.
pub const ISSUE_PAGE_SIZE: usize = 50;

/// The query for the issues of a project in some states.
pub const QUERY_BY_STATES: &'static str = r#"
query SymphonyLinearPoll($projectSlug: String!, $stateNames: [String!]!, $first: Int!, $relationFirst: Int!, $after: String) {
  issues(filter: {project: {slugId: {eq: $projectSlug}}, state: {name: {in: $stateNames}}}, first: $first, after: $after) {
    nodes {
      id
      identifier
      title
      description
      priority
      state { name }
      branchName
      url
      assignee { id }
      labels { nodes { name } }
      inverseRelations(first: $relationFirst) {
        nodes {
          type
          issue { id identifier state { name } }
        }
      }
      createdAt
      updatedAt
    }
    pageInfo { hasNextPage endCursor }
  }
}
"#;

/// The query for issues by their ids.
pub const QUERY_BY_IDS: &'static str = r#"
query SymphonyLinearIssuesById($ids: [ID!]!, $first: Int!, $relationFirst: Int!) {
  issues(filter: {id: {in: $ids}}, first: $first) {
    nodes {
      id
      identifier
      title
      description
      priority
      state { name }
      branchName
      url
      assignee { id }
      labels { nodes { name } }
      inverseRelations(first: $relationFirst) {
        nodes {
          type
          issue { id identifier state { name } }
        }
      }
      createdAt
      updatedAt
    }
  }
}
"#;

/// The query for the owner of the API key.
pub const VIEWER_QUERY: &'static str = r#"
query SymphonyLinearViewer {
  viewer { id }
}
"#;

/// The mutation that adds a comment to an issue.
pub const CREATE_COMMENT_MUTATION: &'static str = r#"
mutation SymphonyCreateComment($issueId: String!, $body: String!) {
  commentCreate(input: {issueId: $issueId, body: $body}) { success }
}
"#;

/// The mutation that moves an issue to a state.
pub const UPDATE_STATE_MUTATION: &'static str = r#"
mutation SymphonyUpdateIssueState($issueId: String!, $stateId: String!) {
  issueUpdate(id: $issueId, input: {stateId: $stateId}) { success }
}
"#;

/// The query for the id of a state by its name.
pub const STATE_LOOKUP_QUERY: &'static str = r#"
query SymphonyResolveStateId($issueId: String!, $stateName: String!) {
  issue(id: $issueId) {
    team {
      states(filter: {name: {eq: $stateName}}, first: 1) {
        nodes { id }
      }
    }
  }
}
"#;

// ---------------------------------------------------------------------------
// Requests
// ---------------------------------------------------------------------------

/// A request to the tracker.
#[derive(Debug)]
pub struct GraphqlRequest {
    pub endpoint: String,
    pub api_key: String,
    pub body: JsonValue,
}

/// What a request carries.
pub open spec fn graphql_body(query: Seq<char>, variables: Json) -> Json {
    Json::Object(map!["query"@ => Json::Text(query), "variables"@ => variables])
}

/// What is sent with a query, as the address, the key and the body; or what is
/// missing.
pub open spec fn request_model(
    tracker: TrackerModel,
    query: Seq<char>,
    variables: Json,
) -> Result<(Seq<char>, Seq<char>, Json), Seq<char>> {
    match tracker.api_key {
        Some(key) => Ok((tracker.endpoint, key, graphql_body(query, variables))),
        None => Err("missing_linear_api_token"@),
    }
}

/// The request for a query, if there is a key to sign it with.
pub fn graphql_request(config: &ServiceConfig, query: &str, variables: JsonValue) -> (r: Result<
    GraphqlRequest,
    TrackerError,
>)
    ensures
        match r {
            Ok(request) => request_model(config@.tracker, query@, variables@) == Ok::<
                (Seq<char>, Seq<char>, Json),
                Seq<char>,
            >((request.endpoint@, request.api_key@, request.body@)),
            Err(error) => request_model(config@.tracker, query@, variables@) == Err::<
                (Seq<char>, Seq<char>, Json),
                Seq<char>,
            >(error@),
        },
        match config@.tracker.api_key {
            Some(key) => {
                &&& r matches Ok(request)
                &&& request.endpoint@ == config@.tracker.endpoint
                &&& request.api_key@ == key
                &&& request.body@ == graphql_body(query@, variables@)
            },
            None => r matches Err(error) && error@ == "missing_linear_api_token"@,
        },
{
    match &config.tracker.api_key {
        Some(key) => Ok(
            GraphqlRequest {
                endpoint: config.tracker.endpoint.clone(),
                api_key: key.clone(),
                body: empty_object().with("query", text_value(query)).with("variables", variables),
            },
        ),
        None => Err(TrackerError::new("missing_linear_api_token")),
    }
}

/// The error of a request that could not be sent.
pub fn request_failed(error: &str) -> (r: TrackerError)
    ensures
        r@ == "linear_api_request: "@ + error@,
{
    TrackerError::new("linear_api_request: ".to_string().concat(error).as_str())
}

/// The error of an answer that is no JSON.
pub fn decode_failed(error: &str) -> (r: TrackerError)
    ensures
        r@ == "linear_api_decode_failed: "@ + error@,
{
    TrackerError::new("linear_api_decode_failed: ".to_string().concat(error).as_str())
}

/// Whether a status of an answer tells of success.
pub open spec fn is_success(status: u16) -> bool {
    200 <= status < 300
}

/// What is told of an answer that is no success.
pub open spec fn status_fault(status: u16, body: Json) -> Seq<char> {
    "linear_api_status: "@ + crate::text::decimal(status as nat) + " body="@ + json_compact(body)
}

/// What an answer gives: its body, where its status tells of success.
pub fn graphql_response(status: u16, body: JsonValue) -> (r: Result<JsonValue, TrackerError>)
    ensures
        r is Ok <==> is_success(status),
        r matches Err(error) ==> error@ == status_fault(status, body@),
        if 200 <= status < 300 {
            r == Ok::<JsonValue, TrackerError>(body)
        } else {
            r matches Err(error) && error@ == "linear_api_status: "@ + crate::text::decimal(
                status as nat,
            ) + " body="@ + json_compact(body@)
        },
{
    if status >= 200 && status < 300 {
        Ok(body)
    } else {
        let message = "linear_api_status: ".to_string().concat(
            crate::text::decimal_text(status as u64).as_str(),
        ).concat(" body=").concat(json_text(&body).as_str());
        Err(TrackerError::new(message.as_str()))
    }
}

/// What follows `key` in a value that may be missing.
pub open spec fn at2(value: Json, a: Seq<char>, b: Seq<char>) -> Option<Json> {
    opt_json_get(json_get(value, a), b)
}

/// What is reached by three keys.
pub open spec fn at3(value: Json, a: Seq<char>, b: Seq<char>, c: Seq<char>) -> Option<Json> {
    opt_json_get(at2(value, a, b), c)
}

fn reach2<'a>(value: &'a JsonValue, a: &str, b: &str) -> (r: Option<&'a JsonValue>)
    ensures
        opt_json(r) == at2(value@, a@, b@),
{
    get_in(value.get(a), b)
}

fn reach3<'a>(value: &'a JsonValue, a: &str, b: &str, c: &str) -> (r: Option<&'a JsonValue>)
    ensures
        opt_json(r) == at3(value@, a@, b@, c@),
{
    get_in(reach2(value, a, b), c)
}

// ---------------------------------------------------------------------------
// Comments and states
// ---------------------------------------------------------------------------

/// The variables of a comment on an issue.
pub open spec fn comment_model(issue_id: Seq<char>, body: Seq<char>) -> Json {
    Json::Object(map!["issueId"@ => Json::Text(issue_id), "body"@ => Json::Text(body)])
}

/// The variables of the mutation that adds a comment.
pub fn comment_variables(issue_id: &str, body: &str) -> (r: JsonValue)
    ensures
        r@ == comment_model(issue_id@, body@),
        r@ == Json::Object(
            map!["issueId"@ => Json::Text(issue_id@), "body"@ => Json::Text(body@)],
        ),
{
    empty_object().with("issueId", text_value(issue_id)).with("body", text_value(body))
}

/// Whether the answer to a mutation tells of success.
pub open spec fn mutation_done(response: Json, name: Seq<char>) -> bool {
    json_bool(at3(response, "data"@, name, "success"@)) == Some(true)
}

fn mutation_result(response: &JsonValue, name: &str, message: &str) -> (r: Result<(), TrackerError>)
    ensures
        match r {
            Ok(_) => mutation_done(response@, name@),
            Err(error) => !mutation_done(response@, name@) && error@ == message@,
        },
{
    if bool_in(reach3(response, "data", name, "success")) == Some(true) {
        Ok(())
    } else {
        Err(TrackerError::new(message))
    }
}

/// Whether an answer tells that a comment was made.
pub open spec fn comment_made(response: Json) -> bool {
    mutation_done(response, "commentCreate"@)
}

/// What the answer to a new comment says.
pub fn comment_result(response: &JsonValue) -> (r: Result<(), TrackerError>)
    ensures
        r is Ok <==> comment_made(response@),
        match r {
            Ok(_) => mutation_done(response@, "commentCreate"@),
            Err(error) => !mutation_done(response@, "commentCreate"@) && error@
                == "comment_create_failed"@,
        },
{
    mutation_result(response, "commentCreate", "comment_create_failed")
}

/// The variables of a lookup of a state by its name.
pub open spec fn state_lookup_model(issue_id: Seq<char>, state_name: Seq<char>) -> Json {
    Json::Object(map!["issueId"@ => Json::Text(issue_id), "stateName"@ => Json::Text(state_name)])
}

/// The variables of the query for the id of a state.
pub fn state_lookup_variables(issue_id: &str, state_name: &str) -> (r: JsonValue)
    ensures
        r@ == state_lookup_model(issue_id@, state_name@),
        r@ == Json::Object(
            map!["issueId"@ => Json::Text(issue_id@), "stateName"@ => Json::Text(state_name@)],
        ),
{
    empty_object().with("issueId", text_value(issue_id)).with("stateName", text_value(state_name))
}

/// The first item of an array.
pub open spec fn first_item(value: Option<Json>) -> Option<Json> {
    match json_array(value) {
        Some(items) => if items.len() > 0 {
            Some(items[0])
        } else {
            None
        },
        None => None,
    }
}

/// The id of a state in the answer to the query for it.
pub open spec fn state_id_in(response: Json) -> Option<Seq<char>> {
    let states = opt_json_get(at3(response, "data"@, "issue"@, "team"@), "states"@);
    json_str(opt_json_get(first_item(opt_json_get(states, "nodes"@)), "id"@))
}

fn first_of<'a>(value: Option<&'a JsonValue>) -> (r: Option<&'a JsonValue>)
    ensures
        opt_json(r) == first_item(opt_json(value)),
{
    match value {
        Some(v) => match v.as_array() {
            Some(items) => if items.len() > 0 {
                assert(array_of(items@)[0] == items@[0]@);
                Some(&items[0])
            } else {
                None
            },
            None => None,
        },
        None => None,
    }
}

/// The id of a state, by the answer to the query for it.
pub fn resolve_state_id(response: &JsonValue) -> (r: Result<String, TrackerError>)
    ensures
        match r {
            Ok(id) => state_id_in(response@) == Some(id@),
            Err(error) => state_id_in(response@) is None && error@ == "state_not_found"@,
        },
{
    let states = get_in(reach3(response, "data", "issue", "team"), "states");
    match string_in(get_in(first_of(get_in(states, "nodes")), "id")) {
        Some(id) => Ok(id),
        None => Err(TrackerError::new("state_not_found")),
    }
}

/// The variables of a change of state.
pub open spec fn state_update_model(issue_id: Seq<char>, state_id: Seq<char>) -> Json {
    Json::Object(map!["issueId"@ => Json::Text(issue_id), "stateId"@ => Json::Text(state_id)])
}

/// The variables of the mutation that moves an issue to a state.
pub fn state_update_variables(issue_id: &str, state_id: &str) -> (r: JsonValue)
    ensures
        r@ == state_update_model(issue_id@, state_id@),
        r@ == Json::Object(
            map!["issueId"@ => Json::Text(issue_id@), "stateId"@ => Json::Text(state_id@)],
        ),
{
    empty_object().with("issueId", text_value(issue_id)).with("stateId", text_value(state_id))
}

/// Whether an answer tells that a state was changed.
pub open spec fn state_updated(response: Json) -> bool {
    mutation_done(response, "issueUpdate"@)
}

/// What the answer to a move of an issue says.
pub fn state_update_result(response: &JsonValue) -> (r: Result<(), TrackerError>)
    ensures
        r is Ok <==> state_updated(response@),
        match r {
            Ok(_) => mutation_done(response@, "issueUpdate"@),
            Err(error) => !mutation_done(response@, "issueUpdate"@) && error@
                == "issue_update_failed"@,
        },
{
    mutation_result(response, "issueUpdate", "issue_update_failed")
}

// ---------------------------------------------------------------------------
// Assignees
// ---------------------------------------------------------------------------

/// The people whose issues are worked on.
#[derive(Debug)]
pub struct AssigneeFilter {
    pub match_values: OrderedSet,
}

impl View for AssigneeFilter {
    type V = Set<Seq<char>>;

    open spec fn view(&self) -> Set<Seq<char>> {
        self.match_values@
    }
}

/// The model of an optional filter.
pub open spec fn opt_filter(filter: Option<AssigneeFilter>) -> Option<Set<Seq<char>>> {
    match filter {
        Some(f) => Some(f@),
        None => None,
    }
}

/// The model of a borrowed optional filter.
pub open spec fn opt_filter_ref(filter: Option<&AssigneeFilter>) -> Option<Set<Seq<char>>> {
    match filter {
        Some(f) => Some(f@),
        None => None,
    }
}

/// The filter of a configuration, or the need to ask who owns the API key.
#[derive(Debug)]
pub enum AssigneeStep {
    Ready(Option<AssigneeFilter>),
    AskViewer,
}

/// The model of what is known of the filter of a configuration.
pub enum FilterModel {
    Ready(Option<Set<Seq<char>>>),
    AskViewer,
}

impl View for AssigneeStep {
    type V = FilterModel;

    open spec fn view(&self) -> FilterModel {
        match *self {
            AssigneeStep::Ready(filter) => FilterModel::Ready(opt_filter(filter)),
            AssigneeStep::AskViewer => FilterModel::AskViewer,
        }
    }
}

/// What is known of the filter for an assignee.
pub open spec fn filter_model(assignee: Option<Seq<char>>) -> FilterModel {
    match assignee {
        None => FilterModel::Ready(None),
        Some(name) => if name == "me"@ {
            FilterModel::AskViewer
        } else if is_blank(name) {
            FilterModel::Ready(None)
        } else {
            FilterModel::Ready(Some(set![trim(name)]))
        },
    }
}

/// The filter of a configuration: none without an assignee or with a blank one;
/// the owner of the API key for `me`; and otherwise the assignee.
pub fn resolve_assignee_filter(config: &ServiceConfig) -> (r: AssigneeStep)
    ensures
        r@ == filter_model(config@.tracker.assignee),
        match config@.tracker.assignee {
            None => r matches AssigneeStep::Ready(filter) && filter is None,
            Some(name) => if name == "me"@ {
                r is AskViewer
            } else if is_blank(name) {
                r matches AssigneeStep::Ready(filter) && filter is None
            } else {
                r matches AssigneeStep::Ready(filter) && opt_filter(filter) == Some(
                    set![trim(name)],
                )
            },
        },
{
    match &config.tracker.assignee {
        None => AssigneeStep::Ready(None),
        Some(name) => {
            if same_text(name.as_str(), "me") {
                AssigneeStep::AskViewer
            } else if blank(name.as_str()) {
                AssigneeStep::Ready(None)
            } else {
                AssigneeStep::Ready(Some(single_filter(trimmed(name.as_str()))))
            }
        },
    }
}

fn single_filter(name: String) -> (r: AssigneeFilter)
    ensures
        r@ == set![name@],
{
    let mut match_values = OrderedSet::new();
    let _ = match_values.insert(name);
    AssigneeFilter { match_values }
}

/// The owner of the API key in the answer to the query for it.
pub open spec fn viewer_in(response: Json) -> Option<Seq<char>> {
    json_str(at3(response, "data"@, "viewer"@, "id"@))
}

/// The filter for the owner of the API key, by the answer to the query for it.
pub fn viewer_filter(response: &JsonValue) -> (r: Result<AssigneeFilter, TrackerError>)
    ensures
        match r {
            Ok(filter) => viewer_in(response@) matches Some(id) && filter@ == set![id],
            Err(error) => viewer_in(response@) is None && error@
                == "missing_linear_viewer_identity"@,
        },
{
    match string_in(reach3(response, "data", "viewer", "id")) {
        Some(id) => Ok(single_filter(id)),
        None => Err(TrackerError::new("missing_linear_viewer_identity")),
    }
}

// ---------------------------------------------------------------------------
// Issues
// ---------------------------------------------------------------------------

/// The items of an array, or none.
pub open spec fn items_or_none(value: Option<Json>) -> Seq<Json> {
    match json_array(value) {
        Some(items) => items,
        None => Seq::empty(),
    }
}

/// The names among the items, in lower case.
pub open spec fn label_names(items: Seq<Json>) -> Seq<Seq<char>>
    decreases items.len(),
{
    if items.len() == 0 {
        Seq::empty()
    } else {
        let before = label_names(items.drop_last());
        match json_str(json_get(items.last(), "name"@)) {
            Some(name) => before.push(ascii_lower(name)),
            None => before,
        }
    }
}

/// The labels of an issue, in lower case.
pub fn extract_labels(node: &JsonValue) -> (r: Vec<String>)
    ensures
        texts(r@) == label_names(items_or_none(at2(node@, "labels"@, "nodes"@))),
{
    let mut out: Vec<String> = Vec::new();
    let found = reach2(node, "labels", "nodes");
    let items = match found {
        Some(value) => match value.as_array() {
            Some(items) => items,
            None => {
                assert(texts(out@) =~= Seq::empty());
                return out;
            },
        },
        None => {
            assert(texts(out@) =~= Seq::empty());
            return out;
        },
    };
    let ghost all = array_of(items@);
    let mut i: usize = 0;
    assert(texts(out@) =~= label_names(all.take(0)));
    while i < items.len()
        invariant
            i <= items@.len(),
            all == array_of(items@),
            texts(out@) == label_names(all.take(i as int)),
        decreases items@.len() - i,
    {
        let ghost before = out@;
        proof {
            assert(all.take(i + 1).drop_last() =~= all.take(i as int));
            assert(all.take(i + 1).last() == items@[i as int]@);
        }
        match str_in(items[i].get("name")) {
            Some(name) => {
                let label = lowered(name);
                out.push(label);
                assert(texts(out@) =~= texts(before).push(label@));
            },
            None => {},
        }
        i = i + 1;
    }
    assert(all.take(i as int) =~= all);
    out
}

/// The issue that a relation names as a blocker.
pub open spec fn blocker_in(relation: Json) -> Option<BlockerModel> {
    match (json_str(json_get(relation, "type"@)), json_get(relation, "issue"@)) {
        (Some(kind), Some(issue)) => if ascii_lower(trim(kind)) == "blocks"@ {
            Some(
                BlockerModel {
                    id: json_str(json_get(issue, "id"@)),
                    identifier: json_str(json_get(issue, "identifier"@)),
                    state: json_str(at2(issue, "state"@, "name"@)),
                },
            )
        } else {
            None
        },
        _ => None,
    }
}

/// The blockers among the relations.
pub open spec fn blockers_in(relations: Seq<Json>) -> Seq<BlockerModel>
    decreases relations.len(),
{
    if relations.len() == 0 {
        Seq::empty()
    } else {
        let before = blockers_in(relations.drop_last());
        match blocker_in(relations.last()) {
            Some(blocker) => before.push(blocker),
            None => before,
        }
    }
}

fn read_blocker(relation: &JsonValue) -> (r: Option<IssueBlockerRef>)
    ensures
        match r {
            Some(blocker) => blocker_in(relation@) == Some(blocker@),
            None => blocker_in(relation@) is None,
        },
{
    let kind = match str_in(relation.get("type")) {
        Some(kind) => lowered(trimmed(kind).as_str()),
        None => {
            return None;
        },
    };
    if !same_text(kind.as_str(), "blocks") {
        return None;
    }
    match relation.get("issue") {
        Some(issue) => Some(
            IssueBlockerRef {
                id: string_in(issue.get("id")),
                identifier: string_in(issue.get("identifier")),
                state: string_in(reach2(issue, "state", "name")),
            },
        ),
        None => None,
    }
}

/// The issues that block an issue.
pub fn extract_blockers(node: &JsonValue) -> (r: Vec<IssueBlockerRef>)
    ensures
        blockers(r@) == blockers_in(items_or_none(at2(node@, "inverseRelations"@, "nodes"@))),
{
    let mut out: Vec<IssueBlockerRef> = Vec::new();
    let found = reach2(node, "inverseRelations", "nodes");
    let items = match found {
        Some(value) => match value.as_array() {
            Some(items) => items,
            None => {
                assert(blockers(out@) =~= Seq::empty());
                return out;
            },
        },
        None => {
            assert(blockers(out@) =~= Seq::empty());
            return out;
        },
    };
    let ghost all = array_of(items@);
    let mut i: usize = 0;
    assert(blockers(out@) =~= blockers_in(all.take(0)));
    while i < items.len()
        invariant
            i <= items@.len(),
            all == array_of(items@),
            blockers(out@) == blockers_in(all.take(i as int)),
        decreases items@.len() - i,
    {
        let ghost before = out@;
        proof {
            assert(all.take(i + 1).drop_last() =~= all.take(i as int));
            assert(all.take(i + 1).last() == items@[i as int]@);
        }
        match read_blocker(&items[i]) {
            Some(blocker) => {
                out.push(blocker);
                assert(blockers(out@) =~= blockers(before).push(blocker@));
            },
            None => {},
        }
        i = i + 1;
    }
    assert(all.take(i as int) =~= all);
    out
}

/// The point in time that a value gives.
pub open spec fn time_in(value: Option<Json>) -> Option<TimePoint> {
    match json_str(value) {
        Some(text) => parsed_time(text),
        None => None,
    }
}

/// The point in time that a value gives.
pub fn parse_datetime(value: Option<&JsonValue>) -> (r: Option<Timestamp>)
    ensures
        opt_time(r) == time_in(opt_json(value)),
{
    match str_in(value) {
        Some(text) => Timestamp::parse_rfc3339(text),
        None => None,
    }
}

/// Whether an issue belongs to the people whose issues are worked on.
pub open spec fn assigned(assignee: Option<Seq<char>>, filter: Option<Set<Seq<char>>>) -> bool {
    match filter {
        Some(people) => match assignee {
            Some(id) => people.contains(id),
            None => false,
        },
        None => true,
    }
}

/// The issue that a node describes; a node without an id, an identifier or a
/// title describes none.
pub open spec fn issue_in(node: Json, filter: Option<Set<Seq<char>>>) -> Option<IssueModel> {
    let assignee_id = json_str(at2(node, "assignee"@, "id"@));
    match (
        json_str(json_get(node, "id"@)),
        json_str(json_get(node, "identifier"@)),
        json_str(json_get(node, "title"@)),
    ) {
        (Some(id), Some(identifier), Some(title)) => Some(
            IssueModel {
                id,
                identifier,
                title,
                description: json_str(json_get(node, "description"@)),
                priority: json_i64(json_get(node, "priority"@)),
                state: match json_str(at2(node, "state"@, "name"@)) {
                    Some(state) => state,
                    None => Seq::empty(),
                },
                branch_name: json_str(json_get(node, "branchName"@)),
                url: json_str(json_get(node, "url"@)),
                assignee_id,
                labels: label_names(items_or_none(at2(node, "labels"@, "nodes"@))),
                blocked_by: blockers_in(items_or_none(at2(node, "inverseRelations"@, "nodes"@))),
                assigned_to_worker: assigned(assignee_id, filter),
                created_at: time_in(json_get(node, "createdAt"@)),
                updated_at: time_in(json_get(node, "updatedAt"@)),
            },
        ),
        _ => None,
    }
}

/// The model of an optional issue.
pub open spec fn opt_issue(issue: Option<Issue>) -> Option<IssueModel> {
    match issue {
        Some(i) => Some(i@),
        None => None,
    }
}

/// The issue that a node describes.
pub fn normalize_issue(node: &JsonValue, assignee_filter: Option<&AssigneeFilter>) -> (r: Option<
    Issue,
>)
    ensures
        opt_issue(r) == issue_in(node@, opt_filter_ref(assignee_filter)),
{
    let assignee_id = string_in(reach2(node, "assignee", "id"));
    let assigned_to_worker = match assignee_filter {
        Some(filter) => match &assignee_id {
            Some(id) => filter.match_values.contains(id.as_str()),
            None => false,
        },
        None => true,
    };
    let id = match string_in(node.get("id")) {
        Some(id) => id,
        None => {
            return None;
        },
    };
    let identifier = match string_in(node.get("identifier")) {
        Some(identifier) => identifier,
        None => {
            return None;
        },
    };
    let title = match string_in(node.get("title")) {
        Some(title) => title,
        None => {
            return None;
        },
    };
    let priority: Option<i64> = match node.get("priority") {
        Some(value) => value.as_i64(),
        None => None,
    };
    let state = match string_in(reach2(node, "state", "name")) {
        Some(state) => state,
        None => String::new(),
    };
    Some(
        Issue {
            id,
            identifier,
            title,
            description: string_in(node.get("description")),
            priority,
            state,
            branch_name: string_in(node.get("branchName")),
            url: string_in(node.get("url")),
            assignee_id,
            labels: extract_labels(node),
            blocked_by: extract_blockers(node),
            assigned_to_worker,
            created_at: parse_datetime(node.get("createdAt")),
            updated_at: parse_datetime(node.get("updatedAt")),
        },
    )
}

/// The issues that nodes describe.
pub open spec fn issues_in(nodes: Seq<Json>, filter: Option<Set<Seq<char>>>) -> Seq<IssueModel>
    decreases nodes.len(),
{
    if nodes.len() == 0 {
        Seq::empty()
    } else {
        let before = issues_in(nodes.drop_last(), filter);
        match issue_in(nodes.last(), filter) {
            Some(issue) => before.push(issue),
            None => before,
        }
    }
}

/// The issues of an answer, or the message of what is wrong with it.
pub open spec fn decoded_issues(response: Json, filter: Option<Set<Seq<char>>>) -> Result<
    Seq<IssueModel>,
    Seq<char>,
> {
    match json_get(response, "errors"@) {
        Some(errors) => Err("linear_graphql_errors: "@ + json_compact(errors)),
        None => match json_array(at3(response, "data"@, "issues"@, "nodes"@)) {
            Some(nodes) => Ok(issues_in(nodes, filter)),
            None => Err("linear_unknown_payload"@),
        },
    }
}

/// The models of a list of issues.
pub open spec fn issue_models(issues: Seq<Issue>) -> Seq<IssueModel> {
    issues.map_values(|issue: Issue| issue@)
}

/// The issues of an answer.
pub fn decode_linear_response(
    response: &JsonValue,
    assignee_filter: Option<&AssigneeFilter>,
) -> (r: Result<Vec<Issue>, TrackerError>)
    ensures
        match r {
            Ok(issues) => decoded_issues(response@, opt_filter_ref(assignee_filter)) == Ok::<
                Seq<IssueModel>,
                Seq<char>,
            >(issue_models(issues@)),
            Err(error) => decoded_issues(response@, opt_filter_ref(assignee_filter)) == Err::<
                Seq<IssueModel>,
                Seq<char>,
            >(error@),
        },
{
    match response.get("errors") {
        Some(errors) => {
            let message = "linear_graphql_errors: ".to_string().concat(json_text(errors).as_str());
            return Err(TrackerError::new(message.as_str()));
        },
        None => {},
    }
    let nodes = match reach3(response, "data", "issues", "nodes") {
        Some(value) => match value.as_array() {
            Some(nodes) => nodes,
            None => {
                return Err(TrackerError::new("linear_unknown_payload"));
            },
        },
        None => {
            return Err(TrackerError::new("linear_unknown_payload"));
        },
    };
    Ok(normalize_issues(nodes, assignee_filter))
}

fn normalize_issues(nodes: &Vec<JsonValue>, assignee_filter: Option<&AssigneeFilter>) -> (r: Vec<
    Issue,
>)
    ensures
        issue_models(r@) == issues_in(array_of(nodes@), opt_filter_ref(assignee_filter)),
{
    let ghost filter = opt_filter_ref(assignee_filter);
    let ghost all = array_of(nodes@);
    let mut out: Vec<Issue> = Vec::new();
    let mut i: usize = 0;
    assert(issue_models(out@) =~= issues_in(all.take(0), filter));
    while i < nodes.len()
        invariant
            i <= nodes@.len(),
            all == array_of(nodes@),
            filter == opt_filter_ref(assignee_filter),
            issue_models(out@) == issues_in(all.take(i as int), filter),
        decreases nodes@.len() - i,
    {
        let ghost before = out@;
        proof {
            assert(all.take(i + 1).drop_last() =~= all.take(i as int));
            assert(all.take(i + 1).last() == nodes@[i as int]@);
        }
        match normalize_issue(&nodes[i], assignee_filter) {
            Some(issue) => {
                out.push(issue);
                assert(issue_models(out@) =~= issue_models(before).push(issue@));
            },
            None => {},
        }
        i = i + 1;
    }
    assert(all.take(i as int) =~= all);
    out
}

/// A page of issues.
#[derive(Debug)]
pub struct LinearPage {
    pub issues: Vec<Issue>,
    pub has_next_page: bool,
    pub end_cursor: Option<String>,
}

/// The issues read so far with those of one more answer, or what is wrong with it.
pub open spec fn with_page(
    before: Seq<IssueModel>,
    body: Json,
    filter: Option<Set<Seq<char>>>,
) -> Result<Seq<IssueModel>, Seq<char>> {
    match decoded_issues(body, filter) {
        Ok(page) => Ok(before + page),
        Err(message) => Err(message),
    }
}

/// Whether an answer says that more pages follow.
pub open spec fn more_follows(response: Json) -> bool {
    json_bool(
        opt_json_get(at3(response, "data"@, "issues"@, "pageInfo"@), "hasNextPage"@),
    ) == Some(true)
}

/// Where an answer says that the next page starts.
pub open spec fn next_cursor(response: Json) -> Option<Seq<char>> {
    json_str(opt_json_get(at3(response, "data"@, "issues"@, "pageInfo"@), "endCursor"@))
}

/// The page of an answer.
pub fn decode_linear_page_response(
    response: &JsonValue,
    assignee_filter: Option<&AssigneeFilter>,
) -> (r: Result<LinearPage, TrackerError>)
    ensures
        match r {
            Ok(page) => {
                &&& decoded_issues(response@, opt_filter_ref(assignee_filter)) == Ok::<
                    Seq<IssueModel>,
                    Seq<char>,
                >(issue_models(page.issues@))
                &&& page.has_next_page == more_follows(response@)
                &&& opt_text(page.end_cursor) == next_cursor(response@)
            },
            Err(error) => decoded_issues(response@, opt_filter_ref(assignee_filter)) == Err::<
                Seq<IssueModel>,
                Seq<char>,
            >(error@),
        },
{
    let issues = match decode_linear_response(response, assignee_filter) {
        Ok(issues) => issues,
        Err(error) => {
            return Err(error);
        },
    };
    let info = reach3(response, "data", "issues", "pageInfo");
    Ok(
        LinearPage {
            issues,
            has_next_page: bool_in(get_in(info, "hasNextPage")) == Some(true),
            end_cursor: string_in(get_in(info, "endCursor")),
        },
    )
}

// ---------------------------------------------------------------------------
// Page by page
// ---------------------------------------------------------------------------

/// The texts of a list that are not blank.
pub open spec fn not_blank(values: Seq<Seq<char>>) -> Seq<Seq<char>>
    decreases values.len(),
{
    if values.len() == 0 {
        Seq::empty()
    } else if is_blank(values.last()) {
        not_blank(values.drop_last())
    } else {
        not_blank(values.drop_last()).push(values.last())
    }
}

fn keep_not_blank(values: &[String]) -> (r: Vec<String>)
    ensures
        texts(r@) == not_blank(texts(values@)),
{
    let mut out: Vec<String> = Vec::new();
    let mut i: usize = 0;
    assert(texts(out@) =~= not_blank(texts(values@).take(0)));
    while i < values.len()
        invariant
            i <= values@.len(),
            texts(out@) == not_blank(texts(values@).take(i as int)),
        decreases values@.len() - i,
    {
        let ghost before = out@;
        proof {
            let front = texts(values@).take(i + 1);
            assert(front.drop_last() =~= texts(values@).take(i as int));
            assert(front.last() == values@[i as int]@);
        }
        if !blank(values[i].as_str()) {
            out.push(values[i].clone());
            assert(texts(out@) =~= texts(before).push(values@[i as int]@));
        }
        i = i + 1;
    }
    assert(texts(values@).take(i as int) =~= texts(values@));
    out
}

/// The project whose issues are asked for.
pub fn project_slug_of(config: &ServiceConfig) -> (r: Result<String, TrackerError>)
    ensures
        match config@.tracker.project_slug {
            Some(slug) => r matches Ok(text) && text@ == slug,
            None => r matches Err(error) && error@ == "missing_linear_project_slug"@,
        },
{
    match &config.tracker.project_slug {
        Some(slug) => Ok(slug.clone()),
        None => Err(TrackerError::new("missing_linear_project_slug")),
    }
}

/// An optional text as a value.
pub open spec fn text_or_null(text: Option<Seq<char>>) -> Json {
    match text {
        Some(t) => Json::Text(t),
        None => Json::Null,
    }
}

/// Texts as a value.
pub open spec fn texts_model(items: Seq<Seq<char>>) -> Json {
    Json::Array(items.map_values(|t: Seq<char>| Json::Text(t)))
}

/// The variables of the query for a page of issues.
pub open spec fn page_variables(
    project_slug: Seq<char>,
    states: Seq<Seq<char>>,
    cursor: Option<Seq<char>>,
) -> Json {
    Json::Object(
        map![
            "projectSlug"@ => Json::Text(project_slug),
            "stateNames"@ => texts_model(states),
            "first"@ => Json::Integer(50),
            "relationFirst"@ => Json::Integer(50),
            "after"@ => text_or_null(cursor),
        ],
    )
}

/// Issues that are fetched page by page.
#[derive(Debug)]
pub struct PageFetch {
    pub project_slug: String,
    pub states: Vec<String>,
    pub assignee_filter: Option<AssigneeFilter>,
    pub cursor: Option<String>,
    pub issues: Vec<Issue>,
}

/// How far the fetching of pages has come.
#[derive(Debug)]
pub enum PageStep {
    /// Ask for the next page.
    Next(PageFetch),
    /// All pages have come.
    Done(Vec<Issue>),
}

impl PageFetch {
    /// The start of fetching the issues of a project in some states; without
    /// states there is nothing to fetch.
    pub fn fetch_by_states(
        project_slug: String,
        states: &[String],
        assignee_filter: Option<AssigneeFilter>,
    ) -> (r: PageStep)
        ensures
            match r {
                PageStep::Done(issues) => not_blank(texts(states@)).len() == 0
                    && issues@.len() == 0,
                PageStep::Next(fetch) => {
                    &&& not_blank(texts(states@)).len() > 0
                    &&& fetch.project_slug == project_slug
                    &&& texts(fetch.states@) == not_blank(texts(states@))
                    &&& fetch.assignee_filter == assignee_filter
                    &&& fetch.cursor is None
                    &&& fetch.issues@.len() == 0
                },
            },
    {
        let kept = keep_not_blank(states);
        assert(texts(kept@).len() == kept@.len());
        if kept.len() == 0 {
            PageStep::Done(Vec::new())
        } else {
            PageStep::Next(
                PageFetch {
                    project_slug,
                    states: kept,
                    assignee_filter,
                    cursor: None,
                    issues: Vec::new(),
                },
            )
        }
    }

    /// The variables of the query for the next page.
    pub fn variables(&self) -> (r: JsonValue)
        ensures
            r@ == page_variables(self.project_slug@, texts(self.states@), opt_text(self.cursor)),
    {
        let after = match &self.cursor {
            Some(cursor) => text_value(cursor.as_str()),
            None => null_value(),
        };
        empty_object().with("projectSlug", text_value(self.project_slug.as_str())).with(
            "stateNames",
            text_array(&self.states),
        ).with("first", number_value(ISSUE_PAGE_SIZE as u64)).with(
            "relationFirst",
            number_value(ISSUE_PAGE_SIZE as u64),
        ).with("after", after)
    }

    /// Takes in the answer to the query for the next page: its issues are put
    /// behind those that came before, and it says whether another page follows.
    pub fn step(self, body: &JsonValue) -> (r: Result<PageStep, TrackerError>)
        ensures
            match r {
                Ok(PageStep::Done(issues)) => with_page(
                    issue_models(self.issues@),
                    body@,
                    opt_filter(self.assignee_filter),
                ) == Ok::<Seq<IssueModel>, Seq<char>>(issue_models(issues@)),
                Ok(PageStep::Next(fetch)) => with_page(
                    issue_models(self.issues@),
                    body@,
                    opt_filter(self.assignee_filter),
                ) == Ok::<Seq<IssueModel>, Seq<char>>(issue_models(fetch.issues@)),
                Err(error) => with_page(
                    issue_models(self.issues@),
                    body@,
                    opt_filter(self.assignee_filter),
                ) == Err::<Seq<IssueModel>, Seq<char>>(error@),
            },
            match decoded_issues(body@, opt_filter(self.assignee_filter)) {
                Ok(page) => match r {
                    Ok(PageStep::Done(issues)) => {
                        &&& !more_follows(body@)
                        &&& issue_models(issues@) == issue_models(self.issues@) + page
                    },
                    Ok(PageStep::Next(fetch)) => {
                        &&& more_follows(body@)
                        &&& issue_models(fetch.issues@) == issue_models(self.issues@) + page
                        &&& opt_text(fetch.cursor) == next_cursor(body@)
                        &&& fetch == (PageFetch {
                            cursor: fetch.cursor,
                            issues: fetch.issues,
                            ..self
                        })
                    },
                    Err(_) => false,
                },
                Err(message) => r matches Err(error) && error@ == message,
            },
    {
        let page = match decode_linear_page_response(body, self.assignee_filter.as_ref()) {
            Ok(page) => page,
            Err(error) => {
                return Err(error);
            },
        };
        let mut issues = self.issues;
        let ghost before = issues@;
        let mut more = page.issues;
        let ghost added = more@;
        issues.append(&mut more);
        assert(issue_models(issues@) =~= issue_models(before) + issue_models(added));
        if page.has_next_page {
            Ok(
                PageStep::Next(
                    PageFetch {
                        project_slug: self.project_slug,
                        states: self.states,
                        assignee_filter: self.assignee_filter,
                        cursor: page.end_cursor,
                        issues,
                    },
                ),
            )
        } else {
            Ok(PageStep::Done(issues))
        }
    }
}

// ---------------------------------------------------------------------------
// Batch by batch
// ---------------------------------------------------------------------------

/// The variables of the query for issues by their ids.
pub open spec fn ids_variables(ids: Seq<Seq<char>>) -> Json {
    Json::Object(
        map![
            "ids"@ => texts_model(ids),
            "first"@ => Json::Integer(ids.len() as int),
            "relationFirst"@ => Json::Integer(50),
        ],
    )
}

/// Issues that are fetched by their ids, a batch at a time.
#[derive(Debug)]
pub struct BatchFetch {
    pub ids: Vec<String>,
    pub position: usize,
    pub assignee_filter: Option<AssigneeFilter>,
    pub issues: Vec<Issue>,
}

/// The ids to ask for: those that are not blank.
pub fn ids_to_fetch(issue_ids: &[String]) -> (r: Vec<String>)
    ensures
        texts(r@) == not_blank(texts(issue_ids@)),
{
    keep_not_blank(issue_ids)
}

/// The ids of the batch that starts at a position: as many as fit on a page.
pub open spec fn batch_ids(ids: Seq<Seq<char>>, position: int) -> Seq<Seq<char>> {
    if ids.len() - position <= 50 {
        ids.skip(position)
    } else {
        ids.subrange(position, position + 50)
    }
}

impl BatchFetch {
    /// The start of fetching issues by their ids.
    pub fn fetch_issue_states_by_ids(
        ids: Vec<String>,
        assignee_filter: Option<AssigneeFilter>,
    ) -> (r: BatchFetch)
        ensures
            r.ids == ids,
            r.position == 0,
            r.assignee_filter == assignee_filter,
            r.issues@.len() == 0,
    {
        BatchFetch { ids, position: 0, assignee_filter, issues: Vec::new() }
    }

    /// The variables of the query for the next batch, until all have been asked for.
    pub fn variables(&self) -> (r: Option<JsonValue>)
        ensures
            match r {
                Some(variables) => {
                    &&& self.position < self.ids@.len()
                    &&& variables@ == ids_variables(
                        batch_ids(texts(self.ids@), self.position as int),
                    )
                },
                None => self.position >= self.ids@.len(),
            },
    {
        if self.position >= self.ids.len() {
            return None;
        }
        let end: usize = self.batch_end();
        let mut batch: Vec<String> = Vec::new();
        let mut i: usize = self.position;
        while i < end
            invariant
                self.position <= i <= end <= self.ids@.len(),
                texts(batch@) == texts(self.ids@).subrange(self.position as int, i as int),
            decreases end - i,
        {
            let ghost before = batch@;
            batch.push(self.ids[i].clone());
            assert(texts(batch@) =~= texts(before).push(self.ids@[i as int]@));
            assert(texts(self.ids@).subrange(self.position as int, i + 1) =~= texts(
                self.ids@,
            ).subrange(self.position as int, i as int).push(self.ids@[i as int]@));
            i = i + 1;
        }
        proof {
            assert(texts(batch@) =~= batch_ids(texts(self.ids@), self.position as int));
            assert(texts(batch@).len() == batch@.len());
        }
        Some(
            empty_object().with("ids", text_array(&batch)).with(
                "first",
                number_value(batch.len() as u64),
            ).with("relationFirst", number_value(ISSUE_PAGE_SIZE as u64)),
        )
    }

    /// Where the next batch ends.
    fn batch_end(&self) -> (r: usize)
        requires
            self.position <= self.ids@.len(),
        ensures
            r == if self.ids@.len() - self.position <= 50 {
                self.ids@.len() as int
            } else {
                self.position + 50
            },
    {
        if self.ids.len() - self.position <= ISSUE_PAGE_SIZE {
            self.ids.len()
        } else {
            self.position + ISSUE_PAGE_SIZE
        }
    }

    /// Takes in the answer to the query for the next batch.
    pub fn step(self, body: &JsonValue) -> (r: Result<BatchFetch, TrackerError>)
        requires
            self.position < self.ids@.len(),
        ensures
            match r {
                Ok(fetch) => with_page(
                    issue_models(self.issues@),
                    body@,
                    opt_filter(self.assignee_filter),
                ) == Ok::<Seq<IssueModel>, Seq<char>>(issue_models(fetch.issues@)),
                Err(error) => with_page(
                    issue_models(self.issues@),
                    body@,
                    opt_filter(self.assignee_filter),
                ) == Err::<Seq<IssueModel>, Seq<char>>(error@),
            },
            match decoded_issues(body@, opt_filter(self.assignee_filter)) {
                Ok(batch) => {
                    &&& r matches Ok(fetch)
                    &&& issue_models(fetch.issues@) == issue_models(self.issues@) + batch
                    &&& fetch.position == self.position + batch_ids(
                        texts(self.ids@),
                        self.position as int,
                    ).len()
                    &&& fetch == (BatchFetch {
                        position: fetch.position,
                        issues: fetch.issues,
                        ..self
                    })
                },
                Err(message) => r matches Err(error) && error@ == message,
            },
    {
        let end: usize = self.batch_end();
        let mut more = match decode_linear_response(body, self.assignee_filter.as_ref()) {
            Ok(issues) => issues,
            Err(error) => {
                return Err(error);
            },
        };
        let mut issues = self.issues;
        let ghost before = issues@;
        let ghost added = more@;
        issues.append(&mut more);
        assert(issue_models(issues@) =~= issue_models(before) + issue_models(added));
        Ok(
            BatchFetch {
                ids: self.ids,
                position: end,
                assignee_filter: self.assignee_filter,
                issues,
            },
        )
    }

    /// The fetched issues in the order in which their ids were asked for.
    pub fn finish(&self) -> (r: Vec<Issue>)
        ensures
            issue_models(r@) == in_requested_order(issue_models(self.issues@), texts(self.ids@)),
    {
        order_by_ids(&self.issues, &self.ids)
    }
}

/// The last place of a text in a list.
pub open spec fn last_place(ids: Seq<Seq<char>>, id: Seq<char>) -> Option<int>
    decreases ids.len(),
{
    if ids.len() == 0 {
        None
    } else if ids.last() == id {
        Some(ids.len() - 1)
    } else {
        last_place(ids.drop_last(), id)
    }
}

/// The issues whose id has a place, in the order in which they came.
pub open spec fn issues_at(issues: Seq<IssueModel>, ids: Seq<Seq<char>>, place: Option<int>) -> Seq<
    IssueModel,
>
    decreases issues.len(),
{
    if issues.len() == 0 {
        Seq::empty()
    } else {
        let before = issues_at(issues.drop_last(), ids, place);
        if last_place(ids, issues.last().id) == place {
            before.push(issues.last())
        } else {
            before
        }
    }
}

/// The issues of the first `n` places, place by place.
pub open spec fn issues_up_to(issues: Seq<IssueModel>, ids: Seq<Seq<char>>, n: int) -> Seq<
    IssueModel,
>
    decreases n,
{
    if n <= 0 {
        Seq::empty()
    } else {
        issues_up_to(issues, ids, n - 1) + issues_at(issues, ids, Some(n - 1))
    }
}

/// The issues in the order in which their ids stand in a list; those whose ids do
/// not stand there come last.
pub open spec fn in_requested_order(issues: Seq<IssueModel>, ids: Seq<Seq<char>>) -> Seq<
    IssueModel,
> {
    issues_up_to(issues, ids, ids.len() as int) + issues_at(issues, ids, None)
}

fn find_last(ids: &Vec<String>, id: &str) -> (r: Option<usize>)
    ensures
        match r {
            Some(place) => last_place(texts(ids@), id@) == Some(place as int),
            None => last_place(texts(ids@), id@) is None,
        },
{
    let ghost all = texts(ids@);
    let mut end: usize = ids.len();
    assert(all.take(end as int) =~= all);
    while end > 0
        invariant
            end <= ids@.len(),
            all == texts(ids@),
            last_place(all, id@) == last_place(all.take(end as int), id@),
        decreases end,
    {
        assert(all.take(end as int).drop_last() =~= all.take(end - 1));
        assert(all.take(end as int).last() == ids@[end - 1]@);
        if same_text(ids[end - 1].as_str(), id) {
            return Some(end - 1);
        }
        end = end - 1;
    }
    None
}

/// Adds copies of the issues that have a place.
fn push_issues_at(issues: &Vec<Issue>, ids: &Vec<String>, place: Option<usize>, out: &mut Vec<Issue>)
    ensures
        issue_models(final(out)@) == issue_models(old(out)@) + issues_at(
            issue_models(issues@),
            texts(ids@),
            match place {
                Some(p) => Some(p as int),
                None => None,
            },
        ),
{
    let ghost all = issue_models(issues@);
    let ghost names = texts(ids@);
    let ghost wanted: Option<int> = match place {
        Some(p) => Some(p as int),
        None => None,
    };
    let ghost start = issue_models(out@);
    let mut i: usize = 0;
    assert(issue_models(out@) =~= start + issues_at(all.take(0), names, wanted));
    while i < issues.len()
        invariant
            i <= issues@.len(),
            all == issue_models(issues@),
            names == texts(ids@),
            wanted == match place {
                Some(p) => Some(p as int),
                None => None,
            },
            issue_models(out@) == start + issues_at(all.take(i as int), names, wanted),
        decreases issues@.len() - i,
    {
        let ghost before = out@;
        proof {
            assert(all.take(i + 1).drop_last() =~= all.take(i as int));
            assert(all.take(i + 1).last() == issues@[i as int]@);
        }
        let found: Option<usize> = find_last(ids, issues[i].id.as_str());
        let same = match (found, place) {
            (Some(a), Some(b)) => a == b,
            (None, None) => true,
            _ => false,
        };
        if same {
            let copy = issues[i].clone();
            out.push(copy);
            assert(issue_models(out@) =~= issue_models(before).push(copy@));
            assert(issue_models(out@) =~= start + issues_at(all.take(i + 1), names, wanted));
        }
        i = i + 1;
    }
    assert(all.take(i as int) =~= all);
}

/// The issues in the order in which their ids stand in a list.
pub fn order_by_ids(issues: &Vec<Issue>, ids: &Vec<String>) -> (r: Vec<Issue>)
    ensures
        issue_models(r@) == in_requested_order(issue_models(issues@), texts(ids@)),
{
    let ghost all = issue_models(issues@);
    let ghost names = texts(ids@);
    let mut out: Vec<Issue> = Vec::new();
    let mut n: usize = 0;
    assert(issue_models(out@) =~= issues_up_to(all, names, 0));
    while n < ids.len()
        invariant
            n <= ids@.len(),
            all == issue_models(issues@),
            names == texts(ids@),
            issue_models(out@) == issues_up_to(all, names, n as int),
        decreases ids@.len() - n,
    {
        push_issues_at(issues, ids, Some(n), &mut out);
        n = n + 1;
    }
    assert(names.len() == ids@.len());
    push_issues_at(issues, ids, None, &mut out);
    out
}

// ---------------------------------------------------------------------------
// Laws
// ---------------------------------------------------------------------------

proof fn lemma_issues_at_members(
    issues: Seq<IssueModel>,
    ids: Seq<Seq<char>>,
    place: Option<int>,
    issue: IssueModel,
)
    ensures
        issues_at(issues, ids, place).contains(issue) <==> issues.contains(issue) && last_place(
            ids,
            issue.id,
        ) == place,
    decreases issues.len(),
{
    if issues.len() > 0 {
        let front = issues.drop_last();
        lemma_issues_at_members(front, ids, place, issue);
        let before = issues_at(front, ids, place);
        let after = issues_at(issues, ids, place);
        if after.contains(issue) {
            let x = choose|x: int| 0 <= x < after.len() && after[x] == issue;
            if x < before.len() {
                assert(before[x] == issue);
                assert(before.contains(issue));
                let y = choose|y: int| 0 <= y < front.len() && front[y] == issue;
                assert(issues[y] == issue);
            } else {
                assert(issues[issues.len() - 1] == issue);
            }
        }
        if issues.contains(issue) && last_place(ids, issue.id) == place {
            let y = choose|y: int| 0 <= y < issues.len() && issues[y] == issue;
            if y < front.len() {
                assert(front[y] == issue);
                assert(before.contains(issue));
                let x = choose|x: int| 0 <= x < before.len() && before[x] == issue;
                assert(after[x] == issue);
            } else {
                assert(after[after.len() - 1] == issue);
            }
        }
    }
}

proof fn lemma_issues_up_to_members(
    issues: Seq<IssueModel>,
    ids: Seq<Seq<char>>,
    n: int,
    issue: IssueModel,
)
    requires
        0 <= n,
    ensures
        issues_up_to(issues, ids, n).contains(issue) <==> issues.contains(issue) && (last_place(
            ids,
            issue.id,
        ) matches Some(place) && 0 <= place < n),
    decreases n,
{
    lemma_last_place_in_range(ids, issue.id);
    if n > 0 {
        lemma_issues_up_to_members(issues, ids, n - 1, issue);
        lemma_issues_at_members(issues, ids, Some(n - 1), issue);
        let a = issues_up_to(issues, ids, n - 1);
        let b = issues_at(issues, ids, Some(n - 1));
        lemma_concat_contains(a, b, issue);
    }
}

proof fn lemma_concat_contains(a: Seq<IssueModel>, b: Seq<IssueModel>, issue: IssueModel)
    ensures
        (a + b).contains(issue) <==> a.contains(issue) || b.contains(issue),
{
    if (a + b).contains(issue) {
        let x = choose|x: int| 0 <= x < (a + b).len() && (a + b)[x] == issue;
        if x < a.len() {
            assert(a[x] == issue);
        } else {
            assert(b[x - a.len()] == issue);
        }
    }
    if a.contains(issue) {
        let x = choose|x: int| 0 <= x < a.len() && a[x] == issue;
        assert((a + b)[x] == issue);
    }
    if b.contains(issue) {
        let x = choose|x: int| 0 <= x < b.len() && b[x] == issue;
        assert((a + b)[x + a.len()] == issue);
    }
}

proof fn lemma_last_place_in_range(ids: Seq<Seq<char>>, id: Seq<char>)
    ensures
        last_place(ids, id) matches Some(place) ==> 0 <= place < ids.len() && ids[place] == id,
    decreases ids.len(),
{
    if ids.len() > 0 && ids.last() != id {
        lemma_last_place_in_range(ids.drop_last(), id);
    }
}

/// Ordering the fetched issues neither loses nor invents any.
pub proof fn lemma_order_keeps_issues(
    issues: Seq<IssueModel>,
    ids: Seq<Seq<char>>,
    issue: IssueModel,
)
    ensures
        in_requested_order(issues, ids).contains(issue) <==> issues.contains(issue),
{
    lemma_last_place_in_range(ids, issue.id);
    lemma_issues_up_to_members(issues, ids, ids.len() as int, issue);
    lemma_issues_at_members(issues, ids, None, issue);
    lemma_concat_contains(
        issues_up_to(issues, ids, ids.len() as int),
        issues_at(issues, ids, None),
        issue,
    );
}

// ---------------------------------------------------------------------------
// Laws on what an issue is read from
// ---------------------------------------------------------------------------

/// The members that an issue is read from have different names.
proof fn lemma_members_differ()
    ensures
        "id"@ != "identifier"@,
        "id"@ != "title"@,
        "id"@ != "description"@,
        "id"@ != "priority"@,
        "id"@ != "state"@,
        "id"@ != "branchName"@,
        "id"@ != "url"@,
        "id"@ != "assignee"@,
        "id"@ != "labels"@,
        "id"@ != "inverseRelations"@,
        "id"@ != "createdAt"@,
        "id"@ != "updatedAt"@,
        "identifier"@ != "title"@,
        "identifier"@ != "description"@,
        "identifier"@ != "priority"@,
        "identifier"@ != "state"@,
        "identifier"@ != "branchName"@,
        "identifier"@ != "url"@,
        "identifier"@ != "assignee"@,
        "identifier"@ != "labels"@,
        "identifier"@ != "inverseRelations"@,
        "identifier"@ != "createdAt"@,
        "identifier"@ != "updatedAt"@,
        "title"@ != "description"@,
        "title"@ != "priority"@,
        "title"@ != "state"@,
        "title"@ != "branchName"@,
        "title"@ != "url"@,
        "title"@ != "assignee"@,
        "title"@ != "labels"@,
        "title"@ != "inverseRelations"@,
        "title"@ != "createdAt"@,
        "title"@ != "updatedAt"@,
        "description"@ != "priority"@,
        "description"@ != "state"@,
        "description"@ != "branchName"@,
        "description"@ != "url"@,
        "description"@ != "assignee"@,
        "description"@ != "labels"@,
        "description"@ != "inverseRelations"@,
        "description"@ != "createdAt"@,
        "description"@ != "updatedAt"@,
        "priority"@ != "state"@,
        "priority"@ != "branchName"@,
        "priority"@ != "url"@,
        "priority"@ != "assignee"@,
        "priority"@ != "labels"@,
        "priority"@ != "inverseRelations"@,
        "priority"@ != "createdAt"@,
        "priority"@ != "updatedAt"@,
        "state"@ != "branchName"@,
        "state"@ != "url"@,
        "state"@ != "assignee"@,
        "state"@ != "labels"@,
        "state"@ != "inverseRelations"@,
        "state"@ != "createdAt"@,
        "state"@ != "updatedAt"@,
        "branchName"@ != "url"@,
        "branchName"@ != "assignee"@,
        "branchName"@ != "labels"@,
        "branchName"@ != "inverseRelations"@,
        "branchName"@ != "createdAt"@,
        "branchName"@ != "updatedAt"@,
        "url"@ != "assignee"@,
        "url"@ != "labels"@,
        "url"@ != "inverseRelations"@,
        "url"@ != "createdAt"@,
        "url"@ != "updatedAt"@,
        "assignee"@ != "labels"@,
        "assignee"@ != "inverseRelations"@,
        "assignee"@ != "createdAt"@,
        "assignee"@ != "updatedAt"@,
        "labels"@ != "inverseRelations"@,
        "labels"@ != "createdAt"@,
        "labels"@ != "updatedAt"@,
        "inverseRelations"@ != "createdAt"@,
        "inverseRelations"@ != "updatedAt"@,
        "createdAt"@ != "updatedAt"@,
{
    reveal_strlit("id");
    reveal_strlit("identifier");
    reveal_strlit("title");
    reveal_strlit("description");
    reveal_strlit("priority");
    reveal_strlit("state");
    reveal_strlit("branchName");
    reveal_strlit("url");
    reveal_strlit("assignee");
    reveal_strlit("labels");
    reveal_strlit("inverseRelations");
    reveal_strlit("createdAt");
    reveal_strlit("updatedAt");
    assert("id"@.len() != "identifier"@.len());
    assert("id"@.len() != "title"@.len());
    assert("id"@.len() != "description"@.len());
    assert("id"@.len() != "priority"@.len());
    assert("id"@.len() != "state"@.len());
    assert("id"@.len() != "branchName"@.len());
    assert("id"@.len() != "url"@.len());
    assert("id"@.len() != "assignee"@.len());
    assert("id"@.len() != "labels"@.len());
    assert("id"@.len() != "inverseRelations"@.len());
    assert("id"@.len() != "createdAt"@.len());
    assert("id"@.len() != "updatedAt"@.len());
    assert("identifier"@.len() != "title"@.len());
    assert("identifier"@.len() != "description"@.len());
    assert("identifier"@.len() != "priority"@.len());
    assert("identifier"@.len() != "state"@.len());
    assert("identifier"@[0] != "branchName"@[0]);
    assert("identifier"@.len() != "url"@.len());
    assert("identifier"@.len() != "assignee"@.len());
    assert("identifier"@.len() != "labels"@.len());
    assert("identifier"@.len() != "inverseRelations"@.len());
    assert("identifier"@.len() != "createdAt"@.len());
    assert("identifier"@.len() != "updatedAt"@.len());
    assert("title"@.len() != "description"@.len());
    assert("title"@.len() != "priority"@.len());
    assert("title"@[0] != "state"@[0]);
    assert("title"@.len() != "branchName"@.len());
    assert("title"@.len() != "url"@.len());
    assert("title"@.len() != "assignee"@.len());
    assert("title"@.len() != "labels"@.len());
    assert("title"@.len() != "inverseRelations"@.len());
    assert("title"@.len() != "createdAt"@.len());
    assert("title"@.len() != "updatedAt"@.len());
    assert("description"@.len() != "priority"@.len());
    assert("description"@.len() != "state"@.len());
    assert("description"@.len() != "branchName"@.len());
    assert("description"@.len() != "url"@.len());
    assert("description"@.len() != "assignee"@.len());
    assert("description"@.len() != "labels"@.len());
    assert("description"@.len() != "inverseRelations"@.len());
    assert("description"@.len() != "createdAt"@.len());
    assert("description"@.len() != "updatedAt"@.len());
    assert("priority"@.len() != "state"@.len());
    assert("priority"@.len() != "branchName"@.len());
    assert("priority"@.len() != "url"@.len());
    assert("priority"@[0] != "assignee"@[0]);
    assert("priority"@.len() != "labels"@.len());
    assert("priority"@.len() != "inverseRelations"@.len());
    assert("priority"@.len() != "createdAt"@.len());
    assert("priority"@.len() != "updatedAt"@.len());
    assert("state"@.len() != "branchName"@.len());
    assert("state"@.len() != "url"@.len());
    assert("state"@.len() != "assignee"@.len());
    assert("state"@.len() != "labels"@.len());
    assert("state"@.len() != "inverseRelations"@.len());
    assert("state"@.len() != "createdAt"@.len());
    assert("state"@.len() != "updatedAt"@.len());
    assert("branchName"@.len() != "url"@.len());
    assert("branchName"@.len() != "assignee"@.len());
    assert("branchName"@.len() != "labels"@.len());
    assert("branchName"@.len() != "inverseRelations"@.len());
    assert("branchName"@.len() != "createdAt"@.len());
    assert("branchName"@.len() != "updatedAt"@.len());
    assert("url"@.len() != "assignee"@.len());
    assert("url"@.len() != "labels"@.len());
    assert("url"@.len() != "inverseRelations"@.len());
    assert("url"@.len() != "createdAt"@.len());
    assert("url"@.len() != "updatedAt"@.len());
    assert("assignee"@.len() != "labels"@.len());
    assert("assignee"@.len() != "inverseRelations"@.len());
    assert("assignee"@.len() != "createdAt"@.len());
    assert("assignee"@.len() != "updatedAt"@.len());
    assert("labels"@.len() != "inverseRelations"@.len());
    assert("labels"@.len() != "createdAt"@.len());
    assert("labels"@.len() != "updatedAt"@.len());
    assert("inverseRelations"@.len() != "createdAt"@.len());
    assert("inverseRelations"@.len() != "updatedAt"@.len());
    assert("createdAt"@[0] != "updatedAt"@[0]);
}

/// A node describes an issue exactly if its id, its identifier and its title are
/// texts, and these are then those of the issue.
pub proof fn lemma_issue_needs_its_names(node: Json, filter: Option<Set<Seq<char>>>)
    ensures
        issue_in(node, filter) is Some <==> (json_get(node, "id"@) matches Some(Json::Text(_)))
            && (json_get(node, "identifier"@) matches Some(Json::Text(_))) && (json_get(
            node,
            "title"@,
        ) matches Some(Json::Text(_))),
        issue_in(node, filter) matches Some(issue) ==> json_get(node, "id"@) == Some(
            Json::Text(issue.id),
        ) && json_get(node, "identifier"@) == Some(Json::Text(issue.identifier)) && json_get(
            node,
            "title"@,
        ) == Some(Json::Text(issue.title)),
{
}

/// Each text of an issue comes from the member of its own name: setting that member to
/// a text sets that field to it, and changes nothing else of the issue.
pub proof fn lemma_texts_come_from_their_members(
    node: Json,
    filter: Option<Set<Seq<char>>>,
    issue: IssueModel,
    text: Seq<char>,
)
    requires
        issue_in(node, filter) == Some(issue),
    ensures
        issue_in(json_with(node, "id"@, Json::Text(text)), filter) == Some(
            IssueModel { id: text, ..issue },
        ),
        issue_in(json_with(node, "identifier"@, Json::Text(text)), filter) == Some(
            IssueModel { identifier: text, ..issue },
        ),
        issue_in(json_with(node, "title"@, Json::Text(text)), filter) == Some(
            IssueModel { title: text, ..issue },
        ),
        issue_in(json_with(node, "description"@, Json::Text(text)), filter) == Some(
            IssueModel { description: Some(text), ..issue },
        ),
        issue_in(json_with(node, "branchName"@, Json::Text(text)), filter) == Some(
            IssueModel { branch_name: Some(text), ..issue },
        ),
        issue_in(json_with(node, "url"@, Json::Text(text)), filter) == Some(
            IssueModel { url: Some(text), ..issue },
        ),
        issue_in(json_with(node, "createdAt"@, Json::Text(text)), filter) == Some(
            IssueModel { created_at: parsed_time(text), ..issue },
        ),
        issue_in(json_with(node, "updatedAt"@, Json::Text(text)), filter) == Some(
            IssueModel { updated_at: parsed_time(text), ..issue },
        ),
{
    lemma_members_differ();
}

/// A text that is null, or anything but a text, leaves its field empty.
pub proof fn lemma_nulls_leave_fields_empty(
    node: Json,
    filter: Option<Set<Seq<char>>>,
    issue: IssueModel,
)
    requires
        issue_in(node, filter) == Some(issue),
    ensures
        issue_in(json_with(node, "description"@, Json::Null), filter) == Some(
            IssueModel { description: None, ..issue },
        ),
        issue_in(json_with(node, "branchName"@, Json::Null), filter) == Some(
            IssueModel { branch_name: None, ..issue },
        ),
        issue_in(json_with(node, "url"@, Json::Null), filter) == Some(
            IssueModel { url: None, ..issue },
        ),
        issue_in(json_with(node, "priority"@, Json::Null), filter) == Some(
            IssueModel { priority: None, ..issue },
        ),
        issue_in(json_with(node, "createdAt"@, Json::Null), filter) == Some(
            IssueModel { created_at: None, ..issue },
        ),
        issue_in(json_with(node, "updatedAt"@, Json::Null), filter) == Some(
            IssueModel { updated_at: None, ..issue },
        ),
        issue_in(json_with(node, "state"@, Json::Null), filter) == Some(
            IssueModel { state: Seq::empty(), ..issue },
        ),
        issue_in(json_with(node, "labels"@, Json::Null), filter) == Some(
            IssueModel { labels: Seq::empty(), ..issue },
        ),
        issue_in(json_with(node, "inverseRelations"@, Json::Null), filter) == Some(
            IssueModel { blocked_by: Seq::empty(), ..issue },
        ),
        issue_in(json_with(node, "id"@, Json::Null), filter) is None,
        issue_in(json_with(node, "identifier"@, Json::Null), filter) is None,
        issue_in(json_with(node, "title"@, Json::Null), filter) is None,
{
    lemma_members_differ();
}

/// The priority, the state, the assignee, the labels and what blocks an issue come
/// each from its own member: setting that member changes that field and, for the
/// assignee, whether the issue is ours; nothing else changes.
pub proof fn lemma_parts_come_from_their_members(
    node: Json,
    filter: Option<Set<Seq<char>>>,
    issue: IssueModel,
    number: i64,
    text: Seq<char>,
    items: Seq<Json>,
)
    requires
        issue_in(node, filter) == Some(issue),
    ensures
        issue_in(json_with(node, "priority"@, Json::Integer(number as int)), filter) == Some(
            IssueModel { priority: Some(number), ..issue },
        ),
        issue_in(
            json_with(node, "state"@, Json::Object(map!["name"@ => Json::Text(text)])),
            filter,
        ) == Some(IssueModel { state: text, ..issue }),
        issue_in(
            json_with(node, "assignee"@, Json::Object(map!["id"@ => Json::Text(text)])),
            filter,
        ) == Some(
            IssueModel {
                assignee_id: Some(text),
                assigned_to_worker: filter is None || filter->0.contains(text),
                ..issue
            },
        ),
        issue_in(json_with(node, "assignee"@, Json::Null), filter) == Some(
            IssueModel { assignee_id: None, assigned_to_worker: filter is None, ..issue },
        ),
        issue_in(
            json_with(node, "labels"@, Json::Object(map!["nodes"@ => Json::Array(items)])),
            filter,
        ) == Some(IssueModel { labels: label_names(items), ..issue }),
        issue_in(
            json_with(node, "inverseRelations"@, Json::Object(map!["nodes"@ => Json::Array(items)])),
            filter,
        ) == Some(IssueModel { blocked_by: blockers_in(items), ..issue }),
{
    lemma_members_differ();
}

/// Only whether an issue is ours depends on the filter: all issues are, without one;
/// with one, those whose assignee is in it.
pub proof fn lemma_filter_decides_only_the_worker(
    node: Json,
    people: Set<Seq<char>>,
    issue: IssueModel,
)
    requires
        issue_in(node, None) == Some(issue),
    ensures
        issue.assigned_to_worker,
        issue_in(node, Some(people)) == Some(
            IssueModel {
                assigned_to_worker: issue.assignee_id is Some && people.contains(
                    issue.assignee_id->0,
                ),
                ..issue
            },
        ),
{
}

/// The labels of a list are those of its parts, in order: one for each node with a
/// text as its name, in lower case.
pub proof fn lemma_labels_are_the_names(items: Seq<Json>, item: Json)
    ensures
        label_names(Seq::empty()).len() == 0,
        json_get(item, "name"@) matches Some(Json::Text(name)) ==> label_names(items.push(item))
            == label_names(items).push(ascii_lower(name)),
        !(json_get(item, "name"@) matches Some(Json::Text(_))) ==> label_names(items.push(item))
            == label_names(items),
{
    assert(items.push(item).drop_last() =~= items);
}

/// What blocks an issue: one for each relation of the kind `blocks`, apart from case
/// and outer spaces, with the id, the identifier and the state of the other issue,
/// each from its own member.
pub proof fn lemma_blockers_are_the_blocking_relations(
    relations: Seq<Json>,
    relation: Json,
    kind: Seq<char>,
    other: Json,
)
    requires
        json_get(relation, "type"@) == Some(Json::Text(kind)),
        json_get(relation, "issue"@) == Some(other),
    ensures
        blockers_in(Seq::empty()).len() == 0,
        ascii_lower(trim(kind)) != "blocks"@ ==> blockers_in(relations.push(relation))
            == blockers_in(relations),
        ascii_lower(trim(kind)) == "blocks"@ ==> {
            let all = blockers_in(relations.push(relation));
            &&& all.len() == blockers_in(relations).len() + 1
            &&& all.drop_last() == blockers_in(relations)
            &&& all.last().id == json_str(json_get(other, "id"@))
            &&& all.last().identifier == json_str(json_get(other, "identifier"@))
            &&& all.last().state == json_str(opt_json_get(json_get(other, "state"@), "name"@))
        },
{
    assert(relations.push(relation).drop_last() =~= relations);
    assert(blockers_in(relations.push(relation)).len() > blockers_in(relations).len()
        ==> blockers_in(relations.push(relation)).drop_last() =~= blockers_in(relations));
}

/// A relation without a kind or without another issue blocks nothing.
pub proof fn lemma_other_relations_do_not_block(relations: Seq<Json>, relation: Json)
    requires
        !(json_get(relation, "type"@) matches Some(Json::Text(_))) || json_get(relation, "issue"@)
            is None,
    ensures
        blockers_in(relations.push(relation)) == blockers_in(relations),
{
    assert(relations.push(relation).drop_last() =~= relations);
}

/// The issues of a list of nodes are those that describe one, in order.
pub proof fn lemma_issues_come_in_order(
    nodes: Seq<Json>,
    node: Json,
    filter: Option<Set<Seq<char>>>,
)
    ensures
        issues_in(Seq::empty(), filter).len() == 0,
        issue_in(node, filter) matches Some(issue) ==> issues_in(nodes.push(node), filter)
            == issues_in(nodes, filter).push(issue),
        issue_in(node, filter) is None ==> issues_in(nodes.push(node), filter) == issues_in(
            nodes,
            filter,
        ),
{
    assert(nodes.push(node).drop_last() =~= nodes);
}

/// An answer with errors is an error, whatever else it holds; without, its issues are
/// those of the nodes in its data.
pub proof fn lemma_errors_come_first(response: Json, filter: Option<Set<Seq<char>>>)
    ensures
        json_get(response, "errors"@) matches Some(errors) ==> decoded_issues(response, filter)
            == Err::<Seq<IssueModel>, Seq<char>>(
            "linear_graphql_errors: "@ + json_compact(errors),
        ),
        json_get(response, "errors"@) is None ==> match opt_json_get(
            opt_json_get(json_get(response, "data"@), "issues"@),
            "nodes"@,
        ) {
            Some(Json::Array(nodes)) => decoded_issues(response, filter) == Ok::<
                Seq<IssueModel>,
                Seq<char>,
            >(issues_in(nodes, filter)),
            _ => decoded_issues(response, filter) == Err::<Seq<IssueModel>, Seq<char>>(
                "linear_unknown_payload"@,
            ),
        },
{
}

// ---------------------------------------------------------------------------
// Laws on what the tracker is asked and answers
// ---------------------------------------------------------------------------

/// More pages follow exactly if the answer says so, from the cursor that it names.
pub proof fn lemma_pages_follow_their_cursor(response: Json)
    ensures
        ({
            let info = opt_json_get(
                opt_json_get(json_get(response, "data"@), "issues"@),
                "pageInfo"@,
            );
            &&& more_follows(response) <==> opt_json_get(info, "hasNextPage"@) == Some(
                Json::Bool(true),
            )
            &&& opt_json_get(info, "endCursor"@) matches Some(Json::Text(cursor)) ==> next_cursor(
                response,
            ) == Some(cursor)
            &&& !(opt_json_get(info, "endCursor"@) matches Some(Json::Text(_))) ==> next_cursor(
                response,
            ) is None
        }),
{
}

/// A page is asked for with the project, the states and the cursor each under its own
/// name, fifty issues and fifty relations at once.
pub proof fn lemma_page_is_asked_for(
    project_slug: Seq<char>,
    states: Seq<Seq<char>>,
    cursor: Option<Seq<char>>,
)
    ensures
        ({
            let variables = page_variables(project_slug, states, cursor);
            &&& json_get(variables, "projectSlug"@) == Some(Json::Text(project_slug))
            &&& json_get(variables, "stateNames"@) matches Some(Json::Array(names))
            &&& names.len() == states.len()
            &&& forall|i: int|
                0 <= i < states.len() ==> #[trigger] names[i] == Json::Text(states[i])
            &&& json_get(variables, "first"@) == Some(Json::Integer(50))
            &&& json_get(variables, "relationFirst"@) == Some(Json::Integer(50))
            &&& cursor is None ==> json_get(variables, "after"@) == Some(Json::Null)
            &&& cursor is Some ==> json_get(variables, "after"@) == Some(Json::Text(cursor->0))
        }),
{
    reveal_strlit("projectSlug");
    reveal_strlit("stateNames");
    reveal_strlit("first");
    reveal_strlit("relationFirst");
    reveal_strlit("after");
    assert("projectSlug"@.len() != "stateNames"@.len());
    assert("projectSlug"@.len() != "first"@.len());
    assert("projectSlug"@.len() != "relationFirst"@.len());
    assert("projectSlug"@.len() != "after"@.len());
    assert("stateNames"@.len() != "first"@.len());
    assert("stateNames"@.len() != "relationFirst"@.len());
    assert("stateNames"@.len() != "after"@.len());
    assert("first"@.len() != "relationFirst"@.len());
    assert("first"@[0] != "after"@[0]);
    assert("relationFirst"@.len() != "after"@.len());
}

/// Issues are asked for by all their ids, in order, and by no others.
pub proof fn lemma_ids_are_asked_for(ids: Seq<Seq<char>>)
    ensures
        ({
            let variables = ids_variables(ids);
            &&& json_get(variables, "ids"@) matches Some(Json::Array(names))
            &&& names.len() == ids.len()
            &&& forall|i: int| 0 <= i < ids.len() ==> #[trigger] names[i] == Json::Text(ids[i])
            &&& json_get(variables, "first"@) == Some(Json::Integer(ids.len() as int))
            &&& json_get(variables, "relationFirst"@) == Some(Json::Integer(50))
        }),
{
    reveal_strlit("ids");
    reveal_strlit("first");
    reveal_strlit("relationFirst");
    assert("ids"@.len() != "first"@.len());
    assert("ids"@.len() != "relationFirst"@.len());
    assert("first"@.len() != "relationFirst"@.len());
}

/// A batch of ids is the next fifty of them, or all that are left; what follows it is
/// the rest.
pub proof fn lemma_batches_cover_the_ids(ids: Seq<Seq<char>>, position: int)
    requires
        0 <= position <= ids.len(),
    ensures
        ({
            let batch = batch_ids(ids, position);
            &&& batch.len() <= 50
            &&& batch.len() == 50 || position + batch.len() == ids.len()
            &&& forall|i: int| 0 <= i < batch.len() ==> #[trigger] batch[i] == ids[position + i]
            &&& batch + ids.skip(position + batch.len()) == ids.skip(position)
        }),
{
    let batch = batch_ids(ids, position);
    assert(batch + ids.skip(position + batch.len()) =~= ids.skip(position));
}

/// Blank texts are left out of a list, and the others stay as they are, in order.
pub proof fn lemma_blank_texts_are_left_out(values: Seq<Seq<char>>, value: Seq<char>)
    ensures
        not_blank(Seq::empty()).len() == 0,
        trim(value).len() == 0 ==> not_blank(values.push(value)) == not_blank(values),
        trim(value).len() > 0 ==> not_blank(values.push(value)) == not_blank(values).push(value),
{
    assert(values.push(value).drop_last() =~= values);
}

/// A request holds the query and its variables.
pub proof fn lemma_request_holds_its_query(query: Seq<char>, variables: Json)
    ensures
        json_get(graphql_body(query, variables), "query"@) == Some(Json::Text(query)),
        json_get(graphql_body(query, variables), "variables"@) == Some(variables),
{
    reveal_strlit("query");
    reveal_strlit("variables");
    assert("query"@.len() != "variables"@.len());
}

/// A mutation is done exactly if the answer says so of that mutation.
pub proof fn lemma_mutation_is_confirmed(response: Json, name: Seq<char>)
    ensures
        mutation_done(response, name) <==> opt_json_get(
            opt_json_get(json_get(response, "data"@), name),
            "success"@,
        ) == Some(Json::Bool(true)),
{
}

/// A state is found as the first of the states of the team of the issue, and the
/// viewer as the one that the answer names.
pub proof fn lemma_ids_in_answers(response: Json, id: Seq<char>)
    ensures
        viewer_in(response) == Some(id) <==> opt_json_get(
            opt_json_get(json_get(response, "data"@), "viewer"@),
            "id"@,
        ) == Some(Json::Text(id)),
        state_id_in(response) == Some(id) <==> (opt_json_get(
            opt_json_get(
                opt_json_get(opt_json_get(json_get(response, "data"@), "issue"@), "team"@),
                "states"@,
            ),
            "nodes"@,
        ) matches Some(Json::Array(nodes)) && nodes.len() > 0 && json_get(nodes[0], "id"@) == Some(
            Json::Text(id),
        )),
{
}

/// Issues that were asked for by id come in the order of the ids, and those that were
/// not asked for come last.
pub proof fn lemma_issues_come_as_requested(
    issues: Seq<IssueModel>,
    ids: Seq<Seq<char>>,
    i: int,
    j: int,
)
    requires
        0 <= i < j < in_requested_order(issues, ids).len(),
    ensures
        ({
            let out = in_requested_order(issues, ids);
            match (last_place(ids, out[i].id), last_place(ids, out[j].id)) {
                (Some(a), Some(b)) => 0 <= a <= b < ids.len() && ids[a] == out[i].id && ids[b]
                    == out[j].id,
                (Some(_), None) => !ids.contains(out[j].id),
                (None, None) => !ids.contains(out[i].id) && !ids.contains(out[j].id),
                (None, Some(_)) => false,
            }
        }),
{
    let out = in_requested_order(issues, ids);
    let front = issues_up_to(issues, ids, ids.len() as int);
    let rest = issues_at(issues, ids, None);
    lemma_places_ascend(issues, ids, ids.len() as int);
    lemma_place_is_found(ids, out[i].id);
    lemma_place_is_found(ids, out[j].id);
    if j >= front.len() {
        assert(out[j] == rest[j - front.len()]);
        assert(rest.contains(out[j]));
        lemma_issues_at_members(issues, ids, None, out[j]);
    } else {
        assert(out[j] == front[j]);
    }
    if i >= front.len() {
        assert(out[i] == rest[i - front.len()]);
        assert(rest.contains(out[i]));
        lemma_issues_at_members(issues, ids, None, out[i]);
    } else {
        assert(out[i] == front[i]);
    }
}

/// The place of an id is the last one at which it stands, and there is one exactly if it
/// stands somewhere.
pub proof fn lemma_place_is_found(ids: Seq<Seq<char>>, id: Seq<char>)
    ensures
        last_place(ids, id) is Some <==> ids.contains(id),
        last_place(ids, id) matches Some(place) ==> 0 <= place < ids.len() && ids[place] == id
            && forall|k: int| place < k < ids.len() ==> #[trigger] ids[k] != id,
    decreases ids.len(),
{
    if ids.len() > 0 {
        let front = ids.drop_last();
        lemma_place_is_found(front, id);
        let last = ids.len() - 1;
        if ids.last() == id {
            assert(ids[last] == id);
        } else {
            if ids.contains(id) {
                let k = choose|k: int| 0 <= k < ids.len() && ids[k] == id;
                assert(front[k] == id);
            }
            if let Some(place) = last_place(front, id) {
                assert(ids[place] == id);
                assert forall|k: int| place < k < ids.len() implies #[trigger] ids[k] != id by {
                    if k < last {
                        assert(front[k] == ids[k]);
                    }
                }
            }
        }
    }
}

proof fn lemma_places_ascend(issues: Seq<IssueModel>, ids: Seq<Seq<char>>, n: int)
    requires
        0 <= n,
    ensures
        ({
            let out = issues_up_to(issues, ids, n);
            &&& forall|i: int|
                0 <= i < out.len() ==> (last_place(ids, (#[trigger] out[i]).id) matches Some(place)
                    && 0 <= place < n)
            &&& forall|i: int, j: int|
                0 <= i < j < out.len() ==> last_place(ids, (#[trigger] out[i]).id)->0
                    <= last_place(ids, (#[trigger] out[j]).id)->0
        }),
    decreases n,
{
    if n > 0 {
        lemma_places_ascend(issues, ids, n - 1);
        let before = issues_up_to(issues, ids, n - 1);
        let own = issues_at(issues, ids, Some(n - 1));
        let out = issues_up_to(issues, ids, n);
        assert forall|i: int| 0 <= i < out.len() implies (last_place(
            ids,
            (#[trigger] out[i]).id,
        ) matches Some(place) && 0 <= place < n && (i >= before.len() ==> place == n - 1) && (i
            < before.len() ==> out[i] == before[i])) by {
            if i >= before.len() {
                assert(out[i] == own[i - before.len()]);
                assert(own.contains(out[i]));
                lemma_issues_at_members(issues, ids, Some(n - 1), out[i]);
            } else {
                assert(out[i] == before[i]);
            }
        }
    }
}

/// Answers from 200 up to but not with 300 are successes, and no others.
pub proof fn lemma_status_of_success(status: u16)
    ensures
        is_success(200),
        is_success(299),
        status < 200 || status >= 300 ==> !is_success(status),
        200 <= status <= 299 ==> is_success(status),
{
}

/// Without an assignee, or with a blank one, all issues are ours; with the word for the
/// owner of the key, the tracker is asked who that is; with any other name, only what
/// is assigned to it is ours.
pub proof fn lemma_assignee_decides_the_filter(name: Seq<char>, node: Json, issue: IssueModel)
    requires
        issue_in(node, None) == Some(issue),
    ensures
        filter_model(None) == FilterModel::Ready(None),
        filter_model(Some("me"@)) is AskViewer,
        name != "me"@ && trim(name).len() == 0 ==> filter_model(Some(name)) == FilterModel::Ready(
            None,
        ),
        name != "me"@ && trim(name).len() > 0 ==> (filter_model(Some(name)) matches
            FilterModel::Ready(Some(people)) && (issue_in(node, Some(people)) matches Some(found)
            && (found.assigned_to_worker <==> issue.assignee_id == Some(trim(name))))),
{
}

/// A query is sent to the address of the tracker under the key for it, and only where
/// there is a key.
pub proof fn lemma_requests_need_a_key(tracker: TrackerModel, query: Seq<char>, variables: Json)
    ensures
        request_model(tracker, query, variables) is Ok <==> tracker.api_key is Some,
        request_model(tracker, query, variables) matches Ok((endpoint, key, body)) ==> {
            &&& endpoint == tracker.endpoint
            &&& tracker.api_key == Some(key)
            &&& json_get(body, "query"@) == Some(Json::Text(query))
            &&& json_get(body, "variables"@) == Some(variables)
        },
        request_model(tracker, query, variables) matches Err(message) ==> message
            == "missing_linear_api_token"@,
{
    lemma_request_holds_its_query(query, variables);
}

/// An answer that is no success is told of with its status and what it said.
pub proof fn lemma_status_is_told(status: u16, body: Json)
    ensures
        ({
            let front = "linear_api_status: "@ + crate::text::decimal(status as nat);
            let told = status_fault(status, body);
            &&& front.is_prefix_of(told)
            &&& told.skip(front.len() as int) == " body="@ + json_compact(body)
        }),
{
    let front = "linear_api_status: "@ + crate::text::decimal(status as nat);
    let told = status_fault(status, body);
    assert(told.take(front.len() as int) =~= front);
    assert(told.skip(front.len() as int) =~= " body="@ + json_compact(body));
}

/// What is written to the tracker names the issue and what is to be written to it, each
/// under its own member.
pub proof fn lemma_writes_name_their_issue(issue_id: Seq<char>, text: Seq<char>)
    ensures
        json_get(comment_model(issue_id, text), "issueId"@) == Some(Json::Text(issue_id)),
        json_get(comment_model(issue_id, text), "body"@) == Some(Json::Text(text)),
        json_get(state_lookup_model(issue_id, text), "issueId"@) == Some(Json::Text(issue_id)),
        json_get(state_lookup_model(issue_id, text), "stateName"@) == Some(Json::Text(text)),
        json_get(state_update_model(issue_id, text), "issueId"@) == Some(Json::Text(issue_id)),
        json_get(state_update_model(issue_id, text), "stateId"@) == Some(Json::Text(text)),
{
    reveal_strlit("issueId");
    reveal_strlit("body");
    assert("issueId"@.len() != "body"@.len());
    reveal_strlit("stateName");
    reveal_strlit("stateId");
    assert("issueId"@.len() != "stateName"@.len());
    assert("issueId"@[0] != "stateId"@[0]);
}

/// A comment, and a change of state, is done if the answer says so of that very write.
pub proof fn lemma_writes_are_confirmed(response: Json)
    ensures
        comment_made(response) <==> opt_json_get(
            opt_json_get(json_get(response, "data"@), "commentCreate"@),
            "success"@,
        ) == Some(Json::Bool(true)),
        state_updated(response) <==> opt_json_get(
            opt_json_get(json_get(response, "data"@), "issueUpdate"@),
            "success"@,
        ) == Some(Json::Bool(true)),
{
}

/// An answer adds its issues behind those that were read before, and loses none of
/// them.
pub proof fn lemma_pages_add_up(
    before: Seq<IssueModel>,
    body: Json,
    filter: Option<Set<Seq<char>>>,
)
    ensures
        with_page(before, body, filter) is Ok <==> decoded_issues(body, filter) is Ok,
        with_page(before, body, filter) matches Ok(after) ==> {
            &&& before.is_prefix_of(after)
            &&& decoded_issues(body, filter) == Ok::<Seq<IssueModel>, Seq<char>>(
                after.skip(before.len() as int),
            )
        },
        with_page(before, body, filter) matches Err(message) ==> decoded_issues(body, filter)
            == Err::<Seq<IssueModel>, Seq<char>>(message),
{
    if let Ok(page) = decoded_issues(body, filter) {
        assert((before + page).skip(before.len() as int) =~= page);
        assert((before + page).take(before.len() as int) =~= before);
    }
}

} // verus!
