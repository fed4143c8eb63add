//! JSON values: a library type with a mathematical model, and the calls into
//! `serde_json` that read and write their text.

use crate::ordered::{entries_map, OrderedMap};
use crate::text::same_text;
use serde_json::Value as SerdeValue;
use vstd::prelude::*;

verus! {

// ---------------------------------------------------------------------------
// Values
// ---------------------------------------------------------------------------

/// What a JSON value is. A number with a fraction or an exponent is known by
/// its text.
pub enum Json {
    Null,
    Bool(bool),
    Integer(int),
    Decimal(Seq<char>),
    Text(Seq<char>),
    Array(Seq<Json>),
    Object(Map<Seq<char>, Json>),
}

/// A number of `serde_json`, carried through unchanged.
#[verifier::external_type_specification]
#[verifier::external_body]
pub struct ExNumber(serde_json::Number);

/// A value of `serde_json`, known by its contents (`json_contents`).
#[verifier::external_type_specification]
#[verifier::external_body]
pub struct ExValue(serde_json::Value);

/// A number that is no 64-bit integer, with its text.
#[derive(Debug, PartialEq, Eq)]
pub struct Decimal {
    number: serde_json::Number,
    text: String,
}

impl View for Decimal {
    type V = Seq<char>;

    closed spec fn view(&self) -> Seq<char> {
        self.text@
    }
}

/// A JSON number.
#[derive(Debug, PartialEq, Eq)]
pub enum JsonNumber {
    Unsigned(u64),
    Signed(i64),
    Decimal(Decimal),
}

impl View for JsonNumber {
    type V = Json;

    open spec fn view(&self) -> Json {
        match *self {
            JsonNumber::Unsigned(n) => Json::Integer(n as int),
            JsonNumber::Signed(n) => Json::Integer(n as int),
            JsonNumber::Decimal(d) => Json::Decimal(d@),
        }
    }
}

/// A JSON value.
#[derive(Debug, PartialEq, Eq)]
pub enum JsonValue {
    Null,
    Bool(bool),
    Number(JsonNumber),
    Text(String),
    Array(Vec<JsonValue>),
    Object(OrderedMap<JsonValue>),
}

/// The model of a value.
pub closed spec fn json_of(value: JsonValue) -> Json
    decreases value, 0nat,
{
    match value {
        JsonValue::Null => Json::Null,
        JsonValue::Bool(b) => Json::Bool(b),
        JsonValue::Number(n) => n@,
        JsonValue::Text(s) => Json::Text(s@),
        JsonValue::Array(items) => Json::Array(array_prefix(items, items@.len())),
        JsonValue::Object(map) => Json::Object(object_prefix(map, map.entries@.len())),
    }
}

closed spec fn array_prefix(items: Vec<JsonValue>, n: nat) -> Seq<Json>
    decreases items, n,
{
    if n == 0 || n > items@.len() {
        Seq::empty()
    } else {
        array_prefix(items, (n - 1) as nat).push(json_of(items@[n - 1]))
    }
}

closed spec fn object_prefix(map: OrderedMap<JsonValue>, n: nat) -> Map<Seq<char>, Json>
    decreases map, n,
{
    if n == 0 || n > map.entries@.len() {
        Map::empty()
    } else {
        object_prefix(map, (n - 1) as nat).insert(
            map.entries@[n - 1].0@,
            json_of(map.entries@[n - 1].1),
        )
    }
}

impl View for JsonValue {
    type V = Json;

    open spec fn view(&self) -> Json {
        json_of(*self)
    }
}

/// The models of a list of values.
pub open spec fn array_of(items: Seq<JsonValue>) -> Seq<Json> {
    items.map_values(|item: JsonValue| item@)
}

/// The models of the values of a map.
pub open spec fn object_of(map: OrderedMap<JsonValue>) -> Map<Seq<char>, Json> {
    map@.map_values(|item: JsonValue| item@)
}

proof fn lemma_array_prefix(items: Vec<JsonValue>, n: nat)
    requires
        n <= items@.len(),
    ensures
        array_prefix(items, n) == array_of(items@.take(n as int)),
    decreases n,
{
    if n > 0 {
        lemma_array_prefix(items, (n - 1) as nat);
        assert(array_of(items@.take(n as int)) =~= array_of(items@.take(n - 1)).push(
            json_of(items@[n - 1]),
        ));
    } else {
        assert(array_of(items@.take(0)) =~= Seq::empty());
    }
}

proof fn lemma_object_prefix(map: OrderedMap<JsonValue>, n: nat)
    requires
        n <= map.entries@.len(),
    ensures
        object_prefix(map, n) == entries_map(map.entries@.take(n as int)).map_values(
            |item: JsonValue| item@,
        ),
    decreases n,
{
    let front = map.entries@.take(n as int);
    if n > 0 {
        lemma_object_prefix(map, (n - 1) as nat);
        assert(front.drop_last() =~= map.entries@.take(n - 1));
        assert(entries_map(front).map_values(|item: JsonValue| item@) =~= object_prefix(map, n));
    } else {
        assert(entries_map(front).map_values(|item: JsonValue| item@) =~= Map::empty());
    }
}

/// The model of a value by its shape.
pub proof fn lemma_json_of(value: JsonValue)
    ensures
        value@ == match value {
            JsonValue::Null => Json::Null,
            JsonValue::Bool(b) => Json::Bool(b),
            JsonValue::Number(n) => n@,
            JsonValue::Text(s) => Json::Text(s@),
            JsonValue::Array(items) => Json::Array(array_of(items@)),
            JsonValue::Object(map) => Json::Object(object_of(map)),
        },
{
    match value {
        JsonValue::Array(items) => {
            lemma_array_prefix(items, items@.len());
            assert(items@.take(items@.len() as int) =~= items@);
        },
        JsonValue::Object(map) => {
            lemma_object_prefix(map, map.entries@.len());
            assert(map.entries@.take(map.entries@.len() as int) =~= map.entries@);
            map.lemma_view_is_entries();
        },
        _ => {},
    }
}

// ---------------------------------------------------------------------------
// serde_json
// ---------------------------------------------------------------------------

/// What a value of `serde_json` holds.
pub uninterp spec fn json_contents(value: serde_json::Value) -> Json;

/// What `serde_json` reads from a text, if the text is a JSON document.
pub uninterp spec fn json_parsed(text: Seq<char>) -> Option<Json>;

/// The compact text that `serde_json` writes for a value.
pub uninterp spec fn json_compact(value: Json) -> Seq<char>;

/// The indented text that `serde_json` writes for a value, unless it reports an error.
pub uninterp spec fn json_pretty(value: Json) -> Option<Seq<char>>;

/// The bytes that `serde_json` writes for a value, or the text of its error.
pub uninterp spec fn json_bytes(value: Json) -> Result<Seq<u8>, Seq<char>>;

/// The value of `serde_json` with the contents of `value`: each variant goes to
/// the variant of the same meaning, and numbers keep their value.
#[verifier::external_body]
fn to_serde(value: &JsonValue) -> (r: serde_json::Value)
    ensures
        json_contents(r) == value@,
{
    match value {
        JsonValue::Null => SerdeValue::Null,
        JsonValue::Bool(b) => SerdeValue::Bool(*b),
        JsonValue::Number(JsonNumber::Unsigned(n)) => SerdeValue::from(*n),
        JsonValue::Number(JsonNumber::Signed(n)) => SerdeValue::from(*n),
        JsonValue::Number(JsonNumber::Decimal(d)) => SerdeValue::Number(d.number.clone()),
        JsonValue::Text(s) => SerdeValue::String(s.clone()),
        JsonValue::Array(items) => SerdeValue::Array(items.iter().map(to_serde).collect()),
        JsonValue::Object(map) => SerdeValue::Object(
            map.entries.iter().map(|e| (e.0.clone(), to_serde(&e.1))).collect(),
        ),
    }
}

/// The map with one entry more.
fn with_entry(map: OrderedMap<JsonValue>, entry: (String, JsonValue)) -> (r: OrderedMap<JsonValue>)
    ensures
        r@ == map@.insert(entry.0@, entry.1),
{
    let mut out = map;
    let _ = out.insert(entry.0, entry.1);
    out
}

/// The contents of a value of `serde_json`: each variant goes to the variant of
/// the same meaning. A number is an unsigned or a signed 64-bit integer where
/// `as_u64` or `as_i64` says so, and a decimal otherwise.
#[verifier::external_body]
fn from_serde(value: serde_json::Value) -> (r: JsonValue)
    ensures
        r@ == json_contents(value),
{
    match value {
        SerdeValue::Null => JsonValue::Null,
        SerdeValue::Bool(b) => JsonValue::Bool(b),
        SerdeValue::Number(n) => JsonValue::Number(match (n.as_u64(), n.as_i64()) {
            (Some(u), _) => JsonNumber::Unsigned(u),
            (None, Some(i)) => JsonNumber::Signed(i),
            _ => JsonNumber::Decimal(Decimal { text: n.to_string(), number: n }),
        }),
        SerdeValue::String(s) => JsonValue::Text(s),
        SerdeValue::Array(a) => JsonValue::Array(a.into_iter().map(from_serde).collect()),
        SerdeValue::Object(m) => JsonValue::Object(
            m.into_iter().map(|(k, v)| (k, from_serde(v))).fold(OrderedMap::new(), with_entry),
        ),
    }
}

/// `serde_json::from_str` into a `Value`: what it reads depends on the text alone.
#[verifier::external_body]
fn serde_parse(text: &str) -> (r: Option<serde_json::Value>)
    ensures
        match r {
            Some(value) => json_parsed(text@) == Some(json_contents(value)),
            None => json_parsed(text@) is None,
        },
{
    serde_json::from_str::<serde_json::Value>(text).ok()
}

/// `Value::to_string`: the compact text of a value depends on its contents alone.
#[verifier::external_body]
fn serde_text(value: &serde_json::Value) -> (r: String)
    ensures
        r@ == json_compact(json_contents(*value)),
{
    value.to_string()
}

/// `serde_json::to_string_pretty`: the indented text of a value depends on its
/// contents alone.
#[verifier::external_body]
fn serde_pretty(value: &serde_json::Value) -> (r: Option<String>)
    ensures
        crate::text::opt_text(r) == json_pretty(json_contents(*value)),
{
    serde_json::to_string_pretty(value).ok()
}

/// `serde_json::to_vec`: the bytes of a value, or the text of the error, depend
/// on its contents alone. Control characters are written as escapes and nothing
/// is written between the tokens, so no line feed is among the bytes.
#[verifier::external_body]
fn serde_bytes(value: &serde_json::Value) -> (r: Result<Vec<u8>, String>)
    ensures
        match r {
            Ok(bytes) => json_bytes(json_contents(*value)) == Ok::<Seq<u8>, Seq<char>>(bytes@)
                && !bytes@.contains(10u8),
            Err(message) => json_bytes(json_contents(*value)) == Err::<Seq<u8>, Seq<char>>(message@),
        },
{
    serde_json::to_vec(value).map_err(|error| error.to_string())
}

/// `Number::clone`: the copy is the same number.
#[verifier::external_body]
fn serde_number_clone(number: &serde_json::Number) -> (r: serde_json::Number)
    ensures
        r == *number,
{
    number.clone()
}

/// A copy of a number that is no integer.
fn copy_decimal(value: &Decimal) -> (r: Decimal)
    ensures
        r@ == value@,
{
    Decimal { number: serde_number_clone(&value.number), text: value.text.clone() }
}

impl JsonValue {
    /// The value with the contents of a value of `serde_json`.
    pub fn from_serde_value(value: serde_json::Value) -> (r: JsonValue)
        ensures
            r@ == json_contents(value),
    {
        from_serde(value)
    }

    /// The value of `serde_json` with the same contents.
    pub fn to_serde_value(&self) -> (r: serde_json::Value)
        ensures
            json_contents(r) == self@,
    {
        to_serde(self)
    }
}

/// Reads a JSON document.
pub fn parse_json(text: &str) -> (r: Option<JsonValue>)
    ensures
        match r {
            Some(value) => json_parsed(text@) == Some(value@),
            None => json_parsed(text@) is None,
        },
{
    match serde_parse(text) {
        Some(value) => Some(from_serde(value)),
        None => None,
    }
}

/// The compact text of a value.
pub fn json_text(value: &JsonValue) -> (r: String)
    ensures
        r@ == json_compact(value@),
{
    serde_text(&to_serde(value))
}

/// The indented text of a value, or its compact text where there is none.
pub open spec fn pretty_or_compact(pretty: Option<Seq<char>>, compact: Seq<char>) -> Seq<char> {
    match pretty {
        Some(text) => text,
        None => compact,
    }
}

/// The indented text of a value, or its compact text where there is none.
pub fn json_pretty_text(value: &JsonValue) -> (r: String)
    ensures
        r@ == pretty_or_compact(json_pretty(value@), json_compact(value@)),
{
    let outside = to_serde(value);
    match serde_pretty(&outside) {
        Some(text) => text,
        None => serde_text(&outside),
    }
}

/// The bytes of a value.
pub fn json_encode(value: &JsonValue) -> (r: Result<Vec<u8>, String>)
    ensures
        match r {
            Ok(bytes) => json_bytes(value@) == Ok::<Seq<u8>, Seq<char>>(bytes@) && !bytes@.contains(
                10u8,
            ),
            Err(message) => json_bytes(value@) == Err::<Seq<u8>, Seq<char>>(message@),
        },
{
    serde_bytes(&to_serde(value))
}

// ---------------------------------------------------------------------------
// Reading values
// ---------------------------------------------------------------------------

/// The member of an object.
pub open spec fn json_get(value: Json, key: Seq<char>) -> Option<Json> {
    match value {
        Json::Object(map) => if map.contains_key(key) {
            Some(map[key])
        } else {
            None
        },
        _ => None,
    }
}

/// The member of an optional object.
pub open spec fn opt_json_get(value: Option<Json>, key: Seq<char>) -> Option<Json> {
    match value {
        Some(object) => json_get(object, key),
        None => None,
    }
}

/// The text of a value that is a text.
pub open spec fn json_str(value: Option<Json>) -> Option<Seq<char>> {
    match value {
        Some(Json::Text(text)) => Some(text),
        _ => None,
    }
}

/// The number of a value that is an unsigned 64-bit integer.
pub open spec fn json_u64(value: Option<Json>) -> Option<u64> {
    match value {
        Some(Json::Integer(n)) => if 0 <= n <= u64::MAX {
            Some(n as u64)
        } else {
            None
        },
        _ => None,
    }
}

/// The number of a value that is a signed 64-bit integer.
pub open spec fn json_i64(value: Option<Json>) -> Option<i64> {
    match value {
        Some(Json::Integer(n)) => if i64::MIN <= n <= i64::MAX {
            Some(n as i64)
        } else {
            None
        },
        _ => None,
    }
}

/// The truth value of a value that is one.
pub open spec fn json_bool(value: Option<Json>) -> Option<bool> {
    match value {
        Some(Json::Bool(b)) => Some(b),
        _ => None,
    }
}

/// The items of a value that is an array.
pub open spec fn json_array(value: Option<Json>) -> Option<Seq<Json>> {
    match value {
        Some(Json::Array(items)) => Some(items),
        _ => None,
    }
}

/// The model of an optional value.
pub open spec fn opt_json(value: Option<&JsonValue>) -> Option<Json> {
    match value {
        Some(v) => Some(v@),
        None => None,
    }
}

/// The model of an optional value that is held.
pub open spec fn opt_json_value(value: Option<JsonValue>) -> Option<Json> {
    match value {
        Some(v) => Some(v@),
        None => None,
    }
}

impl Clone for JsonValue {
    fn clone(&self) -> (r: JsonValue)
        ensures
            r@ == self@,
        decreases self,
    {
        proof {
            lemma_json_of(*self);
        }
        let out = match self {
            JsonValue::Null => JsonValue::Null,
            JsonValue::Bool(b) => JsonValue::Bool(*b),
            JsonValue::Number(n) => JsonValue::Number(
                match n {
                    JsonNumber::Unsigned(u) => JsonNumber::Unsigned(*u),
                    JsonNumber::Signed(i) => JsonNumber::Signed(*i),
                    JsonNumber::Decimal(d) => JsonNumber::Decimal(copy_decimal(d)),
                },
            ),
            JsonValue::Text(s) => JsonValue::Text(s.clone()),
            JsonValue::Array(items) => {
                let mut copies: Vec<JsonValue> = Vec::new();
                let mut i: usize = 0;
                while i < items.len()
                    invariant
                        i <= items@.len(),
                        decreases_to!(self => items),
                        array_of(copies@) == array_of(items@.take(i as int)),
                    decreases items@.len() - i,
                {
                    copies.push(items[i].clone());
                    proof {
                        assert(array_of(copies@) =~= array_of(items@.take(i as int)).push(
                            items@[i as int]@,
                        ));
                        assert(array_of(items@.take(i + 1)) =~= array_of(copies@));
                    }
                    i = i + 1;
                }
                assert(items@.take(i as int) =~= items@);
                JsonValue::Array(copies)
            },
            JsonValue::Object(map) => JsonValue::Object(clone_object(map)),
        };
        proof {
            lemma_json_of(out);
        }
        out
    }
}

/// A copy of the members of an object.
pub fn clone_object(map: &OrderedMap<JsonValue>) -> (r: OrderedMap<JsonValue>)
    ensures
        object_of(r) == object_of(*map),
    decreases map,
{
    let mut copies: OrderedMap<JsonValue> = OrderedMap::new();
    let mut i: usize = 0;
    proof {
        map.lemma_view_is_entries();
        assert(object_of(copies) =~= entries_map(map.entries@.take(0)).map_values(
            |item: JsonValue| item@,
        ));
    }
    while i < map.entries.len()
        invariant
            i <= map.entries@.len(),
            object_of(copies) == entries_map(map.entries@.take(i as int)).map_values(
                |item: JsonValue| item@,
            ),
        decreases map.entries@.len() - i,
    {
        let ghost before = copies;
        let entry = &map.entries[i];
        let copy = entry.1.clone();
        let _ = copies.insert(entry.0.clone(), copy);
        proof {
            let front = map.entries@.take(i + 1);
            assert(front.drop_last() =~= map.entries@.take(i as int));
            assert(object_of(copies) =~= object_of(before).insert(entry.0@, entry.1@));
            assert(entries_map(front).map_values(|item: JsonValue| item@) =~= object_of(copies));
        }
        i = i + 1;
    }
    assert(map.entries@.take(i as int) =~= map.entries@);
    copies
}

impl JsonValue {
    /// The member of an object.
    pub fn get(&self, key: &str) -> (r: Option<&JsonValue>)
        ensures
            opt_json(r) == json_get(self@, key@),
    {
        proof {
            lemma_json_of(*self);
        }
        match self {
            JsonValue::Object(map) => map.get(key),
            _ => None,
        }
    }

    /// The text of a value that is a text.
    pub fn as_str(&self) -> (r: Option<&str>)
        ensures
            crate::text::opt_str_text(r) == json_str(Some(self@)),
    {
        proof {
            lemma_json_of(*self);
        }
        match self {
            JsonValue::Text(text) => Some(text.as_str()),
            _ => None,
        }
    }

    /// The number of a value that is an unsigned 64-bit integer.
    pub fn as_u64(&self) -> (r: Option<u64>)
        ensures
            r == json_u64(Some(self@)),
    {
        proof {
            lemma_json_of(*self);
        }
        match self {
            JsonValue::Number(JsonNumber::Unsigned(n)) => Some(*n),
            JsonValue::Number(JsonNumber::Signed(n)) => if *n >= 0 {
                Some(*n as u64)
            } else {
                None
            },
            _ => None,
        }
    }

    /// The number of a value that is a signed 64-bit integer.
    pub fn as_i64(&self) -> (r: Option<i64>)
        ensures
            r == json_i64(Some(self@)),
    {
        proof {
            lemma_json_of(*self);
        }
        match self {
            JsonValue::Number(JsonNumber::Unsigned(n)) => if *n <= 0x7fff_ffff_ffff_ffffu64 {
                Some(*n as i64)
            } else {
                None
            },
            JsonValue::Number(JsonNumber::Signed(n)) => Some(*n),
            _ => None,
        }
    }

    /// The truth value of a value that is one.
    pub fn as_bool(&self) -> (r: Option<bool>)
        ensures
            r == json_bool(Some(self@)),
    {
        proof {
            lemma_json_of(*self);
        }
        match self {
            JsonValue::Bool(b) => Some(*b),
            _ => None,
        }
    }

    /// The items of a value that is an array.
    pub fn as_array(&self) -> (r: Option<&Vec<JsonValue>>)
        ensures
            match r {
                Some(items) => self@ == Json::Array(array_of(items@)),
                None => json_array(Some(self@)) is None,
            },
    {
        proof {
            lemma_json_of(*self);
        }
        match self {
            JsonValue::Array(items) => Some(items),
            _ => None,
        }
    }

    /// Whether the value is a given text.
    pub fn is_text(&self, text: &str) -> (r: bool)
        ensures
            r == (self@ == Json::Text(text@)),
    {
        match self.as_str() {
            Some(own) => same_text(own, text),
            None => false,
        }
    }
}

/// The member of an optional object.
pub fn get_in<'a>(value: Option<&'a JsonValue>, key: &str) -> (r: Option<&'a JsonValue>)
    ensures
        opt_json(r) == opt_json_get(opt_json(value), key@),
{
    match value {
        Some(object) => object.get(key),
        None => None,
    }
}

/// The text of an optional value that is a text.
pub fn str_in<'a>(value: Option<&'a JsonValue>) -> (r: Option<&'a str>)
    ensures
        crate::text::opt_str_text(r) == json_str(opt_json(value)),
{
    match value {
        Some(v) => v.as_str(),
        None => None,
    }
}

/// A copy of the text of an optional value that is a text.
pub fn string_in(value: Option<&JsonValue>) -> (r: Option<String>)
    ensures
        crate::text::opt_text(r) == json_str(opt_json(value)),
{
    match str_in(value) {
        Some(text) => Some(text.to_string()),
        None => None,
    }
}

/// The number of an optional value that is an unsigned 64-bit integer.
pub fn u64_in(value: Option<&JsonValue>) -> (r: Option<u64>)
    ensures
        r == json_u64(opt_json(value)),
{
    match value {
        Some(v) => v.as_u64(),
        None => None,
    }
}

/// The truth value of an optional value that is one.
pub fn bool_in(value: Option<&JsonValue>) -> (r: Option<bool>)
    ensures
        r == json_bool(opt_json(value)),
{
    match value {
        Some(v) => v.as_bool(),
        None => None,
    }
}

/// A copy of an optional value.
pub fn clone_in(value: Option<&JsonValue>) -> (r: Option<JsonValue>)
    ensures
        opt_json_value(r) == opt_json(value),
{
    match value {
        Some(v) => Some(v.clone()),
        None => None,
    }
}

// ---------------------------------------------------------------------------
// Building values
// ---------------------------------------------------------------------------

/// A text.
pub fn text_value(text: &str) -> (r: JsonValue)
    ensures
        r@ == Json::Text(text@),
{
    let out = JsonValue::Text(text.to_string());
    proof {
        lemma_json_of(out);
    }
    out
}

/// An unsigned number.
pub fn number_value(n: u64) -> (r: JsonValue)
    ensures
        r@ == Json::Integer(n as int),
{
    let out = JsonValue::Number(JsonNumber::Unsigned(n));
    proof {
        lemma_json_of(out);
    }
    out
}

/// A truth value.
pub fn bool_value(b: bool) -> (r: JsonValue)
    ensures
        r@ == Json::Bool(b),
{
    let out = JsonValue::Bool(b);
    proof {
        lemma_json_of(out);
    }
    out
}

/// The null value.
pub fn null_value() -> (r: JsonValue)
    ensures
        r@ == Json::Null,
{
    let out = JsonValue::Null;
    proof {
        lemma_json_of(out);
    }
    out
}

/// An array.
pub fn array_value(items: Vec<JsonValue>) -> (r: JsonValue)
    ensures
        r@ == Json::Array(array_of(items@)),
{
    let out = JsonValue::Array(items);
    proof {
        lemma_json_of(out);
    }
    out
}

/// An array of one value.
pub fn single_array(value: JsonValue) -> (r: JsonValue)
    ensures
        r@ == Json::Array(seq![value@]),
{
    let items = vec![value];
    assert(array_of(items@) =~= seq![value@]);
    array_value(items)
}

/// The texts as an array.
pub fn text_array(items: &Vec<String>) -> (r: JsonValue)
    ensures
        r@ == Json::Array(crate::text::texts(items@).map_values(|t: Seq<char>| Json::Text(t))),
{
    let mut out: Vec<JsonValue> = Vec::new();
    let mut i: usize = 0;
    while i < items.len()
        invariant
            i <= items@.len(),
            out@.len() == i,
            forall|j: int| 0 <= j < i ==> (#[trigger] out@[j])@ == Json::Text(items@[j]@),
        decreases items@.len() - i,
    {
        out.push(text_value(items[i].as_str()));
        i = i + 1;
    }
    assert(array_of(out@) =~= crate::text::texts(items@).map_values(
        |t: Seq<char>| Json::Text(t),
    ));
    array_value(out)
}

/// The empty object.
pub fn empty_object() -> (r: JsonValue)
    ensures
        r@ == Json::Object(Map::<Seq<char>, Json>::empty()),
{
    let map: OrderedMap<JsonValue> = OrderedMap::new();
    let out = JsonValue::Object(map);
    proof {
        lemma_json_of(out);
        assert(object_of(map) =~= Map::<Seq<char>, Json>::empty());
    }
    out
}

/// The object with one member more; a value that is no object stays as it is.
pub open spec fn json_with(value: Json, key: Seq<char>, member: Json) -> Json {
    match value {
        Json::Object(map) => Json::Object(map.insert(key, member)),
        other => other,
    }
}

impl JsonValue {
    /// The object with one member more; a value that is no object stays as it is.
    pub fn with(self, key: &str, member: JsonValue) -> (r: JsonValue)
        ensures
            r@ == json_with(self@, key@, member@),
    {
        proof {
            lemma_json_of(self);
        }
        match self {
            JsonValue::Object(map) => {
                let mut members = map;
                let _ = members.insert(key.to_string(), member);
                let out = JsonValue::Object(members);
                proof {
                    lemma_json_of(out);
                    assert(object_of(members) =~= object_of(map).insert(key@, member@));
                }
                out
            },
            other => other,
        }
    }
}

// ---------------------------------------------------------------------------
// Laws
// ---------------------------------------------------------------------------

/// A member that is set is found under its name, and the others stay as they are.
pub proof fn lemma_members_are_found(
    map: Map<Seq<char>, Json>,
    key: Seq<char>,
    member: Json,
    other: Seq<char>,
)
    ensures
        json_get(json_with(Json::Object(map), key, member), key) == Some(member),
        other != key ==> json_get(json_with(Json::Object(map), key, member), other) == json_get(
            Json::Object(map),
            other,
        ),
        json_get(Json::Object(Map::empty()), key) is None,
        opt_json_get(None, key) is None,
        opt_json_get(Some(json_with(Json::Object(map), key, member)), key) == Some(member),
{
}

/// Only an object has members.
pub proof fn lemma_only_objects_have_members(value: Json, key: Seq<char>)
    ensures
        !(value is Object) ==> json_get(value, key) is None,
{
}

/// A value is read as what it is, and as nothing else.
pub proof fn lemma_values_are_read_as_they_are(
    value: Json,
    text: Seq<char>,
    number: int,
    flag: bool,
    items: Seq<Json>,
)
    ensures
        json_str(Some(value)) == Some(text) <==> value == Json::Text(text),
        json_bool(Some(value)) == Some(flag) <==> value == Json::Bool(flag),
        json_array(Some(value)) == Some(items) <==> value == Json::Array(items),
        0 <= number <= u64::MAX ==> (json_u64(Some(value)) == Some(number as u64) <==> value
            == Json::Integer(number)),
        i64::MIN <= number <= i64::MAX ==> (json_i64(Some(value)) == Some(number as i64) <==> value
            == Json::Integer(number)),
        number < 0 || number > u64::MAX ==> json_u64(Some(Json::Integer(number))) is None,
        number < i64::MIN || number > i64::MAX ==> json_i64(Some(Json::Integer(number))) is None,
        json_str(None) is None,
        json_bool(None) is None,
        json_array(None) is None,
        json_u64(None) is None,
        json_i64(None) is None,
{
}

} // verus!
