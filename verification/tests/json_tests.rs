use symphony_rs::json::{
    array_value, bool_value, empty_object, json_encode, json_pretty_text, json_text, null_value,
    number_value, parse_json, text_array, text_value, JsonNumber, JsonValue,
};

fn sample() -> JsonValue {
    empty_object()
        .with("b", number_value(7))
        .with("a", text_value("x\ny"))
        .with("c", array_value(vec![bool_value(true), null_value()]))
}

#[test]
fn objects_keep_their_members_in_key_order() {
    assert_eq!(json_text(&sample()), "{\"a\":\"x\\ny\",\"b\":7,\"c\":[true,null]}");
}

#[test]
fn pretty_text_is_indented() {
    let value = empty_object().with("a", number_value(1));
    assert_eq!(json_pretty_text(&value), "{\n  \"a\": 1\n}");
}

#[test]
fn bytes_hold_no_line_feed() {
    let bytes = json_encode(&sample()).expect("encodes");
    assert_eq!(bytes, json_text(&sample()).into_bytes());
    assert!(!bytes.contains(&10u8));
}

#[test]
fn reading_gives_back_what_was_written() {
    let value = parse_json(&json_text(&sample())).expect("parses");
    assert_eq!(value, sample());
}

#[test]
fn numbers_are_told_apart() {
    let value = parse_json("[1, -1, 18446744073709551615, 1.5, -0.0, 1e3]").expect("parses");
    let items = value.as_array().expect("array");
    assert_eq!(items[0].as_u64(), Some(1));
    assert_eq!(items[0].as_i64(), Some(1));
    assert_eq!(items[1].as_u64(), None);
    assert_eq!(items[1].as_i64(), Some(-1));
    assert_eq!(items[2].as_u64(), Some(u64::MAX));
    assert_eq!(items[2].as_i64(), None);
    assert_eq!(items[3].as_u64(), None);
    assert_eq!(items[3].as_i64(), None);
    assert_eq!(json_text(&value), "[1,-1,18446744073709551615,1.5,-0.0,1000.0]");
    assert!(matches!(items[3], JsonValue::Number(JsonNumber::Decimal(_))));
}

#[test]
fn signed_numbers_read_as_unsigned_where_they_fit() {
    assert_eq!(JsonValue::Number(JsonNumber::Signed(5)).as_u64(), Some(5));
    assert_eq!(JsonValue::Number(JsonNumber::Signed(-5)).as_u64(), None);
}

#[test]
fn copies_are_equal() {
    let value = parse_json("{\"x\":[1.25,{\"y\":\"z\"}],\"w\":null}").expect("parses");
    assert_eq!(value.clone(), value);
    assert_eq!(json_text(&value.clone()), json_text(&value));
}

#[test]
fn members_are_found_in_objects_only() {
    let value = sample();
    assert_eq!(value.get("a").and_then(|v| v.as_str()), Some("x\ny"));
    assert!(value.get("z").is_none());
    assert!(text_value("a").get("a").is_none());
    assert_eq!(value.get("c").and_then(|v| v.as_array()).map(|v| v.len()), Some(2));
}

#[test]
fn later_members_replace_earlier_ones() {
    let value = empty_object().with("a", number_value(1)).with("a", number_value(2));
    assert_eq!(json_text(&value), "{\"a\":2}");
    assert_eq!(json_text(&text_value("t").with("a", null_value())), "\"t\"");
}

#[test]
fn broken_documents_are_refused() {
    assert!(parse_json("{").is_none());
    assert!(parse_json("").is_none());
    assert!(parse_json("{\"a\":1} x").is_none());
}

#[test]
fn values_pass_to_serde_and_back() {
    let value = sample();
    let outside = value.to_serde_value();
    assert_eq!(outside["b"], serde_json::Value::from(7u64));
    assert_eq!(outside["c"][1], serde_json::Value::Null);
    assert_eq!(JsonValue::from_serde_value(outside), value);
}

#[test]
fn texts_become_an_array() {
    let value = text_array(&vec!["a".to_string(), "b".to_string()]);
    assert_eq!(json_text(&value), "[\"a\",\"b\"]");
}
