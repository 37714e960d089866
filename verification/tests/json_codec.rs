use arxiv_cli::json::{parse_json, to_json_string, JsonValue};

fn obj(members: Vec<(&str, JsonValue)>) -> JsonValue {
    JsonValue::Obj(members.into_iter().map(|(k, v)| (k.to_string(), v)).collect())
}

fn round_trips(v: &JsonValue) -> JsonValue {
    let text = to_json_string(v);
    parse_json(&text).expect("serialized value must parse back")
}

fn assert_eq_json(a: &JsonValue, b: &JsonValue) {
    // Structural comparison through the canonical rendering.
    assert_eq!(to_json_string(a), to_json_string(b));
}

#[test]
fn test_round_trip_scalars() {
    for v in [
        JsonValue::Null,
        JsonValue::Bool(true),
        JsonValue::Bool(false),
        JsonValue::Int(0),
        JsonValue::Int(42),
        JsonValue::Int(-7),
        JsonValue::Int(i64::MAX),
        JsonValue::Int(i64::MIN),
    ] {
        let back = round_trips(&v);
        assert_eq_json(&v, &back);
    }
}

#[test]
fn test_round_trip_strings() {
    for s in ["", "plain", "with \"quotes\" and \\backslash\\", "line\nbreak\ttab\rcr", "funky ünïcødé"] {
        let v = JsonValue::Str(s.to_string());
        let back = round_trips(&v);
        match back {
            JsonValue::Str(t) => assert_eq!(t, s),
            _ => panic!("string did not come back as a string"),
        }
    }
}

#[test]
fn test_round_trip_arrays_and_objects() {
    let v = obj(vec![
        ("id", JsonValue::Int(3)),
        (
            "result",
            obj(vec![(
                "items",
                JsonValue::Arr(vec![
                    JsonValue::Int(1),
                    JsonValue::Str("two".to_string()),
                    JsonValue::Arr(vec![]),
                    obj(vec![]),
                    JsonValue::Null,
                ]),
            )]),
        ),
    ]);
    let back = round_trips(&v);
    assert_eq_json(&v, &back);
}

#[test]
fn test_serializer_exact_rendering() {
    let v = obj(vec![
        ("id", JsonValue::Int(1)),
        ("method", JsonValue::Str("Page.navigate".to_string())),
        ("params", obj(vec![("url", JsonValue::Str("https://example.org".to_string()))])),
    ]);
    assert_eq!(
        to_json_string(&v),
        "{\"id\":1,\"method\":\"Page.navigate\",\"params\":{\"url\":\"https://example.org\"}}"
    );
}

#[test]
fn test_string_escapes_rendered() {
    let v = JsonValue::Str("a\"b\\c\nd".to_string());
    assert_eq!(to_json_string(&v), "\"a\\\"b\\\\c\\nd\"");
}

#[test]
fn test_parse_rejects_malformed() {
    for bad in ["", "{", "[1,", "tru", "nul", "\"open", "{\"a\" 1}", "01x", "[1 2]", "invalid json"] {
        assert!(parse_json(bad).is_none(), "{:?} should not parse", bad);
    }
}

#[test]
fn test_parse_accepts_escapes() {
    let v = parse_json("\"a\\u{}\"");
    assert!(v.is_none(), "unsupported escape is rejected");
    match parse_json("\"a\\tb\\/c\"") {
        Some(JsonValue::Str(s)) => assert_eq!(s, "a\tb/c"),
        _ => panic!("escaped string should parse"),
    }
}

#[test]
fn test_parse_number_limits() {
    match parse_json("9223372036854775807") {
        Some(JsonValue::Int(n)) => assert_eq!(n, i64::MAX),
        _ => panic!("max value should parse"),
    }
    match parse_json("-9223372036854775808") {
        Some(JsonValue::Int(n)) => assert_eq!(n, i64::MIN),
        _ => panic!("min value should parse"),
    }
    assert!(parse_json("9223372036854775808").is_none());
    assert!(parse_json("99999999999999999999999").is_none());
}
