use conectdesk_agent::json::Json;
use serde_json::Number;

fn parsed(text: &str) -> Option<Json> {
    Json::parse(text.as_bytes())
}

fn text(s: &str) -> Json {
    Json::Text(s.to_string())
}

#[test]
fn values_of_each_kind() {
    assert_eq!(parsed("null"), Some(Json::Null));
    assert_eq!(parsed(" true "), Some(Json::Bool(true)));
    assert_eq!(parsed("18446744073709551615"), Some(Json::Unsigned(u64::MAX)));
    assert_eq!(parsed("0"), Some(Json::Unsigned(0)));
    assert_eq!(parsed("-9223372036854775808"), Some(Json::Negative(i64::MIN)));
    assert_eq!(parsed("1.5"), Some(Json::Float(Number::from_f64(1.5).unwrap())));
    assert_eq!(parsed("18446744073709551616"), Some(Json::Float(Number::from_f64(18446744073709551616.0).unwrap())));
    assert_eq!(parsed("\"a\\u00e9\\n\""), Some(text("aé\n")));
    assert_eq!(parsed("[]"), Some(Json::Array(vec![])));
    assert_eq!(parsed("{}"), Some(Json::Object(vec![])));
    assert_eq!(
        parsed("{\"a\":[1,{\"b\":null}]}"),
        Some(Json::Object(vec![(
            "a".to_string(),
            Json::Array(vec![
                Json::Unsigned(1),
                Json::Object(vec![("b".to_string(), Json::Null)]),
            ]),
        )]))
    );
}

#[test]
fn what_is_no_json() {
    for bad in ["", "nul", "{", "[1,]", "1 2", "'a'", "{\"a\" 1}", "01"] {
        assert_eq!(parsed(bad), None, "{}", bad);
    }
    assert_eq!(Json::parse(&[b'"', 0xff, b'"']), None);
}

#[test]
fn last_of_two_fields_counts() {
    let value = parsed("{\"a\":1,\"a\":2}").unwrap();
    assert_eq!(value.unsigned_field("a"), Some(2));
}

#[test]
fn fields_and_conversions() {
    let value = parsed(
        "{\"t\":\"x\",\"b\":false,\"n\":7,\"m\":-7,\"f\":1.0,\"l\":[1],\"z\":null,\"big\":18446744073709551615}",
    )
    .unwrap();
    assert_eq!(value.text_field("t"), "x");
    assert_eq!(value.text_field("n"), "");
    assert_eq!(value.text_field("none"), "");
    assert_eq!(value.truth_field("b"), Some(false));
    assert_eq!(value.truth_field("t"), None);
    assert_eq!(value.unsigned_field("n"), Some(7));
    assert_eq!(value.unsigned_field("m"), None);
    assert_eq!(value.unsigned_field("f"), None);
    assert_eq!(value.integer_field("n"), Some(7));
    assert_eq!(value.integer_field("m"), Some(-7));
    assert_eq!(value.integer_field("big"), None);
    assert_eq!(value.integer_field("f"), None);
    assert_eq!(value.items_field("l"), Some(&vec![Json::Unsigned(1)]));
    assert_eq!(value.items_field("t"), None);
    assert_eq!(value.get("z"), Some(&Json::Null));
    assert!(value.get("z").unwrap().is_null());
    assert!(!value.is_null());
    assert_eq!(value.get("none"), None);
    assert_eq!(Json::Null.get("t"), None);
    assert_eq!(text("q").as_str(), Some("q"));
    assert_eq!(Json::Null.as_str(), None);
    assert_eq!(Json::Unsigned(3).as_bool(), None);
}

#[test]
fn first_of_two_equal_keys_is_read() {
    let value = Json::object(vec![
        ("k".to_string(), Json::Unsigned(1)),
        ("k".to_string(), Json::Unsigned(2)),
    ]);
    assert_eq!(value.get("k"), Some(&Json::Unsigned(1)));
}

#[test]
fn copies_are_equal() {
    let value = parsed("{\"a\":[1,-2,2.5,{\"b\":[null,true,\"x\"]}]}").unwrap();
    assert_eq!(value.clone(), value);
}

#[test]
fn values_as_text() {
    assert_eq!(Json::Null.to_text(), "null");
    assert_eq!(Json::Bool(false).to_text(), "false");
    assert_eq!(Json::Unsigned(u64::MAX).to_text(), "18446744073709551615");
    assert_eq!(Json::Negative(-5).to_text(), "-5");
    assert_eq!(Json::Float(Number::from_f64(2.5).unwrap()).to_text(), "2.5");
    assert_eq!(text("a\"\n\u{1}é").to_text(), "\"a\\\"\\n\\u0001é\"");
    assert_eq!(Json::Array(vec![]).to_text(), "[]");
    let object = Json::Object(vec![
        ("b".to_string(), Json::Unsigned(1)),
        ("a".to_string(), Json::Array(vec![Json::Null])),
    ]);
    assert_eq!(object.to_text(), "{\"a\":[null],\"b\":1}");
}

#[test]
fn written_values_read_back() {
    let row = |name: &str| {
        Json::Object(vec![
            ("name".to_string(), text(name)),
            ("photoPath".to_string(), text("C:\\p\u{0}\u{1f600}.png")),
        ])
    };
    let table = Json::Array(vec![row("Ana \"A\""), row(""), Json::Object(vec![])]);
    assert_eq!(parsed(&table.to_text()), Some(table));
    let value = parsed("{\"a\":[1,-2,2.5,0.1,{\"b\":[null,true,\"x\"]}]}").unwrap();
    assert_eq!(parsed(&value.to_text()), Some(value));
}
