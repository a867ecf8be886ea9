use diagnostic_logs::json::Json;
use serde_json::Value;

fn sample() -> Value {
    let mut map = serde_json::Map::new();
    map.insert("a".to_string(), Value::from(1));
    map.insert("b".to_string(), Value::Array(vec![Value::Null, Value::Bool(true)]));
    map.insert("c".to_string(), Value::String("x\"y".to_string()));
    Value::Object(map)
}

#[test]
fn values_go_over_and_back() {
    let value = sample();
    assert_eq!(Json::from_value(value.clone()).to_value(), value);
    let json = Json::from_value(value);
    assert_eq!(json.clone(), json);
}

#[test]
fn values_have_a_text_that_reads_back() {
    let json = Json::from_value(sample());
    let text = json.to_text().expect("text");
    assert_eq!(text, "{\"a\":1,\"b\":[null,true],\"c\":\"x\\\"y\"}");
    assert_eq!(json.to_bytes(), Some(text.clone().into_bytes()));
    assert_eq!(Json::parse_text(&text), Some(Json::from_value(sample())));
    assert_eq!(Json::parse(text.as_bytes()), Some(Json::from_value(sample())));
}

#[test]
fn what_is_no_json_does_not_parse() {
    assert_eq!(Json::parse_text("{"), None);
    assert_eq!(Json::parse(&[255]), None);
    let deep = format!("{}{}", "[".repeat(128), "]".repeat(128));
    assert_eq!(Json::parse_text(&deep), None);
    let less = format!("{}{}", "[".repeat(127), "]".repeat(127));
    assert!(Json::parse_text(&less).is_some());
}

#[test]
fn the_later_member_of_a_name_counts() {
    let json = Json::Object(vec![
        ("a".to_string(), Json::Bool(false)),
        ("b".to_string(), Json::Null),
        ("a".to_string(), Json::Bool(true)),
    ]);
    assert_eq!(json.to_text(), Some("{\"a\":true,\"b\":null}".to_string()));
}
