use diagnostic_logs::headers::{read_header, redact_header_fields, redact_headers};
use diagnostic_logs::json::Json;
use diagnostic_logs::redact::{
    is_large_media_value, is_sensitive_key, redact_text, redact_value, RedactionPatterns,
};
use serde_json::Value;

fn patterns() -> RedactionPatterns {
    RedactionPatterns::new().expect("valid redaction patterns")
}

fn text(value: &str) -> Value {
    Value::String(value.to_string())
}

fn object(members: Vec<(&str, Value)>) -> Value {
    let mut map = serde_json::Map::new();
    for (name, value) in members {
        map.insert(name.to_string(), value);
    }
    Value::Object(map)
}

fn redacted(value: Value) -> Value {
    redact_value(&patterns(), &Json::from_value(value)).to_value()
}

#[test]
fn redacts_nested_secrets_and_large_media() {
    let value = object(vec![
        ("authorization", text("Bearer secret")),
        ("nested", object(vec![("apiKey", text("sk-test-secret"))])),
        ("image", text(&format!("data:image/png;base64,{}", "A".repeat(5000)))),
        ("message", text("Bearer visible-secret")),
    ]);
    let redacted = redacted(value);
    assert_eq!(redacted["authorization"], "[REDACTED]");
    assert_eq!(redacted["nested"]["apiKey"], "[REDACTED]");
    assert_eq!(redacted["image"]["omitted"], true);
    assert_eq!(redacted["message"], "Bearer [REDACTED]");
}

#[test]
fn media_placeholder_names_length_and_digest() {
    let redacted = redacted(text("data:,x"));
    assert_eq!(redacted["omitted"], true);
    assert_eq!(redacted["kind"], "media-or-base64");
    assert_eq!(redacted["mimeType"], "text/plain");
    assert_eq!(redacted["originalBytes"], 7);
    assert_eq!(
        redacted["sha256"],
        "707ce201c2f97b77e63f9ca88c081b76df5c8ee2582686405652fd8f67f61143"
    );
}

#[test]
fn media_placeholder_names_the_type() {
    let png = redacted(text("data:image/png;base64,AAAA"));
    assert_eq!(png["mimeType"], "image/png");
    let svg = redacted(text("data:image/svg+xml,<svg/>"));
    assert_eq!(svg["mimeType"], "image/svg+xml");
    let plain = redacted(text("data:;base64,AAAA"));
    assert_eq!(plain["mimeType"], "text/plain");
    let open = redacted(text("data:image/png"));
    assert_eq!(open["mimeType"], "application/octet-stream");
    let strange = redacted(text("data:http://u@h?x,y"));
    assert_eq!(strange["mimeType"], "application/octet-stream");
    let bytes = redacted(text(&"A".repeat(4096)));
    assert_eq!(bytes["mimeType"], "application/octet-stream");
    assert_eq!(bytes["originalBytes"], 4096);
}

#[test]
fn sensitive_names() {
    for name in [
        "authorization",
        "Proxy-Authorization",
        "cookie",
        "Set-Cookie",
        "x-api-key",
        "X_API_KEYS",
        "api_key",
        "apiKeys",
        "tokens",
        "client_secret",
        "PASSWORD",
        "credentials",
        "session-id",
        "db_password",
        "max_tokens",
        "tokenizer",
        "x-my-api-key-2",
        "aws_secret_access",
        "userCredentialFile",
        "to_ken",
        "MY-API-KEY-ID",
        "my_api_key_id",
    ] {
        assert!(is_sensitive_key(name), "{name}");
    }
    for name in ["", "s", "model", "keyboard", "pass", "api", "toke", "photo_ken", "x_pass_word"] {
        assert!(!is_sensitive_key(name), "{name}");
    }
}

#[test]
fn names_are_as_sensitive_in_the_plural() {
    for name in ["password", "cookie", "model", "keyboard"] {
        let plural = format!("{name}s");
        assert_eq!(is_sensitive_key(name), is_sensitive_key(&plural));
    }
}

#[test]
fn letters_outside_ascii_do_not_count_in_names() {
    assert!(is_sensitive_key("to\u{212a}ken"));
    assert!(is_sensitive_key("t\u{e9}oken"));
    assert!(!is_sensitive_key("to\u{212a}en"));
}

#[test]
fn media_are_data_urls_or_long_base64() {
    assert!(is_large_media_value("data:"));
    assert!(!is_large_media_value("Data:"));
    assert!(is_large_media_value(&"A-_+/=9".repeat(600)));
    assert!(!is_large_media_value(&"A".repeat(4095)));
    assert!(is_large_media_value(&"A".repeat(4096)));
    assert!(!is_large_media_value(&format!("{} ", "A".repeat(4096))));
    assert!(!is_large_media_value(&"\u{e9}".repeat(4096)));
}

#[test]
fn credentials_in_texts_are_replaced() {
    let patterns = patterns();
    assert_eq!(redact_text(&patterns, "Basic dXNlcg== x"), "Basic [REDACTED] x");
    assert_eq!(redact_text(&patterns, "token   abc"), "token [REDACTED]");
    assert_eq!(redact_text(&patterns, "api_key=abc, y"), "api_key=[REDACTED], y");
    assert_eq!(redact_text(&patterns, "password: \"abc\""), "password: \"[REDACTED]\"");
    assert_eq!(
        redact_text(&patterns, "{\"api_key\": \"abc\", \"n\": 1}"),
        "{\"api_key\": \"[REDACTED]\", \"n\": 1}"
    );
    assert_eq!(redact_text(&patterns, "nothing here"), "nothing here");
    assert_eq!(redact_text(&patterns, ""), "");
}

#[test]
fn a_redacted_credential_keeps_its_bracket_when_redacted_again() {
    let patterns = patterns();
    assert_eq!(redact_text(&patterns, "Bearer [REDACTED]"), "Bearer [REDACTED]]");
}

#[test]
fn everything_else_stays() {
    let value = object(vec![
        ("model", text("m")),
        ("n", Value::from(3)),
        ("flag", Value::Bool(false)),
        ("none", Value::Null),
        ("list", Value::Array(vec![text("a"), Value::from(-1)])),
    ]);
    assert_eq!(redacted(value.clone()), value);
}

#[test]
fn lists_are_redacted_item_by_item() {
    let value = Value::Array(vec![
        object(vec![("token", Value::from(1))]),
        text("Bearer abc"),
        Value::Array(vec![object(vec![("cookie", Value::Null)])]),
    ]);
    let redacted = redacted(value);
    assert_eq!(redacted[0]["token"], "[REDACTED]");
    assert_eq!(redacted[1], "Bearer [REDACTED]");
    assert_eq!(redacted[2][0]["cookie"], "[REDACTED]");
}

#[test]
fn headers_are_redacted_and_bounded() {
    let mut headers = http::HeaderMap::new();
    headers.insert("authorization", http::HeaderValue::from_static("Bearer abc"));
    headers.insert("x-api-key", http::HeaderValue::from_static("sk-1"));
    headers.insert("accept", http::HeaderValue::from_static("text/html"));
    headers.insert("x-note", http::HeaderValue::from_static("Bearer abc"));
    headers.insert(
        "x-bytes",
        http::HeaderValue::from_bytes(&[200, 201]).expect("opaque bytes"),
    );
    headers.insert(
        "x-long",
        http::HeaderValue::from_str(&"a".repeat(600)).expect("visible"),
    );
    let shown = redact_headers(&patterns(), &headers).to_value();
    assert_eq!(shown["authorization"], "[REDACTED]");
    assert_eq!(shown["x-api-key"], "[REDACTED]");
    assert_eq!(shown["accept"], "text/html");
    assert_eq!(shown["x-note"], "Bearer [REDACTED]");
    assert_eq!(shown["x-bytes"], "[BINARY HEADER]");
    assert_eq!(shown["x-long"], format!("{}\n[truncated]", "a".repeat(512)));
    assert_eq!(shown["x-long"].as_str().map(str::len), Some(524));
}

#[test]
fn the_last_of_several_header_values_is_shown() {
    let mut headers = http::HeaderMap::new();
    headers.append("accept", http::HeaderValue::from_static("one"));
    headers.append("accept", http::HeaderValue::from_static("two"));
    let shown = redact_headers(&patterns(), &headers).to_value();
    assert_eq!(shown["accept"], "two");
}

#[test]
fn header_fields_and_header_maps_are_shown_alike() {
    let fields = vec![
        ("cookie".to_string(), b"a=b".to_vec()),
        ("accept".to_string(), b"x\ty".to_vec()),
        ("del".to_string(), vec![127]),
    ];
    let shown = redact_header_fields(&patterns(), &fields).to_value();
    assert_eq!(shown["cookie"], "[REDACTED]");
    assert_eq!(shown["accept"], "x\ty");
    assert_eq!(shown["del"], "[BINARY HEADER]");
    assert_eq!(read_header(&b"ok".to_vec()), Some("ok".to_string()));
    assert_eq!(read_header(&vec![31]), None);
}
