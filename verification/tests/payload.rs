use diagnostic_logs::digest::sha256_hex;
use diagnostic_logs::json::Json;
use diagnostic_logs::payload::{
    bound_payload, choose_body, decode_payload, encode_payload, read_payload, MAX_PAYLOAD_BYTES,
};
use diagnostic_logs::redact::RedactionPatterns;

fn patterns() -> RedactionPatterns {
    RedactionPatterns::new().expect("valid redaction patterns")
}

fn words(count: usize) -> Json {
    Json::Array(vec![Json::Str("some words".to_string()); count])
}

#[test]
fn short_payloads_are_stored_as_they_are() {
    let stored = encode_payload(&patterns(), &words(2)).expect("stored");
    assert_eq!(stored.encoding, "identity");
    assert_eq!(stored.body, b"[\"some words\",\"some words\"]".to_vec());
    assert_eq!(stored.original_bytes, 27);
    assert_eq!(stored.stored_bytes, 27);
    assert_eq!(stored.sha256, sha256_hex(&stored.body));
    assert!(!stored.truncated);
    assert_eq!(decode_payload(&stored.encoding, &stored.body), Some(words(2)));
}

#[test]
fn long_payloads_are_compressed_and_read_back() {
    let value = words(2000);
    let stored = encode_payload(&patterns(), &value).expect("stored");
    assert_eq!(stored.encoding, "zstd");
    assert_eq!(stored.original_bytes, 2000 * 13 + 1);
    assert_eq!(stored.stored_bytes, stored.body.len() as i64);
    assert!(stored.stored_bytes < stored.original_bytes);
    assert!(!stored.truncated);
    assert_eq!(decode_payload(&stored.encoding, &stored.body), Some(value));
}

#[test]
fn payloads_are_redacted_before_they_are_stored() {
    let value = Json::Object(vec![
        ("token".to_string(), Json::Str("abc".to_string())),
        ("text".to_string(), Json::Str("Basic abc".to_string())),
    ]);
    let stored = encode_payload(&patterns(), &value).expect("stored");
    let read = decode_payload(&stored.encoding, &stored.body).expect("read");
    assert_eq!(read.to_value()["token"], "[REDACTED]");
    assert_eq!(read.to_value()["text"], "Basic [REDACTED]");
}

#[test]
fn payloads_over_the_limit_become_a_note() {
    let value = words(100_000);
    let stored = encode_payload(&patterns(), &value).expect("stored");
    assert!(stored.truncated);
    assert_eq!(stored.original_bytes, 100_000 * 13 + 1);
    let note = decode_payload(&stored.encoding, &stored.body).expect("read").to_value();
    assert_eq!(note["truncated"], true);
    assert_eq!(note["originalBytes"], 1_300_001);
    assert_eq!(note["sha256"], stored.sha256);
    let preview = note["preview"].as_str().expect("preview");
    assert!(preview.starts_with("[\"some words\",\"some words\""));
    assert!(preview.ends_with("\n[truncated]"));
    assert_eq!(preview.len(), (MAX_PAYLOAD_BYTES - 256) / 2 + 12);
}

#[test]
fn the_limit_itself_is_kept() {
    let whole = vec![b'1'; MAX_PAYLOAD_BYTES];
    assert_eq!(bound_payload(whole.clone()), Some((whole, false)));
    let over = vec![b'1'; MAX_PAYLOAD_BYTES + 1];
    let (note, truncated) = bound_payload(over).expect("note");
    assert!(truncated);
    assert!(note.len() <= MAX_PAYLOAD_BYTES);
    let preview = Json::parse(&note).expect("json").to_value();
    let shown = preview["preview"].as_str().expect("preview").len();
    assert_eq!(shown, MAX_PAYLOAD_BYTES - 256 + 12);
}

#[test]
fn what_is_kept_is_bounded_however_much_is_escaped() {
    for escaped in ["\"", "\\", "\u{1}", "\n"] {
        let value = Json::Str(escaped.repeat(MAX_PAYLOAD_BYTES));
        let stored = encode_payload(&patterns(), &value).expect("stored");
        assert!(stored.truncated);
        let note = decode_payload(&stored.encoding, &stored.body).expect("read");
        assert!(note.to_bytes().expect("text").len() <= MAX_PAYLOAD_BYTES);
        assert_eq!(note.to_value()["originalBytes"], stored.original_bytes);
    }
}

#[test]
fn bytes_that_are_no_text_show_as_replacement_characters() {
    let over = vec![255u8; MAX_PAYLOAD_BYTES + 1];
    let (note, _) = bound_payload(over).expect("note");
    let preview = Json::parse(&note).expect("json").to_value();
    assert!(preview["preview"].as_str().expect("preview").starts_with('\u{fffd}'));
}

#[test]
fn the_limit_may_be_inside_a_character() {
    for shift in 0..4 {
        let text = format!("{}{}", "a".repeat(shift), "\u{1f600}".repeat(300_000));
        let value = Json::Str(text);
        let whole = value.to_text().expect("text");
        let stored = encode_payload(&patterns(), &value).expect("stored");
        let note = decode_payload(&stored.encoding, &stored.body).expect("read").to_value();
        let preview = note["preview"].as_str().expect("preview");
        let shown = preview.strip_suffix("\n[truncated]").expect("mark");
        assert!(whole.starts_with(shown));
        assert!(shown.len() + 4 > MAX_PAYLOAD_BYTES - 256);
    }
}

#[test]
fn the_frame_is_chosen_where_it_is_shorter() {
    let text = vec![b'a'; 4097];
    assert_eq!(
        choose_body(text.clone(), Some(vec![1, 2])),
        ("zstd".to_string(), vec![1, 2])
    );
    assert_eq!(
        choose_body(text.clone(), Some(vec![0; 4097])),
        ("identity".to_string(), text.clone())
    );
    assert_eq!(choose_body(text.clone(), None), ("identity".to_string(), text));
    let short = vec![b'a'; 4096];
    assert_eq!(
        choose_body(short.clone(), Some(vec![1])),
        ("identity".to_string(), short)
    );
}

#[test]
fn only_a_text_over_the_threshold_is_compressed() {
    let value = Json::Str(" ".repeat(4095));
    let stored = encode_payload(&patterns(), &value).expect("stored");
    assert_eq!(stored.original_bytes, 4097);
    assert_eq!(stored.encoding, "zstd");
    let value = Json::Str(" ".repeat(4094));
    let stored = encode_payload(&patterns(), &value).expect("stored");
    assert_eq!(stored.original_bytes, 4096);
    assert_eq!(stored.stored_bytes, 4096);
    assert_eq!(stored.encoding, "identity");
}

#[test]
fn bodies_that_stand_for_nothing_read_as_nothing() {
    assert_eq!(decode_payload("zstd", &vec![1, 2, 3]), None);
    assert_eq!(decode_payload("identity", &b"{".to_vec()), None);
    assert_eq!(decode_payload("other", &b"1".to_vec()).map(|value| value.to_text()), Some(Some("1".to_string())));
    assert_eq!(read_payload("zstd", &b"1".to_vec(), None), None);
    assert_eq!(
        read_payload("zstd", &Vec::new(), Some(b"null".to_vec())),
        Some(Json::Null)
    );
    assert_eq!(
        read_payload("identity", &b"true".to_vec(), Some(b"null".to_vec())),
        Some(Json::Bool(true))
    );
}
