use diagnostic_logs::digest::sha256_hex;
use diagnostic_logs::like::{cut_at_nul, is_found, is_too_long, MAX_PATTERN_BYTES};
use diagnostic_logs::text::{
    chars_of, hex_text, is_no_later, lower_text, same_text, text_of, trim, truncate_text,
};

fn trimmed(text: &str) -> String {
    text_of(&trim(text))
}

fn like(pattern: &str, text: &str) -> bool {
    is_found(&cut_at_nul(&chars_of(pattern)), text)
}

#[test]
fn short_texts_are_kept() {
    assert_eq!(truncate_text("abc", 3), ("abc".to_string(), false));
    assert_eq!(truncate_text("", 0), (String::new(), false));
}

#[test]
fn long_texts_are_cut_at_a_character() {
    assert_eq!(truncate_text("abcd", 3), ("abc\n[truncated]".to_string(), true));
    assert_eq!(truncate_text("a\u{e9}b", 2), ("a\n[truncated]".to_string(), true));
    assert_eq!(truncate_text("\u{1f600}", 3), ("\n[truncated]".to_string(), true));
    assert_eq!(truncate_text("abc", 0).0.len(), 12);
}

#[test]
fn white_space_is_trimmed_at_both_ends() {
    assert_eq!(trimmed(" \t a b \n"), "a b");
    assert_eq!(trimmed("\u{3000}x\u{a0}"), "x");
    assert_eq!(trimmed(" \n "), "");
    assert_eq!(trimmed("x"), "x");
}

#[test]
fn ascii_letters_are_lowered() {
    assert_eq!(lower_text("WARN \u{c9} 9"), "warn \u{c9} 9");
}

#[test]
fn texts_are_compared_by_characters_and_bytes() {
    assert!(same_text("a\u{e9}", "a\u{e9}"));
    assert!(!same_text("a", "A"));
    assert!(!same_text("a", "ab"));
    assert!(is_no_later("a", "b"));
    assert!(is_no_later("a", "ab"));
    assert!(!is_no_later("b", "ab"));
    assert!(is_no_later("", ""));
    assert!(is_no_later("z", "\u{e9}"));
}

#[test]
fn digests_are_written_in_hexadecimal() {
    assert_eq!(hex_text(&[0, 15, 16, 255]), "000f10ff");
    assert_eq!(
        sha256_hex(b"abc"),
        "ba7816bf8f01cfea414140de5dae2223b00361a396177a9cb410ff61f20015ad"
    );
}

#[test]
fn patterns_match_as_searches_do() {
    assert!(like("%gpt%", "openai/GPT-4"));
    assert!(!like("%gpt%", "llama"));
    assert!(like("%%", ""));
    assert!(like("%%", "anything"));
    assert!(like("%a_c%", "xABCx"));
    assert!(!like("%a_c%", "ac"));
    assert!(like("%50%%", "50 percent"));
    assert!(!like("", "a"));
    assert!(like("", ""));
    assert!(!like("%\u{c9}%", "\u{e9}"));
    assert!(like("_", "\u{1f600}"));
}

#[test]
fn a_plain_search_finds_every_part() {
    let text = "Path/To/Model";
    for from in 0..text.len() {
        for to in from..text.len() {
            let part = &text[from..to];
            assert!(like(&format!("%{}%", part.to_uppercase()), text));
        }
    }
    assert!(!like("%model/%", text));
}

#[test]
fn a_nul_character_ends_patterns_and_texts() {
    assert!(like("%ab%", "ab\0cd"));
    assert!(!like("%cd%", "ab\0cd"));
    assert!(like("%ab\0zz%", "ab"));
    assert!(!like("%ab\0zz%", "abc"));
    assert!(like("", "\0a"));
    assert_eq!(text_of(&cut_at_nul(&chars_of("a\0b\0"))), "a");
    assert_eq!(text_of(&cut_at_nul(&chars_of("ab"))), "ab");
}

#[test]
fn patterns_are_measured_in_bytes() {
    assert!(!is_too_long(&chars_of(&"a".repeat(MAX_PATTERN_BYTES))));
    assert!(is_too_long(&chars_of(&"a".repeat(MAX_PATTERN_BYTES + 1))));
    assert!(!is_too_long(&chars_of(&"\u{e9}".repeat(MAX_PATTERN_BYTES / 2))));
    assert!(is_too_long(&chars_of(&"\u{e9}".repeat(MAX_PATTERN_BYTES / 2 + 1))));
}
