//! What redaction makes of texts, media and values, case by case.
use crate::digest::sha256;
use crate::headers::{
    fields_view, header_fields, header_text, redact_header_fields, redact_headers, shown_header,
    shown_headers,
};
use crate::json::{items_view, whole_number, Json, JsonView};
use crate::redact::{
    base64_byte, declared, find_mime_type, is_large_media_value, is_sensitive_key, mime_char,
    redact_text, redact_value, replaced, RedactionPatterns,
};
use crate::text::{hex, truncate_text};
use crate::urls::strip_urls;
use vstd::prelude::*;
use vstd::string::*;
use vstd::utf8::*;

verus! {

/// A text is redacted in three steps: credentials behind the name of a scheme are replaced, then
/// secrets behind their names, then only the scheme, the host, the port and the path are left of
/// URLs.
pub proof fn law_texts_are_redacted(
    patterns: &RedactionPatterns,
    value: &str,
    written: String,
    middle: &str,
    stripped: String,
)
    requires
        call_ensures(redact_text, (patterns, value), written),
        call_ensures(strip_urls, (middle,), stripped),
        middle@ == replaced(
            r#"(?i)((?:api[_-]?key|access[_-]?token|refresh[_-]?token|password|secret|cookie)["']?\s*[:=]\s*["']?)[^\s"',}]+"#@,
            replaced(
                r#"(?i)\b(Bearer|Basic|Token|ApiKey)\s+[^\s"',}\]]+"#@,
                value@,
                "$1 [REDACTED]"@,
            ),
            "$1[REDACTED]"@,
        ),
    ensures
        written@ == stripped@,
{
}

/// The patterns that texts are redacted with.
pub proof fn law_patterns_in_use(made: Result<RedactionPatterns, regex::Error>)
    requires
        call_ensures(RedactionPatterns::new, (), made),
        made is Ok,
    ensures
        made->Ok_0.auth_source() == r#"(?i)\b(Bearer|Basic|Token|ApiKey)\s+[^\s"',}\]]+"#@,
        made->Ok_0.named_source()
            == r#"(?i)((?:api[_-]?key|access[_-]?token|refresh[_-]?token|password|secret|cookie)["']?\s*[:=]\s*["']?)[^\s"',}]+"#@,
{
}

/// Whether a byte is an ASCII letter or digit, or one of `+`, `/`, `=`, `-` and `_`.
pub open spec fn may_be_base64(byte: u8) -> bool {
    ||| '0' as u8 <= byte <= '9' as u8
    ||| 'A' as u8 <= byte <= 'Z' as u8
    ||| 'a' as u8 <= byte <= 'z' as u8
    ||| byte == '+' as u8
    ||| byte == '/' as u8
    ||| byte == '=' as u8
    ||| byte == '-' as u8
    ||| byte == '_' as u8
}

/// A text is one of media where it begins with `data:`, or where it has at least 4096 bytes and
/// each of them may stand in Base64, and nowhere else.
pub proof fn law_media_texts(value: &str, media: bool)
    requires
        call_ensures(is_large_media_value, (value,), media),
    ensures
        media == ((value@.len() >= 5 && value@[0] == 'd' && value@[1] == 'a' && value@[2] == 't'
            && value@[3] == 'a' && value@[4] == ':') || (encode_utf8(value@).len() >= 4096
            && forall|i: int|
            0 <= i < encode_utf8(value@).len() ==> may_be_base64(
                #[trigger] encode_utf8(value@)[i],
            ))),
{
    reveal_strlit("data:");
    let bytes = encode_utf8(value@);
    if "data:"@.is_prefix_of(value@) {
        assert(value@[0] == "data:"@[0] && value@[1] == "data:"@[1] && value@[2] == "data:"@[2]
            && value@[3] == "data:"@[3] && value@[4] == "data:"@[4]);
    }
    if value@.len() >= 5 && value@[0] == 'd' && value@[1] == 'a' && value@[2] == 't' && value@[3]
        == 'a' && value@[4] == ':' {
        assert("data:"@.is_prefix_of(value@));
    }
    assert forall|i: int| 0 <= i < bytes.len() implies may_be_base64(#[trigger] bytes[i])
        == base64_byte(bytes[i]) by {}
}

/// Of a text of media its type, its length in bytes and its digest are stored, with two marks, and
/// nothing else; any other text is stored redacted.
pub proof fn law_texts_in_values(
    patterns: &RedactionPatterns,
    text: &str,
    value: Json,
    written: Json,
    media: bool,
    kind: String,
    plain: String,
)
    requires
        value matches Json::Str(held) && held@ == text@,
        call_ensures(redact_value, (patterns, &value), written),
        call_ensures(is_large_media_value, (text,), media),
        call_ensures(find_mime_type, (text,), kind),
        call_ensures(redact_text, (patterns, text), plain),
    ensures
        !media ==> written@ == JsonView::Str(plain@),
        media ==> written@ is Object && {
            let members = written@->Object_0;
            &&& members["omitted"@] == JsonView::Bool(true)
            &&& members["kind"@] == JsonView::Str("media-or-base64"@)
            &&& members["mimeType"@] == JsonView::Str(kind@)
            &&& members["originalBytes"@] == JsonView::Number(
                whole_number(encode_utf8(text@).len() as int),
            )
            &&& members["sha256"@] == JsonView::Str(hex(sha256(encode_utf8(text@))))
            &&& members.dom() == set![
                "omitted"@, "kind"@, "mimeType"@, "originalBytes"@, "sha256"@,
            ]
        },
{
    reveal_strlit("omitted");
    reveal_strlit("kind");
    reveal_strlit("mimeType");
    reveal_strlit("originalBytes");
    reveal_strlit("sha256");
    assert("omitted"@.len() == 7 && "kind"@.len() == 4 && "mimeType"@.len() == 8
        && "originalBytes"@.len() == 13 && "sha256"@.len() == 6);
    assert(value@ == JsonView::Str(text@));
    if media {
        assert(written@->Object_0.dom() =~= set![
            "omitted"@, "kind"@, "mimeType"@, "originalBytes"@, "sha256"@,
        ]);
    }
}

/// Nothing is taken out of numbers, truth values and null, and the items of an array are redacted
/// each in its place.
pub proof fn law_other_values(
    patterns: &RedactionPatterns,
    value: Json,
    written: Json,
    i: int,
    item: Json,
    alone: Json,
)
    requires
        call_ensures(redact_value, (patterns, &value), written),
        call_ensures(redact_value, (patterns, &item), alone),
    ensures
        value is Null ==> written@ is Null,
        value matches Json::Bool(flag) ==> written@ == JsonView::Bool(flag),
        value matches Json::Number(number) ==> written@ == JsonView::Number(number),
        value matches Json::Array(items) ==> written@ is Array && written@->Array_0.len()
            == items.len() && (0 <= i < items.len() && items@[i]@ == item@
            ==> written@->Array_0[i] == alone@),
{
    if value is Array {
        assert(value@ == JsonView::Array(items_view(value->Array_0@)));
        if 0 <= i < value->Array_0.len() {
            assert(items_view(value->Array_0@)[i] == value->Array_0@[i]@);
        }
    }
}

/// Whether a character is an ASCII letter or digit, or one of `/`, `+`, `-`, `.` and `_`.
pub open spec fn may_name_a_type(ch: char) -> bool {
    ||| '0' <= ch <= '9'
    ||| 'A' <= ch <= 'Z'
    ||| 'a' <= ch <= 'z'
    ||| ch == '/'
    ||| ch == '+'
    ||| ch == '-'
    ||| ch == '.'
    ||| ch == '_'
}

/// The type of a text that begins with `data:` is what stands there before the first semicolon or
/// comma: plain text where that is nothing, and that of unknown bytes where it is longer than 255
/// characters, holds one that no type has, or where there is no semicolon and no comma. The type of
/// any other text is that of unknown bytes.
pub proof fn law_types_of_media(value: &str, found: String, end: int)
    requires
        call_ensures(find_mime_type, (value,), found),
        ({
            let begins = value@.len() >= 5 && value@.take(5) == "data:"@;
            begins ==> 5 <= end <= value@.len() && (forall|i: int|
                5 <= i < end ==> (#[trigger] value@[i]) != ';' && value@[i] != ',') && (end
                < value@.len() ==> value@[end] == ';' || value@[end] == ',')
        }),
    ensures
        ({
            let begins = value@.len() >= 5 && value@.take(5) == "data:"@;
            let named = value@.subrange(5, end);
            let known = begins && end < value@.len();
            &&& known && end == 5 ==> found@ == "text/plain"@
            &&& known && 5 < end <= 260 && (forall|i: int|
                5 <= i < end ==> may_name_a_type(#[trigger] value@[i])) ==> found@ == named
            &&& known && 5 < end <= 260 && (exists|i: int|
                5 <= i < end && !may_name_a_type(#[trigger] value@[i])) ==> found@
                == "application/octet-stream"@
            &&& known && end > 260 ==> found@ == "application/octet-stream"@
            &&& !known ==> found@ == "application/octet-stream"@
        }),
{
    reveal_strlit("data:");
    let text = value@;
    if text.len() >= 5 && text.take(5) == "data:"@ {
        assert forall|i: int| 0 <= i < 5 implies "data:"@[i] == text[i] by {
            assert(text.take(5)[i] == text[i]);
        }
        assert("data:"@.is_prefix_of(text));
        let rest = text.skip(5);
        lemma_declared(rest, end - 5);
        assert(rest.take(end - 5) =~= text.subrange(5, end));
        let kind = text.subrange(5, end);
        assert forall|i: int| 0 <= i < kind.len() implies mime_char(#[trigger] kind[i])
            == may_name_a_type(text[i + 5]) by {}
        if forall|i: int| 5 <= i < end ==> may_name_a_type(#[trigger] text[i]) {
            assert forall|i: int| 0 <= i < kind.len() implies mime_char(#[trigger] kind[i]) by {
                assert(may_name_a_type(text[i + 5]));
            }
        }
        if exists|i: int| 5 <= i < end && !may_name_a_type(#[trigger] text[i]) {
            let i = choose|i: int| 5 <= i < end && !may_name_a_type(#[trigger] text[i]);
            assert(!mime_char(kind[i - 5]));
        }
    } else if "data:"@.is_prefix_of(text) {
        assert(text.take(5) =~= "data:"@);
    }
}

proof fn lemma_declared(text: Seq<char>, end: int)
    requires
        0 <= end <= text.len(),
        forall|i: int| 0 <= i < end ==> (#[trigger] text[i]) != ';' && text[i] != ',',
        end < text.len() ==> text[end] == ';' || text[end] == ',',
    ensures
        declared(text) == if end < text.len() {
            Some(text.take(end))
        } else {
            None
        },
    decreases text.len(),
{
    if text.len() > 0 {
        if end == 0 {
            assert(text.take(0) =~= Seq::empty());
        } else {
            let rest = text.drop_first();
            assert forall|i: int| 0 <= i < end - 1 implies (#[trigger] rest[i]) != ';' && rest[i]
                != ',' by {
                assert(rest[i] == text[i + 1]);
            }
            lemma_declared(rest, end - 1);
            if end < text.len() {
                assert(seq![text[0]] + rest.take(end - 1) =~= text.take(end));
            }
        }
    }
}

/// What is stored of header fields: under each name what its last field holds; `[REDACTED]` where
/// the name is sensitive, a mark where the field is not all visible ASCII, spaces and tabs, and
/// else its text, redacted and cut at 512 bytes. No other name is stored.
pub proof fn law_header_fields(
    patterns: &RedactionPatterns,
    fields: Vec<(String, Vec<u8>)>,
    written: Json,
    at: int,
    name: &str,
    secret: bool,
    text: &str,
    plain: String,
    shown: &str,
    bounded: (String, bool),
)
    requires
        call_ensures(redact_header_fields, (patterns, &fields), written),
        0 <= at < fields.len(),
        name@ == fields@[at].0@,
        forall|j: int| at < j < fields.len() ==> (#[trigger] fields@[j]).0@ != name@,
        call_ensures(is_sensitive_key, (name,), secret),
        call_ensures(redact_text, (patterns, text), plain),
        call_ensures(truncate_text, (shown, 512), bounded),
        shown@ == plain@,
        text@.len() == fields@[at].1@.len(),
        forall|i: int|
            0 <= i < text@.len() ==> #[trigger] text@[i] == fields@[at].1@[i] as char,
    ensures
        written@ is Object,
        written@->Object_0.contains_key(name@),
        secret ==> written@->Object_0[name@] == JsonView::Str("[REDACTED]"@),
        !secret && (exists|i: int|
            0 <= i < fields@[at].1@.len() && {
                let byte = #[trigger] fields@[at].1@[i];
                byte != 9 && (byte < 32 || byte >= 127)
            }) ==> written@->Object_0[name@] == JsonView::Str("[BINARY HEADER]"@),
        !secret && (forall|i: int|
            0 <= i < fields@[at].1@.len() ==> {
                let byte = #[trigger] fields@[at].1@[i];
                byte == 9 || 32 <= byte < 127
            }) ==> written@->Object_0[name@] == JsonView::Str(bounded.0@),
        forall|other: Seq<char>| #[trigger]
            written@->Object_0.contains_key(other) ==> exists|j: int|
                0 <= j < fields.len() && (#[trigger] fields@[j]).0@ == other,
{
    let all = fields_view(fields@);
    let bytes = fields@[at].1@;
    assert(all[at] == (fields@[at].0@, fields@[at].1@));
    assert forall|j: int| at < j < all.len() implies (#[trigger] all[j]).0 != name@ by {
        assert(all[j].0 == fields@[j].0@);
    }
    lemma_last_field(all, at);
    assert(text@ =~= bytes.map_values(|byte: u8| byte as char));
    assert forall|other: Seq<char>| #[trigger]
        written@->Object_0.contains_key(other) implies exists|j: int|
        0 <= j < fields.len() && (#[trigger] fields@[j]).0@ == other by {
        lemma_field_names(all, other);
        let j = choose|j: int| 0 <= j < all.len() && (#[trigger] all[j]).0 == other;
        assert(fields@[j].0@ == other);
    }
    if forall|i: int|
        0 <= i < bytes.len() ==> {
            let byte = #[trigger] bytes[i];
            byte == 9 || 32 <= byte < 127
        } {
        assert(header_text(bytes) is Some);
    }
}

/// What is stored of a header map is what is stored of its fields.
pub proof fn law_header_maps(
    patterns: &RedactionPatterns,
    headers: &http::HeaderMap,
    written: Json,
    fields: Vec<(String, Vec<u8>)>,
    other: Json,
)
    requires
        call_ensures(redact_headers, (patterns, headers), written),
        call_ensures(redact_header_fields, (patterns, &fields), other),
        fields_view(fields@) == header_fields(*headers),
    ensures
        written@ == other@,
{
}

proof fn lemma_last_field(fields: Seq<(Seq<char>, Seq<u8>)>, at: int)
    requires
        0 <= at < fields.len(),
        forall|j: int| at < j < fields.len() ==> (#[trigger] fields[j]).0 != fields[at].0,
    ensures
        shown_headers(fields).contains_key(fields[at].0),
        shown_headers(fields)[fields[at].0] == JsonView::Str(
            shown_header(fields[at].0, fields[at].1),
        ),
    decreases fields.len(),
{
    if at < fields.len() - 1 {
        let before = fields.drop_last();
        assert(before[at] == fields[at]);
        assert(fields[fields.len() - 1].0 != fields[at].0);
        lemma_last_field(before, at);
    }
}

proof fn lemma_field_names(fields: Seq<(Seq<char>, Seq<u8>)>, name: Seq<char>)
    requires
        shown_headers(fields).contains_key(name),
    ensures
        exists|j: int| 0 <= j < fields.len() && (#[trigger] fields[j]).0 == name,
    decreases fields.len(),
{
    if fields.len() > 0 {
        if fields.last().0 == name {
            assert(fields[fields.len() - 1].0 == name);
        } else {
            let before = fields.drop_last();
            lemma_field_names(before, name);
            let j = choose|j: int| 0 <= j < before.len() && (#[trigger] before[j]).0 == name;
            assert(fields[j].0 == name);
        }
    }
}

} // verus!
