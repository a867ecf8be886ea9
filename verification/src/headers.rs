//! Request headers as they may be stored.
use crate::json::{json_view, members_view, Json, JsonView};
use crate::redact::{
    is_sensitive_key, redact_text, redacted_text, sensitive, RedactionPatterns, REDACTED,
};
use crate::text::{bounded_text, truncate_text};
use vstd::prelude::*;

verus! {

/// `http::HeaderMap`: header fields by name.
#[verifier::external_type_specification]
#[verifier::external_body]
#[verifier::reject_recursive_types(T)]
pub struct ExHeaderMap<T>(http::HeaderMap<T>);

/// `http::HeaderValue`: the bytes of a header field.
#[verifier::external_type_specification]
#[verifier::external_body]
pub struct ExHeaderValue(http::HeaderValue);

/// The fields that a header map holds, names and bytes, in the order in which it visits them.
pub uninterp spec fn header_fields(headers: http::HeaderMap) -> Seq<(Seq<char>, Seq<u8>)>;

/// What fields that are written out are.
pub open spec fn fields_view(fields: Seq<(String, Vec<u8>)>) -> Seq<(Seq<char>, Seq<u8>)> {
    fields.map_values(|field: (String, Vec<u8>)| (field.0@, field.1@))
}

/// `http::HeaderMap::iter`: every field of the map, a name as often as it has values.
#[verifier::external_body]
fn fields_of(headers: &http::HeaderMap) -> (fields: Vec<(String, Vec<u8>)>)
    ensures
        fields_view(fields@) == header_fields(*headers),
{
    headers.iter().map(|(name, value)| (name.as_str().to_string(), value.as_bytes().to_vec())).collect()
}

/// How many bytes of a header field are shown.
pub const MAX_HEADER_BYTES: usize = 512;

/// Whether a byte is visible ASCII, a space or a tab.
pub open spec fn visible(byte: u8) -> bool {
    32 <= byte < 127 || byte == 9
}

/// The text of a header field, if all its bytes are visible.
pub open spec fn header_text(bytes: Seq<u8>) -> Option<Seq<char>> {
    if forall|i: int| 0 <= i < bytes.len() ==> visible(#[trigger] bytes[i]) {
        Some(bytes.map_values(|byte: u8| byte as char))
    } else {
        None
    }
}

/// What is stored of a header field.
pub open spec fn shown_header(name: Seq<char>, bytes: Seq<u8>) -> Seq<char> {
    if sensitive(name) {
        REDACTED@
    } else {
        match header_text(bytes) {
            Some(text) => bounded_text(redacted_text(text), MAX_HEADER_BYTES as nat),
            None => "[BINARY HEADER]"@,
        }
    }
}

/// What is stored of header fields: the last one for a name that comes more than once.
pub open spec fn shown_headers(fields: Seq<(Seq<char>, Seq<u8>)>) -> Map<Seq<char>, JsonView>
    decreases fields.len(),
{
    if fields.len() == 0 {
        Map::empty()
    } else {
        shown_headers(fields.drop_last()).insert(
            fields.last().0,
            JsonView::Str(shown_header(fields.last().0, fields.last().1)),
        )
    }
}

/// Reads a header field as text, if all its bytes are visible.
pub fn read_header(bytes: &Vec<u8>) -> (text: Option<String>)
    ensures
        match text {
            Some(read) => header_text(bytes@) == Some(read@),
            None => header_text(bytes@) is None,
        },
{
    let mut text = String::new();
    for i in 0..bytes.len()
        invariant
            forall|j: int| 0 <= j < i ==> visible(#[trigger] bytes@[j]),
            text@ == bytes@.take(i as int).map_values(|byte: u8| byte as char),
    {
        let byte = bytes[i];
        if !((32 <= byte && byte < 127) || byte == 9) {
            assert(!visible(bytes@[i as int]));
            return None;
        }
        text.push(byte as char);
        assert(text@ =~= bytes@.take(i + 1).map_values(|byte: u8| byte as char));
    }
    assert(bytes@.take(bytes.len() as int) == bytes@);
    Some(text)
}

/// Makes header fields fit to be stored.
pub fn redact_header_fields(
    patterns: &RedactionPatterns,
    fields: &Vec<(String, Vec<u8>)>,
) -> (written: Json)
    ensures
        written@ == JsonView::Object(shown_headers(fields_view(fields@))),
{
    let mut output: Vec<(String, Json)> = Vec::new();
    for i in 0..fields.len()
        invariant
            members_view(output@) == shown_headers(fields_view(fields@).take(i as int)),
    {
        let ghost before = output@;
        let name = fields[i].0.clone();
        let rendered = if is_sensitive_key(name.as_str()) {
            REDACTED.to_owned()
        } else {
            match read_header(&fields[i].1) {
                Some(text) => truncate_text(
                    redact_text(patterns, text.as_str()).as_str(),
                    MAX_HEADER_BYTES,
                ).0,
                None => "[BINARY HEADER]".to_owned(),
            }
        };
        output.push((name, Json::Str(rendered)));
        proof {
            let all = fields_view(fields@);
            assert(output@.drop_last() == before);
            assert(all.take(i + 1).drop_last() == all.take(i as int));
            assert(all.take(i + 1).last() == all[i as int]);
            assert(json_view(output@.last().1) == JsonView::Str(rendered@));
        }
    }
    assert(fields_view(fields@).take(fields.len() as int) == fields_view(fields@));
    Json::Object(output)
}

/// Makes request headers fit to be stored.
pub fn redact_headers(patterns: &RedactionPatterns, headers: &http::HeaderMap) -> (written: Json)
    ensures
        written@ == JsonView::Object(shown_headers(header_fields(*headers))),
{
    redact_header_fields(patterns, &fields_of(headers))
}

} // verus!
