//! What redaction promises of every value.
use crate::digest::sha256;
use crate::headers::{header_text, shown_header, shown_headers, MAX_HEADER_BYTES};
use crate::json::JsonView;
use crate::redact::{
    alphanumeric, large_media, mime_type, normalized, redacted, redacted_text, secret_part,
    sensitive, singular, without_secrets, REDACTED,
};
use crate::sequences::lemma_filter_all;
use crate::text::{
    byte_len, has_part, hex, hex_digit, law_bounded_text_fits, lowered, part_at,
};
use crate::urls::{behind, law_urls_are_bare, neat, UrlPart};
use vstd::prelude::*;
use vstd::string::*;
use vstd::utf8::*;

verus! {

/// Whether every member with a sensitive name, at any depth, holds `[REDACTED]`.
pub open spec fn sealed(value: JsonView) -> bool
    decreases value,
{
    match value {
        JsonView::Object(members) => forall|name: Seq<char>|
            members.contains_key(name) ==> (sensitive(name) ==> members[name] == JsonView::Str(
                REDACTED@,
            )) && sealed(#[trigger] members[name]),
        JsonView::Array(items) => forall|i: int|
            0 <= i < items.len() ==> sealed(#[trigger] items[i]),
        _ => true,
    }
}

/// A word of ASCII letters and digits is normalized by lowering its letters.
pub proof fn lemma_normalized_word(word: Seq<char>)
    requires
        forall|i: int| 0 <= i < word.len() ==> alphanumeric(#[trigger] word[i]),
    ensures
        normalized(word) == lowered(word),
{
    let keep = |ch: char| alphanumeric(ch);
    lemma_filter_all(word, keep);
    assert(word.filter(keep) == word);
}

/// Characters do not stand in a text that lacks one of them.
proof fn lemma_lacks(text: Seq<char>, part: Seq<char>, k: int)
    requires
        0 <= k < part.len(),
        forall|i: int| 0 <= i < text.len() ==> #[trigger] text[i] != part[k],
    ensures
        !has_part(text, part),
{
    if has_part(text, part) {
        let i = choose|i: int| #[trigger] part_at(text, part, i);
        assert(text.subrange(i, i + part.len())[k] == text[i + k]);
        assert(text[i + k] != part[k]);
    }
}

/// None of the words for secrets stands in a name that lacks a letter of each.
pub proof fn lemma_no_secret_part(name: Seq<char>)
    requires
        forall|i: int| 0 <= i < name.len() ==> #[trigger] name[i] != 'k' || name.len() < 5,
        forall|i: int| 0 <= i < name.len() ==> #[trigger] name[i] != 'c',
        forall|i: int| 0 <= i < name.len() ==> #[trigger] name[i] != 'w',
    ensures
        !secret_part(name),
{
    reveal_strlit("token");
    reveal_strlit("secret");
    reveal_strlit("password");
    reveal_strlit("credential");
    reveal_strlit("apikey");
    reveal_strlit("api_key");
    reveal_strlit("api-key");
    if name.len() >= 5 {
        lemma_lacks(name, "token"@, 2);
        lemma_lacks(name, "apikey"@, 3);
        lemma_lacks(name, "api_key"@, 4);
        lemma_lacks(name, "api-key"@, 4);
    } else {
        assert(!has_part(name, "token"@));
        assert(!has_part(name, "apikey"@));
        assert(!has_part(name, "api_key"@));
        assert(!has_part(name, "api-key"@));
    }
    lemma_lacks(name, "secret"@, 2);
    lemma_lacks(name, "password"@, 4);
    lemma_lacks(name, "credential"@, 0);
}

/// None of the names in a placeholder for media is sensitive.
proof fn lemma_placeholder_names()
    ensures
        !sensitive("mimeType"@),
        !sensitive("omitted"@),
        !sensitive("kind"@),
        !sensitive("originalBytes"@),
        !sensitive("sha256"@),
{
    reveal_strlit("mimeType");
    reveal_strlit("omitted");
    reveal_strlit("kind");
    reveal_strlit("originalBytes");
    reveal_strlit("sha256");
    reveal_strlit("key");
    reveal_strlit("apikey");
    reveal_strlit("xapikey");
    reveal_strlit("accesskey");
    reveal_strlit("secretkey");
    reveal_strlit("privatekey");
    reveal_strlit("clientsecret");
    reveal_strlit("token");
    reveal_strlit("authtoken");
    reveal_strlit("accesstoken");
    reveal_strlit("refreshtoken");
    reveal_strlit("idtoken");
    reveal_strlit("sessiontoken");
    reveal_strlit("sessionid");
    reveal_strlit("authorization");
    reveal_strlit("proxyauthorization");
    reveal_strlit("auth");
    reveal_strlit("bearer");
    reveal_strlit("password");
    reveal_strlit("passwd");
    reveal_strlit("pwd");
    reveal_strlit("secret");
    reveal_strlit("credential");
    reveal_strlit("cookie");
    reveal_strlit("setcookie");
    reveal_with_fuel(singular, 3);
    lemma_normalized_word("mimeType"@);
    lemma_normalized_word("omitted"@);
    lemma_normalized_word("kind"@);
    lemma_normalized_word("originalBytes"@);
    lemma_normalized_word("sha256"@);
    let long = normalized("originalBytes"@);
    assert(long.last() == 's');
    assert(long.drop_last().last() == 'e');
    assert(singular(long) == long.drop_last());
    assert(long.drop_last()[0] == 'o');
    lemma_no_secret_part(normalized("mimeType"@));
    lemma_no_secret_part(normalized("omitted"@));
    lemma_no_secret_part(normalized("kind"@));
    lemma_no_secret_part(long);
    lemma_no_secret_part(normalized("sha256"@));
    assert(normalized("mimeType"@)[0] == 'm');
    assert(normalized("omitted"@)[0] == 'o');
    assert(normalized("kind"@)[0] == 'k' && normalized("kind"@)[1] == 'i');
    assert(normalized("sha256"@)[0] == 's' && normalized("sha256"@)[1] == 'h');
}

/// Whatever a value holds, each of its members with a sensitive name is stored as `[REDACTED]`,
/// however deep it stands.
pub proof fn law_redaction_seals(value: JsonView)
    ensures
        sealed(redacted(value)),
    decreases value,
{
    let out = redacted(value);
    match value {
        JsonView::Object(members) => {
            let found = out->Object_0;
            assert forall|name: Seq<char>| found.contains_key(name) implies (sensitive(name)
                ==> found[name] == JsonView::Str(REDACTED@)) && sealed(#[trigger] found[name]) by {
                if !sensitive(name) {
                    law_redaction_seals(members[name]);
                }
            }
        },
        JsonView::Array(items) => {
            let found = out->Array_0;
            assert forall|i: int| 0 <= i < found.len() implies sealed(#[trigger] found[i]) by {
                law_redaction_seals(items[i]);
            }
        },
        JsonView::Str(text) => {
            lemma_placeholder_names();
            if large_media(text) {
                let found = out->Object_0;
                assert forall|name: Seq<char>| found.contains_key(name) implies !sensitive(name)
                    && sealed(#[trigger] found[name]) by {}
            }
        },
        _ => {},
    }
}

/// Whether redaction finds nothing in a value: no sensitive name, no media, and no text that
/// holds a credential or a secret.
pub open spec fn harmless(value: JsonView) -> bool
    decreases value,
{
    match value {
        JsonView::Object(members) => forall|name: Seq<char>|
            members.contains_key(name) ==> !sensitive(name) && harmless(#[trigger] members[name]),
        JsonView::Array(items) => forall|i: int|
            0 <= i < items.len() ==> harmless(#[trigger] items[i]),
        JsonView::Str(text) => !large_media(text) && redacted_text(text) == text,
        _ => true,
    }
}

/// A value in which there is nothing to redact is stored as it is.
pub proof fn law_redaction_keeps_the_rest(value: JsonView)
    requires
        harmless(value),
    ensures
        redacted(value) == value,
    decreases value,
{
    match value {
        JsonView::Object(members) => {
            let found = redacted(value)->Object_0;
            assert forall|name: Seq<char>| members.contains_key(name) implies
                #[trigger] found[name] == members[name] by {
                assert(harmless(members[name]));
                law_redaction_keeps_the_rest(members[name]);
            }
            assert(found =~= members);
        },
        JsonView::Array(items) => {
            let found = redacted(value)->Array_0;
            assert forall|i: int| 0 <= i < items.len() implies #[trigger] found[i] == items[i] by {
                law_redaction_keeps_the_rest(items[i]);
            }
            assert(found =~= items);
        },
        _ => {},
    }
}

/// An object keeps its names and an array its length.
pub proof fn law_redaction_keeps_the_shape(value: JsonView)
    ensures
        value matches JsonView::Object(members) ==> redacted(value) is Object && redacted(
            value,
        )->Object_0.dom() == members.dom(),
        value matches JsonView::Array(items) ==> redacted(value) is Array && redacted(
            value,
        )->Array_0.len() == items.len(),
{
    if value is Object {
        assert(redacted(value)->Object_0.dom() =~= value->Object_0.dom());
    }
}

/// A name is as sensitive in the plural as in the singular.
pub proof fn law_plural_names(name: Seq<char>)
    ensures
        sensitive(name.push('s')) == sensitive(name),
{
    let keep = |ch: char| alphanumeric(ch);
    name.lemma_filter_push('s', keep);
    assert(normalized(name.push('s')) =~= normalized(name).push('s'));
    assert(normalized(name).push('s').drop_last() == normalized(name));
    reveal_strlit("token");
    reveal_strlit("secret");
    reveal_strlit("password");
    reveal_strlit("credential");
    reveal_strlit("apikey");
    reveal_strlit("api_key");
    reveal_strlit("api-key");
    assert(lowered(name.push('s')) =~= lowered(name).push('s'));
    lemma_part_before_s(lowered(name), "token"@);
    lemma_part_before_s(lowered(name), "secret"@);
    lemma_part_before_s(lowered(name), "password"@);
    lemma_part_before_s(lowered(name), "credential"@);
    lemma_part_before_s(lowered(name), "apikey"@);
    lemma_part_before_s(lowered(name), "api_key"@);
    lemma_part_before_s(lowered(name), "api-key"@);
}

/// One more letter `s` adds no word that does not end with it.
proof fn lemma_part_before_s(text: Seq<char>, part: Seq<char>)
    requires
        part.len() > 0,
        part.last() != 's',
    ensures
        has_part(text.push('s'), part) == has_part(text, part),
{
    let longer = text.push('s');
    if has_part(longer, part) {
        let i = choose|i: int| #[trigger] part_at(longer, part, i);
        assert(longer.subrange(i, i + part.len())[part.len() - 1] == longer[i + part.len() - 1]);
        assert(i + part.len() <= text.len());
        assert(text.subrange(i, i + part.len()) =~= part);
        assert(part_at(text, part, i));
    }
    if has_part(text, part) {
        let i = choose|i: int| #[trigger] part_at(text, part, i);
        assert(longer.subrange(i, i + part.len()) =~= part);
        assert(part_at(longer, part, i));
    }
}

/// Every header field with a sensitive name is stored as `[REDACTED]`, and every field is
/// stored under its name.
pub proof fn law_headers_are_sealed(fields: Seq<(Seq<char>, Seq<u8>)>)
    ensures
        forall|i: int|
            0 <= i < fields.len() ==> shown_headers(fields).contains_key(
                (#[trigger] fields[i]).0,
            ),
        forall|name: Seq<char>|
            #[trigger] shown_headers(fields).contains_key(name) && sensitive(name)
                ==> shown_headers(fields)[name] == JsonView::Str(REDACTED@),
        sealed(JsonView::Object(shown_headers(fields))),
    decreases fields.len(),
{
    if fields.len() > 0 {
        let before = shown_headers(fields.drop_last());
        law_headers_are_sealed(fields.drop_last());
        assert forall|i: int| 0 <= i < fields.len() implies shown_headers(fields).contains_key(
            (#[trigger] fields[i]).0,
        ) by {
            if i < fields.len() - 1 {
                assert(fields.drop_last()[i] == fields[i]);
            }
        }
        assert forall|name: Seq<char>| shown_headers(fields).contains_key(name) implies (sensitive(
            name,
        ) ==> shown_headers(fields)[name] == JsonView::Str(REDACTED@)) && sealed(
            #[trigger] shown_headers(fields)[name],
        ) by {
            if name != fields.last().0 {
                assert(sealed(before[name]));
            }
        }
    }
}

/// What is stored of a header field takes few bytes, however long the field is.
pub proof fn law_headers_are_short(name: Seq<char>, bytes: Seq<u8>)
    ensures
        byte_len(shown_header(name, bytes)) <= MAX_HEADER_BYTES + 12,
{
    reveal_strlit("[REDACTED]");
    reveal_strlit("[BINARY HEADER]");
    is_ascii_chars_encode_utf8("[REDACTED]"@);
    is_ascii_chars_encode_utf8("[BINARY HEADER]"@);
    if header_text(bytes) is Some {
        law_bounded_text_fits(redacted_text(header_text(bytes)->0), MAX_HEADER_BYTES as nat);
    }
}

/// Whether no URL in any text of a value names anyone before its host, or has a query or a
/// fragment.
pub open spec fn bare_texts(value: JsonView) -> bool
    decreases value,
{
    match value {
        JsonView::Object(members) => forall|name: Seq<char>|
            members.contains_key(name) ==> bare_texts(#[trigger] members[name]),
        JsonView::Array(items) => forall|i: int|
            0 <= i < items.len() ==> bare_texts(#[trigger] items[i]),
        JsonView::Str(text) => neat(text, UrlPart::Outside),
        _ => true,
    }
}

/// There is no URL in a text without a colon.
proof fn lemma_no_colon(text: Seq<char>, part: UrlPart)
    requires
        part == UrlPart::Outside || part == UrlPart::Scheme,
        forall|i: int| 0 <= i < text.len() ==> #[trigger] text[i] != ':',
    ensures
        neat(text, part),
    decreases text.len(),
{
    if text.len() > 0 {
        let rest = text.drop_first();
        assert forall|i: int| 0 <= i < rest.len() implies #[trigger] rest[i] != ':' by {
            assert(rest[i] == text[i + 1]);
        }
        lemma_no_colon(rest, behind(text[0], part));
    }
}

/// There is no colon among hexadecimal digits.
proof fn lemma_hex_colon(bytes: Seq<u8>)
    ensures
        forall|i: int| 0 <= i < hex(bytes).len() ==> #[trigger] hex(bytes)[i] != ':',
    decreases bytes.len(),
{
    if bytes.len() > 0 {
        let before = hex(bytes.drop_last());
        let (high, low) = (bytes.last() as int / 16, bytes.last() as int % 16);
        lemma_hex_colon(bytes.drop_last());
        assert(0 <= high < 16 && 0 <= low < 16);
        assert(hex_digit(high) != ':' && hex_digit(low) != ':');
        assert forall|i: int| 0 <= i < hex(bytes).len() implies #[trigger] hex(bytes)[i] != ':' by {
            if i < before.len() {
                assert(hex(bytes)[i] == before[i]);
            }
        }
    }
}

/// No URL in a redacted value names anyone before its host, or has a query or a fragment, however
/// deep it stands.
pub proof fn law_redacted_values_have_bare_urls(value: JsonView)
    ensures
        bare_texts(redacted(value)),
    decreases value,
{
    let out = redacted(value);
    reveal_strlit("[REDACTED]");
    lemma_no_colon(REDACTED@, UrlPart::Outside);
    match value {
        JsonView::Object(members) => {
            let found = out->Object_0;
            assert forall|name: Seq<char>| found.contains_key(name) implies bare_texts(
                #[trigger] found[name],
            ) by {
                if !sensitive(name) {
                    law_redacted_values_have_bare_urls(members[name]);
                }
            }
        },
        JsonView::Array(items) => {
            let found = out->Array_0;
            assert forall|i: int| 0 <= i < found.len() implies bare_texts(#[trigger] found[i]) by {
                law_redacted_values_have_bare_urls(items[i]);
            }
        },
        JsonView::Str(text) => {
            if large_media(text) {
                let found = out->Object_0;
                let digest = hex(sha256(encode_utf8(text)));
                reveal_strlit("media-or-base64");
                reveal_strlit("text/plain");
                reveal_strlit("application/octet-stream");
                lemma_no_colon("media-or-base64"@, UrlPart::Outside);
                lemma_no_colon(mime_type(text), UrlPart::Outside);
                lemma_hex_colon(sha256(encode_utf8(text)));
                lemma_no_colon(digest, UrlPart::Outside);
                assert forall|name: Seq<char>| found.contains_key(name) implies bare_texts(
                    #[trigger] found[name],
                ) by {}
            } else {
                law_redacted_urls_are_bare(text);
            }
        },
        _ => {},
    }
}

/// No URL in a redacted text names anyone before its host, or has a query or a fragment.
pub proof fn law_redacted_urls_are_bare(text: Seq<char>)
    ensures
        neat(redacted_text(text), UrlPart::Outside),
{
    law_urls_are_bare(without_secrets(text));
}

} // verus!
