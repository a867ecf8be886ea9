//! What is taken out of requests and messages before they are stored.
use crate::digest::{sha256, sha256_hex};
use crate::json::{items_view, json_view, members_view, number_of, whole_number, Json, JsonView};
use crate::text::{
    byte_len, chars_of, contains_part, has_part, hex, lower, lower_char, lower_text, lowered,
    same_text, text_of,
};
use crate::urls::{bare_urls, strip_urls};
use vstd::prelude::*;
use vstd::string::*;
use vstd::utf8::*;

verus! {

/// Credentials behind the name of an authentication scheme.
pub const AUTH_PATTERN: &'static str = r#"(?i)\b(Bearer|Basic|Token|ApiKey)\s+[^\s"',}\]]+"#;

/// Secrets behind their name, which may stand in quotes, and a colon or an equals sign.
pub const NAMED_PATTERN: &'static str =
    r#"(?i)((?:api[_-]?key|access[_-]?token|refresh[_-]?token|password|secret|cookie)["']?\s*[:=]\s*["']?)[^\s"',}]+"#;

/// What credentials behind the name of a scheme become.
pub const AUTH_REPLACEMENT: &'static str = "$1 [REDACTED]";

/// What a named secret becomes.
pub const NAMED_REPLACEMENT: &'static str = "$1[REDACTED]";

/// What the value of a sensitive field becomes.
pub const REDACTED: &'static str = "[REDACTED]";

/// `regex::Regex`: a compiled pattern.
#[verifier::external_type_specification]
#[verifier::external_body]
pub struct ExRegex(regex::Regex);

/// `regex::Error`: why a pattern does not compile.
#[verifier::external_type_specification]
#[verifier::external_body]
pub struct ExRegexError(regex::Error);

/// The pattern that a regex was compiled from.
pub uninterp spec fn regex_pattern(regex: regex::Regex) -> Seq<char>;

/// A text with every match of a pattern replaced, `$1` in the replacement standing for what
/// the first group of the match holds.
pub uninterp spec fn replaced(pattern: Seq<char>, text: Seq<char>, replacement: Seq<char>) -> Seq<
    char,
>;

/// Whether a pattern compiles: it is well-formed, and its program is within the size limit.
pub uninterp spec fn compiles(pattern: Seq<char>) -> bool;

/// `regex::Regex::new`: whether it compiles the pattern depends on the pattern alone, and where
/// it does, the regex is one of that pattern. This is claimed of the two patterns in use only:
/// one whose program is near the size limit may fit where pointers are short and not where they
/// are long. That they do compile is not claimed.
#[verifier::external_body]
fn compile(pattern: &str) -> (compiled: Result<regex::Regex, regex::Error>)
    requires
        pattern@ == AUTH_PATTERN@ || pattern@ == NAMED_PATTERN@,
    ensures
        compiled is Ok <==> compiles(pattern@),
        compiled matches Ok(regex) ==> regex_pattern(regex) == pattern@,
{
    regex::Regex::new(pattern)
}

/// `regex::Regex::replace_all`: the outcome depends on the pattern, the text and the
/// replacement alone.
#[verifier::external_body]
fn replace_all(regex: &regex::Regex, text: &str, replacement: &str) -> (written: String)
    ensures
        written@ == replaced(regex_pattern(*regex), text@, replacement@),
{
    regex.replace_all(text, replacement).into_owned()
}

/// The compiled patterns that texts are redacted with.
pub struct RedactionPatterns {
    auth: regex::Regex,
    named: regex::Regex,
}

impl RedactionPatterns {
    #[verifier::type_invariant]
    spec fn compiled(self) -> bool {
        regex_pattern(self.auth) == AUTH_PATTERN@ && regex_pattern(self.named) == NAMED_PATTERN@
    }

    /// The pattern for credentials that is in use.
    pub closed spec fn auth_source(self) -> Seq<char> {
        regex_pattern(self.auth)
    }

    /// The pattern for named secrets that is in use.
    pub closed spec fn named_source(self) -> Seq<char> {
        regex_pattern(self.named)
    }

    /// Compiles the patterns. That succeeds exactly where both of them compile; else the error is
    /// that of the first one that does not.
    pub fn new() -> (made: Result<RedactionPatterns, regex::Error>)
        ensures
            made is Ok <==> compiles(AUTH_PATTERN@) && compiles(NAMED_PATTERN@),
            made matches Ok(patterns) ==> patterns.auth_source() == AUTH_PATTERN@
                && patterns.named_source() == NAMED_PATTERN@,
    {
        let auth = match compile(AUTH_PATTERN) {
            Ok(regex) => regex,
            Err(error) => {
                return Err(error);
            },
        };
        let named = match compile(NAMED_PATTERN) {
            Ok(regex) => regex,
            Err(error) => {
                return Err(error);
            },
        };
        Ok(RedactionPatterns { auth, named })
    }
}

/// A text with the credentials and secrets that show in it replaced.
pub open spec fn without_secrets(text: Seq<char>) -> Seq<char> {
    replaced(
        NAMED_PATTERN@,
        replaced(AUTH_PATTERN@, text, AUTH_REPLACEMENT@),
        NAMED_REPLACEMENT@,
    )
}

/// A text with the credentials and secrets that show in it replaced, and with only the scheme,
/// the host, the port and the path left of every URL.
pub open spec fn redacted_text(text: Seq<char>) -> Seq<char> {
    bare_urls(without_secrets(text))
}

/// Replaces the credentials and secrets that show in a text, and leaves only the scheme, the host,
/// the port and the path of every URL.
pub fn redact_text(patterns: &RedactionPatterns, value: &str) -> (written: String)
    ensures
        written@ == redacted_text(value@),
{
    proof {
        use_type_invariant(patterns);
    }
    let redacted = replace_all(&patterns.auth, value, AUTH_REPLACEMENT);
    let replaced = replace_all(&patterns.named, redacted.as_str(), NAMED_REPLACEMENT);
    strip_urls(replaced.as_str())
}

/// Whether a character is an ASCII letter or digit.
pub open spec fn alphanumeric(ch: char) -> bool {
    ('0' <= ch <= '9') || ('a' <= ch <= 'z') || ('A' <= ch <= 'Z')
}

/// The ASCII letters and digits of a field's name, in lower case.
pub open spec fn normalized(key: Seq<char>) -> Seq<char> {
    key.filter(|ch: char| alphanumeric(ch)).map_values(|ch: char| lower(ch))
}

/// A word without the letters `s` that it ends with.
pub open spec fn singular(word: Seq<char>) -> Seq<char>
    decreases word.len(),
{
    if word.len() > 0 && word.last() == 's' {
        singular(word.drop_last())
    } else {
        word
    }
}

/// The names of fields whose values are secret.
pub open spec fn secret_name(name: Seq<char>) -> bool {
    ||| name == "key"@
    ||| name == "apikey"@
    ||| name == "xapikey"@
    ||| name == "accesskey"@
    ||| name == "secretkey"@
    ||| name == "privatekey"@
    ||| name == "clientsecret"@
    ||| name == "token"@
    ||| name == "authtoken"@
    ||| name == "accesstoken"@
    ||| name == "refreshtoken"@
    ||| name == "idtoken"@
    ||| name == "sessiontoken"@
    ||| name == "sessionid"@
    ||| name == "authorization"@
    ||| name == "proxyauthorization"@
    ||| name == "auth"@
    ||| name == "bearer"@
    ||| name == "password"@
    ||| name == "passwd"@
    ||| name == "pwd"@
    ||| name == "secret"@
    ||| name == "credential"@
    ||| name == "cookie"@
    ||| name == "setcookie"@
}

/// Whether a word for a secret stands in a name, which is in lower case.
pub open spec fn secret_part(name: Seq<char>) -> bool {
    ||| has_part(name, "token"@)
    ||| has_part(name, "secret"@)
    ||| has_part(name, "password"@)
    ||| has_part(name, "credential"@)
    ||| has_part(name, "apikey"@)
    ||| has_part(name, "api_key"@)
    ||| has_part(name, "api-key"@)
}

/// Whether the value of a field of that name is secret.
pub open spec fn sensitive(key: Seq<char>) -> bool {
    secret_name(singular(normalized(key))) || secret_part(lowered(key))
}

fn is_alphanumeric(ch: char) -> (is: bool)
    ensures
        is == alphanumeric(ch),
{
    ('0' <= ch && ch <= '9') || ('a' <= ch && ch <= 'z') || ('A' <= ch && ch <= 'Z')
}

fn normalize(key: &str) -> (word: Vec<char>)
    ensures
        word@ == normalized(key@),
{
    let chars = chars_of(key);
    let mut word: Vec<char> = Vec::new();
    for i in 0..chars.len()
        invariant
            chars@ == key@,
            word@ == normalized(key@.take(i as int)),
    {
        let ghost so_far = key@.take(i as int);
        let ghost keep = |ch: char| alphanumeric(ch);
        assert(key@.take(i + 1) == so_far.push(key@[i as int]));
        proof {
            so_far.lemma_filter_push(key@[i as int], keep);
        }
        if is_alphanumeric(chars[i]) {
            word.push(lower_char(chars[i]));
        }
        assert(word@ =~= normalized(key@.take(i + 1)));
    }
    assert(key@.take(chars.len() as int) == key@);
    word
}

fn is_secret_name(name: &str) -> (is: bool)
    ensures
        is == secret_name(name@),
{
    same_text(name, "key")
        || same_text(name, "apikey")
        || same_text(name, "xapikey")
        || same_text(name, "accesskey")
        || same_text(name, "secretkey")
        || same_text(name, "privatekey")
        || same_text(name, "clientsecret")
        || same_text(name, "token")
        || same_text(name, "authtoken")
        || same_text(name, "accesstoken")
        || same_text(name, "refreshtoken")
        || same_text(name, "idtoken")
        || same_text(name, "sessiontoken")
        || same_text(name, "sessionid")
        || same_text(name, "authorization")
        || same_text(name, "proxyauthorization")
        || same_text(name, "auth")
        || same_text(name, "bearer")
        || same_text(name, "password")
        || same_text(name, "passwd")
        || same_text(name, "pwd")
        || same_text(name, "secret")
        || same_text(name, "credential")
        || same_text(name, "cookie")
        || same_text(name, "setcookie")
}

fn is_secret_part(name: &Vec<char>) -> (is: bool)
    ensures
        is == secret_part(name@),
{
    contains_part(name, "token") || contains_part(name, "secret") || contains_part(name, "password")
        || contains_part(name, "credential") || contains_part(name, "apikey") || contains_part(
        name,
        "api_key",
    ) || contains_part(name, "api-key")
}

/// Tells whether the value of a field of that name is secret: a word for a secret stands in it, or
/// it is one of the names of secrets, all characters but ASCII letters and digits, and letters `s`
/// at the end, left aside. Case makes no difference.
pub fn is_sensitive_key(key: &str) -> (is: bool)
    ensures
        is == sensitive(key@),
{
    if is_secret_part(&chars_of(lower_text(key).as_str())) {
        return true;
    }
    let mut word = normalize(key);
    while word.len() > 0 && word[word.len() - 1] == 's'
        invariant
            !secret_part(lowered(key@)),
            singular(word@) == singular(normalized(key@)),
        ensures
            !secret_part(lowered(key@)),
            word@ == singular(normalized(key@)),
        decreases word.len(),
    {
        let ghost before = word@;
        word.pop();
        assert(word@ == before.drop_last());
    }
    is_secret_name(text_of(&word).as_str())
}

/// Whether a byte may stand in Base64, of either alphabet.
pub open spec fn base64_byte(byte: u8) -> bool {
    ||| 48 <= byte <= 57
    ||| 65 <= byte <= 90
    ||| 97 <= byte <= 122
    ||| byte == 43
    ||| byte == 47
    ||| byte == 61
    ||| byte == 45
    ||| byte == 95
}

/// From how many bytes on a text of Base64 characters counts as media.
pub const MEDIA_BYTES: usize = 4096;

/// Whether a text is a `data:` URL, or long and made of Base64 characters.
pub open spec fn large_media(text: Seq<char>) -> bool {
    ||| "data:"@.is_prefix_of(text)
    ||| byte_len(text) >= MEDIA_BYTES && forall|i: int|
        0 <= i < encode_utf8(text).len() ==> base64_byte(#[trigger] encode_utf8(text)[i])
}

fn begins_with(text: &Vec<char>, head: &str) -> (does: bool)
    ensures
        does == head@.is_prefix_of(text@),
{
    let expected = chars_of(head);
    if text.len() < expected.len() {
        return false;
    }
    for i in 0..expected.len()
        invariant
            expected@ == head@,
            expected.len() <= text.len(),
            forall|j: int| 0 <= j < i ==> text@[j] == head@[j],
    {
        if text[i] != expected[i] {
            return false;
        }
    }
    true
}

/// Tells whether a text is a `data:` URL, or long and made of Base64 characters.
pub fn is_large_media_value(value: &str) -> (is: bool)
    ensures
        is == large_media(value@),
{
    if begins_with(&chars_of(value), "data:") {
        return true;
    }
    let bytes = value.as_bytes();
    if bytes.len() < MEDIA_BYTES {
        return false;
    }
    for i in 0..bytes.len()
        invariant
            bytes@ == encode_utf8(value@),
            !"data:"@.is_prefix_of(value@),
            forall|j: int| 0 <= j < i ==> base64_byte(#[trigger] bytes@[j]),
    {
        let byte = bytes[i];
        if !((48 <= byte && byte <= 57) || (65 <= byte && byte <= 90) || (97 <= byte && byte
            <= 122) || byte == 43 || byte == 47 || byte == 61 || byte == 45 || byte == 95) {
            assert(!base64_byte(encode_utf8(value@)[i as int]));
            return false;
        }
    }
    true
}

/// How many characters of a type that a `data:` URL declares are believed.
pub const MAX_MIME_CHARS: usize = 255;

/// What stands before the first semicolon or comma, if there is one.
pub open spec fn declared(text: Seq<char>) -> Option<Seq<char>>
    decreases text.len(),
{
    if text.len() == 0 {
        None
    } else if text[0] == ';' || text[0] == ',' {
        Some(Seq::empty())
    } else {
        match declared(text.drop_first()) {
            Some(rest) => Some(seq![text[0]] + rest),
            None => None,
        }
    }
}

/// Whether a character may stand in the name of a MIME type.
pub open spec fn mime_char(ch: char) -> bool {
    alphanumeric(ch) || ch == '/' || ch == '+' || ch == '-' || ch == '.' || ch == '_'
}

/// Whether characters may be the name of a MIME type.
pub open spec fn mime_name(kind: Seq<char>) -> bool {
    kind.len() <= MAX_MIME_CHARS && forall|i: int|
        0 <= i < kind.len() ==> mime_char(#[trigger] kind[i])
}

/// The MIME type of a text of media: the one that a `data:` URL declares, plain text where it
/// declares none, and otherwise that of unknown bytes.
pub open spec fn mime_type(text: Seq<char>) -> Seq<char> {
    if "data:"@.is_prefix_of(text) {
        match declared(text.skip(5)) {
            Some(kind) => if kind.len() == 0 {
                "text/plain"@
            } else if mime_name(kind) {
                kind
            } else {
                "application/octet-stream"@
            },
            None => "application/octet-stream"@,
        }
    } else {
        "application/octet-stream"@
    }
}

/// Reads what stands from a place on before the first semicolon or comma, if there is one.
fn read_declared(chars: &Vec<char>, from: usize) -> (kind: Option<Vec<char>>)
    requires
        from <= chars.len(),
    ensures
        match kind {
            Some(read) => declared(chars@.skip(from as int)) == Some(read@),
            None => declared(chars@.skip(from as int)) is None,
        },
{
    let mut kind: Vec<char> = Vec::new();
    let ghost whole = declared(chars@.skip(from as int));
    let mut i: usize = from;
    while i < chars.len()
        invariant
            from <= i <= chars.len(),
            whole == declared(chars@.skip(from as int)),
            whole == match declared(chars@.skip(i as int)) {
                Some(rest) => Some(kind@ + rest),
                None => None,
            },
        decreases chars.len() - i,
    {
        let ghost here = chars@.skip(i as int);
        assert(here.drop_first() == chars@.skip(i + 1));
        if chars[i] == ';' || chars[i] == ',' {
            assert(kind@ + Seq::<char>::empty() == kind@);
            return Some(kind);
        }
        let ghost before = kind@;
        kind.push(chars[i]);
        proof {
            if declared(chars@.skip(i + 1)) is Some {
                let rest = declared(chars@.skip(i + 1))->0;
                assert(before + (seq![here[0]] + rest) == kind@ + rest);
            }
        }
        i = i + 1;
    }
    None
}

/// Tells whether characters may be the name of a MIME type.
fn is_mime_name(kind: &Vec<char>) -> (is: bool)
    ensures
        is == mime_name(kind@),
{
    if kind.len() > MAX_MIME_CHARS {
        return false;
    }
    for i in 0..kind.len()
        invariant
            forall|j: int| 0 <= j < i ==> mime_char(#[trigger] kind@[j]),
    {
        let ch = kind[i];
        if !(('0' <= ch && ch <= '9') || ('a' <= ch && ch <= 'z') || ('A' <= ch && ch <= 'Z') || ch
            == '/' || ch == '+' || ch == '-' || ch == '.' || ch == '_') {
            assert(!mime_char(kind@[i as int]));
            return false;
        }
    }
    true
}

/// Tells the MIME type of a text of media.
pub fn find_mime_type(value: &str) -> (found: String)
    ensures
        found@ == mime_type(value@),
{
    let chars = chars_of(value);
    if !begins_with(&chars, "data:") {
        return "application/octet-stream".to_owned();
    }
    proof {
        reveal_strlit("data:");
    }
    match read_declared(&chars, 5) {
        Some(kind) => if kind.len() == 0 {
            "text/plain".to_owned()
        } else if is_mime_name(&kind) {
            text_of(&kind)
        } else {
            "application/octet-stream".to_owned()
        },
        None => "application/octet-stream".to_owned(),
    }
}

/// What stands for a text of media: its type, how long it was and its digest.
pub open spec fn media_placeholder(text: Seq<char>) -> JsonView {
    JsonView::Object(
        Map::empty().insert("omitted"@, JsonView::Bool(true)).insert(
            "kind"@,
            JsonView::Str("media-or-base64"@),
        ).insert("mimeType"@, JsonView::Str(mime_type(text))).insert(
            "originalBytes"@,
            JsonView::Number(whole_number(byte_len(text) as int)),
        ).insert("sha256"@, JsonView::Str(hex(sha256(encode_utf8(text))))),
    )
}

/// A value as it may be stored: every member with a sensitive name holds `[REDACTED]`, media
/// are left out, and all other texts are redacted. Everything else stays.
pub open spec fn redacted(value: JsonView) -> JsonView
    decreases value,
{
    match value {
        JsonView::Object(members) => JsonView::Object(
            Map::new(
                |name: Seq<char>| members.contains_key(name),
                |name: Seq<char>|
                    if sensitive(name) {
                        JsonView::Str(REDACTED@)
                    } else if members.contains_key(name) {
                        redacted(members[name])
                    } else {
                        JsonView::Null
                    },
            ),
        ),
        JsonView::Array(items) => JsonView::Array(
            Seq::new(
                items.len(),
                |i: int|
                    if 0 <= i < items.len() {
                        redacted(items[i])
                    } else {
                        JsonView::Null
                    },
            ),
        ),
        JsonView::Str(text) => if large_media(text) {
            media_placeholder(text)
        } else {
            JsonView::Str(redacted_text(text))
        },
        _ => value,
    }
}

/// The members of a redacted object.
pub open spec fn redacted_members(members: Map<Seq<char>, JsonView>) -> Map<Seq<char>, JsonView> {
    Map::new(
        |name: Seq<char>| members.contains_key(name),
        |name: Seq<char>| redacted_member(name, members[name]),
    )
}

/// A member of a redacted object.
pub open spec fn redacted_member(name: Seq<char>, value: JsonView) -> JsonView {
    if sensitive(name) {
        JsonView::Str(REDACTED@)
    } else {
        redacted(value)
    }
}

proof fn lemma_redacted_object(members: Map<Seq<char>, JsonView>)
    ensures
        redacted(JsonView::Object(members)) == JsonView::Object(redacted_members(members)),
{
    assert(redacted(JsonView::Object(members))->Object_0 =~= redacted_members(members));
}

/// What stands for a text of media.
fn omit_media(text: &str) -> (placeholder: Json)
    ensures
        placeholder@ == media_placeholder(text@),
{
    let bytes = text.as_bytes();
    let mut members: Vec<(String, Json)> = Vec::new();
    members.push(("omitted".to_owned(), Json::Bool(true)));
    members.push(("kind".to_owned(), Json::Str("media-or-base64".to_owned())));
    members.push(("mimeType".to_owned(), Json::Str(find_mime_type(text))));
    members.push(("originalBytes".to_owned(), Json::Number(number_of(bytes.len() as i128))));
    members.push(("sha256".to_owned(), Json::Str(sha256_hex(bytes))));
    proof {
        reveal_with_fuel(members_view, 6);
        let all = members@;
        assert(all.drop_last().drop_last().drop_last().drop_last().drop_last().len() == 0);
        assert(json_view(all[0].1) == JsonView::Bool(true));
        assert(members_view(all) =~= Map::empty().insert(all[0].0@, json_view(all[0].1)).insert(
            all[1].0@,
            json_view(all[1].1),
        ).insert(all[2].0@, json_view(all[2].1)).insert(all[3].0@, json_view(all[3].1)).insert(
            all[4].0@,
            json_view(all[4].1),
        ));
    }
    Json::Object(members)
}

/// Makes a value fit to be stored.
pub fn redact_value(patterns: &RedactionPatterns, value: &Json) -> (written: Json)
    ensures
        written@ == redacted(value@),
    decreases *value,
{
    match value {
        Json::Object(members) => {
            let mut output: Vec<(String, Json)> = Vec::new();
            proof {
                lemma_redacted_object(members_view(members@));
                assert(members@.take(0) == Seq::<(String, Json)>::empty());
                assert(members_view(output@) =~= redacted_members(members_view(members@.take(0))));
            }
            for i in 0..members.len()
                invariant
                    *value == Json::Object(*members),
                    members_view(output@) == redacted_members(members_view(members@.take(i as int))),
            {
                let ghost before = output@;
                let ghost so_far = members_view(members@.take(i as int));
                assert(decreases_to!(*value => value->Object_0));
                assert(decreases_to!(*members => members@));
                assert(decreases_to!(members@ => members@[i as int]));
                assert(decreases_to!(members@[i as int] => members@[i as int].1));
                let name = members[i].0.clone();
                if is_sensitive_key(name.as_str()) {
                    output.push((name, Json::Str(REDACTED.to_owned())));
                } else {
                    output.push((name, redact_value(patterns, &members[i].1)));
                }
                proof {
                    let (key, inner) = (members@[i as int].0@, members@[i as int].1@);
                    assert(output@.drop_last() == before);
                    assert(members@.take(i + 1).drop_last() == members@.take(i as int));
                    assert(json_view(output@.last().1) == redacted_member(key, inner));
                    assert(members_view(output@) =~= redacted_members(so_far.insert(key, inner)));
                }
            }
            assert(members@.take(members.len() as int) == members@);
            Json::Object(output)
        },
        Json::Array(items) => {
            let mut output: Vec<Json> = Vec::new();
            for i in 0..items.len()
                invariant
                    *value == Json::Array(*items),
                    output.len() == i,
                    forall|j: int| 0 <= j < i ==> (#[trigger] output@[j])@ == redacted(items@[j]@),
            {
                assert(decreases_to!(*value => value->Array_0));
                assert(decreases_to!(*items => items@));
                assert(decreases_to!(items@ => items@[i as int]));
                output.push(redact_value(patterns, &items[i]));
            }
            assert(items_view(output@) =~= redacted(value@)->Array_0);
            Json::Array(output)
        },
        Json::Str(text) => {
            if is_large_media_value(text.as_str()) {
                omit_media(text.as_str())
            } else {
                Json::Str(redact_text(patterns, text.as_str()))
            }
        },
        _ => value.duplicate(),
    }
}

} // verus!
