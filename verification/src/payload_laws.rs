//! What is stored of payloads, and what is read of what is stored.
use crate::digest::sha256;
use crate::json::{json_bytes, json_parse, optional_json, reads_back, whole_number, Json, JsonView};
use crate::payload::{
    bound_payload, bounded_bytes, cut_note, decode_payload, encode_payload, encoded, frame_of,
    may_encode, optional_payload, preview_size, read_payload, utf8_lossy, zstd_decode, zstd_encode,
    EncodedPayload,
};
use crate::records::{optional_text, WriteCommand};
use crate::redact::{normalized, redact_value, redacted, sensitive, singular, RedactionPatterns};
use crate::redact_laws::{lemma_no_secret_part, lemma_normalized_word};
use crate::store::{begin_payload, prepare, CommandView, Outcome};
use crate::text::{bounded_text, hex};
use vstd::prelude::*;
use vstd::string::*;
use vstd::utf8::*;

verus! {

/// Whether this is what is stored of a JSON text within the limit: the text itself where it takes
/// no more than 4096 bytes, and else the text or a shorter zstd frame of level one that holds it,
/// with its length and its digest.
pub open spec fn stores_text(text: Seq<u8>, kept: EncodedPayload<String, Vec<u8>>) -> bool {
    &&& kept.original_bytes == text.len()
    &&& kept.sha256@ == hex(sha256(text))
    &&& !kept.truncated
    &&& kept.stored_bytes == kept.body@.len()
    &&& text.len() <= 4096 ==> kept.encoding@ == "identity"@
    &&& kept.encoding@ == "identity"@ || kept.encoding@ == "zstd"@
    &&& kept.encoding@ == "identity"@ ==> kept.body@ == text
    &&& kept.encoding@ == "zstd"@ ==> {
        &&& kept.body@ == zstd_encode(text, 1)
        &&& zstd_decode(kept.body@) == Some(text)
        &&& kept.body@.len() < text.len()
    }
}

/// Whether this is what is stored of a value, as far as its text takes no more than 1048576 bytes;
/// a value without JSON text is not stored.
pub open spec fn stores_value(
    value: JsonView,
    stored: Option<EncodedPayload<String, Vec<u8>>>,
) -> bool {
    &&& json_bytes(value) is None ==> stored is None
    &&& json_bytes(value) matches Some(text) ==> text.len() <= 1_048_576 ==> stored is Some
        && stores_text(text, stored->0)
    &&& json_bytes(value) matches Some(text) ==> text.len() > 1_048_576 && stored is Some
        ==> stored->0.truncated
}

/// A value is stored redacted, as its JSON text.
pub proof fn law_payloads_within_the_limit(
    patterns: &RedactionPatterns,
    payload: Json,
    value: Json,
    stored: Option<EncodedPayload<String, Vec<u8>>>,
)
    requires
        call_ensures(encode_payload, (patterns, &payload), stored),
        call_ensures(redact_value, (patterns, &payload), value),
    ensures
        stores_value(value@, stored),
{
    lemma_stores_value(value@, stored);
}

proof fn lemma_stores_value(value: JsonView, stored: Option<EncodedPayload<String, Vec<u8>>>)
    requires
        may_encode(value, optional_payload(stored)),
    ensures
        stores_value(value, stored),
{
    lemma_encodings();
    if stored is Some {
        assert(optional_payload(stored) == Some(stored->0@));
    }
}

proof fn lemma_encodings()
    ensures
        "zstd"@ != "identity"@,
{
    reveal_strlit("zstd");
    reveal_strlit("identity");
    assert("zstd"@.len() == 4 && "identity"@.len() == 8);
}

/// A number halved so often.
pub open spec fn halved(number: nat, times: nat) -> nat
    decreases times,
{
    if times == 0 {
        number
    } else {
        halved(number / 2, (times - 1) as nat)
    }
}

/// What is stored in place of a text over the limit, where at most so many bytes of it are shown.
pub open spec fn note_on(text: Seq<u8>, shown: nat) -> JsonView {
    JsonView::Object(
        map![
            "truncated"@ => JsonView::Bool(true),
            "originalBytes"@ => JsonView::Number(whole_number(text.len() as int)),
            "sha256"@ => JsonView::Str(hex(sha256(text))),
            "preview"@ => JsonView::Str(bounded_text(utf8_lossy(text.take(1_048_576)), shown)),
        ],
    )
}

/// Whether a note on a text, with at most so many bytes of it shown, is within the limit.
pub open spec fn note_fits(text: Seq<u8>, shown: nat) -> bool {
    json_bytes(note_on(text, shown)) matches Some(bytes) && bytes.len() <= 1_048_576
}

proof fn lemma_note_on(text: Seq<u8>, shown: nat)
    ensures
        note_on(text, shown) == cut_note(text, shown),
{
    reveal_strlit("truncated");
    reveal_strlit("originalBytes");
    reveal_strlit("sha256");
    reveal_strlit("preview");
    assert("truncated"@.len() == 9 && "originalBytes"@.len() == 13 && "sha256"@.len() == 6
        && "preview"@.len() == 7);
    assert(note_on(text, shown)->Object_0 =~= cut_note(text, shown)->Object_0);
}

/// How many bytes a note shows: the most that fit when they are halved again and again.
proof fn lemma_preview(text: Seq<u8>, start: nat)
    ensures
        preview_size(text, start) matches Some(size) ==> exists|times: nat|
            {
                &&& size == #[trigger] halved(start, times)
                &&& note_fits(text, size)
                &&& forall|fewer: nat|
                    fewer < times ==> !note_fits(text, #[trigger] halved(start, fewer))
            },
    decreases start,
{
    lemma_note_on(text, start);
    if preview_size(text, start) is Some {
        let size = preview_size(text, start)->0;
        if note_fits(text, start) {
            assert(halved(start, 0) == size);
        } else {
            lemma_preview(text, start / 2);
            let times = choose|times: nat|
                {
                    &&& size == #[trigger] halved(start / 2, times)
                    &&& note_fits(text, size)
                    &&& forall|fewer: nat|
                        fewer < times ==> !note_fits(text, #[trigger] halved(start / 2, fewer))
                };
            assert(halved(start, times + 1) == size);
            assert forall|fewer: nat| fewer < times + 1 implies !note_fits(
                text,
                #[trigger] halved(start, fewer),
            ) by {
                if fewer > 0 {
                    assert(halved(start, fewer) == halved(start / 2, (fewer - 1) as nat));
                }
            }
        }
    }
}

/// A note is found where each has JSON text, and one that shows nothing is within the limit.
proof fn lemma_preview_found(text: Seq<u8>, start: nat)
    requires
        forall|shown: nat| json_bytes(#[trigger] note_on(text, shown)) is Some,
        note_fits(text, 0),
    ensures
        preview_size(text, start) is Some,
    decreases start,
{
    lemma_note_on(text, start);
    assert(json_bytes(note_on(text, start)) is Some);
    if start > 0 {
        lemma_preview_found(text, start / 2);
    }
}

/// In place of a text of more than 1048576 bytes a note is stored that says how long it was, gives
/// its digest, and shows how it begins: at most 1048320 bytes of it, or as many as fit when these
/// are halved again and again. The note itself takes no more than the limit. A shorter text is
/// kept.
pub proof fn law_texts_over_the_limit(serialized: Vec<u8>, bounded: Option<(Vec<u8>, bool)>)
    requires
        call_ensures(bound_payload, (serialized,), bounded),
    ensures
        serialized.len() <= 1_048_576 ==> bounded is Some && (bounded->0).0@ == serialized@
            && !(bounded->0).1,
        serialized.len() > 1_048_576 && bounded is Some ==> (bounded->0).1 && (bounded->0).0@.len()
            <= 1_048_576 && exists|times: nat|
            {
                let shown = #[trigger] halved(1_048_320, times);
                &&& json_bytes(note_on(serialized@, shown)) == Some((bounded->0).0@)
                &&& json_parse((bounded->0).0@) == Some(note_on(serialized@, shown))
                &&& forall|fewer: nat|
                    fewer < times ==> !note_fits(serialized@, #[trigger] halved(1_048_320, fewer))
            },
        serialized.len() > 1_048_576 && note_fits(serialized@, 1_048_320) ==> bounded is Some,
        serialized.len() > 1_048_576 && note_fits(serialized@, 0) && (forall|shown: nat|
            json_bytes(#[trigger] note_on(serialized@, shown)) is Some) ==> bounded is Some,
{
    lemma_note_on(serialized@, 1_048_320);
    if note_fits(serialized@, 0) && (forall|shown: nat|
        json_bytes(#[trigger] note_on(serialized@, shown)) is Some) {
        lemma_preview_found(serialized@, 1_048_320);
        lemma_preview(serialized@, 1_048_320);
        lemma_note_on(serialized@, preview_size(serialized@, 1_048_320)->0);
    }
    if serialized.len() > 1_048_576 && bounded is Some {
        lemma_preview(serialized@, 1_048_320);
        let size = preview_size(serialized@, 1_048_320)->0;
        let times = choose|times: nat|
            {
                &&& size == #[trigger] halved(1_048_320, times)
                &&& note_fits(serialized@, size)
                &&& forall|fewer: nat|
                    fewer < times ==> !note_fits(serialized@, #[trigger] halved(1_048_320, fewer))
            };
        lemma_note_on(serialized@, size);
        assert(halved(1_048_320, times) == size);
        assert(json_bytes(note_on(serialized@, size)) == Some((bounded->0).0@));
    }
}

/// Of a value over the limit the note is stored, with the length and the digest of its whole text
/// and a mark that it was cut.
pub proof fn law_payloads_over_the_limit(
    patterns: &RedactionPatterns,
    payload: Json,
    value: Json,
    stored: Option<EncodedPayload<String, Vec<u8>>>,
    serialized: Vec<u8>,
    bounded: Option<(Vec<u8>, bool)>,
)
    requires
        call_ensures(encode_payload, (patterns, &payload), stored),
        call_ensures(redact_value, (patterns, &payload), value),
        json_bytes(value@) == Some(serialized@),
        1_048_576 < serialized.len() <= i64::MAX,
        call_ensures(bound_payload, (serialized,), bounded),
    ensures
        stored is Some <==> bounded is Some,
        stored matches Some(kept) ==> {
            &&& kept.truncated
            &&& kept.original_bytes == serialized.len()
            &&& kept.sha256@ == hex(sha256(serialized@))
            &&& kept.stored_bytes == kept.body@.len()
            &&& kept.encoding@ == "identity"@ || kept.encoding@ == "zstd"@
            &&& kept.encoding@ == "identity"@ ==> kept.body@ == (bounded->0).0@
            &&& kept.encoding@ == "zstd"@ ==> kept.body@ == zstd_encode((bounded->0).0@, 1)
                && zstd_decode(kept.body@) == Some((bounded->0).0@)
        },
{
    lemma_encodings();
    if stored is Some {
        assert(optional_payload(stored) == Some(stored->0@));
        let frame = choose|frame: Option<Seq<u8>>| #[trigger]
            frame_of(value@, frame) && optional_payload(stored) == encoded(value@, frame);
        assert(bounded_bytes(serialized@) is Some);
    }
}

/// A stored body is read as JSON: as it is, or, where it is a zstd frame, what it was decompressed
/// to, and nothing where that failed.
pub proof fn law_bodies_are_read(
    encoding: &str,
    body: Vec<u8>,
    decompressed: Option<Vec<u8>>,
    read: Option<Json>,
    decoded: Option<Json>,
)
    requires
        call_ensures(read_payload, (encoding, &body, decompressed), read),
        call_ensures(decode_payload, (encoding, &body), decoded),
    ensures
        encoding@ != "zstd"@ ==> optional_json(read) == json_parse(body@) && optional_json(decoded)
            == json_parse(body@),
        encoding@ == "zstd"@ && decompressed is None ==> read is None,
        encoding@ == "zstd"@ && decompressed is Some ==> optional_json(read) == json_parse(
            decompressed->0@,
        ),
        encoding@ == "zstd"@ && decoded is Some ==> zstd_decode(body@) is Some && optional_json(
            decoded,
        ) == json_parse(zstd_decode(body@)->0),
{
}

/// The names of what is stored of a request that a client sent are not sensitive.
proof fn lemma_request_names()
    ensures
        !sensitive("headers"@),
        !sensitive("body"@),
        "headers"@ != "body"@,
{
    reveal_strlit("headers");
    reveal_strlit("body");
    reveal_strlit("key");
    reveal_strlit("apikey");
    reveal_strlit("xapikey");
    reveal_strlit("accesskey");
    reveal_strlit("secretkey");
    reveal_strlit("privatekey");
    reveal_strlit("clientsecret");
    reveal_strlit("token");
    reveal_strlit("authtoken");
    reveal_strlit("accesstoken");
    reveal_strlit("refreshtoken");
    reveal_strlit("idtoken");
    reveal_strlit("sessiontoken");
    reveal_strlit("sessionid");
    reveal_strlit("authorization");
    reveal_strlit("proxyauthorization");
    reveal_strlit("auth");
    reveal_strlit("bearer");
    reveal_strlit("password");
    reveal_strlit("passwd");
    reveal_strlit("pwd");
    reveal_strlit("secret");
    reveal_strlit("credential");
    reveal_strlit("cookie");
    reveal_strlit("setcookie");
    reveal_with_fuel(singular, 3);
    lemma_normalized_word("headers"@);
    lemma_normalized_word("body"@);
    let long = normalized("headers"@);
    assert(long.last() == 's');
    assert(long.drop_last().last() == 'r');
    assert(singular(long) == long.drop_last());
    assert(long.drop_last()[0] == 'h');
    assert("headers"@.len() == 7 && "body"@.len() == 4);
    let short = normalized("body"@);
    assert(short[0] == 'b' && short.len() == 4);
    assert(short.last() == 'y');
    assert(singular(short) == short);
    lemma_no_secret_part(long);
    lemma_no_secret_part(short);
}

/// What is stored with a command: with the start of a request the headers and the body that the
/// client sent, each under its name and redacted; with a step its payload, redacted; with nothing
/// else anything. The fields of a message are written as JSON, where they have JSON text.
pub proof fn law_prepared_commands(
    patterns: &RedactionPatterns,
    command: WriteCommand,
    outcome: Outcome,
)
    requires
        call_ensures(prepare, (patterns, &command), outcome),
    ensures
        outcome.at >= 0,
        outcome.event_at >= 0,
        command matches WriteCommand::Begin { input, .. } ==> outcome.fields is None
            && outcome.reply is Some && exists|members: Map<Seq<char>, JsonView>|
            {
                &&& #[trigger] members["headers"@] == redacted(redacted(input.headers@))
                &&& members["body"@] == redacted(redacted(input.body@))
                &&& members.dom() == set!["headers"@, "body"@]
                &&& stores_value(JsonView::Object(members), outcome.reply->0)
            },
        command matches WriteCommand::Event(event) ==> {
            &&& outcome.fields is None
            &&& event.payload is None ==> outcome.reply is None
            &&& event.payload matches Some(value) ==> outcome.reply is Some && stores_value(
                redacted(value@),
                outcome.reply->0,
            )
        },
        command is Complete ==> outcome.reply is None && outcome.fields is None,
        command matches WriteCommand::Runtime(input) ==> {
            &&& outcome.reply is None
            &&& input.fields is None ==> outcome.fields is None
            &&& input.fields matches Some(value) ==> {
                &&& outcome.fields is Some <==> json_bytes(value@) is Some
                &&& outcome.fields matches Some(text) ==> text@ == decode_utf8(
                    json_bytes(value@)->0,
                )
                &&& outcome.fields is Some && reads_back(value@) ==> json_parse(
                    encode_utf8(outcome.fields->0@),
                ) == Some(value@)
            }
        },
{
    match command {
        WriteCommand::Begin { trace_id, input } => {
            assert(command@ == (CommandView::Begin { trace_id: trace_id@, input: input@ }));
            let value = redacted(begin_payload(input@));
            let members = value->Object_0;
            lemma_request_names();
            assert(members["headers"@] == redacted(redacted(input.headers@)));
            assert(members["body"@] == redacted(redacted(input.body@)));
            assert(members.dom() =~= set!["headers"@, "body"@]);
            assert(outcome@.reply == Some(optional_payload(outcome.reply->0)));
            lemma_stores_value(value, outcome.reply->0);
        },
        WriteCommand::Event(event) => {
            assert(command@ == CommandView::Event(event@));
            if event.payload is Some {
                assert(outcome@.reply == Some(optional_payload(outcome.reply->0)));
                lemma_stores_value(redacted(event.payload->0@), outcome.reply->0);
            }
        },
        WriteCommand::Complete(end) => {
            assert(command@ == CommandView::Complete(end@));
        },
        WriteCommand::Runtime(input) => {
            assert(command@ == CommandView::Runtime(input@));
            assert(outcome@.fields == optional_text(outcome.fields));
        },
    }
}

} // verus!
