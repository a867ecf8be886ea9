//! Payloads: how a JSON value is bounded, compressed and read back.
use crate::digest::{sha256, sha256_hex};
use crate::json::{
    in_range, json_bytes, json_parse, json_view, members_view, nested_within, number_of,
    optional_json, reads_back, whole_number, whole_numbers, Json, JsonView,
};
use crate::redact::{redact_value, redacted, RedactionPatterns};
use crate::text::{
    bounded_text, byte_len, hex, law_bounded_text_fits, lemma_prefix_bytes,
    lemma_prefix_is_longest, lemma_same_beginning, longest_prefix, same_text, truncate_text,
};
use vstd::prelude::*;
use vstd::slice::*;
use vstd::string::*;
use vstd::utf8::*;

verus! {

/// How many bytes of JSON text are stored as they are.
pub const MAX_PAYLOAD_BYTES: usize = 1_048_576;

/// How many bytes of the limit are left for the note on a cut payload besides its preview.
pub const PREVIEW_MARGIN: usize = 256;

/// A payload of more bytes than these is compressed.
pub const COMPRESS_THRESHOLD_BYTES: usize = 4096;

/// The level that payloads are compressed at.
pub const COMPRESSION_LEVEL: i32 = 1;

/// `std::io::Error`: why compressing or decompressing failed.
#[verifier::external_type_specification]
#[verifier::external_body]
pub struct ExIoError(std::io::Error);

/// The zstd frame that bytes are compressed to at a level.
pub uninterp spec fn zstd_encode(bytes: Seq<u8>, level: i32) -> Seq<u8>;

/// The bytes that a zstd frame decompresses to, if it is one.
pub uninterp spec fn zstd_decode(frame: Seq<u8>) -> Option<Seq<u8>>;

/// The text that bytes are, with a replacement character for what is not UTF-8.
pub uninterp spec fn utf8_lossy(bytes: Seq<u8>) -> Seq<char>;

/// `zstd::stream::encode_all`: where it succeeds, the frame depends on the bytes and the level
/// alone, and decompresses to the bytes. When it fails is left open: it may run out of memory.
#[verifier::external_body]
fn compress(bytes: &[u8], level: i32) -> (frame: Result<Vec<u8>, std::io::Error>)
    ensures
        frame matches Ok(written) ==> written@ == zstd_encode(bytes@, level),
        frame matches Ok(written) ==> zstd_decode(written@) == Some(bytes@),
{
    zstd::stream::encode_all(std::io::Cursor::new(bytes), level)
}

/// `zstd::stream::decode_all`: where it succeeds, the bytes are those that the frame holds.
/// When it fails is left open: it may run out of memory.
#[verifier::external_body]
fn decompress(frame: &[u8]) -> (bytes: Result<Vec<u8>, std::io::Error>)
    ensures
        bytes matches Ok(read) ==> zstd_decode(frame@) == Some(read@),
{
    zstd::stream::decode_all(std::io::Cursor::new(frame))
}

/// Whether a text begins with what bytes stand for, as far as they are UTF-8 from the beginning.
pub open spec fn begins_alike(bytes: Seq<u8>, text: Seq<char>) -> bool {
    forall|n: int|
        0 <= n <= bytes.len() && valid_utf8(#[trigger] bytes.take(n)) ==> decode_utf8(
            bytes.take(n),
        ).is_prefix_of(text)
}

/// `String::from_utf8_lossy`: the text depends on the bytes alone, and is what valid UTF-8
/// stands for. Only what is not UTF-8 is replaced, so the text begins with what a beginning that
/// is UTF-8 stands for.
#[verifier::external_body]
fn read_lossy(bytes: &[u8]) -> (text: String)
    ensures
        text@ == utf8_lossy(bytes@),
        valid_utf8(bytes@) ==> text@ == decode_utf8(bytes@),
        begins_alike(bytes@, text@),
{
    String::from_utf8_lossy(bytes).into_owned()
}

/// What is stored in place of JSON text over the limit: how long it was, its digest, and at most
/// so many bytes of a text.
pub open spec fn note_showing(serialized: Seq<u8>, text: Seq<char>, max_preview: nat) -> JsonView {
    JsonView::Object(
        Map::empty().insert("truncated"@, JsonView::Bool(true)).insert(
            "originalBytes"@,
            JsonView::Number(whole_number(serialized.len() as int)),
        ).insert("sha256"@, JsonView::Str(hex(sha256(serialized)))).insert(
            "preview"@,
            JsonView::Str(bounded_text(text, max_preview)),
        ),
    )
}

/// The note on JSON text over the limit that shows at most so many bytes of how it begins.
pub open spec fn cut_note(serialized: Seq<u8>, max_preview: nat) -> JsonView {
    note_showing(serialized, utf8_lossy(serialized.take(MAX_PAYLOAD_BYTES as int)), max_preview)
}

/// How many bytes of JSON text a note shows: so many where the text of the note is then within
/// the limit, else as many as fit when they are halved again and again. There is no note where
/// it has no JSON text, or where it is over the limit without any of them.
pub open spec fn preview_size(serialized: Seq<u8>, max_preview: nat) -> Option<nat>
    decreases max_preview,
{
    match json_bytes(cut_note(serialized, max_preview)) {
        Some(note) => if note.len() <= MAX_PAYLOAD_BYTES {
            Some(max_preview)
        } else if max_preview == 0 {
            None
        } else {
            preview_size(serialized, max_preview / 2)
        },
        None => None,
    }
}

/// The note on JSON text over the limit, if there is one.
pub open spec fn kept_note(serialized: Seq<u8>) -> Option<JsonView> {
    match preview_size(serialized, (MAX_PAYLOAD_BYTES - PREVIEW_MARGIN) as nat) {
        Some(size) => Some(cut_note(serialized, size)),
        None => None,
    }
}

/// Whether the note on JSON text over the limit shows how that text begins, also where the limit
/// is inside a character.
pub open spec fn shows_beginning(serialized: Seq<u8>) -> bool {
    match preview_size(serialized, (MAX_PAYLOAD_BYTES - PREVIEW_MARGIN) as nat) {
        Some(size) => kept_note(serialized) == Some(
            note_showing(serialized, decode_utf8(serialized), size),
        ),
        None => true,
    }
}

/// A note shows how JSON text begins, where what was read of its beginning begins alike.
proof fn lemma_shows_beginning(serialized: Seq<u8>)
    requires
        serialized.len() > MAX_PAYLOAD_BYTES,
        valid_utf8(serialized),
        begins_alike(
            serialized.take(MAX_PAYLOAD_BYTES as int),
            utf8_lossy(serialized.take(MAX_PAYLOAD_BYTES as int)),
        ),
    ensures
        shows_beginning(serialized),
{
    let start = (MAX_PAYLOAD_BYTES - PREVIEW_MARGIN) as nat;
    lemma_preview_size(serialized, start);
    if preview_size(serialized, start) is Some {
        let size = preview_size(serialized, start)->0;
        let whole = decode_utf8(serialized);
        let limit = MAX_PAYLOAD_BYTES as int;
        let read = utf8_lossy(serialized.take(limit));
        let head = longest_prefix(whole, limit as nat);
        let length = byte_len(head) as int;
        decode_utf8_encode_utf8(serialized);
        lemma_prefix_is_longest(whole, limit as nat);
        lemma_prefix_bytes(head, whole);
        encode_utf8_valid_utf8(head);
        encode_utf8_decode_utf8(head);
        assert(serialized.take(limit).take(length) =~= serialized.take(length));
        assert(head.is_prefix_of(read));
        lemma_same_beginning(head, whole, size);
        lemma_same_beginning(head, read, size);
    }
}

/// The JSON text that is stored for JSON text: itself up to the limit, else that of a note.
pub open spec fn bounded_bytes(serialized: Seq<u8>) -> Option<Seq<u8>> {
    if serialized.len() > MAX_PAYLOAD_BYTES {
        match kept_note(serialized) {
            Some(note) => json_bytes(note),
            None => None,
        }
    } else {
        Some(serialized)
    }
}

/// A note that is kept has a text within the limit.
proof fn lemma_preview_size(serialized: Seq<u8>, max_preview: nat)
    ensures
        preview_size(serialized, max_preview) matches Some(size) ==> size <= max_preview
            && json_bytes(cut_note(serialized, size)) is Some && json_bytes(
            cut_note(serialized, size),
        )->0.len() <= MAX_PAYLOAD_BYTES,
    decreases max_preview,
{
    if json_bytes(cut_note(serialized, max_preview)) is Some && max_preview > 0 {
        lemma_preview_size(serialized, max_preview / 2);
    }
}

/// What is kept of JSON text is never longer than the limit.
pub proof fn law_kept_text_is_bounded(serialized: Seq<u8>)
    ensures
        bounded_bytes(serialized) matches Some(bytes) ==> bytes.len() <= MAX_PAYLOAD_BYTES,
{
    lemma_preview_size(serialized, (MAX_PAYLOAD_BYTES - PREVIEW_MARGIN) as nat);
}

/// The text of a note reads back.
proof fn lemma_note_reads_back(serialized: Seq<u8>, max_preview: nat)
    requires
        serialized.len() <= u64::MAX,
    ensures
        reads_back(cut_note(serialized, max_preview)),
{
    reveal_with_fuel(nested_within, 2);
    reveal_with_fuel(whole_numbers, 2);
    let note = cut_note(serialized, max_preview);
    let number = JsonView::Number(whole_number(serialized.len() as int));
    assert(in_range(serialized.len() as int));
    assert(whole_numbers(number));
    let members = note->Object_0;
    assert forall|name: Seq<char>| members.contains_key(name) implies nested_within(
        #[trigger] members[name],
        126,
    ) && whole_numbers(members[name]) by {}
}

/// The note on JSON text over the limit that shows at most so many bytes of it, given the text
/// that it begins with.
fn note_cut(serialized: &Vec<u8>, head: &String, max_preview: usize) -> (note: Json)
    requires
        head@ == utf8_lossy(serialized@.take(MAX_PAYLOAD_BYTES as int)),
    ensures
        note@ == cut_note(serialized@, max_preview as nat),
{
    let preview = truncate_text(head.as_str(), max_preview).0;
    let mut members: Vec<(String, Json)> = Vec::new();
    members.push(("truncated".to_owned(), Json::Bool(true)));
    members.push(("originalBytes".to_owned(), Json::Number(number_of(serialized.len() as i128))));
    members.push(("sha256".to_owned(), Json::Str(sha256_hex(serialized.as_slice()))));
    members.push(("preview".to_owned(), Json::Str(preview)));
    proof {
        reveal_with_fuel(members_view, 5);
        let all = members@;
        assert(all.drop_last().drop_last().drop_last().drop_last().len() == 0);
        assert(members_view(all) =~= Map::empty().insert(all[0].0@, json_view(all[0].1)).insert(
            all[1].0@,
            json_view(all[1].1),
        ).insert(all[2].0@, json_view(all[2].1)).insert(all[3].0@, json_view(all[3].1)));
    }
    Json::Object(members)
}

/// Writes the note on JSON text over the limit.
fn write_note(serialized: &Vec<u8>) -> (written: Option<Vec<u8>>)
    requires
        serialized.len() > MAX_PAYLOAD_BYTES,
    ensures
        match written {
            Some(bytes) => kept_note(serialized@) is Some && json_bytes(kept_note(serialized@)->0)
                == Some(bytes@) && json_parse(bytes@) == kept_note(serialized@),
            None => kept_note(serialized@) is None,
        },
        valid_utf8(serialized@) ==> shows_beginning(serialized@),
{
    let start = slice_subrange(serialized.as_slice(), 0, MAX_PAYLOAD_BYTES);
    assert(start@ == serialized@.take(MAX_PAYLOAD_BYTES as int));
    let head = read_lossy(start);
    proof {
        if valid_utf8(serialized@) {
            lemma_shows_beginning(serialized@);
        }
    }
    let length: usize = serialized.len();
    let mut size: usize = MAX_PAYLOAD_BYTES - PREVIEW_MARGIN;
    loop
        invariant
            valid_utf8(serialized@) ==> shows_beginning(serialized@),
            length == serialized@.len(),
            head@ == utf8_lossy(serialized@.take(MAX_PAYLOAD_BYTES as int)),
            preview_size(serialized@, size as nat) == preview_size(
                serialized@,
                (MAX_PAYLOAD_BYTES - PREVIEW_MARGIN) as nat,
            ),
        decreases size,
    {
        proof {
            lemma_note_reads_back(serialized@, size as nat);
        }
        match note_cut(serialized, &head, size).to_bytes() {
            Some(bytes) => {
                if bytes.len() <= MAX_PAYLOAD_BYTES {
                    return Some(bytes);
                }
                if size == 0 {
                    return None;
                }
                size = size / 2;
            },
            None => {
                return None;
            },
        }
    }
}

/// Bounds JSON text. The flag says whether a note stands in its place; nothing comes out where
/// there is no note. The text of the note reads back, and shows how JSON text that is UTF-8 begins.
pub fn bound_payload(serialized: Vec<u8>) -> (bounded: Option<(Vec<u8>, bool)>)
    ensures
        match bounded {
            Some((bytes, truncated)) => {
                &&& bounded_bytes(serialized@) == Some(bytes@)
                &&& bytes@.len() <= MAX_PAYLOAD_BYTES
                &&& truncated == (serialized@.len() > MAX_PAYLOAD_BYTES)
                &&& truncated ==> json_parse(bytes@) == kept_note(serialized@)
                &&& truncated && valid_utf8(serialized@) ==> shows_beginning(serialized@)
            },
            None => bounded_bytes(serialized@) is None,
        },
{
    proof {
        law_kept_text_is_bounded(serialized@);
        lemma_preview_size(serialized@, (MAX_PAYLOAD_BYTES - PREVIEW_MARGIN) as nat);
    }
    if serialized.len() > MAX_PAYLOAD_BYTES {
        match write_note(&serialized) {
            Some(bytes) => Some((bytes, true)),
            None => None,
        }
    } else {
        Some((serialized, false))
    }
}

/// A payload as it is stored. The texts are `String` where the payload is held, and sequences of
/// characters where it is spoken of; so with the body.
#[verifier::ext_equal]
pub struct EncodedPayload<T, B> {
    pub encoding: T,
    pub body: B,
    pub original_bytes: i64,
    pub stored_bytes: i64,
    pub sha256: T,
    pub truncated: bool,
}

impl View for EncodedPayload<String, Vec<u8>> {
    type V = EncodedPayload<Seq<char>, Seq<u8>>;

    open spec fn view(&self) -> EncodedPayload<Seq<char>, Seq<u8>> {
        EncodedPayload {
            encoding: self.encoding@,
            body: self.body@,
            original_bytes: self.original_bytes,
            stored_bytes: self.stored_bytes,
            sha256: self.sha256@,
            truncated: self.truncated,
        }
    }
}

/// What optional bytes are.
pub open spec fn optional_bytes(bytes: Option<Vec<u8>>) -> Option<Seq<u8>> {
    match bytes {
        Some(held) => Some(held@),
        None => None,
    }
}

/// The name of the encoding that is chosen, and the body in it: the frame where the text is long
/// enough to compress, there is a frame and it is shorter; else the text itself.
pub open spec fn chosen_body(bounded: Seq<u8>, frame: Option<Seq<u8>>) -> (Seq<char>, Seq<u8>) {
    match frame {
        Some(bytes) => if bounded.len() > COMPRESS_THRESHOLD_BYTES && bytes.len() < bounded.len() {
            ("zstd"@, bytes)
        } else {
            ("identity"@, bounded)
        },
        None => ("identity"@, bounded),
    }
}

/// Chooses between JSON text and the frame it was compressed to, if any.
pub fn choose_body(bounded: Vec<u8>, frame: Option<Vec<u8>>) -> (chosen: (String, Vec<u8>))
    ensures
        (chosen.0@, chosen.1@) == chosen_body(bounded@, optional_bytes(frame)),
{
    match frame {
        Some(bytes) => if bounded.len() > COMPRESS_THRESHOLD_BYTES && bytes.len() < bounded.len() {
            ("zstd".to_owned(), bytes)
        } else {
            ("identity".to_owned(), bounded)
        },
        None => ("identity".to_owned(), bounded),
    }
}

/// What is stored for a value that is already redacted, given the frame that compressing its
/// bounded text gave, if any; nothing where the value or the note on it has no JSON text.
pub open spec fn encoded(value: JsonView, frame: Option<Seq<u8>>) -> Option<
    EncodedPayload<Seq<char>, Seq<u8>>,
> {
    match json_bytes(value) {
        Some(serialized) => match bounded_bytes(serialized) {
            Some(bounded) => Some(
                EncodedPayload {
                    encoding: chosen_body(bounded, frame).0,
                    body: chosen_body(bounded, frame).1,
                    original_bytes: serialized.len() as i64,
                    stored_bytes: chosen_body(bounded, frame).1.len() as i64,
                    sha256: hex(sha256(serialized)),
                    truncated: serialized.len() > MAX_PAYLOAD_BYTES,
                },
            ),
            None => None,
        },
        None => None,
    }
}

/// Whether compressing the bounded text of a value may give that frame.
pub open spec fn frame_of(value: JsonView, frame: Option<Seq<u8>>) -> bool {
    frame matches Some(bytes) ==> {
        &&& json_bytes(value) is Some
        &&& bounded_bytes(json_bytes(value)->0) is Some
        &&& bytes == zstd_encode(bounded_bytes(json_bytes(value)->0)->0, COMPRESSION_LEVEL)
        &&& zstd_decode(bytes) == bounded_bytes(json_bytes(value)->0)
    }
}

/// The JSON text that a stored body stands for.
pub open spec fn stored_bytes_of(encoding: Seq<char>, body: Seq<u8>) -> Option<Seq<u8>> {
    if encoding == "zstd"@ {
        zstd_decode(body)
    } else {
        Some(body)
    }
}

/// The value that a stored body stands for.
pub open spec fn stored_value(encoding: Seq<char>, body: Seq<u8>) -> Option<JsonView> {
    match stored_bytes_of(encoding, body) {
        Some(bytes) => json_parse(bytes),
        None => None,
    }
}

/// Whether a stored payload gives back what was stored: its value, where it is not cut and the
/// value's text reads back, and where it is cut the note on it, which shows how its text begins.
pub open spec fn faithful(value: JsonView, stored: EncodedPayload<Seq<char>, Seq<u8>>) -> bool {
    &&& !stored.truncated && reads_back(value) ==> stored_value(stored.encoding, stored.body)
        == Some(value)
    &&& stored.truncated ==> json_bytes(value) is Some && kept_note(json_bytes(value)->0) is Some
        && stored_value(stored.encoding, stored.body) == kept_note(json_bytes(value)->0)
        && shows_beginning(json_bytes(value)->0)
}

/// Whether a payload is one that storing a value may give: `None` for a value without JSON text.
pub open spec fn may_encode(
    value: JsonView,
    stored: Option<EncodedPayload<Seq<char>, Seq<u8>>>,
) -> bool {
    &&& exists|frame: Option<Seq<u8>>|
        #[trigger] frame_of(value, frame) && stored == encoded(value, frame)
    &&& stored matches Some(kept) ==> faithful(value, kept)
}

/// What an optional payload is.
pub open spec fn optional_payload(payload: Option<EncodedPayload<String, Vec<u8>>>) -> Option<
    EncodedPayload<Seq<char>, Seq<u8>>,
> {
    match payload {
        Some(stored) => Some(stored@),
        None => None,
    }
}

/// Makes a value ready to be stored: redacts it once more, writes it as JSON, bounds it and
/// compresses it. What is stored of a value within the limit whose text reads back stands for
/// the redacted value.
pub fn encode_payload(patterns: &RedactionPatterns, payload: &Json) -> (stored: Option<
    EncodedPayload<String, Vec<u8>>,
>)
    ensures
        may_encode(redacted(payload@), optional_payload(stored)),
{
    let value = redact_value(patterns, payload);
    proof {
        reveal_strlit("zstd");
        reveal_strlit("identity");
        assert("zstd"@.len() != "identity"@.len());
    }
    let serialized = match value.to_bytes() {
        Some(bytes) => bytes,
        None => {
            assert(frame_of(value@, None));
            return None;
        },
    };
    let original_bytes = serialized.len() as i64;
    let digest = sha256_hex(serialized.as_slice());
    let (bounded, truncated) = match bound_payload(serialized) {
        Some(pair) => pair,
        None => {
            assert(frame_of(value@, None));
            return None;
        },
    };
    let frame = if bounded.len() > COMPRESS_THRESHOLD_BYTES {
        match compress(bounded.as_slice(), COMPRESSION_LEVEL) {
            Ok(bytes) => Some(bytes),
            Err(_) => None,
        }
    } else {
        None
    };
    let ghost reply = optional_bytes(frame);
    let (encoding, body) = choose_body(bounded, frame);
    let stored_bytes = body.len() as i64;
    let kept = EncodedPayload {
        encoding,
        body,
        original_bytes,
        stored_bytes,
        sha256: digest,
        truncated,
    };
    assert(frame_of(value@, reply));
    assert(encoded(value@, reply) == Some(kept@));
    Some(kept)
}

/// Reads a stored body, given what decompressing it gave, if that was asked for.
pub fn read_payload(encoding: &str, body: &Vec<u8>, decompressed: Option<Vec<u8>>) -> (read: Option<
    Json,
>)
    ensures
        encoding@ == "zstd"@ ==> match decompressed {
            Some(bytes) => optional_json(read) == json_parse(bytes@),
            None => read is None,
        },
        encoding@ != "zstd"@ ==> optional_json(read) == json_parse(body@),
{
    if same_text(encoding, "zstd") {
        match decompressed {
            Some(bytes) => Json::parse(bytes.as_slice()),
            None => None,
        }
    } else {
        Json::parse(body.as_slice())
    }
}

/// Whether reading a stored body may give that: what it stands for, or nothing where it is
/// compressed and decompressing failed.
pub open spec fn may_decode(encoding: Seq<char>, body: Seq<u8>, read: Option<JsonView>) -> bool {
    read == stored_value(encoding, body) || (read is None && encoding == "zstd"@)
}

/// Reads a stored body. What comes out is what the body stands for; nothing does where it stands
/// for nothing, or where decompressing fails.
pub fn decode_payload(encoding: &str, body: &Vec<u8>) -> (read: Option<Json>)
    ensures
        may_decode(encoding@, body@, optional_json(read)),
{
    let decompressed = if same_text(encoding, "zstd") {
        match decompress(body.as_slice()) {
            Ok(bytes) => Some(bytes),
            Err(_) => None,
        }
    } else {
        None
    };
    read_payload(encoding, body, decompressed)
}

/// What is stored of a value within the limit whose text reads back is read as that value, whether
/// its body is compressed or not; only where decompressing fails is nothing read. Of a value over
/// the limit the note is read, which shows how its text begins.
pub proof fn law_stored_payloads_are_read_back(
    value: JsonView,
    stored: EncodedPayload<Seq<char>, Seq<u8>>,
    read: Option<JsonView>,
)
    requires
        may_encode(value, Some(stored)),
        may_decode(stored.encoding, stored.body, read),
    ensures
        ({
            let expected = if stored.truncated {
                kept_note(json_bytes(value)->0)
            } else {
                Some(value)
            };
            stored.truncated || reads_back(value) ==> {
                &&& stored_value(stored.encoding, stored.body) == expected
                &&& read is Some || stored.encoding != "zstd"@ ==> read == expected
            }
        }),
        stored.truncated ==> shows_beginning(json_bytes(value)->0),
{
}

/// Compressing never makes what is stored longer than the text, what the body stands for is never
/// longer than the limit, and a text within the limit is stored whole.
pub proof fn law_stored_payloads_are_bounded(value: JsonView, frame: Option<Seq<u8>>)
    requires
        encoded(value, frame) is Some,
        frame_of(value, frame),
    ensures
        ({
            let stored = encoded(value, frame)->0;
            let serialized = json_bytes(value)->0;
            let text = stored_bytes_of(stored.encoding, stored.body);
            &&& text == bounded_bytes(serialized)
            &&& stored.body.len() <= text->0.len() <= MAX_PAYLOAD_BYTES
            &&& stored.truncated == (serialized.len() > MAX_PAYLOAD_BYTES)
            &&& !stored.truncated ==> text == Some(serialized) && stored.original_bytes
                == serialized.len()
        }),
{
    reveal_strlit("zstd");
    reveal_strlit("identity");
    assert("zstd"@.len() != "identity"@.len());
    law_kept_text_is_bounded(json_bytes(value)->0);
}

/// A text of no more bytes than the threshold is stored as it is, whatever compressing it gives.
pub proof fn law_short_bodies_are_not_compressed(bounded: Seq<u8>, frame: Option<Seq<u8>>)
    requires
        bounded.len() <= COMPRESS_THRESHOLD_BYTES,
    ensures
        chosen_body(bounded, frame) == ("identity"@, bounded),
{
}

/// What a note shows of a text over the limit takes at most as many bytes as it may, and the mark.
pub proof fn law_previews_are_bounded(serialized: Seq<u8>, max_preview: nat)
    ensures
        cut_note(serialized, max_preview) is Object,
        cut_note(serialized, max_preview)->Object_0["preview"@] is Str,
        byte_len(cut_note(serialized, max_preview)->Object_0["preview"@]->Str_0) <= max_preview
            + 12,
        cut_note(serialized, max_preview)->Object_0["truncated"@] == JsonView::Bool(true),
{
    reveal_strlit("truncated");
    reveal_strlit("originalBytes");
    reveal_strlit("sha256");
    reveal_strlit("preview");
    assert("truncated"@.len() == 9 && "originalBytes"@.len() == 13 && "sha256"@.len() == 6
        && "preview"@.len() == 7);
    law_bounded_text_fits(utf8_lossy(serialized.take(MAX_PAYLOAD_BYTES as int)), max_preview);
}

} // verus!
