//! The clock and the source of identifiers.
use vstd::prelude::*;

verus! {

/// `chrono::Utc::now` as milliseconds since the epoch: they are never negative, as a clock
/// before the epoch gives no time at all. Which time it is is left open.
#[verifier::external_body]
pub(crate) fn now_millis() -> (now: i64)
    ensures
        now >= 0,
{
    chrono::Utc::now().timestamp_millis()
}

/// Whether a character is a hexadecimal digit in lower case.
pub open spec fn hex_lower(ch: char) -> bool {
    ('0' <= ch <= '9') || ('a' <= ch <= 'f')
}

/// Whether a text is a random identifier: thirty-two hexadecimal digits in five groups that
/// hyphens part, the version digit four and the variant bits set.
pub open spec fn random_id(text: Seq<char>) -> bool {
    &&& text.len() == 36
    &&& text[8] == '-' && text[13] == '-' && text[18] == '-' && text[23] == '-'
    &&& forall|i: int|
        0 <= i < 36 && i != 8 && i != 13 && i != 18 && i != 23 ==> hex_lower(#[trigger] text[i])
    &&& text[14] == '4'
    &&& text[19] == '8' || text[19] == '9' || text[19] == 'a' || text[19] == 'b'
}

/// `uuid::Uuid::new_v4` as text: a random identifier of version four, hyphenated and in lower
/// case. Which one it is is left open.
#[verifier::external_body]
pub(crate) fn new_trace_id() -> (id: String)
    ensures
        random_id(id@),
{
    uuid::Uuid::new_v4().to_string()
}

} // verus!
