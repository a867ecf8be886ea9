//! What bounding, trimming, lowering and writing out texts comes to, character by character.
use crate::digest::{sha256, sha256_hex};
use crate::filter_laws::{comes_before, lemma_comes_before};
use crate::text::{
    byte_len, hex, hex_digit, hex_text, is_no_later, is_white_space, longest_prefix, lower_text,
    trim, trimmed_end, trimmed_start, truncate_text, white_space,
};
use vstd::prelude::*;
use vstd::string::*;
use vstd::utf8::*;

verus! {

/// A text within so many bytes is kept as it is. Of a longer one as many characters are kept from
/// its beginning as fit, and a line follows that says that it was cut.
pub proof fn law_bounded_texts(value: &str, max_bytes: usize, bounded: (String, bool))
    requires
        call_ensures(truncate_text, (value, max_bytes), bounded),
    ensures
        encode_utf8(value@).len() <= max_bytes ==> bounded.0@ == value@ && !bounded.1,
        encode_utf8(value@).len() > max_bytes ==> bounded.1 && exists|kept: int|
            {
                &&& 0 <= kept < value@.len()
                &&& bounded.0@ == #[trigger] value@.take(kept) + "\n[truncated]"@
                &&& encode_utf8(value@.take(kept)).len() <= max_bytes
                &&& encode_utf8(value@.take(kept + 1)).len() > max_bytes
            },
{
    if encode_utf8(value@).len() > max_bytes {
        lemma_kept(value@, max_bytes as nat);
        let kept = choose|kept: int|
            0 <= kept < value@.len() && longest_prefix(value@, max_bytes as nat)
                == #[trigger] value@.take(kept) && byte_len(value@.take(kept)) <= max_bytes
                && byte_len(value@.take(kept + 1)) > max_bytes;
        assert(bounded.0@ == value@.take(kept) + "\n[truncated]"@);
    }
}

/// The longest prefix that fits is one that does not fit with one more character.
proof fn lemma_kept(text: Seq<char>, max_bytes: nat)
    requires
        byte_len(text) > max_bytes,
    ensures
        exists|kept: int|
            0 <= kept < text.len() && longest_prefix(text, max_bytes) == #[trigger] text.take(kept)
                && byte_len(text.take(kept)) <= max_bytes && byte_len(text.take(kept + 1))
                > max_bytes,
    decreases text.len(),
{
    assert(text.len() > 0) by {
        if text.len() == 0 {
            assert(encode_utf8(text).len() == 0);
        }
    }
    let before = text.drop_last();
    if byte_len(before) <= max_bytes {
        assert(text.take(text.len() - 1) =~= before);
        assert(text.take(text.len() as int) =~= text);
        assert(longest_prefix(before, max_bytes) == before);
        assert(longest_prefix(text, max_bytes) == text.take(text.len() - 1));
    } else {
        lemma_kept(before, max_bytes);
        let kept = choose|kept: int|
            0 <= kept < before.len() && longest_prefix(before, max_bytes)
                == #[trigger] before.take(kept) && byte_len(before.take(kept)) <= max_bytes
                && byte_len(before.take(kept + 1)) > max_bytes;
        assert(before.take(kept) =~= text.take(kept));
        assert(before.take(kept + 1) =~= text.take(kept + 1));
    }
}

/// Which characters are white space.
pub open spec fn blank(ch: char) -> bool {
    let code = ch as u32;
    ||| 9 <= code <= 13
    ||| code == 32
    ||| code == 0x85
    ||| code == 0xa0
    ||| code == 0x1680
    ||| 0x2000 <= code <= 0x200a
    ||| code == 0x2028
    ||| code == 0x2029
    ||| code == 0x202f
    ||| code == 0x205f
    ||| code == 0x3000
}

/// White space is told by its code.
pub proof fn law_white_space(ch: char, blank_found: bool)
    requires
        call_ensures(is_white_space, (ch,), blank_found),
    ensures
        blank_found == blank(ch),
{
}

/// What is left of a text when white space is taken off its ends is the part of it between the
/// first and the last character that is none.
pub proof fn law_trimmed_texts(text: &str, kept: Vec<char>)
    requires
        call_ensures(trim, (text,), kept),
    ensures
        exists|from: int, to: int|
            {
                &&& 0 <= from <= to <= text@.len()
                &&& kept@ == #[trigger] text@.subrange(from, to)
                &&& forall|i: int| 0 <= i < from ==> blank(#[trigger] text@[i])
                &&& forall|i: int| to <= i < text@.len() ==> blank(#[trigger] text@[i])
            },
        kept.len() > 0 ==> !blank(kept@[0]) && !blank(kept@[kept.len() - 1]),
{
    let start = trimmed_start(text@);
    lemma_start(text@);
    lemma_end(start);
    let from = choose|from: int|
        0 <= from <= text@.len() && start == #[trigger] text@.skip(from) && forall|i: int|
            0 <= i < from ==> blank(#[trigger] text@[i]);
    let length = choose|length: int|
        0 <= length <= start.len() && trimmed_end(start) == #[trigger] start.take(length)
            && forall|i: int| length <= i < start.len() ==> blank(#[trigger] start[i]);
    assert(start.take(length) =~= text@.subrange(from, from + length));
    assert forall|i: int| from + length <= i < text@.len() implies blank(#[trigger] text@[i]) by {
        assert(start[i - from] == text@[i]);
    }
}

/// White space is told by its code.
pub proof fn lemma_blank(ch: char)
    ensures
        white_space(ch) == blank(ch),
{
}

proof fn lemma_start(text: Seq<char>)
    ensures
        exists|from: int|
            0 <= from <= text.len() && trimmed_start(text) == #[trigger] text.skip(from)
                && forall|i: int| 0 <= i < from ==> blank(#[trigger] text[i]),
        trimmed_start(text).len() > 0 ==> !blank(trimmed_start(text)[0]),
    decreases text.len(),
{
    if text.len() > 0 && white_space(text[0]) {
        let rest = text.drop_first();
        lemma_start(rest);
        let from = choose|from: int|
            0 <= from <= rest.len() && trimmed_start(rest) == #[trigger] rest.skip(from)
                && forall|i: int| 0 <= i < from ==> blank(#[trigger] rest[i]);
        assert(rest.skip(from) =~= text.skip(from + 1));
        assert forall|i: int| 0 <= i < from + 1 implies blank(#[trigger] text[i]) by {
            if i > 0 {
                assert(rest[i - 1] == text[i]);
            }
        }
        assert(trimmed_start(text) == text.skip(from + 1));
    } else {
        assert(text.skip(0) =~= text);
        if text.len() > 0 {
            lemma_blank(text[0]);
        }
    }
}

proof fn lemma_end(text: Seq<char>)
    ensures
        exists|length: int|
            0 <= length <= text.len() && trimmed_end(text) == #[trigger] text.take(length)
                && forall|i: int| length <= i < text.len() ==> blank(#[trigger] text[i]),
        trimmed_end(text).len() > 0 ==> !blank(trimmed_end(text).last()) && text.len() > 0
            && trimmed_end(text)[0] == text[0],
    decreases text.len(),
{
    if text.len() > 0 && white_space(text.last()) {
        let rest = text.drop_last();
        lemma_end(rest);
        let length = choose|length: int|
            0 <= length <= rest.len() && trimmed_end(rest) == #[trigger] rest.take(length)
                && forall|i: int| length <= i < rest.len() ==> blank(#[trigger] rest[i]);
        assert(rest.take(length) =~= text.take(length));
        assert forall|i: int| length <= i < text.len() implies blank(#[trigger] text[i]) by {
            if i < rest.len() {
                assert(rest[i] == text[i]);
            }
        }
        assert(trimmed_end(text) == text.take(length));
    } else {
        assert(text.take(text.len() as int) =~= text);
        if text.len() > 0 {
            lemma_blank(text.last());
        }
    }
}

/// Lowering a text changes its ASCII letters from `A` to `Z` alone, each to the same letter from
/// `a` to `z`.
pub proof fn law_lowered_texts(text: &str, written: String)
    requires
        call_ensures(lower_text, (text,), written),
    ensures
        written@.len() == text@.len(),
        forall|i: int|
            0 <= i < text@.len() ==> #[trigger] written@[i] == if 'A' <= text@[i] <= 'Z' {
                (text@[i] as u32 + 32) as char
            } else {
                text@[i]
            },
{
}

/// Bytes are written as two digits each, the higher first, of `0123456789abcdef`.
pub proof fn law_hexadecimal_texts(bytes: &[u8], text: String, i: int)
    requires
        call_ensures(hex_text, (bytes,), text),
        0 <= i < bytes@.len(),
    ensures
        text@.len() == 2 * bytes@.len(),
        text@[2 * i] == "0123456789abcdef"@[bytes@[i] as int / 16],
        text@[2 * i + 1] == "0123456789abcdef"@[bytes@[i] as int % 16],
{
    lemma_hex_digits(bytes@);
}

proof fn lemma_hex_digits(bytes: Seq<u8>)
    ensures
        hex(bytes).len() == 2 * bytes.len(),
        forall|i: int|
            #![trigger bytes[i]]
            0 <= i < bytes.len() ==> hex(bytes)[2 * i] == "0123456789abcdef"@[bytes[i] as int / 16]
                && hex(bytes)[2 * i + 1] == "0123456789abcdef"@[bytes[i] as int % 16],
    decreases bytes.len(),
{
    if bytes.len() > 0 {
        let before = bytes.drop_last();
        lemma_hex_digits(before);
        lemma_digit(bytes.last() as int / 16);
        lemma_digit(bytes.last() as int % 16);
        assert forall|i: int|
            #![trigger bytes[i]]
            0 <= i < bytes.len() implies hex(bytes)[2 * i] == "0123456789abcdef"@[bytes[i] as int
            / 16] && hex(bytes)[2 * i + 1] == "0123456789abcdef"@[bytes[i] as int % 16] by {
            if i < before.len() {
                assert(before[i] == bytes[i]);
                assert(hex(bytes)[2 * i] == hex(before)[2 * i]);
                assert(hex(bytes)[2 * i + 1] == hex(before)[2 * i + 1]);
            }
        }
    }
}

proof fn lemma_digit(number: int)
    requires
        0 <= number < 16,
    ensures
        hex_digit(number) == "0123456789abcdef"@[number],
{
    reveal_strlit("0123456789abcdef");
}

/// The digest of bytes is written in hexadecimal.
pub proof fn law_digests_are_hexadecimal(value: &[u8], text: String, i: int)
    requires
        call_ensures(sha256_hex, (value,), text),
        0 <= i < sha256(value@).len(),
    ensures
        text@.len() == 64,
        sha256(value@).len() == 32,
        text@[2 * i] == "0123456789abcdef"@[sha256(value@)[i] as int / 16],
        text@[2 * i + 1] == "0123456789abcdef"@[sha256(value@)[i] as int % 16],
{
    lemma_hex_digits(sha256(value@));
}

/// Texts are compared by their bytes.
pub proof fn law_texts_are_compared_by_bytes(one: &str, other: &str, no_later_found: bool)
    requires
        call_ensures(is_no_later, (one, other), no_later_found),
    ensures
        no_later_found == !comes_before(encode_utf8(other@), encode_utf8(one@)),
{
    lemma_comes_before(encode_utf8(one@), encode_utf8(other@));
}

} // verus!
