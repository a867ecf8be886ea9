//! Text as the log reads, bounds and compares it.
use vstd::prelude::*;
use vstd::string::*;
use vstd::utf8::*;

verus! {

/// `String::push` appends the character.
pub assume_specification[ String::push ](text: &mut String, ch: char)
    ensures
        final(text)@ == old(text)@.push(ch),
;

/// The characters of a text, in order.
pub fn chars_of(text: &str) -> (chars: Vec<char>)
    ensures
        chars@ == text@,
{
    let mut chars: Vec<char> = Vec::new();
    for ch in iter: text.chars()
        invariant
            iter.seq() == text@,
            chars@ == text@.take(iter.index()),
    {
        chars.push(ch);
    }
    chars
}

/// The text made of these characters.
pub fn text_of(chars: &Vec<char>) -> (text: String)
    ensures
        text@ == chars@,
{
    let mut text = String::new();
    for i in 0..chars.len()
        invariant
            text@ == chars@.take(i as int),
    {
        text.push(chars[i]);
    }
    assert(chars@.take(chars.len() as int) == chars@);
    text
}

/// Whether two texts hold the same characters.
pub fn same_text(left: &str, right: &str) -> (same: bool)
    ensures
        same == (left@ == right@),
{
    let a = left.as_bytes();
    let b = right.as_bytes();
    proof {
        encode_utf8_decode_utf8(left@);
        encode_utf8_decode_utf8(right@);
    }
    if a.len() != b.len() {
        return false;
    }
    for i in 0..a.len()
        invariant
            a@ == encode_utf8(left@),
            b@ == encode_utf8(right@),
            a.len() == b.len(),
            forall|j: int| 0 <= j < i ==> a@[j] == b@[j],
    {
        if a[i] != b[i] {
            return false;
        }
    }
    assert(a@ == b@);
    true
}

/// How many bytes a text takes in UTF-8.
pub open spec fn byte_len(text: Seq<char>) -> nat {
    encode_utf8(text).len()
}

/// What is left of a text when characters are taken off its end until it takes at most
/// `max_bytes` bytes.
pub open spec fn longest_prefix(text: Seq<char>, max_bytes: nat) -> Seq<char>
    decreases text.len(),
{
    if byte_len(text) <= max_bytes || text.len() == 0 {
        text
    } else {
        longest_prefix(text.drop_last(), max_bytes)
    }
}

/// A text of at most `max_bytes` bytes as it is; of a longer one, the longest prefix that fits,
/// and a mark that it was cut.
pub open spec fn bounded_text(text: Seq<char>, max_bytes: nat) -> Seq<char> {
    if byte_len(text) <= max_bytes {
        text
    } else {
        longest_prefix(text, max_bytes) + "\n[truncated]"@
    }
}

/// The encoding of two texts in a row is their encodings in a row, and the place where they
/// meet is a character boundary.
pub proof fn lemma_encode_concat(left: Seq<char>, right: Seq<char>)
    ensures
        encode_utf8(left + right) == encode_utf8(left) + encode_utf8(right),
        is_char_boundary(encode_utf8(left + right), encode_utf8(left).len() as int),
    decreases left.len(),
{
    broadcast use encode_utf8_valid_utf8;

    let both = left + right;
    if left.len() == 0 {
        assert(both == right);
        is_char_boundary_start_end_of_seq(encode_utf8(both));
    } else {
        lemma_encode_concat(left.drop_first(), right);
        assert(both.drop_first() == left.drop_first() + right);
        encode_utf8_first_scalar(both);
        assert(pop_first_scalar(encode_utf8(both)) =~= encode_utf8(both.drop_first()));
        assert(encode_utf8(both) =~= encode_utf8(left) + encode_utf8(right));
    }
}

/// A prefix that fits, and does not fit with one more character, is the longest one.
proof fn lemma_longest_prefix(head: Seq<char>, tail: Seq<char>, max_bytes: nat)
    requires
        byte_len(head) <= max_bytes,
        tail.len() > 0 ==> byte_len(head.push(tail[0])) > max_bytes,
    ensures
        longest_prefix(head + tail, max_bytes) == head,
    decreases tail.len(),
{
    if tail.len() == 0 {
        assert(head + tail == head);
    } else {
        let whole = head + tail;
        assert(whole == head.push(tail[0]) + tail.drop_first());
        lemma_encode_concat(head.push(tail[0]), tail.drop_first());
        assert(whole.drop_last() == head + tail.drop_last());
        if tail.len() == 1 {
            assert(tail.drop_last() == Seq::<char>::empty());
        }
        lemma_longest_prefix(head, tail.drop_last(), max_bytes);
    }
}

/// Bounds a text: one of at most `max_bytes` bytes is kept, of a longer one the longest prefix
/// that fits, followed by a mark. The flag says whether anything was cut.
pub fn truncate_text(value: &str, max_bytes: usize) -> (bounded: (String, bool))
    ensures
        bounded.0@ == bounded_text(value@, max_bytes as nat),
        bounded.1 == (byte_len(value@) > max_bytes),
{
    let bytes = value.as_bytes();
    if bytes.len() <= max_bytes {
        return (value.to_owned(), false);
    }
    broadcast use encode_utf8_valid_utf8;

    proof {
        is_char_boundary_start_end_of_seq(encode_utf8(value@));
    }
    let mut boundary: usize = max_bytes;
    while !value.is_char_boundary(boundary)
        invariant
            boundary <= max_bytes < bytes.len(),
            bytes@ == encode_utf8(value@),
            is_char_boundary(encode_utf8(value@), 0),
            forall|i: int|
                boundary < i <= max_bytes ==> !#[trigger] is_char_boundary(
                    encode_utf8(value@),
                    i,
                ),
        decreases boundary,
    {
        boundary = boundary - 1;
    }
    let head = value.split_at(boundary).0;
    proof {
        let rest = encode_utf8(value@).subrange(boundary as int, bytes@.len() as int);
        let tail = decode_utf8(rest);
        decode_utf8_split(encode_utf8(value@), boundary as int);
        encode_utf8_decode_utf8(value@);
        encode_utf8_decode_utf8(head@);
        assert(value@ == head@ + tail);
        if tail.len() == 0 {
            assert(value@ == head@);
        } else {
            let longer = head@.push(tail[0]);
            assert(value@ == longer + tail.drop_first());
            lemma_encode_concat(longer, tail.drop_first());
            lemma_encode_concat(head@, seq![tail[0]]);
            assert(longer == head@ + seq![tail[0]]);
            encode_utf8_first_scalar(seq![tail[0]]);
            assert(encode_utf8(seq![tail[0]]).len() > 0);
        }
        lemma_longest_prefix(head@, tail, max_bytes as nat);
    }
    let mut text = head.to_owned();
    text.append("\n[truncated]");
    (text, true)
}

/// The longest prefix is a prefix, and fits.
proof fn lemma_prefix_fits(text: Seq<char>, max_bytes: nat)
    ensures
        longest_prefix(text, max_bytes).is_prefix_of(text),
        byte_len(longest_prefix(text, max_bytes)) <= max_bytes,
    decreases text.len(),
{
    if text.len() == 0 {
        assert(byte_len(text) == 0);
    } else if byte_len(text) > max_bytes {
        lemma_prefix_fits(text.drop_last(), max_bytes);
    }
}

/// A character takes at most four bytes.
proof fn lemma_char_bytes(ch: char)
    ensures
        byte_len(seq![ch]) <= 4,
{
    assert(seq![ch].drop_first() == Seq::<char>::empty());
    assert(encode_utf8(seq![ch]) == encode_scalar(ch as u32) + encode_utf8(Seq::<char>::empty()));
}

/// The longest prefix of a text that does not fit leaves less room than a character may need.
pub proof fn lemma_prefix_is_longest(text: Seq<char>, max_bytes: nat)
    requires
        byte_len(text) > max_bytes,
    ensures
        longest_prefix(text, max_bytes).is_prefix_of(text),
        byte_len(longest_prefix(text, max_bytes)) <= max_bytes,
        byte_len(longest_prefix(text, max_bytes)) + 4 > max_bytes,
    decreases text.len(),
{
    assert(text.len() > 0);
    let before = text.drop_last();
    assert(longest_prefix(text, max_bytes) == longest_prefix(before, max_bytes));
    assert(text == before + seq![text.last()]);
    lemma_encode_concat(before, seq![text.last()]);
    lemma_char_bytes(text.last());
    if byte_len(before) > max_bytes {
        lemma_prefix_is_longest(before, max_bytes);
    } else {
        assert(longest_prefix(before, max_bytes) == before);
    }
}

/// What follows a text that does not fit makes no difference to what is kept.
pub proof fn lemma_same_beginning(head: Seq<char>, text: Seq<char>, max_bytes: nat)
    requires
        head.is_prefix_of(text),
        byte_len(head) > max_bytes,
    ensures
        bounded_text(text, max_bytes) == bounded_text(head, max_bytes),
    decreases text.len(),
{
    assert(text == head + text.skip(head.len() as int));
    lemma_encode_concat(head, text.skip(head.len() as int));
    if text.len() > head.len() {
        lemma_same_beginning(head, text.drop_last(), max_bytes);
        assert(byte_len(text.drop_last()) > max_bytes) by {
            let rest = text.drop_last();
            assert(rest == head + rest.skip(head.len() as int));
            lemma_encode_concat(head, rest.skip(head.len() as int));
        }
    } else {
        assert(text == head);
    }
}

/// The bytes of a prefix are how the bytes of the text begin.
pub proof fn lemma_prefix_bytes(head: Seq<char>, text: Seq<char>)
    requires
        head.is_prefix_of(text),
    ensures
        byte_len(head) <= byte_len(text),
        encode_utf8(text).take(byte_len(head) as int) == encode_utf8(head),
{
    assert(text == head + text.skip(head.len() as int));
    lemma_encode_concat(head, text.skip(head.len() as int));
    assert(encode_utf8(text).take(byte_len(head) as int) =~= encode_utf8(head));
}

/// A text that is bounded takes at most so many bytes and the mark, and a text that fits is not
/// changed; what is kept of any text is how it begins.
pub proof fn law_bounded_text_fits(text: Seq<char>, max_bytes: nat)
    ensures
        byte_len(bounded_text(text, max_bytes)) <= max_bytes + 12,
        byte_len(text) <= max_bytes ==> bounded_text(text, max_bytes) == text,
        longest_prefix(text, max_bytes).is_prefix_of(text),
{
    lemma_prefix_fits(text, max_bytes);
    let mark = "\n[truncated]"@;
    lemma_encode_concat(longest_prefix(text, max_bytes), mark);
    reveal_strlit("\n[truncated]");
    is_ascii_chars_encode_utf8(mark);
}

/// Whether bytes come no later than others in the order of their first difference, a beginning
/// before what it begins.
pub open spec fn no_later(one: Seq<u8>, other: Seq<u8>) -> bool
    decreases one.len(),
{
    one.len() == 0 || (other.len() > 0 && (one[0] < other[0] || (one[0] == other[0] && no_later(
        one.drop_first(),
        other.drop_first(),
    ))))
}

/// Of any bytes, some come no later than the others.
pub proof fn lemma_no_later_total(one: Seq<u8>, other: Seq<u8>)
    ensures
        no_later(one, other) || no_later(other, one),
    decreases one.len(),
{
    if one.len() > 0 && other.len() > 0 {
        lemma_no_later_total(one.drop_first(), other.drop_first());
    }
}

/// What comes no later than something comes no later than what that comes no later than.
pub proof fn lemma_no_later_transitive(first: Seq<u8>, second: Seq<u8>, third: Seq<u8>)
    requires
        no_later(first, second),
        no_later(second, third),
    ensures
        no_later(first, third),
    decreases first.len(),
{
    if first.len() > 0 && first[0] == second[0] && second[0] == third[0] {
        lemma_no_later_transitive(first.drop_first(), second.drop_first(), third.drop_first());
    }
}

/// Tells whether the bytes of a text come no later than those of another.
pub fn is_no_later(one: &str, other: &str) -> (is: bool)
    ensures
        is == no_later(encode_utf8(one@), encode_utf8(other@)),
{
    let a = one.as_bytes();
    let b = other.as_bytes();
    let mut i: usize = 0;
    assert(a@.skip(0) == a@);
    assert(b@.skip(0) == b@);
    while i < a.len()
        invariant
            a@ == encode_utf8(one@),
            b@ == encode_utf8(other@),
            i <= a.len(),
            i <= b.len(),
            no_later(a@, b@) == no_later(a@.skip(i as int), b@.skip(i as int)),
        decreases a.len() - i,
    {
        if i >= b.len() {
            return false;
        }
        if a[i] < b[i] {
            return true;
        }
        if a[i] > b[i] {
            return false;
        }
        assert(a@.skip(i as int).drop_first() == a@.skip(i + 1));
        assert(b@.skip(i as int).drop_first() == b@.skip(i + 1));
        i = i + 1;
    }
    true
}

/// Bytes that come no later than each other are the same.
pub proof fn lemma_no_later_antisymmetric(one: Seq<u8>, other: Seq<u8>)
    requires
        no_later(one, other),
        no_later(other, one),
    ensures
        one == other,
    decreases one.len(),
{
    if one.len() > 0 {
        lemma_no_later_antisymmetric(one.drop_first(), other.drop_first());
        assert(one == seq![one[0]] + one.drop_first());
        assert(other == seq![other[0]] + other.drop_first());
    } else {
        assert(other.len() == 0);
    }
}

/// Whether a character has the Unicode property White_Space.
pub open spec fn white_space(ch: char) -> bool {
    ||| '\u{9}' <= ch <= '\u{d}'
    ||| ch == ' '
    ||| ch == '\u{85}'
    ||| ch == '\u{a0}'
    ||| ch == '\u{1680}'
    ||| '\u{2000}' <= ch <= '\u{200a}'
    ||| ch == '\u{2028}'
    ||| ch == '\u{2029}'
    ||| ch == '\u{202f}'
    ||| ch == '\u{205f}'
    ||| ch == '\u{3000}'
}

/// Tells whether a character has the Unicode property White_Space.
pub fn is_white_space(ch: char) -> (is: bool)
    ensures
        is == white_space(ch),
{
    ('\u{9}' <= ch && ch <= '\u{d}') || ch == ' ' || ch == '\u{85}' || ch == '\u{a0}' || ch
        == '\u{1680}' || ('\u{2000}' <= ch && ch <= '\u{200a}') || ch == '\u{2028}' || ch
        == '\u{2029}' || ch == '\u{202f}' || ch == '\u{205f}' || ch == '\u{3000}'
}

/// Whether characters stand somewhere in a text.
pub open spec fn has_part(text: Seq<char>, part: Seq<char>) -> bool {
    exists|i: int| #[trigger] part_at(text, part, i)
}

/// Whether characters stand at that place of a text.
pub open spec fn part_at(text: Seq<char>, part: Seq<char>, i: int) -> bool {
    0 <= i && i + part.len() <= text.len() && text.subrange(i, i + part.len()) == part
}

/// Tells whether characters stand at that place of a text.
fn stands_at(text: &Vec<char>, part: &Vec<char>, at: usize) -> (does: bool)
    requires
        at + part.len() <= text.len(),
    ensures
        does == part_at(text@, part@, at as int),
{
    for j in 0..part.len()
        invariant
            at + part.len() <= text.len(),
            forall|k: int| 0 <= k < j ==> text@[at + k] == part@[k],
    {
        if text[at + j] != part[j] {
            assert(text@.subrange(at as int, at + part@.len())[j as int] == text@[at + j]);
            return false;
        }
    }
    assert(text@.subrange(at as int, at + part@.len()) =~= part@);
    true
}

/// Tells whether characters stand somewhere in a text.
pub fn contains_part(text: &Vec<char>, part: &str) -> (does: bool)
    ensures
        does == has_part(text@, part@),
{
    let wanted = chars_of(part);
    if text.len() < wanted.len() {
        return false;
    }
    let last: usize = text.len() - wanted.len();
    for i in 0..last
        invariant
            wanted@ == part@,
            last + wanted.len() == text.len(),
            forall|k: int| 0 <= k < i ==> !#[trigger] part_at(text@, part@, k),
    {
        if stands_at(text, &wanted, i) {
            return true;
        }
    }
    stands_at(text, &wanted, last)
}

/// A text without the white space that it begins with.
pub open spec fn trimmed_start(text: Seq<char>) -> Seq<char>
    decreases text.len(),
{
    if text.len() > 0 && white_space(text[0]) {
        trimmed_start(text.drop_first())
    } else {
        text
    }
}

/// A text without the white space that it ends with.
pub open spec fn trimmed_end(text: Seq<char>) -> Seq<char>
    decreases text.len(),
{
    if text.len() > 0 && white_space(text.last()) {
        trimmed_end(text.drop_last())
    } else {
        text
    }
}

/// A text without white space at either end.
pub open spec fn trimmed(text: Seq<char>) -> Seq<char> {
    trimmed_end(trimmed_start(text))
}

/// Takes the white space off both ends of a text.
pub fn trim(text: &str) -> (kept: Vec<char>)
    ensures
        kept@ == trimmed(text@),
{
    let chars = chars_of(text);
    let mut start: usize = 0;
    assert(chars@.skip(0) == chars@);
    while start < chars.len() && is_white_space(chars[start])
        invariant
            start <= chars.len(),
            trimmed_start(chars@) == trimmed_start(chars@.skip(start as int)),
        ensures
            start <= chars.len(),
            trimmed_start(chars@) == chars@.skip(start as int),
        decreases chars.len() - start,
    {
        assert(chars@.skip(start as int).drop_first() == chars@.skip(start + 1));
        start = start + 1;
    }
    let mut end: usize = chars.len();
    assert(chars@.subrange(start as int, end as int) == chars@.skip(start as int));
    while start < end && is_white_space(chars[end - 1])
        invariant
            start <= end <= chars.len(),
            trimmed_end(chars@.skip(start as int)) == trimmed_end(
                chars@.subrange(start as int, end as int),
            ),
        ensures
            start <= end <= chars.len(),
            trimmed_end(chars@.skip(start as int)) == chars@.subrange(start as int, end as int),
        decreases end - start,
    {
        assert(chars@.subrange(start as int, end as int).drop_last() == chars@.subrange(
            start as int,
            end - 1,
        ));
        end = end - 1;
    }
    let mut kept: Vec<char> = Vec::new();
    for i in start..end
        invariant
            start <= end <= chars.len(),
            kept@ == chars@.subrange(start as int, i as int),
    {
        kept.push(chars[i]);
    }
    kept
}

/// The lower case of an ASCII letter; any other character itself.
pub open spec fn lower(ch: char) -> char {
    if 'A' <= ch <= 'Z' {
        (ch as u32 + 32) as char
    } else {
        ch
    }
}

/// The lower case of an ASCII letter; any other character itself.
pub fn lower_char(ch: char) -> (lowered: char)
    ensures
        lowered == lower(ch),
{
    if 'A' <= ch && ch <= 'Z' {
        ((ch as u8) + 32) as char
    } else {
        ch
    }
}

/// A text with its ASCII letters in lower case.
pub open spec fn lowered(text: Seq<char>) -> Seq<char> {
    text.map_values(|ch: char| lower(ch))
}

/// Writes a text with its ASCII letters in lower case.
pub fn lower_text(text: &str) -> (written: String)
    ensures
        written@ == lowered(text@),
{
    let chars = chars_of(text);
    let mut written = String::new();
    for i in 0..chars.len()
        invariant
            chars@ == text@,
            written@ == lowered(text@.take(i as int)),
    {
        written.push(lower_char(chars[i]));
        assert(text@.take(i + 1) == text@.take(i as int).push(text@[i as int]));
        assert(written@ == lowered(text@.take(i + 1)));
    }
    assert(text@.take(chars.len() as int) == text@);
    written
}

/// The hexadecimal digit of a number below sixteen.
pub open spec fn hex_digit(number: int) -> char {
    if number < 10 {
        ('0' as u32 + number) as char
    } else {
        ('a' as u32 + number - 10) as char
    }
}

/// Bytes in hexadecimal, two lower case digits for each.
pub open spec fn hex(bytes: Seq<u8>) -> Seq<char>
    decreases bytes.len(),
{
    if bytes.len() == 0 {
        Seq::empty()
    } else {
        hex(bytes.drop_last()).push(hex_digit(bytes.last() as int / 16)).push(
            hex_digit(bytes.last() as int % 16),
        )
    }
}

fn hex_char(number: u8) -> (digit: char)
    requires
        number < 16,
    ensures
        digit == hex_digit(number as int),
{
    if number < 10 {
        (48 + number) as char
    } else {
        (87 + number) as char
    }
}

/// Writes bytes in hexadecimal.
pub fn hex_text(bytes: &[u8]) -> (text: String)
    ensures
        text@ == hex(bytes@),
{
    let mut text = String::new();
    for i in 0..bytes.len()
        invariant
            text@ == hex(bytes@.take(i as int)),
    {
        text.push(hex_char(bytes[i] / 16));
        text.push(hex_char(bytes[i] % 16));
        assert(bytes@.take(i + 1).drop_last() == bytes@.take(i as int));
    }
    assert(bytes@.take(bytes@.len() as int) == bytes@);
    text
}

} // verus!
