//! The pattern match that searches use.
use crate::text::{byte_len, chars_of, lower, lower_char, text_of};
use vstd::prelude::*;
use vstd::string::*;

verus! {

/// Whether a text matches a pattern in which `%` stands for any run of characters and `_` for
/// any one, and in which ASCII letters match in either case.
pub open spec fn like(pattern: Seq<char>, text: Seq<char>) -> bool
    decreases pattern.len(), text.len(),
{
    if pattern.len() == 0 {
        text.len() == 0
    } else if pattern[0] == '%' {
        like(pattern.drop_first(), text) || (text.len() > 0 && like(pattern, text.drop_first()))
    } else {
        text.len() > 0 && (pattern[0] == '_' || lower(pattern[0]) == lower(text[0])) && like(
            pattern.drop_first(),
            text.drop_first(),
        )
    }
}

/// One row of the match: entry `j` tells whether what is left of the text at `j` matches the
/// pattern from `at`, given the same of the pattern from `at + 1`.
fn match_row(pattern: &Vec<char>, at: usize, text: &Vec<char>, below: &Vec<bool>) -> (row: Vec<
    bool,
>)
    requires
        at < pattern.len(),
        below.len() == text.len() + 1,
        forall|j: int|
            0 <= j <= text.len() ==> #[trigger] below[j] == like(
                pattern@.skip(at + 1),
                text@.skip(j),
            ),
    ensures
        row.len() == text.len() + 1,
        forall|j: int|
            0 <= j <= text.len() ==> #[trigger] row[j] == like(
                pattern@.skip(at as int),
                text@.skip(j),
            ),
{
    let ghost here = pattern@.skip(at as int);
    assert(here.drop_first() == pattern@.skip(at + 1));
    let mut row: Vec<bool> = Vec::new();
    // Filled from the end of the text: entry `i` of `row` is the one for `text.len() - i`.
    for i in 0..text.len() + 1
        invariant
            at < pattern.len(),
            below.len() == text.len() + 1,
            here == pattern@.skip(at as int),
            here.drop_first() == pattern@.skip(at + 1),
            forall|j: int|
                0 <= j <= text.len() ==> #[trigger] below[j] == like(
                    pattern@.skip(at + 1),
                    text@.skip(j),
                ),
            row.len() == i,
            forall|k: int|
                0 <= k < i ==> #[trigger] row[k] == like(here, text@.skip(text.len() - k)),
    {
        let j: usize = text.len() - i;
        if j < text.len() {
            assert(text@.skip(j as int).drop_first() == text@.skip(j + 1));
        }
        let matched = if pattern[at] == '%' {
            below[j] || (i > 0 && row[i - 1])
        } else {
            j < text.len() && (pattern[at] == '_' || lower_char(pattern[at]) == lower_char(text[j]))
                && below[j + 1]
        };
        row.push(matched);
    }
    let mut turned: Vec<bool> = Vec::new();
    for j in 0..text.len() + 1
        invariant
            row.len() == text.len() + 1,
            forall|k: int|
                0 <= k < row.len() ==> #[trigger] row[k] == like(here, text@.skip(text.len() - k)),
            turned.len() == j,
            forall|k: int| 0 <= k < j ==> #[trigger] turned[k] == like(here, text@.skip(k)),
    {
        turned.push(row[text.len() - j]);
    }
    turned
}

/// Tells whether characters match a pattern.
fn is_like(pattern: &Vec<char>, chars: &Vec<char>) -> (matches: bool)
    ensures
        matches == like(pattern@, chars@),
{
    let mut row: Vec<bool> = Vec::new();
    for j in 0..chars.len()
        invariant
            row.len() == j,
            forall|k: int|
                0 <= k < j ==> #[trigger] row[k] == like(
                    pattern@.skip(pattern.len() as int),
                    chars@.skip(k),
                ),
    {
        row.push(false);
    }
    row.push(true);
    let mut at: usize = pattern.len();
    while at > 0
        invariant
            at <= pattern.len(),
            row.len() == chars.len() + 1,
            forall|k: int|
                0 <= k <= chars.len() ==> #[trigger] row[k] == like(
                    pattern@.skip(at as int),
                    chars@.skip(k),
                ),
        decreases at,
    {
        at = at - 1;
        row = match_row(pattern, at, &chars, &row);
    }
    assert(pattern@.skip(0) == pattern@);
    assert(chars@.skip(0) == chars@);
    row[0]
}

/// A text up to the first NUL character, which ends it.
pub open spec fn before_nul(text: Seq<char>) -> Seq<char>
    decreases text.len(),
{
    if text.len() == 0 || text[0] == '\0' {
        Seq::empty()
    } else {
        seq![text[0]] + before_nul(text.drop_first())
    }
}

/// A text without NUL characters is kept as it is.
pub proof fn lemma_before_nul(text: Seq<char>)
    requires
        forall|i: int| 0 <= i < text.len() ==> #[trigger] text[i] != '\0',
    ensures
        before_nul(text) == text,
    decreases text.len(),
{
    if text.len() > 0 {
        let rest = text.drop_first();
        assert forall|i: int| 0 <= i < rest.len() implies #[trigger] rest[i] != '\0' by {
            assert(rest[i] == text[i + 1]);
        }
        lemma_before_nul(rest);
        assert(before_nul(text) =~= text);
    }
}

/// The characters of a text up to the first NUL.
pub fn cut_at_nul(chars: &Vec<char>) -> (kept: Vec<char>)
    ensures
        kept@ == before_nul(chars@),
{
    let mut kept: Vec<char> = Vec::new();
    assert(chars@.skip(0) == chars@);
    for i in 0..chars.len()
        invariant
            before_nul(chars@) == kept@ + before_nul(chars@.skip(i as int)),
    {
        assert(chars@.skip(i as int).drop_first() == chars@.skip(i + 1));
        if chars[i] == '\0' {
            assert(kept@ =~= before_nul(chars@));
            return kept;
        }
        let ghost before = kept@;
        kept.push(chars[i]);
        assert(before + (seq![chars@[i as int]] + before_nul(chars@.skip(i + 1))) =~= kept@
            + before_nul(chars@.skip(i + 1)));
    }
    assert(chars@.skip(chars.len() as int) =~= Seq::<char>::empty());
    assert(kept@ =~= before_nul(chars@));
    kept
}

/// Whether a search by a pattern finds a text: NUL ends either.
pub open spec fn finds(pattern: Seq<char>, text: Seq<char>) -> bool {
    like(before_nul(pattern), before_nul(text))
}

/// Tells whether a search by a pattern, which is cut at NUL, finds a text.
pub fn is_found(pattern: &Vec<char>, text: &str) -> (found: bool)
    ensures
        found == like(pattern@, before_nul(text@)),
{
    let chars = chars_of(text);
    is_like(pattern, &cut_at_nul(&chars))
}

/// How many bytes a pattern has at most.
pub const MAX_PATTERN_BYTES: usize = 50_000;

/// Tells whether a pattern is too long.
pub fn is_too_long(pattern: &Vec<char>) -> (long: bool)
    ensures
        long == (byte_len(pattern@) > MAX_PATTERN_BYTES),
{
    let text = text_of(pattern);
    text.as_str().as_bytes().len() > MAX_PATTERN_BYTES
}

/// Whether no character of a text has a meaning of its own in a pattern.
pub open spec fn plain(text: Seq<char>) -> bool {
    forall|i: int|
        0 <= i < text.len() ==> #[trigger] text[i] != '%' && text[i] != '_' && text[i] != '\0'
}

/// Whether a text begins with another, ASCII letters in either case.
pub open spec fn begins_alike(text: Seq<char>, head: Seq<char>) -> bool {
    head.len() <= text.len() && forall|i: int|
        0 <= i < head.len() ==> lower(#[trigger] head[i]) == lower(text[i])
}

/// Anything matches a lone `%`.
proof fn lemma_any(text: Seq<char>)
    ensures
        like(seq!['%'], text),
    decreases text.len(),
{
    reveal_with_fuel(like, 2);
    let pattern = seq!['%'];
    assert(pattern.drop_first() == Seq::<char>::empty());
    if text.len() > 0 {
        lemma_any(text.drop_first());
    }
}

/// A text matches plain characters and a `%` where it begins with them.
proof fn lemma_like_head(head: Seq<char>, text: Seq<char>)
    requires
        plain(head),
    ensures
        like(head + seq!['%'], text) == begins_alike(text, head),
    decreases head.len(),
{
    let pattern = head + seq!['%'];
    if head.len() == 0 {
        assert(pattern == seq!['%']);
        lemma_any(text);
    } else {
        let rest = head.drop_first();
        assert(pattern[0] == head[0]);
        assert(pattern.drop_first() == rest + seq!['%']);
        assert forall|i: int| 0 <= i < rest.len() implies #[trigger] rest[i] != '%' && rest[i]
            != '_' && rest[i] != '\0' by {
            assert(rest[i] == head[i + 1]);
        }
        if text.len() > 0 {
            let tail = text.drop_first();
            lemma_like_head(rest, tail);
            if begins_alike(text, head) {
                assert forall|i: int| 0 <= i < rest.len() implies lower(#[trigger] rest[i])
                    == lower(tail[i]) by {
                    assert(lower(head[i + 1]) == lower(text[i + 1]));
                }
            }
            if begins_alike(tail, rest) && lower(head[0]) == lower(text[0]) {
                assert forall|i: int| 0 <= i < head.len() implies lower(#[trigger] head[i])
                    == lower(text[i]) by {
                    if i > 0 {
                        assert(lower(rest[i - 1]) == lower(tail[i - 1]));
                    }
                }
            }
        }
    }
}

/// A text matches a `%` and more where what is left of it from some place on matches the rest.
pub proof fn lemma_like_anywhere(rest: Seq<char>, text: Seq<char>)
    ensures
        like(seq!['%'] + rest, text) == exists|i: int|
            0 <= i <= text.len() && like(rest, #[trigger] text.skip(i)),
    decreases text.len(),
{
    let pattern = seq!['%'] + rest;
    assert(pattern.drop_first() == rest);
    assert(text.skip(0) == text);
    if text.len() == 0 {
        if exists|i: int| 0 <= i <= text.len() && like(rest, #[trigger] text.skip(i)) {
            assert(like(rest, text));
        }
    } else {
        let tail = text.drop_first();
        lemma_like_anywhere(rest, tail);
        if like(pattern, tail) {
            let i = choose|i: int| 0 <= i <= tail.len() && like(rest, #[trigger] tail.skip(i));
            assert(tail.skip(i) == text.skip(i + 1));
        }
        if exists|i: int| 0 <= i <= text.len() && like(rest, #[trigger] text.skip(i)) {
            let i = choose|i: int| 0 <= i <= text.len() && like(rest, #[trigger] text.skip(i));
            if i > 0 {
                assert(tail.skip(i - 1) == text.skip(i));
            }
        }
    }
}

/// A search for plain characters finds the texts that they are part of, ASCII letters in either
/// case. What follows a NUL character is not searched.
pub proof fn law_search_finds_parts(part: Seq<char>, text: Seq<char>)
    requires
        plain(part),
    ensures
        finds(seq!['%'] + part + seq!['%'], text) == exists|i: int|
            0 <= i <= before_nul(text).len() && begins_alike(
                #[trigger] before_nul(text).skip(i),
                part,
            ),
{
    let rest = part + seq!['%'];
    let pattern = seq!['%'] + part + seq!['%'];
    let seen = before_nul(text);
    assert(pattern == seq!['%'] + rest);
    assert forall|i: int| 0 <= i < pattern.len() implies #[trigger] pattern[i] != '\0' by {
        if 0 < i <= part.len() {
            assert(pattern[i] == part[i - 1]);
        }
    }
    lemma_before_nul(pattern);
    lemma_like_anywhere(rest, seen);
    assert forall|i: int| 0 <= i <= seen.len() implies like(rest, #[trigger] seen.skip(i))
        == begins_alike(seen.skip(i), part) by {
        lemma_like_head(part, seen.skip(i));
    }
}

} // verus!
