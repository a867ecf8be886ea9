//! What is left of URLs: the scheme, the host, the port and the path.
//!
//! Who is named before the host, the query and the fragment are taken out, as they may hold
//! credentials.
use crate::text::{chars_of, is_white_space, text_of, white_space};
use vstd::prelude::*;

verus! {

/// Where a place in a text is with regard to URLs.
#[derive(Debug, Clone, Copy, PartialEq, Eq, Structural)]
pub enum UrlPart {
    /// In none.
    Outside,
    /// Behind characters that may be a scheme.
    Scheme,
    /// Between the slashes behind the scheme and the path.
    Host,
    /// In the path.
    Path,
    /// In the query or the fragment.
    Query,
}

/// How many parts may come next at the same place.
pub open spec fn parts_left(part: UrlPart) -> int {
    match part {
        UrlPart::Outside => 0,
        UrlPart::Scheme => 0,
        UrlPart::Path => 1,
        UrlPart::Query => 1,
        UrlPart::Host => 2,
    }
}

/// Whether a character ends a URL that stands in a text.
pub open spec fn url_end(ch: char) -> bool {
    white_space(ch) || ch == '"' || ch == '\'' || ch == '<' || ch == '>' || ch == '`' || ch == '\\'
}

/// Whether a character is an ASCII letter.
pub open spec fn letter(ch: char) -> bool {
    ('a' <= ch <= 'z') || ('A' <= ch <= 'Z')
}

/// Whether a character may stand in a scheme behind its first letter.
pub open spec fn scheme_char(ch: char) -> bool {
    letter(ch) || ('0' <= ch <= '9') || ch == '+' || ch == '-' || ch == '.'
}

/// Where a place is behind a character that is in no URL, given where the character is: behind a
/// scheme, where there is a letter and nothing since that may not stand in one.
pub open spec fn behind(ch: char, part: UrlPart) -> UrlPart {
    if letter(ch) || (part == UrlPart::Scheme && scheme_char(ch)) {
        UrlPart::Scheme
    } else {
        UrlPart::Outside
    }
}

/// Whether a text begins with the mark between the scheme of a URL and its host.
pub open spec fn at_mark(text: Seq<char>) -> bool {
    text.len() >= 3 && text[0] == ':' && text[1] == '/' && text[2] == '/'
}

/// Whether a text begins with what ends the host of a URL.
pub open spec fn at_host_end(text: Seq<char>) -> bool {
    text[0] == '/' || text[0] == '?' || text[0] == '#' || url_end(text[0]) || at_mark(text)
}

/// What is left of a text from a place on, given where that is with regard to URLs, and what was
/// read of a host.
pub open spec fn bare_from(text: Seq<char>, part: UrlPart, held: Seq<char>) -> Seq<char>
    decreases text.len(), parts_left(part),
{
    if text.len() == 0 {
        held
    } else {
        match part {
            UrlPart::Outside => seq![text[0]] + bare_from(
                text.drop_first(),
                behind(text[0], part),
                Seq::empty(),
            ),
            UrlPart::Scheme => if at_mark(text) {
                seq![':', '/', '/'] + bare_from(text.skip(3), UrlPart::Host, Seq::empty())
            } else {
                seq![text[0]] + bare_from(text.drop_first(), behind(text[0], part), Seq::empty())
            },
            UrlPart::Host => if text[0] == '@' {
                bare_from(text.drop_first(), UrlPart::Host, Seq::empty())
            } else if at_host_end(text) {
                held + bare_from(text, UrlPart::Path, Seq::empty())
            } else {
                bare_from(text.drop_first(), UrlPart::Host, held.push(text[0]))
            },
            UrlPart::Path => if at_mark(text) {
                seq![':', '/', '/'] + bare_from(text.skip(3), UrlPart::Host, Seq::empty())
            } else if text[0] == '?' || text[0] == '#' {
                bare_from(text.drop_first(), UrlPart::Query, Seq::empty())
            } else if url_end(text[0]) {
                seq![text[0]] + bare_from(text.drop_first(), UrlPart::Outside, Seq::empty())
            } else {
                seq![text[0]] + bare_from(text.drop_first(), UrlPart::Path, Seq::empty())
            },
            UrlPart::Query => if url_end(text[0]) {
                bare_from(text, UrlPart::Outside, Seq::empty())
            } else {
                bare_from(text.drop_first(), UrlPart::Query, Seq::empty())
            },
        }
    }
}

/// A text with only the scheme, the host, the port and the path left of every URL in it.
pub open spec fn bare_urls(text: Seq<char>) -> Seq<char> {
    bare_from(text, UrlPart::Outside, Seq::empty())
}

fn part_behind(ch: char, part: UrlPart) -> (next: UrlPart)
    ensures
        next == behind(ch, part),
{
    let is_letter = ('a' <= ch && ch <= 'z') || ('A' <= ch && ch <= 'Z');
    if is_letter || (part == UrlPart::Scheme && (('0' <= ch && ch <= '9') || ch == '+' || ch == '-'
        || ch == '.')) {
        UrlPart::Scheme
    } else {
        UrlPart::Outside
    }
}

fn ends_url(ch: char) -> (ends: bool)
    ensures
        ends == url_end(ch),
{
    is_white_space(ch) || ch == '"' || ch == '\'' || ch == '<' || ch == '>' || ch == '`' || ch
        == '\\'
}

fn is_mark(chars: &Vec<char>, at: usize) -> (is: bool)
    requires
        at < chars.len(),
    ensures
        is == at_mark(chars@.skip(at as int)),
{
    chars.len() - at >= 3 && chars[at] == ':' && chars[at + 1] == '/' && chars[at + 2] == '/'
}

/// Leaves only the scheme, the host, the port and the path of every URL in a text.
pub fn strip_urls(text: &str) -> (written: String)
    ensures
        written@ == bare_urls(text@),
{
    let chars = chars_of(text);
    let mut kept: Vec<char> = Vec::new();
    let mut held: Vec<char> = Vec::new();
    let mut part = UrlPart::Outside;
    let mut at: usize = 0;
    assert(chars@.skip(0) == chars@);
    while at < chars.len()
        invariant
            at <= chars.len(),
            part != UrlPart::Host ==> held@ == Seq::<char>::empty(),
            bare_urls(chars@) == kept@ + bare_from(chars@.skip(at as int), part, held@),
        decreases chars.len() - at, parts_left(part),
    {
        let ghost before = kept@;
        let ghost rest = chars@.skip(at as int);
        let ch = chars[at];
        let mark = is_mark(&chars, at);
        assert(rest[0] == ch);
        assert(rest.drop_first() == chars@.skip(at + 1));
        match part {
            UrlPart::Host => {
                if ch == '@' {
                    held = Vec::new();
                    at = at + 1;
                } else if ch == '/' || ch == '?' || ch == '#' || ends_url(ch) || mark {
                    kept.append(&mut held);
                    part = UrlPart::Path;
                    assert(bare_urls(chars@) =~= kept@ + bare_from(rest, part, held@));
                } else {
                    held.push(ch);
                    at = at + 1;
                }
            },
            UrlPart::Query => {
                if ends_url(ch) {
                    part = UrlPart::Outside;
                } else {
                    at = at + 1;
                }
            },
            _ => {
                if mark && part != UrlPart::Outside {
                    kept.push(':');
                    kept.push('/');
                    kept.push('/');
                    part = UrlPart::Host;
                    at = at + 3;
                    assert(rest.skip(3) == chars@.skip(at as int));
                    assert(kept@ =~= before + seq![':', '/', '/']);
                    assert(bare_urls(chars@) =~= kept@ + bare_from(
                        chars@.skip(at as int),
                        part,
                        held@,
                    ));
                } else if part == UrlPart::Path && (ch == '?' || ch == '#') {
                    part = UrlPart::Query;
                    at = at + 1;
                } else {
                    kept.push(ch);
                    if part != UrlPart::Path {
                        part = part_behind(ch, part);
                    } else if ends_url(ch) {
                        part = UrlPart::Outside;
                    }
                    at = at + 1;
                    assert(kept@ =~= before + seq![ch]);
                    assert(bare_urls(chars@) =~= kept@ + bare_from(
                        chars@.skip(at as int),
                        part,
                        held@,
                    ));
                }
            },
        }
    }
    assert(chars@.skip(at as int).len() == 0);
    kept.append(&mut held);
    assert(kept@ =~= bare_urls(chars@));
    text_of(&kept)
}

/// Whether no URL in a text, from a place on that is there with regard to URLs, names anyone
/// before its host or has a query or a fragment.
pub open spec fn neat(text: Seq<char>, part: UrlPart) -> bool
    decreases text.len(),
{
    if text.len() == 0 {
        true
    } else if at_mark(text) && part != UrlPart::Outside {
        neat(text.skip(3), UrlPart::Host)
    } else if part == UrlPart::Outside || part == UrlPart::Scheme {
        neat(text.drop_first(), behind(text[0], part))
    } else if url_end(text[0]) {
        neat(text.drop_first(), UrlPart::Outside)
    } else if text[0] == '?' || text[0] == '#' || (part == UrlPart::Host && text[0] == '@') {
        false
    } else if text[0] == '/' {
        neat(text.drop_first(), UrlPart::Path)
    } else {
        neat(text.drop_first(), part)
    }
}

/// Whether characters may be held of a host.
spec fn host_chars(held: Seq<char>) -> bool {
    forall|i: int|
        0 <= i < held.len() ==> (#[trigger] held[i]) != '@' && held[i] != '/' && held[i] != '?'
            && held[i] != '#' && !url_end(held[i])
}

/// Whether a text begins with two slashes.
spec fn slashes(text: Seq<char>) -> bool {
    text.len() >= 2 && text[0] == '/' && text[1] == '/'
}

/// A host before a text in which URLs are neat leaves them neat.
proof fn lemma_host_before(held: Seq<char>, text: Seq<char>)
    requires
        host_chars(held),
        neat(text, UrlPart::Host),
        held.len() > 0 && held.last() == ':' ==> !slashes(text),
    ensures
        neat(held + text, UrlPart::Host),
    decreases held.len(),
{
    if held.len() == 0 {
        assert(held + text =~= text);
    } else {
        let rest = held.drop_first();
        assert forall|i: int| 0 <= i < rest.len() implies (#[trigger] rest[i]) != '@' && rest[i]
            != '/' && rest[i] != '?' && rest[i] != '#' && !url_end(rest[i]) by {
            assert(rest[i] == held[i + 1]);
        }
        if rest.len() > 0 {
            assert(rest.last() == held.last());
        }
        lemma_host_before(rest, text);
        let all = held + text;
        assert(all.drop_first() =~= rest + text);
        assert(all[0] == held[0]);
        assert(!at_mark(all)) by {
            if at_mark(all) {
                if held.len() >= 2 {
                    assert(all[1] == held[1]);
                } else {
                    assert(all[1] == text[0] && all[2] == text[1]);
                }
            }
        }
    }
}

/// What is left of a text is neat; and where it begins with slashes, so does the text.
proof fn lemma_neat(text: Seq<char>, part: UrlPart, held: Seq<char>)
    requires
        part != UrlPart::Host ==> held.len() == 0,
        host_chars(held),
        held.len() > 0 && held.last() == ':' ==> !slashes(text),
    ensures
        neat(
            bare_from(text, part, held),
            if part == UrlPart::Query {
                UrlPart::Path
            } else {
                part
            },
        ),
        part == UrlPart::Outside || part == UrlPart::Scheme || part == UrlPart::Path ==> {
            let left = bare_from(text, part, held);
            &&& left.len() > 0 && left[0] == '/' ==> text.len() > 0 && text[0] == '/'
            &&& slashes(left) ==> slashes(text)
        },
    decreases text.len(), parts_left(part),
{
    let left = bare_from(text, part, held);
    let none = Seq::<char>::empty();
    if text.len() == 0 {
        lemma_host_before(held, none);
        assert(held + none =~= held);
    } else {
        let rest = text.drop_first();
        match part {
            UrlPart::Host => {
                if text[0] == '@' {
                    lemma_neat(rest, part, none);
                } else if at_host_end(text) {
                    lemma_neat(text, UrlPart::Path, none);
                    let tail = bare_from(text, UrlPart::Path, none);
                    lemma_path_start(text);
                    lemma_host_before(held, tail);
                } else {
                    let longer = held.push(text[0]);
                    assert(longer.last() == ':' ==> !slashes(rest)) by {
                        if longer.last() == ':' && slashes(rest) {
                            assert(text[1] == rest[0] && text[2] == rest[1]);
                        }
                    }
                    lemma_neat(rest, part, longer);
                }
            },
            UrlPart::Query => {
                if url_end(text[0]) {
                    lemma_neat(text, UrlPart::Outside, none);
                    assert(!at_mark(text));
                    assert(left[0] == text[0]);
                } else {
                    lemma_neat(rest, part, none);
                }
            },
            _ => {
                if at_mark(text) && part != UrlPart::Outside {
                    let tail = bare_from(text.skip(3), UrlPart::Host, none);
                    lemma_neat(text.skip(3), UrlPart::Host, none);
                    assert(left.skip(3) =~= tail);
                } else if part == UrlPart::Path && (text[0] == '?' || text[0] == '#') {
                    lemma_neat(rest, UrlPart::Query, none);
                    lemma_behind_query(rest);
                } else {
                    let next = if part != UrlPart::Path {
                        behind(text[0], part)
                    } else if url_end(text[0]) {
                        UrlPart::Outside
                    } else {
                        part
                    };
                    let tail = bare_from(rest, next, none);
                    lemma_neat(rest, next, none);
                    assert(left.drop_first() =~= tail);
                    assert(left[0] == text[0]);
                    if at_mark(left) && part != UrlPart::Outside {
                        assert(tail[0] == left[1] && tail[1] == left[2]);
                        assert(slashes(rest));
                        assert(text[1] == rest[0] && text[2] == rest[1]);
                    }
                    if slashes(left) {
                        assert(tail[0] == left[1]);
                        assert(rest[0] == '/');
                        assert(text[1] == rest[0]);
                    }
                }
            },
        }
    }
}

/// What is left of a text from the end of a host on is neat as one behind a host too.
proof fn lemma_path_start(text: Seq<char>)
    requires
        text.len() > 0,
        at_host_end(text),
        neat(bare_from(text, UrlPart::Path, Seq::empty()), UrlPart::Path),
    ensures
        neat(bare_from(text, UrlPart::Path, Seq::empty()), UrlPart::Host),
{
    let none = Seq::<char>::empty();
    let left = bare_from(text, UrlPart::Path, none);
    let rest = text.drop_first();
    if at_mark(text) {
        assert(at_mark(left));
    } else if text[0] == '?' || text[0] == '#' {
        lemma_behind_query(rest);
    } else {
        assert(left[0] == text[0]);
    }
}

/// What is left behind a query begins with the end of the URL, if there is more.
proof fn lemma_behind_query(text: Seq<char>)
    ensures
        ({
            let left = bare_from(text, UrlPart::Query, Seq::empty());
            left.len() > 0 ==> url_end(left[0])
        }),
    decreases text.len(),
{
    if text.len() > 0 {
        if url_end(text[0]) {
            assert(bare_from(text, UrlPart::Outside, Seq::empty())[0] == text[0]);
        } else {
            lemma_behind_query(text.drop_first());
        }
    }
}

/// No URL that is left in a text names anyone before its host, or has a query or a fragment.
pub proof fn law_urls_are_bare(text: Seq<char>)
    ensures
        neat(bare_urls(text), UrlPart::Outside),
{
    lemma_neat(text, UrlPart::Outside, Seq::empty());
}

/// Whether a URL begins in a text, from a place on that is there with regard to URLs: whether the
/// mark behind a scheme stands behind characters that may be one.
pub open spec fn has_url(text: Seq<char>, part: UrlPart) -> bool
    decreases text.len(),
{
    text.len() > 0 && ((at_mark(text) && part == UrlPart::Scheme) || has_url(
        text.drop_first(),
        behind(text[0], part),
    ))
}

proof fn lemma_without_urls(text: Seq<char>, part: UrlPart)
    requires
        part == UrlPart::Outside || part == UrlPart::Scheme,
        !has_url(text, part),
    ensures
        bare_from(text, part, Seq::empty()) == text,
    decreases text.len(),
{
    if text.len() > 0 {
        lemma_without_urls(text.drop_first(), behind(text[0], part));
        assert(bare_from(text, part, Seq::empty()) =~= text);
    }
}

/// A text without a URL stays as it is.
pub proof fn law_texts_without_urls_stay(text: Seq<char>)
    requires
        !has_url(text, UrlPart::Outside),
    ensures
        bare_urls(text) == text,
{
    lemma_without_urls(text, UrlPart::Outside);
}

/// What stands before the first question mark or number sign.
pub open spec fn before_query(text: Seq<char>) -> Seq<char>
    decreases text.len(),
{
    if text.len() == 0 || text[0] == '?' || text[0] == '#' {
        Seq::empty()
    } else {
        seq![text[0]] + before_query(text.drop_first())
    }
}

/// A path without a query and a fragment, and without anyone named before a host.
pub open spec fn safe_path(path: Seq<char>) -> Seq<char> {
    before_query(bare_urls(path))
}

/// Leaves a path without a query and a fragment, and without anyone named before a host.
pub fn strip_path(path: &str) -> (written: String)
    ensures
        written@ == safe_path(path@),
{
    let bare = strip_urls(path);
    let chars = chars_of(bare.as_str());
    let mut kept: Vec<char> = Vec::new();
    assert(chars@.skip(0) == chars@);
    for at in 0..chars.len()
        invariant
            chars@ == bare_urls(path@),
            safe_path(path@) == kept@ + before_query(chars@.skip(at as int)),
    {
        let ghost before = kept@;
        assert(chars@.skip(at as int).drop_first() == chars@.skip(at + 1));
        if chars[at] == '?' || chars[at] == '#' {
            assert(kept@ =~= safe_path(path@));
            return text_of(&kept);
        }
        kept.push(chars[at]);
        assert(before + (seq![chars@[at as int]] + before_query(chars@.skip(at + 1))) =~= kept@
            + before_query(chars@.skip(at + 1)));
    }
    assert(chars@.skip(chars.len() as int).len() == 0);
    assert(kept@ =~= safe_path(path@));
    text_of(&kept)
}

proof fn lemma_before_query(text: Seq<char>)
    ensures
        forall|i: int|
            0 <= i < before_query(text).len() ==> (#[trigger] before_query(text)[i]) != '?'
                && before_query(text)[i] != '#',
        (forall|i: int| 0 <= i < text.len() ==> (#[trigger] text[i]) != '?' && text[i] != '#')
            ==> before_query(text) == text,
    decreases text.len(),
{
    if text.len() > 0 && text[0] != '?' && text[0] != '#' {
        let rest = text.drop_first();
        lemma_before_query(rest);
        let kept = before_query(text);
        assert forall|i: int| 0 <= i < kept.len() implies (#[trigger] kept[i]) != '?' && kept[i]
            != '#' by {
            if i > 0 {
                assert(kept[i] == before_query(rest)[i - 1]);
            }
        }
        if forall|i: int| 0 <= i < text.len() ==> (#[trigger] text[i]) != '?' && text[i] != '#' {
            assert forall|i: int| 0 <= i < rest.len() implies (#[trigger] rest[i]) != '?'
                && rest[i] != '#' by {
                assert(rest[i] == text[i + 1]);
            }
            assert(kept =~= text);
        }
    }
}

/// A path that is left has neither a query nor a fragment, and a path of this program, which has
/// neither and is no URL, stays as it is.
pub proof fn law_paths_are_safe(path: Seq<char>)
    ensures
        forall|i: int|
            0 <= i < safe_path(path).len() ==> (#[trigger] safe_path(path)[i]) != '?' && safe_path(
                path,
            )[i] != '#',
        !has_url(path, UrlPart::Outside) && (forall|i: int|
            0 <= i < path.len() ==> (#[trigger] path[i]) != '?' && path[i] != '#') ==> safe_path(
            path,
        ) == path,
{
    lemma_before_query(bare_urls(path));
    if !has_url(path, UrlPart::Outside) {
        law_texts_without_urls_stay(path);
    }
}

} // verus!
