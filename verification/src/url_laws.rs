//! What is left of a URL, part by part.
use crate::text_laws::blank;
use crate::urls::{
    at_host_end, at_mark, bare_from, bare_urls, before_query, behind, has_url,
    law_texts_without_urls_stay, letter, scheme_char, strip_path, strip_urls, url_end, UrlPart,
};
use vstd::prelude::*;

verus! {

/// Whether a character ends a URL in a text: white space, a quotation mark, an angle bracket, an
/// accent or a backslash.
pub open spec fn ends_url_text(ch: char) -> bool {
    blank(ch) || ch == '"' || ch == '\'' || ch == '<' || ch == '>' || ch == '`' || ch == '\\'
}

/// Whether characters are the scheme of a URL: a letter, and letters, digits, `+`, `-` and `.`.
pub open spec fn is_scheme(text: Seq<char>) -> bool {
    &&& text.len() > 0
    &&& ('a' <= text[0] <= 'z') || ('A' <= text[0] <= 'Z')
    &&& forall|i: int|
        #![trigger text[i]]
        0 <= i < text.len() ==> ('a' <= text[i] <= 'z') || ('A' <= text[i] <= 'Z') || ('0'
            <= text[i] <= '9') || text[i] == '+' || text[i] == '-' || text[i] == '.'
}

/// Whether characters may stand between the slashes behind a scheme and the path, but for `@`.
pub open spec fn is_host(text: Seq<char>) -> bool {
    &&& forall|i: int|
        #![trigger text[i]]
        0 <= i < text.len() ==> text[i] != '@' && text[i] != '/' && text[i] != '?' && text[i] != '#'
            && !ends_url_text(text[i])
    &&& text.len() > 0 ==> text.last() != ':'
}

/// Whether characters may stand in the path of a URL.
pub open spec fn is_path(text: Seq<char>) -> bool {
    &&& text.len() > 0 ==> text[0] == '/'
    &&& forall|i: int|
        #![trigger text[i]]
        0 <= i < text.len() ==> text[i] != '?' && text[i] != '#' && !ends_url_text(text[i])
    &&& no_mark(text)
}

/// Whether `://` stands nowhere in a text.
pub open spec fn no_mark(text: Seq<char>) -> bool {
    forall|i: int|
        #![trigger text[i]]
        0 <= i && i + 2 < text.len() ==> !(text[i] == ':' && text[i + 1] == '/' && text[i + 2]
            == '/')
}

/// Whether characters are who is named before the host of a URL, and the sign behind that, or
/// nothing.
pub open spec fn is_user(text: Seq<char>) -> bool {
    text.len() > 0 ==> text.last() == '@' && forall|i: int|
        #![trigger text[i]]
        0 <= i < text.len() - 1 ==> text[i] != '@' && text[i] != '/' && text[i] != '?' && text[i]
            != '#' && !ends_url_text(text[i])
}

/// Whether characters are the query or the fragment of a URL, or nothing.
pub open spec fn is_query(text: Seq<char>) -> bool {
    text.len() > 0 ==> (text[0] == '?' || text[0] == '#') && forall|i: int|
        #![trigger text[i]]
        0 <= i < text.len() ==> !ends_url_text(text[i])
}

/// Whether a text in which a URL stands goes on behind it with what ends one, if it does.
pub open spec fn goes_on(text: Seq<char>) -> bool {
    text.len() > 0 ==> ends_url_text(text[0])
}

/// Whether a text before a URL has no colon, and a space at its end, if there is any.
pub open spec fn leads_up(text: Seq<char>) -> bool {
    &&& text.len() > 0 ==> text.last() == ' '
    &&& forall|i: int| 0 <= i < text.len() ==> #[trigger] text[i] != ':'
}

proof fn lemma_ends(ch: char)
    ensures
        url_end(ch) == ends_url_text(ch),
{
}

/// What leads up to a URL stays.
proof fn lemma_lead(lead: Seq<char>, rest: Seq<char>, part: UrlPart)
    requires
        leads_up(lead),
        part == UrlPart::Outside || (part == UrlPart::Scheme && lead.len() > 0),
    ensures
        bare_from(lead + rest, part, Seq::empty()) == lead + bare_urls(rest),
    decreases lead.len(),
{
    let all = lead + rest;
    if lead.len() == 0 {
        assert(all =~= rest);
        assert(lead + bare_urls(rest) =~= bare_urls(rest));
    } else {
        let tail = lead.drop_first();
        assert(all.drop_first() =~= tail + rest);
        assert(all[0] == lead[0]);
        assert forall|i: int| 0 <= i < tail.len() implies #[trigger] tail[i] != ':' by {
            assert(tail[i] == lead[i + 1]);
        }
        if tail.len() > 0 {
            assert(tail.last() == lead.last());
        }
        lemma_lead(tail, rest, behind(lead[0], part));
        assert(seq![lead[0]] + (tail + bare_urls(rest)) =~= lead + bare_urls(rest));
    }
}

/// The scheme of a URL stays, and the mark behind it.
proof fn lemma_scheme(scheme: Seq<char>, rest: Seq<char>, part: UrlPart)
    requires
        part == UrlPart::Outside ==> is_scheme(scheme),
        part == UrlPart::Outside || part == UrlPart::Scheme,
        forall|i: int| 0 <= i < scheme.len() ==> scheme_char(#[trigger] scheme[i]),
    ensures
        bare_from(scheme + seq![':', '/', '/'] + rest, part, Seq::empty()) == scheme + seq![
            ':',
            '/',
            '/',
        ] + bare_from(rest, UrlPart::Host, Seq::empty()),
    decreases scheme.len(),
{
    let mark = seq![':', '/', '/'];
    let all = scheme + mark + rest;
    let left = bare_from(rest, UrlPart::Host, Seq::empty());
    if scheme.len() == 0 {
        assert(all.skip(3) =~= rest);
        assert(scheme + mark + left =~= mark + left);
    } else {
        let tail = scheme.drop_first();
        assert(all.drop_first() =~= tail + mark + rest);
        assert(all[0] == scheme[0]);
        assert forall|i: int| 0 <= i < tail.len() implies scheme_char(#[trigger] tail[i]) by {
            assert(tail[i] == scheme[i + 1]);
        }
        assert(scheme_char(scheme[0]));
        lemma_scheme(tail, rest, UrlPart::Scheme);
        assert(seq![scheme[0]] + (tail + mark + left) =~= scheme + mark + left);
    }
}

/// Who is named before a host goes.
proof fn lemma_user(user: Seq<char>, rest: Seq<char>, held: Seq<char>)
    requires
        user.len() > 0,
        is_user(user),
    ensures
        bare_from(user + rest, UrlPart::Host, held) == bare_from(rest, UrlPart::Host, Seq::empty()),
    decreases user.len(),
{
    let all = user + rest;
    let tail = user.drop_first();
    assert(all[0] == user[0]);
    assert(all.drop_first() =~= tail + rest);
    if user.len() == 1 {
        assert(tail + rest =~= rest);
    } else {
        lemma_ends(user[0]);
        assert(!at_mark(all)) by {
            assert(all[1] == user[1]);
            if user.len() > 2 {
                assert(user[1] != '/');
            }
        }
        assert forall|i: int|
            #![trigger tail[i]]
            0 <= i < tail.len() - 1 implies tail[i] != '@' && tail[i] != '/' && tail[i] != '?'
            && tail[i] != '#' && !ends_url_text(tail[i]) by {
            assert(tail[i] == user[i + 1]);
        }
        assert(tail.last() == user.last());
        lemma_user(tail, rest, held.push(user[0]));
    }
}

/// A host is held until it ends.
proof fn lemma_host(host: Seq<char>, rest: Seq<char>, held: Seq<char>)
    requires
        is_host(host),
    ensures
        bare_from(host + rest, UrlPart::Host, held) == bare_from(rest, UrlPart::Host, held + host),
    decreases host.len(),
{
    let all = host + rest;
    if host.len() == 0 {
        assert(all =~= rest);
        assert(held + host =~= held);
    } else {
        let tail = host.drop_first();
        assert(all[0] == host[0]);
        assert(all.drop_first() =~= tail + rest);
        lemma_ends(host[0]);
        assert(!at_mark(all)) by {
            if host.len() > 1 {
                assert(all[1] == host[1]);
            } else {
                assert(host[0] == host.last());
            }
        }
        assert forall|i: int|
            #![trigger tail[i]]
            0 <= i < tail.len() implies tail[i] != '@' && tail[i] != '/' && tail[i] != '?'
            && tail[i] != '#' && !ends_url_text(tail[i]) by {
            assert(tail[i] == host[i + 1]);
        }
        if tail.len() > 0 {
            assert(tail.last() == host.last());
        }
        lemma_host(tail, rest, held.push(host[0]));
        assert(held.push(host[0]) + tail =~= held + host);
    }
}

/// A path stays.
proof fn lemma_path(path: Seq<char>, rest: Seq<char>)
    requires
        forall|i: int|
            #![trigger path[i]]
            0 <= i < path.len() ==> path[i] != '?' && path[i] != '#' && !ends_url_text(path[i]),
        no_mark(path),
        rest.len() > 0 ==> rest[0] == '?' || rest[0] == '#' || ends_url_text(rest[0]),
    ensures
        bare_from(path + rest, UrlPart::Path, Seq::empty()) == path + bare_from(
            rest,
            UrlPart::Path,
            Seq::empty(),
        ),
    decreases path.len(),
{
    let all = path + rest;
    let left = bare_from(rest, UrlPart::Path, Seq::empty());
    if path.len() == 0 {
        assert(all =~= rest);
        assert(path + left =~= left);
    } else {
        let tail = path.drop_first();
        assert(all[0] == path[0]);
        assert(all.drop_first() =~= tail + rest);
        lemma_ends(path[0]);
        assert(!at_mark(all)) by {
            if at_mark(all) {
                if path.len() > 2 {
                    assert(all[1] == path[1] && all[2] == path[2]);
                } else if path.len() == 2 {
                    assert(all[2] == rest[0]);
                } else {
                    assert(all[1] == rest[0]);
                }
            }
        }
        assert forall|i: int|
            #![trigger tail[i]]
            0 <= i < tail.len() implies tail[i] != '?' && tail[i] != '#' && !ends_url_text(
            tail[i],
        ) by {
            assert(tail[i] == path[i + 1]);
        }
        assert(no_mark(tail)) by {
            assert forall|i: int|
                #![trigger tail[i]]
                0 <= i && i + 2 < tail.len() implies !(tail[i] == ':' && tail[i + 1] == '/'
                && tail[i + 2] == '/') by {
                assert(tail[i] == path[i + 1] && tail[i + 1] == path[i + 2] && tail[i + 2]
                    == path[i + 3]);
            }
        }
        lemma_path(tail, rest);
        assert(seq![path[0]] + (tail + left) =~= path + left);
    }
}

/// A query goes.
proof fn lemma_query(query: Seq<char>, rest: Seq<char>)
    requires
        forall|i: int| 0 <= i < query.len() ==> !ends_url_text(#[trigger] query[i]),
        goes_on(rest),
    ensures
        bare_from(query + rest, UrlPart::Query, Seq::empty()) == bare_urls(rest),
    decreases query.len(),
{
    let all = query + rest;
    if query.len() == 0 {
        assert(all =~= rest);
        if rest.len() > 0 {
            lemma_ends(rest[0]);
        }
    } else {
        let tail = query.drop_first();
        assert(all[0] == query[0]);
        assert(all.drop_first() =~= tail + rest);
        lemma_ends(query[0]);
        assert forall|i: int| 0 <= i < tail.len() implies !ends_url_text(#[trigger] tail[i]) by {
            assert(tail[i] == query[i + 1]);
        }
        lemma_query(tail, rest);
    }
}

/// What is left of a URL behind its path.
proof fn lemma_path_end(query: Seq<char>, rest: Seq<char>)
    requires
        is_query(query),
        goes_on(rest),
    ensures
        bare_from(query + rest, UrlPart::Path, Seq::empty()) == bare_urls(rest),
{
    let all = query + rest;
    if query.len() > 0 {
        assert(all[0] == query[0]);
        assert(all.drop_first() =~= query.drop_first() + rest);
        lemma_query(query.drop_first(), rest);
        assert(!at_mark(all));
    } else {
        assert(all =~= rest);
        if rest.len() > 0 {
            lemma_ends(rest[0]);
            assert(!at_mark(rest));
            assert(behind(rest[0], UrlPart::Outside) == UrlPart::Outside);
        }
    }
}

/// Of a URL in a text the scheme, the host with the port, and the path stay; who is named before
/// the host goes, and so do the query and the fragment. The text before it stays, and what is left
/// of the text behind it is what would be left of that text alone.
pub proof fn law_what_is_left_of_urls(
    text: &str,
    written: String,
    lead: Seq<char>,
    scheme: Seq<char>,
    user: Seq<char>,
    host: Seq<char>,
    path: Seq<char>,
    query: Seq<char>,
    rest: &str,
    rest_written: String,
)
    requires
        call_ensures(strip_urls, (text,), written),
        call_ensures(strip_urls, (rest,), rest_written),
        text@ == lead + scheme + seq![':', '/', '/'] + user + host + path + query + rest@,
        leads_up(lead),
        is_scheme(scheme),
        is_user(user),
        is_host(host),
        is_path(path),
        is_query(query),
        goes_on(rest@),
    ensures
        written@ == lead + scheme + seq![':', '/', '/'] + host + path + rest_written@,
{
    let mark = seq![':', '/', '/'];
    let none = Seq::<char>::empty();
    let behind_path = query + rest@;
    let behind_host = path + behind_path;
    let behind_user = host + behind_host;
    let behind_mark = user + behind_user;
    assert(text@ =~= lead + (scheme + mark + behind_mark));
    lemma_lead(lead, scheme + mark + behind_mark, UrlPart::Outside);
    assert forall|i: int| 0 <= i < scheme.len() implies scheme_char(#[trigger] scheme[i]) by {}
    lemma_scheme(scheme, behind_mark, UrlPart::Outside);
    if user.len() > 0 {
        lemma_user(user, behind_user, none);
    } else {
        assert(behind_mark =~= behind_user);
    }
    lemma_host(host, behind_host, none);
    assert(none + host =~= host);
    if behind_host.len() > 0 {
        if path.len() > 0 {
            assert(behind_host[0] == path[0]);
        } else if query.len() > 0 {
            assert(behind_host[0] == query[0]);
        } else {
            assert(behind_host[0] == rest@[0]);
            lemma_ends(rest@[0]);
        }
        assert(at_host_end(behind_host));
        if path.len() == 0 && query.len() == 0 {
            assert(behind_host[0] != '@');
        }
    }
    if behind_path.len() > 0 {
        if query.len() > 0 {
            assert(behind_path[0] == query[0]);
        } else {
            assert(behind_path[0] == rest@[0]);
        }
    }
    lemma_path(path, behind_path);
    lemma_path_end(query, rest@);
    let left = bare_urls(rest@);
    assert(bare_from(behind_host, UrlPart::Host, host) =~= host + (path + left)) by {
        if behind_host.len() == 0 {
            assert(rest@.len() == 0 && path.len() == 0);
            assert(left.len() == 0);
        }
    }
    assert(lead + (scheme + mark + (host + (path + left))) =~= lead + scheme + mark + host + path
        + left);
}

/// A text in which `://` stands nowhere stays as it is.
pub proof fn law_texts_without_marks_stay(text: &str, written: String)
    requires
        call_ensures(strip_urls, (text,), written),
        no_mark(text@),
    ensures
        written@ == text@,
{
    lemma_no_url(text@, UrlPart::Outside);
    law_texts_without_urls_stay(text@);
}

/// Whether a character may stand in a scheme.
pub open spec fn in_scheme(ch: char) -> bool {
    ||| 'a' <= ch <= 'z'
    ||| 'A' <= ch <= 'Z'
    ||| '0' <= ch <= '9'
    ||| ch == '+'
    ||| ch == '-'
    ||| ch == '.'
}

/// Whether no scheme stands right before a place of a text: among the characters right before it
/// that may stand in one is no letter.
pub open spec fn no_scheme_before(text: Seq<char>, at: int) -> bool {
    exists|from: int| #[trigger] no_letter_since(text, from, at)
}

/// Whether the characters from one place to another are no letters, and the one before them may not
/// stand in a scheme.
pub open spec fn no_letter_since(text: Seq<char>, from: int, at: int) -> bool {
    &&& 0 <= from <= at
    &&& from > 0 ==> !in_scheme(text[from - 1])
    &&& forall|i: int|
        #![trigger text[i]]
        from <= i < at ==> !('a' <= text[i] <= 'z') && !('A' <= text[i] <= 'Z')
}

/// A text in which no scheme stands before any `://` stays as it is.
pub proof fn law_texts_without_schemes_stay(text: &str, written: String)
    requires
        call_ensures(strip_urls, (text,), written),
        forall|at: int|
            #![trigger text@[at]]
            0 <= at && at + 2 < text@.len() && text@[at] == ':' && text@[at + 1] == '/' && text@[at
                + 2] == '/' ==> no_scheme_before(text@, at),
    ensures
        written@ == text@,
{
    assert(text@.skip(0) =~= text@);
    lemma_no_scheme(text@, 0, UrlPart::Outside);
    law_texts_without_urls_stay(text@);
}

proof fn lemma_no_scheme(text: Seq<char>, at: int, part: UrlPart)
    requires
        0 <= at <= text.len(),
        part == UrlPart::Scheme ==> exists|k: int| #[trigger] letter_since(text, k, at),
        part == UrlPart::Outside || part == UrlPart::Scheme,
        forall|i: int|
            #![trigger text[i]]
            0 <= i && i + 2 < text.len() && text[i] == ':' && text[i + 1] == '/' && text[i + 2]
                == '/' ==> no_scheme_before(text, i),
    ensures
        !has_url(text.skip(at), part),
    decreases text.len() - at,
{
    let rest = text.skip(at);
    if at < text.len() {
        assert(rest[0] == text[at]);
        assert(rest.drop_first() =~= text.skip(at + 1));
        if at_mark(rest) && part == UrlPart::Scheme {
            assert(rest[1] == text[at + 1] && rest[2] == text[at + 2]);
            assert(no_scheme_before(text, at));
            let from = choose|from: int| #[trigger] no_letter_since(text, from, at);
            let k = choose|k: int| #[trigger] letter_since(text, k, at);
            if k < from {
                assert(in_scheme(text[from - 1]));
            }
        }
        let next = behind(text[at], part);
        if next == UrlPart::Scheme {
            if letter(text[at]) {
                assert(letter_since(text, at, at + 1));
            } else {
                let k = choose|k: int| #[trigger] letter_since(text, k, at);
                assert(letter_since(text, k, at + 1));
            }
        }
        lemma_no_scheme(text, at + 1, next);
    }
}

/// Whether a letter stands somewhere, and up to a place nothing that may not stand in a scheme.
spec fn letter_since(text: Seq<char>, k: int, at: int) -> bool {
    &&& 0 <= k < at
    &&& ('a' <= text[k] <= 'z') || ('A' <= text[k] <= 'Z')
    &&& forall|i: int| #![trigger text[i]] k <= i < at ==> in_scheme(text[i])
}

proof fn lemma_no_url(text: Seq<char>, part: UrlPart)
    requires
        no_mark(text),
    ensures
        !has_url(text, part),
    decreases text.len(),
{
    if text.len() > 0 {
        let rest = text.drop_first();
        assert(no_mark(rest)) by {
            assert forall|i: int|
                #![trigger rest[i]]
                0 <= i && i + 2 < rest.len() implies !(rest[i] == ':' && rest[i + 1] == '/'
                && rest[i + 2] == '/') by {
                assert(rest[i] == text[i + 1] && rest[i + 1] == text[i + 2] && rest[i + 2]
                    == text[i + 3]);
            }
        }
        lemma_no_url(rest, behind(text[0], part));
    }
}

/// A path is kept up to its first question mark or number sign, once nothing but the scheme, the
/// host, the port and the path is left of the URLs in it.
pub proof fn law_paths_end_at_the_query(
    path: &str,
    written: String,
    stripped: String,
    at: int,
)
    requires
        call_ensures(strip_path, (path,), written),
        call_ensures(strip_urls, (path,), stripped),
        0 <= at <= stripped@.len(),
        forall|i: int|
            0 <= i < at ==> (#[trigger] stripped@[i]) != '?' && stripped@[i] != '#',
        at < stripped@.len() ==> stripped@[at] == '?' || stripped@[at] == '#',
    ensures
        written@ == stripped@.take(at),
{
    lemma_before_query_is(stripped@, at);
}

proof fn lemma_before_query_is(text: Seq<char>, at: int)
    requires
        0 <= at <= text.len(),
        forall|i: int| 0 <= i < at ==> (#[trigger] text[i]) != '?' && text[i] != '#',
        at < text.len() ==> text[at] == '?' || text[at] == '#',
    ensures
        before_query(text) == text.take(at),
    decreases at,
{
    if at == 0 {
        assert(text.take(0) =~= Seq::empty());
    } else {
        let rest = text.drop_first();
        assert forall|i: int| 0 <= i < at - 1 implies (#[trigger] rest[i]) != '?' && rest[i]
            != '#' by {
            assert(rest[i] == text[i + 1]);
        }
        lemma_before_query_is(rest, at - 1);
        assert(seq![text[0]] + rest.take(at - 1) =~= text.take(at));
    }
}

} // verus!
