//! Which names of fields are those of secrets.
use crate::json::{Json, JsonView};
use crate::redact::{
    alphanumeric, is_sensitive_key, normalized, redact_value, secret_name, singular,
    RedactionPatterns,
};
use crate::text::{has_part, lower, lowered, part_at};
use vstd::prelude::*;
use vstd::string::*;

verus! {

/// So many letters `s`.
pub open spec fn plural(count: nat) -> Seq<char> {
    Seq::new(count, |i: int| 's')
}

/// A word is what it is without the letters `s` at its end, and those letters.
proof fn lemma_singular(word: Seq<char>)
    ensures
        exists|count: nat| word == singular(word) + #[trigger] plural(count),
        singular(word).len() > 0 ==> singular(word).last() != 's',
    decreases word.len(),
{
    if word.len() > 0 && word.last() == 's' {
        let before = word.drop_last();
        lemma_singular(before);
        let count = choose|count: nat| before == singular(before) + #[trigger] plural(count);
        assert(word =~= singular(word) + plural(count + 1)) by {
            assert(word == before.push('s'));
        }
    } else {
        assert(word =~= word + plural(0));
    }
}

/// Letters `s` behind a word that does not end with one are left aside.
proof fn lemma_plural(word: Seq<char>, count: nat)
    requires
        word.len() > 0,
        word.last() != 's',
    ensures
        singular(word + plural(count)) == word,
    decreases count,
{
    if count == 0 {
        assert(word + plural(0) =~= word);
    } else {
        let longer = word + plural(count);
        lemma_plural(word, (count - 1) as nat);
        assert(longer.drop_last() =~= word + plural((count - 1) as nat));
        assert(longer.last() == 's');
    }
}

/// What a name is normalized to, character by character.
proof fn lemma_normalized(name: Seq<char>)
    ensures
        normalized(name) == name.filter(
            |ch: char| ('0' <= ch <= '9') || ('a' <= ch <= 'z') || ('A' <= ch <= 'Z'),
        ).map_values(
            |ch: char|
                if 'A' <= ch <= 'Z' {
                    (ch as u32 + 32) as char
                } else {
                    ch
                },
        ),
{
    assert((|ch: char| alphanumeric(ch)) =~= (|ch: char|
        ('0' <= ch <= '9') || ('a' <= ch <= 'z') || ('A' <= ch <= 'Z')));
    assert((|ch: char| lower(ch)) =~= (|ch: char|
        if 'A' <= ch <= 'Z' {
            (ch as u32 + 32) as char
        } else {
            ch
        }));
}

/// Whether a word is there and does not end with the letter `s`.
pub open spec fn ends_otherwise(word: Seq<char>) -> bool {
    word.len() > 0 && word.last() != 's'
}

/// None of the names of secrets ends with the letter `s`.
proof fn lemma_words()
    ensures
        ends_otherwise("key"@),
        ends_otherwise("apikey"@),
        ends_otherwise("xapikey"@),
        ends_otherwise("accesskey"@),
        ends_otherwise("secretkey"@),
        ends_otherwise("privatekey"@),
        ends_otherwise("clientsecret"@),
        ends_otherwise("token"@),
        ends_otherwise("authtoken"@),
        ends_otherwise("accesstoken"@),
        ends_otherwise("refreshtoken"@),
        ends_otherwise("idtoken"@),
        ends_otherwise("sessiontoken"@),
        ends_otherwise("sessionid"@),
        ends_otherwise("authorization"@),
        ends_otherwise("proxyauthorization"@),
        ends_otherwise("auth"@),
        ends_otherwise("bearer"@),
        ends_otherwise("password"@),
        ends_otherwise("passwd"@),
        ends_otherwise("pwd"@),
        ends_otherwise("secret"@),
        ends_otherwise("credential"@),
        ends_otherwise("cookie"@),
        ends_otherwise("setcookie"@),
{
    reveal_strlit("key");
    reveal_strlit("apikey");
    reveal_strlit("xapikey");
    reveal_strlit("accesskey");
    reveal_strlit("secretkey");
    reveal_strlit("privatekey");
    reveal_strlit("clientsecret");
    reveal_strlit("token");
    reveal_strlit("authtoken");
    reveal_strlit("accesstoken");
    reveal_strlit("refreshtoken");
    reveal_strlit("idtoken");
    reveal_strlit("sessiontoken");
    reveal_strlit("sessionid");
    reveal_strlit("authorization");
    reveal_strlit("proxyauthorization");
    reveal_strlit("auth");
    reveal_strlit("bearer");
    reveal_strlit("password");
    reveal_strlit("passwd");
    reveal_strlit("pwd");
    reveal_strlit("secret");
    reveal_strlit("credential");
    reveal_strlit("cookie");
    reveal_strlit("setcookie");
}

/// A field is secret whose name is, its ASCII letters and digits taken in lower case and letters
/// `s` at its end left aside, one of these words: whatever value it holds, `[REDACTED]` is written
/// in its place.
pub proof fn law_secret_words_are_redacted(
    patterns: &RedactionPatterns,
    value: Json,
    written: Json,
    key: &str,
    secret: bool,
    word: Seq<char>,
    count: nat,
)
    requires
        call_ensures(is_sensitive_key, (key,), secret),
        call_ensures(redact_value, (patterns, &value), written),
        value@ matches JsonView::Object(members) && members.contains_key(key@),
        ({
            ||| word == "key"@
            ||| word == "apikey"@
            ||| word == "xapikey"@
            ||| word == "accesskey"@
            ||| word == "secretkey"@
            ||| word == "privatekey"@
            ||| word == "clientsecret"@
            ||| word == "token"@
            ||| word == "authtoken"@
            ||| word == "accesstoken"@
            ||| word == "refreshtoken"@
            ||| word == "idtoken"@
            ||| word == "sessiontoken"@
            ||| word == "sessionid"@
            ||| word == "authorization"@
            ||| word == "proxyauthorization"@
            ||| word == "auth"@
            ||| word == "bearer"@
            ||| word == "password"@
            ||| word == "passwd"@
            ||| word == "pwd"@
            ||| word == "secret"@
            ||| word == "credential"@
            ||| word == "cookie"@
            ||| word == "setcookie"@
        }),
        key@.filter(
            |ch: char| ('0' <= ch <= '9') || ('a' <= ch <= 'z') || ('A' <= ch <= 'Z'),
        ).map_values(
            |ch: char|
                if 'A' <= ch <= 'Z' {
                    (ch as u32 + 32) as char
                } else {
                    ch
                },
        ) == word + Seq::new(count, |i: int| 's'),
    ensures
        secret,
        written@ matches JsonView::Object(members) && members.contains_key(key@) && members[key@]
            == JsonView::Str("[REDACTED]"@),
{
    lemma_words();
    lemma_normalized(key@);
    assert(Seq::new(count, |i: int| 's') =~= plural(count));
    lemma_plural(word, count);
}

/// Where characters stand in a text in lower case, they stand in the text in any case.
proof fn lemma_part(text: Seq<char>, part: Seq<char>, at: int)
    requires
        0 <= at,
        at + part.len() <= text.len(),
    ensures
        part_at(lowered(text), part, at) == (text.subrange(at, at + part.len()).map_values(
            |ch: char|
                if 'A' <= ch <= 'Z' {
                    (ch as u32 + 32) as char
                } else {
                    ch
                },
        ) == part),
{
    let low = |ch: char|
        if 'A' <= ch <= 'Z' {
            (ch as u32 + 32) as char
        } else {
            ch
        };
    assert((|ch: char| lower(ch)) =~= low);
    assert(lowered(text).subrange(at, at + part.len()) =~= text.subrange(
        at,
        at + part.len(),
    ).map_values(low));
}

/// A field is secret in whose name one of these words stands anywhere, in whatever case: whatever
/// value it holds, `[REDACTED]` is written in its place.
pub proof fn law_secret_parts_are_redacted(
    patterns: &RedactionPatterns,
    value: Json,
    written: Json,
    key: &str,
    secret: bool,
    part: Seq<char>,
    at: int,
)
    requires
        call_ensures(is_sensitive_key, (key,), secret),
        call_ensures(redact_value, (patterns, &value), written),
        value@ matches JsonView::Object(members) && members.contains_key(key@),
        ({
            ||| part == "token"@
            ||| part == "secret"@
            ||| part == "password"@
            ||| part == "credential"@
            ||| part == "apikey"@
            ||| part == "api_key"@
            ||| part == "api-key"@
        }),
        0 <= at,
        at + part.len() <= key@.len(),
        key@.subrange(at, at + part.len()).map_values(
            |ch: char|
                if 'A' <= ch <= 'Z' {
                    (ch as u32 + 32) as char
                } else {
                    ch
                },
        ) == part,
    ensures
        secret,
        written@ matches JsonView::Object(members) && members.contains_key(key@) && members[key@]
            == JsonView::Str("[REDACTED]"@),
{
    lemma_part(key@, part, at);
    assert(has_part(lowered(key@), part));
}

/// A field is secret only where one of these words stands in its name, or where its name is one of
/// these words in the way that `law_secret_words_are_redacted` says.
pub proof fn law_only_secret_names_are_sensitive(key: &str, secret: bool)
    requires
        call_ensures(is_sensitive_key, (key,), secret),
        secret,
    ensures
        ({
            let letters = key@.filter(
                |ch: char| ('0' <= ch <= '9') || ('a' <= ch <= 'z') || ('A' <= ch <= 'Z'),
            ).map_values(
                |ch: char|
                    if 'A' <= ch <= 'Z' {
                        (ch as u32 + 32) as char
                    } else {
                        ch
                    },
            );
            let words = seq![
                "key"@,
                "apikey"@,
                "xapikey"@,
                "accesskey"@,
                "secretkey"@,
                "privatekey"@,
                "clientsecret"@,
                "token"@,
                "authtoken"@,
                "accesstoken"@,
                "refreshtoken"@,
                "idtoken"@,
                "sessiontoken"@,
                "sessionid"@,
                "authorization"@,
                "proxyauthorization"@,
                "auth"@,
                "bearer"@,
                "password"@,
                "passwd"@,
                "pwd"@,
                "secret"@,
                "credential"@,
                "cookie"@,
                "setcookie"@,
            ];
            let parts = seq![
                "token"@,
                "secret"@,
                "password"@,
                "credential"@,
                "apikey"@,
                "api_key"@,
                "api-key"@,
            ];
            ||| exists|k: int, count: nat|
                0 <= k < 25 && letters == #[trigger] words[k] + #[trigger] plural(count)
            ||| exists|k: int, at: int|
                #![trigger parts[k], key@.subrange(at, at + parts[k].len())]
                0 <= k < 7 && 0 <= at <= key@.len() - parts[k].len() && key@.subrange(
                    at,
                    at + parts[k].len(),
                ).map_values(
                    |ch: char|
                        if 'A' <= ch <= 'Z' {
                            (ch as u32 + 32) as char
                        } else {
                            ch
                        },
                ) == parts[k]
        }),
{
    let letters = normalized(key@);
    let words = seq![
        "key"@,
"apikey"@,
"xapikey"@,
"accesskey"@,
"secretkey"@,
"privatekey"@,
"clientsecret"@,
"token"@,
"authtoken"@,
"accesstoken"@,
"refreshtoken"@,
"idtoken"@,
"sessiontoken"@,
"sessionid"@,
"authorization"@,
"proxyauthorization"@,
"auth"@,
"bearer"@,
"password"@,
"passwd"@,
"pwd"@,
"secret"@,
"credential"@,
"cookie"@,
"setcookie"@,
    ];
    let parts = seq![
        "token"@,
"secret"@,
"password"@,
"credential"@,
"apikey"@,
"api_key"@,
"api-key"@,
    ];
    lemma_normalized(key@);
    if secret_name(singular(letters)) {
        lemma_singular(letters);
        let count = choose|count: nat| letters == singular(letters) + #[trigger] plural(count);
        assert(words[0] == "key"@);
        assert(words[1] == "apikey"@);
        assert(words[2] == "xapikey"@);
        assert(words[3] == "accesskey"@);
        assert(words[4] == "secretkey"@);
        assert(words[5] == "privatekey"@);
        assert(words[6] == "clientsecret"@);
        assert(words[7] == "token"@);
        assert(words[8] == "authtoken"@);
        assert(words[9] == "accesstoken"@);
        assert(words[10] == "refreshtoken"@);
        assert(words[11] == "idtoken"@);
        assert(words[12] == "sessiontoken"@);
        assert(words[13] == "sessionid"@);
        assert(words[14] == "authorization"@);
        assert(words[15] == "proxyauthorization"@);
        assert(words[16] == "auth"@);
        assert(words[17] == "bearer"@);
        assert(words[18] == "password"@);
        assert(words[19] == "passwd"@);
        assert(words[20] == "pwd"@);
        assert(words[21] == "secret"@);
        assert(words[22] == "credential"@);
        assert(words[23] == "cookie"@);
        assert(words[24] == "setcookie"@);
        let k = choose|k: int| 0 <= k < 25 && #[trigger] words[k] == singular(letters);
        assert(letters == words[k] + plural(count));
    } else {
        assert(parts[0] == "token"@);
        assert(parts[1] == "secret"@);
        assert(parts[2] == "password"@);
        assert(parts[3] == "credential"@);
        assert(parts[4] == "apikey"@);
        assert(parts[5] == "api_key"@);
        assert(parts[6] == "api-key"@);
        let k = choose|k: int| 0 <= k < 7 && has_part(lowered(key@), #[trigger] parts[k]);
        let at = choose|at: int| #[trigger] part_at(lowered(key@), parts[k], at);
        lemma_part(key@, parts[k], at);
        assert(key@.subrange(at, at + parts[k].len()).len() == parts[k].len());
    }
}

/// A member whose name is not sensitive is written as its value is on its own, and every name of an
/// object stays, with none added.
pub proof fn law_other_members_are_redacted_alone(
    patterns: &RedactionPatterns,
    value: Json,
    written: Json,
    key: &str,
    secret: bool,
    inner: Json,
    alone: Json,
)
    requires
        call_ensures(is_sensitive_key, (key,), secret),
        call_ensures(redact_value, (patterns, &value), written),
        call_ensures(redact_value, (patterns, &inner), alone),
        value@ matches JsonView::Object(members) && members.contains_key(key@) && members[key@]
            == inner@,
    ensures
        written@ matches JsonView::Object(found) && {
            &&& !secret ==> found[key@] == alone@
            &&& forall|name: Seq<char>| #[trigger]
                found.contains_key(name) <==> value@->Object_0.contains_key(name)
        },
{
}

} // verus!
