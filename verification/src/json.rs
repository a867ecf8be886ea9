//! JSON values: what they are, how the log holds them, and their text.
use vstd::prelude::*;
use vstd::utf8::{encode_utf8, valid_utf8};

verus! {

/// What a JSON value is, apart from how it is held. The members of an object have no order.
pub enum JsonView {
    Null,
    Bool(bool),
    Number(serde_json::Number),
    Str(Seq<char>),
    Array(Seq<JsonView>),
    Object(Map<Seq<char>, JsonView>),
}

/// A JSON value. Where an object names a member twice, the later one counts.
#[derive(Debug, PartialEq)]
pub enum Json {
    Null,
    Bool(bool),
    Number(serde_json::Number),
    Str(String),
    Array(Vec<Json>),
    Object(Vec<(String, Json)>),
}

/// What the items of an array are.
pub open spec fn items_view(items: Seq<Json>) -> Seq<JsonView>
    decreases items,
{
    Seq::new(
        items.len(),
        |i: int|
            if 0 <= i < items.len() {
                json_view(items[i])
            } else {
                JsonView::Null
            },
    )
}

/// What the members of an object are: each named value, the later one for a name used twice.
pub open spec fn members_view(members: Seq<(String, Json)>) -> Map<Seq<char>, JsonView>
    decreases members,
{
    if members.len() == 0 {
        Map::empty()
    } else {
        members_view(members.drop_last()).insert(members.last().0@, json_view(members.last().1))
    }
}

/// What a JSON value is.
pub open spec fn json_view(value: Json) -> JsonView
    decreases value,
{
    match value {
        Json::Null => JsonView::Null,
        Json::Bool(flag) => JsonView::Bool(flag),
        Json::Number(number) => JsonView::Number(number),
        Json::Str(text) => JsonView::Str(text@),
        Json::Array(items) => JsonView::Array(items_view(items@)),
        Json::Object(members) => JsonView::Object(members_view(members@)),
    }
}

impl View for Json {
    type V = JsonView;

    open spec fn view(&self) -> JsonView {
        json_view(*self)
    }
}

/// What an optional value is.
pub open spec fn optional_json(value: Option<Json>) -> Option<JsonView> {
    match value {
        Some(json) => Some(json@),
        None => None,
    }
}

impl Json {
    /// A copy of the value.
    pub fn duplicate(&self) -> (copy: Json)
        ensures
            copy@ == self@,
        decreases *self,
    {
        match self {
            Json::Null => Json::Null,
            Json::Bool(flag) => Json::Bool(*flag),
            Json::Number(number) => Json::Number(number.clone()),
            Json::Str(text) => Json::Str(text.clone()),
            Json::Array(items) => {
                let mut copies: Vec<Json> = Vec::new();
                for i in 0..items.len()
                    invariant
                        *self == Json::Array(*items),
                        copies.len() == i,
                        forall|j: int| 0 <= j < i ==> (#[trigger] copies@[j])@ == items@[j]@,
                    decreases items.len() - i,
                {
                    assert(decreases_to!(*self => self->Array_0));
                    assert(decreases_to!(*items => items@));
                    assert(decreases_to!(items@ => items@[i as int]));
                    copies.push(items[i].duplicate());
                }
                assert(items_view(copies@) =~= items_view(items@));
                Json::Array(copies)
            },
            Json::Object(members) => {
                let mut copies: Vec<(String, Json)> = Vec::new();
                for i in 0..members.len()
                    invariant
                        *self == Json::Object(*members),
                        copies.len() == i,
                        members_view(copies@) == members_view(members@.take(i as int)),
                    decreases members.len() - i,
                {
                    let ghost before = copies@;
                    assert(decreases_to!(*self => self->Object_0));
                    assert(decreases_to!(*members => members@));
                    assert(decreases_to!(members@ => members@[i as int]));
                    assert(decreases_to!(members@[i as int] => members@[i as int].1));
                    copies.push((members[i].0.clone(), members[i].1.duplicate()));
                    assert(copies@.drop_last() == before);
                    assert(members@.take(i + 1).drop_last() == members@.take(i as int));
                }
                assert(members@.take(members.len() as int) == members@);
                Json::Object(copies)
            },
        }
    }
}

impl Clone for Json {
    fn clone(&self) -> (copy: Json)
        ensures
            copy@ == self@,
    {
        self.duplicate()
    }
}

/// `serde_json::Number`: an integer or a finite floating-point number.
#[verifier::external_type_specification]
#[verifier::external_body]
pub struct ExNumber(serde_json::Number);

/// `serde_json::Value`: any JSON value.
#[verifier::external_type_specification]
#[verifier::external_body]
pub struct ExValue(serde_json::Value);

/// `serde_json::Error`: why a text is no JSON, or a value has no text.
#[verifier::external_type_specification]
#[verifier::external_body]
pub struct ExError(serde_json::Error);

/// `Clone` of `serde_json::Number` gives the same number.
pub assume_specification[ <serde_json::Number as Clone>::clone ](
    number: &serde_json::Number,
) -> (copy: serde_json::Number)
    ensures
        copy == *number,
;

/// The number that is this integer.
pub uninterp spec fn whole_number(integer: int) -> serde_json::Number;

/// Whether an integer is one of sixty-four bits, with or without a sign.
pub open spec fn in_range(integer: int) -> bool {
    i64::MIN <= integer <= u64::MAX
}

/// `serde_json::Number::from_i128`: the number that is the given integer, if that is one of
/// sixty-four bits, with or without a sign. The number depends on the integer alone.
#[verifier::external_body]
fn number_from(integer: i128) -> (number: Option<serde_json::Number>)
    ensures
        number is Some <==> in_range(integer as int),
        number matches Some(made) ==> made == whole_number(integer as int),
{
    serde_json::Number::from_i128(integer)
}

/// The number that is an integer.
pub fn number_of(integer: i128) -> (number: serde_json::Number)
    requires
        in_range(integer as int),
    ensures
        number == whole_number(integer as int),
{
    number_from(integer).unwrap()
}

/// What a `serde_json::Value` holds.
pub uninterp spec fn value_view(value: serde_json::Value) -> JsonView;

/// A `serde_json::Value` taken apart one level deep.
pub enum JsonParts {
    Null,
    Bool(bool),
    Number(serde_json::Number),
    Str(String),
    Array(Vec<serde_json::Value>),
    Object(Vec<(String, serde_json::Value)>),
}

/// What the items of an array that is taken apart are.
pub open spec fn value_items(items: Seq<serde_json::Value>) -> Seq<JsonView> {
    Seq::new(items.len(), |i: int| value_view(items[i]))
}

/// What the members of an object that is taken apart are, the later one for a name used twice.
pub open spec fn value_members(members: Seq<(String, serde_json::Value)>) -> Map<
    Seq<char>,
    JsonView,
>
    decreases members.len(),
{
    if members.len() == 0 {
        Map::empty()
    } else {
        value_members(members.drop_last()).insert(members.last().0@, value_view(members.last().1))
    }
}

/// What a value that is taken apart is.
pub open spec fn parts_view(parts: JsonParts) -> JsonView {
    match parts {
        JsonParts::Null => JsonView::Null,
        JsonParts::Bool(flag) => JsonView::Bool(flag),
        JsonParts::Number(number) => JsonView::Number(number),
        JsonParts::Str(text) => JsonView::Str(text@),
        JsonParts::Array(items) => JsonView::Array(value_items(items@)),
        JsonParts::Object(members) => JsonView::Object(value_members(members@)),
    }
}

/// Moves the parts out of a `serde_json::Value`, the members of an object through
/// `serde_json::Map::into_iter`: they are what the value holds, and no member is named twice.
#[verifier::external_body]
fn take_apart(value: serde_json::Value) -> (parts: JsonParts)
    ensures
        parts_view(parts) == value_view(value),
        parts matches JsonParts::Object(members) ==> forall|i: int, j: int|
            0 <= i < j < members@.len() ==> (#[trigger] members@[i]).0@ != (
            #[trigger] members@[j]).0@,
{
    match value {
        serde_json::Value::Null => JsonParts::Null,
        serde_json::Value::Bool(flag) => JsonParts::Bool(flag),
        serde_json::Value::Number(number) => JsonParts::Number(number),
        serde_json::Value::String(text) => JsonParts::Str(text),
        serde_json::Value::Array(items) => JsonParts::Array(items),
        serde_json::Value::Object(members) => JsonParts::Object(members.into_iter().collect()),
    }
}

/// Moves the parts into a `serde_json::Value`, the members of an object by collecting them
/// into a `serde_json::Map`, in which the later member of a name replaces the earlier one.
#[verifier::external_body]
fn assemble(parts: JsonParts) -> (value: serde_json::Value)
    ensures
        value_view(value) == parts_view(parts),
{
    match parts {
        JsonParts::Null => serde_json::Value::Null,
        JsonParts::Bool(flag) => serde_json::Value::Bool(flag),
        JsonParts::Number(number) => serde_json::Value::Number(number),
        JsonParts::Str(text) => serde_json::Value::String(text),
        JsonParts::Array(items) => serde_json::Value::Array(items),
        JsonParts::Object(members) => serde_json::Value::Object(members.into_iter().collect()),
    }
}

/// An object has finitely many members.
proof fn lemma_finite_members(members: Seq<(String, serde_json::Value)>)
    ensures
        value_members(members).dom().finite(),
    decreases members.len(),
{
    if members.len() > 0 {
        lemma_finite_members(members.drop_last());
    }
}

/// Where no name is used twice, every member is found under its name.
proof fn lemma_distinct_member(members: Seq<(String, serde_json::Value)>, at: int)
    requires
        0 <= at < members.len(),
        forall|i: int, j: int|
            0 <= i < j < members.len() ==> (#[trigger] members[i]).0@ != (#[trigger] members[j]).0@,
    ensures
        value_members(members).dom().finite(),
        value_members(members).contains_key(members[at].0@),
        value_members(members)[members[at].0@] == value_view(members[at].1),
    decreases members.len(),
{
    lemma_finite_members(members);
    if at < members.len() - 1 {
        let rest = members.drop_last();
        assert(rest[at] == members[at]);
        lemma_distinct_member(rest, at);
        assert(members[at].0@ != members[members.len() - 1].0@);
    }
}

impl Json {
    /// Takes a `serde_json::Value` over.
    pub fn from_value(value: serde_json::Value) -> (json: Json)
        ensures
            json@ == value_view(value),
        decreases value_view(value),
    {
        let ghost whole = value_view(value);
        match take_apart(value) {
            JsonParts::Null => Json::Null,
            JsonParts::Bool(flag) => Json::Bool(flag),
            JsonParts::Number(number) => Json::Number(number),
            JsonParts::Str(text) => Json::Str(text),
            JsonParts::Array(items) => {
                let ghost all = items@;
                let mut converted: Vec<Json> = Vec::new();
                for item in iter: items
                    invariant
                        iter.seq() == all,
                        whole == JsonView::Array(value_items(all)),
                        whole == value_view(value),
                        converted.len() == iter.index(),
                        forall|j: int|
                            0 <= j < iter.index() ==> (#[trigger] converted@[j])@ == value_view(
                                all[j],
                            ),
                {
                    assert(value_items(all)[iter.index()] == value_view(item));
                    assert(decreases_to!(whole => whole->Array_0));
                    assert(decreases_to!(value_items(all) => value_items(all)[iter.index()]));
                    converted.push(Json::from_value(item));
                }
                assert(items_view(converted@) =~= value_items(all));
                Json::Array(converted)
            },
            JsonParts::Object(members) => {
                let ghost all = members@;
                let mut converted: Vec<(String, Json)> = Vec::new();
                for member in iter: members
                    invariant
                        iter.seq() == all,
                        whole == JsonView::Object(value_members(all)),
                        whole == value_view(value),
                        forall|i: int, j: int|
                            0 <= i < j < all.len() ==> (#[trigger] all[i]).0@ != (
                            #[trigger] all[j]).0@,
                        members_view(converted@) == value_members(all.take(iter.index())),
                {
                    let ghost at = iter.index();
                    let ghost before = converted@;
                    let (name, inner) = member;
                    proof {
                        lemma_distinct_member(all, at);
                    }
                    assert(decreases_to!(whole => whole->Object_0));
                    assert(decreases_to!(value_members(all) => value_members(all)[name@]));
                    converted.push((name, Json::from_value(inner)));
                    assert(converted@.drop_last() == before);
                    assert(all.take(at + 1).drop_last() == all.take(at));
                }
                assert(all.take(all.len() as int) == all);
                Json::Object(converted)
            },
        }
    }

    /// The value as a `serde_json::Value`.
    pub fn to_value(&self) -> (value: serde_json::Value)
        ensures
            value_view(value) == self@,
        decreases *self,
    {
        match self {
            Json::Null => assemble(JsonParts::Null),
            Json::Bool(flag) => assemble(JsonParts::Bool(*flag)),
            Json::Number(number) => assemble(JsonParts::Number(number.clone())),
            Json::Str(text) => assemble(JsonParts::Str(text.clone())),
            Json::Array(items) => {
                let mut values: Vec<serde_json::Value> = Vec::new();
                for i in 0..items.len()
                    invariant
                        *self == Json::Array(*items),
                        values.len() == i,
                        forall|j: int| 0 <= j < i ==> value_view(#[trigger] values@[j]) == items@[j]@,
                {
                    assert(decreases_to!(*self => self->Array_0));
                    assert(decreases_to!(*items => items@));
                    assert(decreases_to!(items@ => items@[i as int]));
                    values.push(items[i].to_value());
                }
                assert(value_items(values@) =~= items_view(items@));
                assemble(JsonParts::Array(values))
            },
            Json::Object(members) => {
                let mut values: Vec<(String, serde_json::Value)> = Vec::new();
                for i in 0..members.len()
                    invariant
                        *self == Json::Object(*members),
                        value_members(values@) == members_view(members@.take(i as int)),
                {
                    let ghost before = values@;
                    assert(decreases_to!(*self => self->Object_0));
                    assert(decreases_to!(*members => members@));
                    assert(decreases_to!(members@ => members@[i as int]));
                    assert(decreases_to!(members@[i as int] => members@[i as int].1));
                    values.push((members[i].0.clone(), members[i].1.to_value()));
                    assert(values@.drop_last() == before);
                    assert(members@.take(i + 1).drop_last() == members@.take(i as int));
                }
                assert(members@.take(members.len() as int) == members@);
                assemble(JsonParts::Object(values))
            },
        }
    }
}

/// Whether arrays and objects stand inside each other at most that deep.
pub open spec fn nested_within(value: JsonView, levels: nat) -> bool
    decreases levels,
{
    match value {
        JsonView::Array(items) => levels > 0 && forall|i: int|
            0 <= i < items.len() ==> nested_within(#[trigger] items[i], (levels - 1) as nat),
        JsonView::Object(members) => levels > 0 && forall|name: Seq<char>|
            members.contains_key(name) ==> nested_within(
                #[trigger] members[name],
                (levels - 1) as nat,
            ),
        _ => true,
    }
}

/// Whether every number in a value is an integer of sixty-four bits, with or without a sign.
pub open spec fn whole_numbers(value: JsonView) -> bool
    decreases value,
{
    match value {
        JsonView::Number(number) => exists|integer: int|
            in_range(integer) && number == #[trigger] whole_number(integer),
        JsonView::Array(items) => forall|i: int|
            0 <= i < items.len() ==> whole_numbers(#[trigger] items[i]),
        JsonView::Object(members) => forall|name: Seq<char>|
            members.contains_key(name) ==> whole_numbers(#[trigger] members[name]),
        _ => true,
    }
}

/// Whether a value is one whose text reads back as that value: the parser stops at the hundred
/// and twenty-eighth level, and a floating-point number may come back rounded.
pub open spec fn reads_back(value: JsonView) -> bool {
    nested_within(value, 127) && whole_numbers(value)
}

/// The JSON text of a value, as bytes, if it has one.
pub uninterp spec fn json_bytes(value: JsonView) -> Option<Seq<u8>>;

/// The value that bytes are the JSON text of, if they are one.
pub uninterp spec fn json_parse(bytes: Seq<u8>) -> Option<JsonView>;

/// `serde_json::to_vec` on a `serde_json::Value`: the bytes, or the failure, depend on what the
/// value holds alone, they are UTF-8, and the bytes of a value that reads back parse to it.
#[verifier::external_body]
fn value_to_vec(value: &serde_json::Value) -> (written: Result<Vec<u8>, serde_json::Error>)
    ensures
        match written {
            Ok(bytes) => json_bytes(value_view(*value)) == Some(bytes@),
            Err(_) => json_bytes(value_view(*value)) is None,
        },
        written matches Ok(bytes) ==> valid_utf8(bytes@),
        written matches Ok(bytes) ==> reads_back(value_view(*value)) ==> json_parse(bytes@)
            == Some(value_view(*value)),
{
    serde_json::to_vec(value)
}

/// `serde_json::to_string` on a `serde_json::Value`: the same bytes as text. Nothing is written
/// between the parts of a value, and a line feed inside a string is escaped, so the text has none.
#[verifier::external_body]
fn value_to_string(value: &serde_json::Value) -> (written: Result<String, serde_json::Error>)
    ensures
        match written {
            Ok(text) => json_bytes(value_view(*value)) == Some(encode_utf8(text@)),
            Err(_) => json_bytes(value_view(*value)) is None,
        },
        written matches Ok(text) ==> reads_back(value_view(*value)) ==> json_parse(
            encode_utf8(text@),
        ) == Some(value_view(*value)),
        written matches Ok(text) ==> forall|i: int|
            0 <= i < text@.len() ==> #[trigger] text@[i] != '\n',
{
    serde_json::to_string(value)
}

/// `serde_json::from_slice` to a `serde_json::Value`: what comes out, or that nothing does,
/// depends on the bytes alone.
#[verifier::external_body]
fn value_from_slice(bytes: &[u8]) -> (read: Result<serde_json::Value, serde_json::Error>)
    ensures
        match read {
            Ok(value) => json_parse(bytes@) == Some(value_view(value)),
            Err(_) => json_parse(bytes@) is None,
        },
{
    serde_json::from_slice(bytes)
}

/// `serde_json::from_str` to a `serde_json::Value`: reads the bytes of the text.
#[verifier::external_body]
fn value_from_str(text: &str) -> (read: Result<serde_json::Value, serde_json::Error>)
    ensures
        match read {
            Ok(value) => json_parse(encode_utf8(text@)) == Some(value_view(value)),
            Err(_) => json_parse(encode_utf8(text@)) is None,
        },
{
    serde_json::from_str(text)
}

impl Json {
    /// The JSON text of the value, as bytes.
    pub fn to_bytes(&self) -> (written: Option<Vec<u8>>)
        ensures
            match written {
                Some(bytes) => json_bytes(self@) == Some(bytes@),
                None => json_bytes(self@) is None,
            },
            written matches Some(bytes) ==> valid_utf8(bytes@),
            written matches Some(bytes) ==> reads_back(self@) ==> json_parse(bytes@) == Some(self@),
    {
        match value_to_vec(&self.to_value()) {
            Ok(bytes) => Some(bytes),
            Err(_) => None,
        }
    }

    /// The JSON text of the value.
    pub fn to_text(&self) -> (written: Option<String>)
        ensures
            match written {
                Some(text) => json_bytes(self@) == Some(encode_utf8(text@)),
                None => json_bytes(self@) is None,
            },
            written matches Some(text) ==> reads_back(self@) ==> json_parse(encode_utf8(text@))
                == Some(self@),
            written matches Some(text) ==> forall|i: int|
                0 <= i < text@.len() ==> #[trigger] text@[i] != '\n',
    {
        match value_to_string(&self.to_value()) {
            Ok(text) => Some(text),
            Err(_) => None,
        }
    }

    /// Reads JSON bytes.
    pub fn parse(bytes: &[u8]) -> (read: Option<Json>)
        ensures
            optional_json(read) == json_parse(bytes@),
    {
        match value_from_slice(bytes) {
            Ok(value) => Some(Json::from_value(value)),
            Err(_) => None,
        }
    }

    /// Reads JSON text.
    pub fn parse_text(text: &str) -> (read: Option<Json>)
        ensures
            optional_json(read) == json_parse(encode_utf8(text@)),
    {
        match value_from_str(text) {
            Ok(value) => Some(Json::from_value(value)),
            Err(_) => None,
        }
    }
}

} // verus!
