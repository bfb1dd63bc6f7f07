//! The calls into serde_json that the library makes. A JSON value is opaque to the
//! verifier, so each value is carried with where it was found: the text that was parsed
//! and the steps taken into it. What serde_json finds at such a place is a function of
//! the text and the steps alone, and is named.

use vstd::prelude::*;
use serde_json::Value;

verus! {

/// A step from a JSON value into a part of it: a member of an object, by its key, or an
/// item of an array, by its index.
pub enum JsonStep {
    Member(Seq<char>),
    Item(int),
}

/// Whether serde_json parses a text as a JSON value.
pub uninterp spec fn json_parses(line: Seq<char>) -> bool;

/// Whether the value at `at` is an object with a member `key`.
pub uninterp spec fn json_has_member(at: (Seq<char>, Seq<JsonStep>), key: Seq<char>) -> bool;

/// The string that the value at `at` is, if it is one.
pub uninterp spec fn json_string_at(at: (Seq<char>, Seq<JsonStep>)) -> Option<Seq<char>>;

/// The boolean that the value at `at` is, if it is one.
pub uninterp spec fn json_bool_at(at: (Seq<char>, Seq<JsonStep>)) -> Option<bool>;

/// The number that the value at `at` is, if it is an integer that fits a `u64`.
pub uninterp spec fn json_u64_at(at: (Seq<char>, Seq<JsonStep>)) -> Option<u64>;

/// The length of the array that the value at `at` is, if it is one.
pub uninterp spec fn json_array_len_at(at: (Seq<char>, Seq<JsonStep>)) -> Option<nat>;

/// The place of member `key` of the value at `at` (where there is no such member, the
/// value found there is `Null`).
pub open spec fn member_at(at: (Seq<char>, Seq<JsonStep>), key: Seq<char>) -> (Seq<char>, Seq<JsonStep>) {
    (at.0, at.1.push(JsonStep::Member(key)))
}

/// The place of item `i` of the value at `at` (where there is no such item, the value
/// found there is `Null`).
pub open spec fn item_at(at: (Seq<char>, Seq<JsonStep>), i: int) -> (Seq<char>, Seq<JsonStep>) {
    (at.0, at.1.push(JsonStep::Item(i)))
}

#[verifier::external_type_specification]
#[verifier::external_body]
pub struct ExJsonValue(Value);

/// A JSON value, with the place it was found at.
pub struct Json {
    value: Value,
    at: Ghost<(Seq<char>, Seq<JsonStep>)>,
}

impl View for Json {
    type V = (Seq<char>, Seq<JsonStep>);

    closed spec fn view(&self) -> (Seq<char>, Seq<JsonStep>) {
        self.at@
    }
}

/// serde_json's `from_str::<Value>`: the JSON value of a text, `None` when it is not JSON
/// (named `json_parses`); the value is the whole text's.
#[verifier::external_body]
pub(crate) fn parse_json(line: &str) -> (r: Option<Json>)
    ensures
        r is Some == json_parses(line@),
        r is Some ==> r->0@ == (line@, Seq::<JsonStep>::empty()),
{
    match serde_json::from_str::<Value>(line) {
        Ok(value) => Some(Json { value, at: Ghost((line@, Seq::empty())) }),
        Err(_) => None,
    }
}

/// serde_json's `Value` indexing by a key: the member `key` of an object (`Null` when
/// absent or when the value is no object).
#[verifier::external_body]
pub(crate) fn json_member(v: &Json, key: &str) -> (r: Json)
    ensures
        r@ == member_at(v@, key@),
{
    Json { value: v.value[key].clone(), at: Ghost(member_at(v@, key@)) }
}

/// serde_json's `Value::get` with a key: the member `key` of an object, `None` when the key
/// is absent or the value is no object (named `json_has_member`).
#[verifier::external_body]
pub(crate) fn json_get(v: &Json, key: &str) -> (r: Option<Json>)
    ensures
        r is Some == json_has_member(v@, key@),
        r is Some ==> r->0@ == member_at(v@, key@),
{
    match v.value.get(key) {
        Some(m) => Some(Json { value: m.clone(), at: Ghost(member_at(v@, key@)) }),
        None => None,
    }
}

/// serde_json's `Value` indexing by a position: item `i` of an array (`Null` when there is
/// no such item or the value is no array).
#[verifier::external_body]
pub(crate) fn json_item(v: &Json, i: usize) -> (r: Json)
    ensures
        r@ == item_at(v@, i as int),
{
    Json { value: v.value[i].clone(), at: Ghost(item_at(v@, i as int)) }
}

/// serde_json's `Value::as_str`, as an owned string (named `json_string_at`).
#[verifier::external_body]
pub(crate) fn json_as_string(v: &Json) -> (r: Option<String>)
    ensures
        match r {
            Some(s) => json_string_at(v@) == Some(s@),
            None => json_string_at(v@) is None,
        },
{
    match v.value.as_str() {
        Some(t) => Some(t.to_owned()),
        None => None,
    }
}

/// serde_json's `Value::as_bool` (named `json_bool_at`).
#[verifier::external_body]
pub(crate) fn json_as_bool(v: &Json) -> (r: Option<bool>)
    ensures
        r == json_bool_at(v@),
{
    v.value.as_bool()
}

/// serde_json's `Value::as_u64` (named `json_u64_at`).
#[verifier::external_body]
pub(crate) fn json_as_u64(v: &Json) -> (r: Option<u64>)
    ensures
        r == json_u64_at(v@),
{
    v.value.as_u64()
}

/// serde_json's `Value::as_array`, by its length (named `json_array_len_at`); the items
/// are reached with `json_item`.
#[verifier::external_body]
pub(crate) fn json_array_len(v: &Json) -> (r: Option<usize>)
    ensures
        match r {
            Some(n) => json_array_len_at(v@) == Some(n as nat),
            None => json_array_len_at(v@) is None,
        },
{
    match v.value.as_array() {
        Some(items) => Some(items.len()),
        None => None,
    }
}

} // verus!
