//! A plain model of JSON documents, filled by `serde_json`.

use vstd::prelude::*;

use crate::text::chars_of;

verus! {

/// A JSON value. Object members keep the order in which `serde_json`'s map
/// yields them (sorted by key); numbers keep the value that `as_u64` reports,
/// which is `None` for negative or fractional numbers.
#[derive(Debug)]
pub enum JsonValue {
    Null,
    Bool(bool),
    Number(Option<u64>),
    Str(String),
    Array(Vec<JsonValue>),
    Object(Vec<(String, JsonValue)>),
}

/// `serde_json::Value`, made known to the verifier as an opaque type.
#[verifier::external_type_specification]
#[verifier::external_body]
pub struct ExSerdeJsonValue(serde_json::Value);

/// The document that `serde_json::from_str::<serde_json::Value>` reads from
/// the text, or `None` where it reports a syntax error.
pub uninterp spec fn spec_parse_json(raw: Seq<char>) -> Option<JsonValue>;

/// Parses JSON text with `serde_json::from_str` into a `serde_json::Value`
/// and converts it member for member. Trusted: the result is the named parse
/// of the text; nothing more is claimed of it.
#[verifier::external_body]
pub(crate) fn parse_json(raw: &str) -> (res: Option<JsonValue>)
    ensures
        res == spec_parse_json(raw@),
{
    serde_json::from_str::<serde_json::Value>(raw).ok().map(json_from_serde)
}

/// Converts a `serde_json::Value` variant for variant (used by `parse_json`;
/// nothing is claimed of it beyond what `parse_json` names).
#[verifier::external_body]
fn json_from_serde(value: serde_json::Value) -> JsonValue {
    match value {
        serde_json::Value::Null => JsonValue::Null,
        serde_json::Value::Bool(b) => JsonValue::Bool(b),
        serde_json::Value::Number(n) => JsonValue::Number(n.as_u64()),
        serde_json::Value::String(s) => JsonValue::Str(s),
        serde_json::Value::Array(items) => JsonValue::Array(items.into_iter().map(json_from_serde).collect()),
        serde_json::Value::Object(map) => JsonValue::Object(
            map.into_iter().map(|(k, v)| (k, json_from_serde(v))).collect(),
        ),
    }
}

/// Whether two string slices hold the same characters.
pub(crate) fn str_eq(a: &str, b: &str) -> (res: bool)
    ensures
        res == (a@ == b@),
{
    let x = chars_of(a);
    let y = chars_of(b);
    if x.len() != y.len() {
        return false;
    }
    let mut i: usize = 0;
    while i < x.len()
        invariant
            x@ == a@,
            y@ == b@,
            x@.len() == y@.len(),
            i <= x@.len(),
            forall|j: int| 0 <= j < i ==> x@[j] == y@[j],
        decreases x.len() - i,
    {
        if x[i] != y[i] {
            return false;
        }
        i += 1;
    }
    assert(x@ =~= y@);
    true
}

/// The first member of `members` named `key`.
pub open spec fn spec_member(members: Seq<(String, JsonValue)>, key: Seq<char>) -> Option<
    JsonValue,
>
    decreases members.len(),
{
    if members.len() == 0 {
        None
    } else if members[0].0@ == key {
        Some(members[0].1)
    } else {
        spec_member(members.drop_first(), key)
    }
}

/// `value.get(key)`: the member `key` of an object, `None` for other values.
pub open spec fn spec_get(value: JsonValue, key: Seq<char>) -> Option<JsonValue> {
    match value {
        JsonValue::Object(members) => spec_member(members@, key),
        _ => None,
    }
}

/// `value.get(index)`: the element at `index` of an array, `None` otherwise.
pub open spec fn spec_get_index(value: JsonValue, index: int) -> Option<JsonValue> {
    match value {
        JsonValue::Array(items) => if 0 <= index < items.len() {
            Some(items@[index])
        } else {
            None
        },
        _ => None,
    }
}

impl JsonValue {
    /// The member `key` of an object (`serde_json::Value::get` with a key).
    pub fn get(&self, key: &str) -> (res: Option<&JsonValue>)
        ensures
            match res {
                Some(r) => spec_get(*self, key@) == Some(*r),
                None => spec_get(*self, key@) is None,
            },
    {
        match self {
            JsonValue::Object(members) => {
                let mut i: usize = 0;
                assert(members@.skip(0) =~= members@);
                while i < members.len()
                    invariant
                        i <= members.len(),
                        spec_get(*self, key@) == spec_member(members@, key@),
                        spec_member(members@, key@) == spec_member(members@.skip(i as int), key@),
                    decreases members.len() - i,
                {
                    assert(members@.skip(i as int).drop_first() =~= members@.skip(i + 1));
                    assert(members@.skip(i as int)[0] == members@[i as int]);
                    if str_eq(members[i].0.as_str(), key) {
                        assert(members@.skip(i as int)[0].0@ == key@);
                        assert(spec_member(members@.skip(i as int), key@) == Some(members@[i as int].1));
                        return Some(&members[i].1);
                    }
                    i += 1;
                }
                None
            },
            _ => None,
        }
    }

    /// The element at `index` of an array.
    pub fn get_index(&self, index: usize) -> (res: Option<&JsonValue>)
        ensures
            match res {
                Some(r) => spec_get_index(*self, index as int) == Some(*r),
                None => spec_get_index(*self, index as int) is None,
            },
    {
        match self {
            JsonValue::Array(items) => if index < items.len() {
                Some(&items[index])
            } else {
                None
            },
            _ => None,
        }
    }
}

} // verus!
