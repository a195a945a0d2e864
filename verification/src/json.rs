//! JSON values, as `serde_json` holds them.

use serde_json::Value;
use vstd::prelude::*;

verus! {

#[verifier::external_type_specification]
#[verifier::external_body]
pub struct ExValue(serde_json::Value);

/// One level of a JSON value.
pub enum JsonView {
    Null,
    Text(Seq<char>),
    Array(Seq<Value>),
    Object(Map<Seq<char>, Value>),
    /// A boolean or a number.
    Scalar,
}

/// What a `serde_json::Value` holds at its top level.
pub uninterp spec fn json_view(value: Value) -> JsonView;

/// The member of an object under a key. `None` where the key is absent, and for
/// every value that is no object.
pub open spec fn member(value: Value, key: Seq<char>) -> Option<Value> {
    match json_view(value) {
        JsonView::Object(members) => if members.contains_key(key) {
            Some(members[key])
        } else {
            None
        },
        _ => None,
    }
}

/// Calls `serde_json::Value::get` with a string key.
///
/// The contract claims that it returns the member of an object under that key,
/// and nothing for an absent key or a value that is no object.
#[verifier::external_body]
pub(crate) fn get_member<'a>(value: &'a Value, key: &str) -> (res: Option<&'a Value>)
    ensures
        match res {
            Some(found) => member(*value, key@) == Some(*found),
            None => member(*value, key@) is None,
        },
{
    value.get(key)
}

/// `serde_json::Value::as_str`: the text of a string, and nothing for every
/// other value.
pub assume_specification[ serde_json::Value::as_str ](value: &Value) -> (res: Option<&str>)
    ensures
        match res {
            Some(text) => json_view(*value) == JsonView::Text(text@),
            None => !(json_view(*value) is Text),
        },
;

/// `serde_json::Value::as_array`: the elements of an array, in order, and
/// nothing for every other value.
pub assume_specification[ serde_json::Value::as_array ](value: &Value) -> (res: Option<&Vec<Value>>)
    ensures
        match res {
            Some(elements) => json_view(*value) == JsonView::Array(elements@),
            None => !(json_view(*value) is Array),
        },
;

/// `serde_json::Value::is_null`: whether the value is null.
pub assume_specification[ serde_json::Value::is_null ](value: &Value) -> (res: bool)
    ensures
        res == (json_view(*value) is Null),
;

/// `serde_json::Value::clone`: an equal value.
pub assume_specification[ <serde_json::Value as Clone>::clone ](value: &Value) -> (res: Value)
    ensures
        res == *value,
;

/// The value that `serde_json` reads from a text; `None` where the text is no
/// JSON.
pub uninterp spec fn json_parsed(text: Seq<char>) -> Option<Value>;

/// Calls `serde_json::from_str` for a `Value`, and drops the error.
///
/// The contract only names the outcome.
#[verifier::external_body]
pub(crate) fn parse_json(text: &str) -> (res: Option<Value>)
    ensures
        res == json_parsed(text@),
{
    serde_json::from_str(text).ok()
}

/// The compact JSON text of a value.
pub uninterp spec fn json_text(value: Value) -> Seq<char>;

/// Calls `to_string` of `serde_json::Value`'s `Display`.
///
/// The contract only names the text.
#[verifier::external_body]
pub(crate) fn render_json(value: &Value) -> (res: String)
    ensures
        res@ == json_text(*value),
{
    value.to_string()
}

/// Whether a text is made of the letters from `a` to `z`.
pub open spec fn lower_case(s: Seq<char>) -> bool {
    forall|i: int| 0 <= i < s.len() ==> 'a' <= #[trigger] s[i] <= 'z'
}

/// Whether a value is made of null and strings, in arrays and objects that are
/// nested at most `depth` deep, under keys of lower case letters.
pub open spec fn is_plain(value: Value, depth: nat) -> bool
    decreases depth,
{
    match json_view(value) {
        JsonView::Null => true,
        JsonView::Text(_) => true,
        JsonView::Array(elements) => depth > 0 && forall|i: int|
            0 <= i < elements.len() ==> is_plain(#[trigger] elements[i], (depth - 1) as nat),
        JsonView::Object(members) => depth > 0 && forall|key: Seq<char>| #[trigger]
            members.contains_key(key) ==> lower_case(key) && is_plain(
                members[key],
                (depth - 1) as nat,
            ),
        JsonView::Scalar => false,
    }
}

/// The compact JSON text of an array of values.
pub uninterp spec fn json_array_text(values: Seq<Value>) -> Seq<char>;

/// Whether a text reads back as an array of these values, if they are plain.
pub open spec fn reads_back(text: Seq<char>, values: Seq<Value>) -> bool {
    (forall|i: int| 0 <= i < values.len() ==> is_plain(#[trigger] values[i], 100)) ==> (json_parsed(
        text,
    ) matches Some(message) && json_view(message) == JsonView::Array(values))
}

/// Calls `serde_json::to_string` on a vector of values, and writes its error as
/// text.
///
/// The contract claims that it succeeds, since a `Value` has string keys only
/// and writing to memory cannot fail, and names the text. It claims further that
/// `serde_json::from_str` reads the same values back from it. That is said of
/// values without numbers, which may lose precision, without keys that
/// `serde_json` reserves for itself, and far from the depth at which it refuses
/// to read on.
#[verifier::external_body]
pub(crate) fn render_json_array(values: &Vec<Value>) -> (res: Result<String, String>)
    ensures
        res is Ok,
        res->Ok_0@ == json_array_text(values@),
        reads_back(res->Ok_0@, values@),
{
    serde_json::to_string(values).map_err(|e| e.to_string())
}

/// Calls `serde_json::Value::from` on a string slice.
///
/// The contract claims that the result is the JSON string of that text.
#[verifier::external_body]
pub(crate) fn json_string(text: &str) -> (res: Value)
    ensures
        json_view(res) == JsonView::Text(text@),
{
    Value::from(text)
}

/// Calls `serde_json::Value::from` on a vector of values.
///
/// The contract claims that the result is the JSON array of those values, in
/// order.
#[verifier::external_body]
pub(crate) fn json_array(values: Vec<Value>) -> (res: Value)
    ensures
        json_view(res) == JsonView::Array(values@),
{
    Value::from(values)
}

/// The members that a list of keys and values writes down, where no key occurs
/// twice.
pub open spec fn members_of(pairs: Seq<(String, Value)>) -> Map<Seq<char>, Value>
    recommends
        distinct_keys(pairs),
    decreases pairs.len(),
{
    if pairs.len() == 0 {
        Map::empty()
    } else {
        members_of(pairs.drop_last()).insert(pairs.last().0@, pairs.last().1)
    }
}

/// Whether no key of a list of keys and values occurs twice.
pub open spec fn distinct_keys(pairs: Seq<(String, Value)>) -> bool {
    forall|i: int, j: int|
        0 <= i < j < pairs.len() ==> (#[trigger] pairs[i]).0@ != (#[trigger] pairs[j]).0@
}

/// Calls `serde_json::Value::from_iter` on keys and values, no key twice.
///
/// The contract claims that the result is the JSON object with exactly those
/// members.
#[verifier::external_body]
pub(crate) fn json_object(pairs: Vec<(String, Value)>) -> (res: Value)
    requires
        distinct_keys(pairs@),
    ensures
        json_view(res) == JsonView::Object(members_of(pairs@)),
{
    Value::from_iter(pairs)
}

} // verus!
