//! Parsed JSON: the values that `serde_json` hands out, and what they hold.
use vstd::prelude::*;

verus! {

/// A parsed JSON value.
#[verifier::external_type_specification]
#[verifier::external_body]
pub struct ExJsonValue(serde_json::Value);

/// The reason why a text is not JSON.
#[verifier::external_type_specification]
#[verifier::external_body]
pub struct ExJsonError(serde_json::Error);

/// What a JSON value holds, as far as a scan report is read: texts, lists and
/// objects. Numbers, booleans and `null` are all `Other`.
pub enum Json {
    Text(Seq<char>),
    List(Seq<Json>),
    Object(Map<Seq<char>, Json>),
    Other,
}

impl Json {
    /// The member `key` of an object.
    pub open spec fn member(self, key: Seq<char>) -> Option<Json> {
        match self {
            Json::Object(members) => if members.contains_key(key) {
                Some(members[key])
            } else {
                None
            },
            _ => None,
        }
    }
}

/// What a parsed value holds.
pub uninterp spec fn json_of(value: serde_json::Value) -> Json;

/// What `serde_json::from_str` reads from a text; `None` when it rejects it.
pub uninterp spec fn json_parsed(text: Seq<char>) -> Option<Json>;

/// Calls `serde_json::from_str`. Taken on trust: whether the text is accepted,
/// and what the value holds, depend on the text alone.
#[verifier::external_body]
pub(crate) fn parse_json(text: &str) -> (parsed: Result<serde_json::Value, serde_json::Error>)
    ensures
        json_parsed(text@) == (match parsed {
            Ok(value) => Some(json_of(value)),
            Err(_) => None,
        }),
{
    serde_json::from_str(text)
}

/// Calls `serde_json::Value::get` with a text key. Taken on trust: an object
/// gives its member of that name, if it has one; any other value gives nothing.
#[verifier::external_body]
pub(crate) fn value_get<'a>(value: &'a serde_json::Value, key: &str) -> (found: Option<
    &'a serde_json::Value,
>)
    ensures
        json_of(*value).member(key@) == (match found {
            Some(member) => Some(json_of(*member)),
            None => None,
        }),
{
    value.get(key)
}

/// Calls `serde_json::Value::as_array`. Taken on trust: a list gives its
/// elements in order; any other value gives nothing.
#[verifier::external_body]
pub(crate) fn value_as_array(value: &serde_json::Value) -> (found: Option<&Vec<serde_json::Value>>)
    ensures
        match found {
            Some(elements) => json_of(*value) == Json::List(
                elements@.map_values(|e: serde_json::Value| json_of(e)),
            ),
            None => !(json_of(*value) is List),
        },
{
    value.as_array()
}

/// Calls `serde_json::Value::as_str`. Taken on trust: a text gives its
/// characters; any other value gives nothing.
#[verifier::external_body]
pub(crate) fn value_as_str(value: &serde_json::Value) -> (found: Option<&str>)
    ensures
        match found {
            Some(text) => json_of(*value) == Json::Text(text@),
            None => !(json_of(*value) is Text),
        },
{
    value.as_str()
}

} // verus!
