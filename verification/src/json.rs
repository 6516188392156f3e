//! JSON values of `serde_json`, seen as what they hold.
use serde_json::Value;
use vstd::prelude::*;

verus! {

/// What a JSON value holds. A number is taken by the text that it prints as.
#[verifier::ext_equal]
pub enum Json {
    Null,
    Bool(bool),
    Number(Seq<char>),
    Text(Seq<char>),
    Array(Seq<Json>),
    Object(Map<Seq<char>, Json>),
}

impl Json {
    /// The members of an object; any other value has none.
    pub open spec fn members(self) -> Map<Seq<char>, Json> {
        match self {
            Json::Object(m) => m,
            _ => Map::empty(),
        }
    }

    /// The member of that name, where the value is an object that has one.
    pub open spec fn member(self, key: Seq<char>) -> Option<Json> {
        if self.members().dom().contains(key) {
            Some(self.members()[key])
        } else {
            None
        }
    }

    /// The text that the value is, where it is one.
    pub open spec fn text(self) -> Option<Seq<char>> {
        match self {
            Json::Text(s) => Some(s),
            _ => None,
        }
    }

    /// The member of that name, where it is a text.
    pub open spec fn text_member(self, key: Seq<char>) -> Option<Seq<char>> {
        match self.member(key) {
            Some(v) => v.text(),
            None => None,
        }
    }
}

/// `serde_json::Value`, a JSON value of any kind.
#[verifier::external_type_specification]
#[verifier::external_body]
pub struct ExValue(serde_json::Value);

/// What a `serde_json::Value` holds.
pub uninterp spec fn json_view(v: serde_json::Value) -> Json;

/// What `serde_json::from_str::<Value>` reads out of a text, where it is JSON.
pub uninterp spec fn parsed_json(text: Seq<char>) -> Option<Json>;

/// The text that `serde_json::to_string` writes for a value that holds this.
pub uninterp spec fn json_text(v: Json) -> Seq<char>;

/// The text that `serde_json::to_string_pretty` writes for a value that holds this.
pub uninterp spec fn json_pretty(v: Json) -> Option<Seq<char>>;

/// `serde_json::from_str::<Value>`: what it reads depends on the text alone. Which texts are JSON
/// and what they hold is not stated.
#[verifier::external_body]
pub(crate) fn parse_json(text: &str) -> (res: Option<Value>)
    ensures
        match res {
            Some(v) => parsed_json(text@) == Some(json_view(v)),
            None => parsed_json(text@) is None,
        },
{
    serde_json::from_str(text).ok()
}

/// `Value::get` with a text as the index: the member of that name of an object, nothing for any
/// other value.
#[verifier::external_body]
pub(crate) fn member<'a>(v: &'a Value, key: &str) -> (res: Option<&'a Value>)
    ensures
        match res {
            Some(w) => json_view(*v).member(key@) == Some(json_view(*w)),
            None => json_view(*v).member(key@) is None,
        },
{
    v.get(key)
}

/// `Value::as_str`: the text that a JSON text holds, nothing for any other value.
#[verifier::external_body]
pub(crate) fn as_text(v: &Value) -> (res: Option<&str>)
    ensures
        match res {
            Some(s) => json_view(*v).text() == Some(s@),
            None => json_view(*v).text() is None,
        },
{
    v.as_str()
}

/// `Value::as_array`: the elements of an array in their order, nothing for any other value.
#[verifier::external_body]
pub(crate) fn as_elements(v: &Value) -> (res: Option<&Vec<Value>>)
    ensures
        match res {
            Some(elements) => json_view(*v) == Json::Array(views(elements@)),
            None => !(json_view(*v) is Array),
        },
{
    v.as_array()
}

/// `serde_json::to_string`: the text it writes depends on what the value holds alone, as an
/// object keeps its members sorted by name. What the text is is not stated.
#[verifier::external_body]
pub(crate) fn to_text(v: &Value) -> (res: String)
    ensures
        res@ == json_text(json_view(*v)),
{
    serde_json::to_string(v).unwrap_or_default()
}

/// `serde_json::to_string_pretty`: the text it writes depends on what the value holds alone, as an
/// object keeps its members sorted by name. What the text is is not stated.
#[verifier::external_body]
pub(crate) fn to_pretty(v: &Value) -> (res: Option<String>)
    ensures
        match res {
            Some(s) => json_pretty(json_view(*v)) == Some(s@),
            None => json_pretty(json_view(*v)) is None,
        },
{
    serde_json::to_string_pretty(v).ok()
}

/// What each of the values holds.
pub open spec fn views(v: Seq<serde_json::Value>) -> Seq<Json> {
    Seq::new(v.len(), |i: int| json_view(v[i]))
}

/// `Value::Object` around an empty `serde_json::Map`.
#[verifier::external_body]
pub(crate) fn empty_object() -> (res: Value)
    ensures
        json_view(res) == Json::Object(Map::empty()),
{
    Value::Object(serde_json::Map::new())
}

/// `Value::String` around a text.
#[verifier::external_body]
pub(crate) fn text_value(s: String) -> (res: Value)
    ensures
        json_view(res) == Json::Text(s@),
{
    Value::String(s)
}

/// `Value::Array` around the elements.
#[verifier::external_body]
pub(crate) fn array_value(elements: Vec<Value>) -> (res: Value)
    ensures
        json_view(res) == Json::Array(views(elements@)),
{
    Value::Array(elements)
}

/// `Value::clone`: the copy holds what the value holds.
#[verifier::external_body]
pub(crate) fn copy_value(v: &Value) -> (res: Value)
    ensures
        json_view(res) == json_view(*v),
{
    v.clone()
}

/// Assignment through `Value`'s `index_mut`: sets that member of an object, or of the empty object
/// that takes the place of null. It panics on any other value.
#[verifier::external_body]
pub(crate) fn set_member(v: &mut Value, key: &str, m: Value)
    requires
        json_view(*old(v)) is Object || json_view(*old(v)) is Null,
    ensures
        json_view(*final(v)) == Json::Object(
            json_view(*old(v)).members().insert(key@, json_view(m)),
        ),
{
    v[key] = m;
}

/// `Value::is_object`.
#[verifier::external_body]
pub(crate) fn is_object(v: &Value) -> (res: bool)
    ensures
        res == (json_view(*v) is Object),
{
    v.is_object()
}

/// `Value::is_null`.
#[verifier::external_body]
pub(crate) fn is_null(v: &Value) -> (res: bool)
    ensures
        res == (json_view(*v) is Null),
{
    v.is_null()
}

/// The member of that name, where it is a text.
pub fn text_member<'a>(v: &'a Value, key: &str) -> (res: Option<&'a str>)
    ensures
        match res {
            Some(s) => json_view(*v).text_member(key@) == Some(s@),
            None => json_view(*v).text_member(key@) is None,
        },
{
    match member(v, key) {
        Some(m) => as_text(m),
        None => None,
    }
}

// ── Laws ─────────────────────────────────────────────────────────────────────
/// A member is found by its name, in an object only, and is a text where it is one.
pub proof fn law_members(m: Map<Seq<char>, Json>, key: Seq<char>, v: Json, text: Seq<char>)
    ensures
        Json::Object(m.insert(key, v)).member(key) == Some(v),
        !m.dom().contains(key) ==> Json::Object(m).member(key) is None,
        !(v is Object) ==> v.member(key) is None,
        Json::Object(m.insert(key, Json::Text(text))).text_member(key) == Some(text),
        !(v is Text) ==> Json::Object(m.insert(key, v)).text_member(key) is None,
        !(v is Object) ==> v.text_member(key) is None,
{
}

} // verus!
