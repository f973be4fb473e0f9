//! JSON documents, read and written by `serde_json`.

use serde_json::Value;
use vstd::prelude::*;
use vstd::utf8;

verus! {

broadcast use vstd::string::group_string_axioms;

/// What a JSON value is.
pub enum Json {
    Null,
    Bool(bool),
    Number,
    Text(Seq<char>),
    List(Seq<Json>),
    Object(Map<Seq<char>, Json>),
}

/// A parsed JSON value.
#[verifier::external_type_specification]
#[verifier::external_body]
pub struct ExValue(serde_json::Value);

/// What a parsed value holds.
pub uninterp spec fn json_tree(v: Value) -> Json;

/// What `serde_json` makes of a document, or what it says where it refuses it.
pub uninterp spec fn json_outcome(bytes: Seq<u8>) -> Result<Json, Seq<char>>;

/// What a document holds, or nothing where it is refused.
pub open spec fn json_document(bytes: Seq<u8>) -> Option<Json> {
    match json_outcome(bytes) {
        Ok(tree) => Some(tree),
        Err(_) => None,
    }
}

/// What parsing a document gave.
pub open spec fn outcome_of(parsed: Result<&Value, &str>) -> Result<Json, Seq<char>> {
    match parsed {
        Ok(v) => Ok(json_tree(*v)),
        Err(why) => Err(why@),
    }
}

impl Json {
    /// The member of an object under a key.
    pub open spec fn member(self, key: Seq<char>) -> Option<Json> {
        match self {
            Json::Object(members) => if members.contains_key(key) {
                Some(members[key])
            } else {
                None
            },
            _ => None,
        }
    }

    /// The text, where this is one.
    pub open spec fn text(self) -> Option<Seq<char>> {
        match self {
            Json::Text(s) => Some(s),
            _ => None,
        }
    }

    /// The text of the member under a key.
    pub open spec fn member_text(self, key: Seq<char>) -> Option<Seq<char>> {
        match self.member(key) {
            Some(v) => v.text(),
            None => None,
        }
    }

    /// An object whose members are all texts.
    pub open spec fn is_flat_record(self) -> bool {
        self matches Json::Object(members) && forall|key: Seq<char>| #[trigger]
            members.contains_key(key) ==> members[key] is Text
    }
}

/// `serde_json::from_slice` into a `Value`, with the text of its error.
#[verifier::external_body]
pub(crate) fn parse(bytes: &[u8]) -> (r: Result<Value, String>)
    ensures
        match r {
            Ok(v) => json_outcome(bytes@) == Ok::<Json, Seq<char>>(json_tree(v)),
            Err(why) => json_outcome(bytes@) == Err::<Json, Seq<char>>(why@),
        },
{
    serde_json::from_slice(bytes).map_err(|e| e.to_string())
}

/// `Value::get` with a key: the member of an object, and nothing of any other
/// value.
#[verifier::external_body]
pub(crate) fn member<'a>(v: &'a Value, key: &str) -> (r: Option<&'a Value>)
    ensures
        match r {
            Some(m) => json_tree(*v).member(key@) == Some(json_tree(*m)),
            None => json_tree(*v).member(key@) is None,
        },
{
    v.get(key)
}

/// `Value::as_str`: the text of a string, and nothing of any other value.
#[verifier::external_body]
pub(crate) fn as_text<'a>(v: &'a Value) -> (r: Option<&'a str>)
    ensures
        match r {
            Some(s) => json_tree(*v) == Json::Text(s@),
            None => !(json_tree(*v) is Text),
        },
{
    v.as_str()
}

/// `Value::as_bool`: a boolean, and nothing of any other value.
#[verifier::external_body]
pub(crate) fn as_flag(v: &Value) -> (r: Option<bool>)
    ensures
        match r {
            Some(b) => json_tree(*v) == Json::Bool(b),
            None => !(json_tree(*v) is Bool),
        },
{
    v.as_bool()
}

/// `Value::as_array`: the items of an array, and nothing of any other value.
#[verifier::external_body]
pub(crate) fn as_list<'a>(v: &'a Value) -> (r: Option<&'a Vec<Value>>)
    ensures
        match r {
            Some(items) => json_tree(*v) == Json::List(
                Seq::new(items@.len(), |i: int| json_tree(items@[i])),
            ),
            None => !(json_tree(*v) is List),
        },
{
    v.as_array()
}

/// `Value::from_iter` over two pairs: an object with the two members.
#[verifier::external_body]
pub(crate) fn record(key_a: &str, text_a: &str, key_b: &str, text_b: &str) -> (r: Value)
    requires
        key_a@ != key_b@,
    ensures
        json_tree(r) == Json::Object(
            map![key_a@ => Json::Text(text_a@), key_b@ => Json::Text(text_b@)],
        ),
{
    Value::from_iter([(key_a, text_a), (key_b, text_b)])
}

/// `Value::to_string`: a document that reads back as the value. This is
/// claimed of objects whose members are texts.
#[verifier::external_body]
pub(crate) fn to_document(v: &Value) -> (r: String)
    ensures
        json_tree(*v).is_flat_record() ==> json_document(utf8::encode_utf8(r@)) == Some(
            json_tree(*v),
        ),
{
    v.to_string()
}

/// The text of the member under a key.
pub fn member_text(v: &Value, key: &str) -> (r: Option<String>)
    ensures
        match r {
            Some(s) => json_tree(*v).member_text(key@) == Some(s@),
            None => json_tree(*v).member_text(key@) is None,
        },
{
    match member(v, key) {
        None => None,
        Some(m) => match as_text(m) {
            None => None,
            Some(s) => Some(s.to_owned()),
        },
    }
}

} // verus!
