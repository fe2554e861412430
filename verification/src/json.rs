//! JSON documents: a mathematical model of them, and the parts of
//! `serde_json` that the metadata decoders call.
//!
//! Parsing JSON text is left to `serde_json`. Nothing in this module is
//! proved: each contract below is a claim about `serde_json`, stated over the
//! model `Json`, and the decoders in `format` are verified against these
//! claims.

use vstd::prelude::*;

verus! {

/// A JSON document.
///
/// Numbers are kept only as far as the decoders read them: a number is either
/// an integer that fits `u64`, or some other number.
pub enum Json {
    Null,
    Bool(bool),
    Unsigned(u64),
    OtherNumber,
    String(Seq<char>),
    Array(Seq<Json>),
    Object(Map<Seq<char>, Json>),
}

impl Json {
    /// The member of an object under `key`.
    pub open spec fn member(self, key: Seq<char>) -> Option<Json> {
        match self {
            Json::Object(members) => if members.contains_key(key) {
                Some(members[key])
            } else {
                None
            },
            _ => None,
        }
    }

    /// The number, where the document is an integer that fits `u64`.
    pub open spec fn as_u64(self) -> Option<u64> {
        match self {
            Json::Unsigned(n) => Some(n),
            _ => None,
        }
    }

    /// The text, where the document is a string.
    pub open spec fn as_str(self) -> Option<Seq<char>> {
        match self {
            Json::String(s) => Some(s),
            _ => None,
        }
    }

    /// The elements, where the document is an array.
    pub open spec fn as_array(self) -> Option<Seq<Json>> {
        match self {
            Json::Array(items) => Some(items),
            _ => None,
        }
    }
}

/// `serde_json::Value`, whose inside is known only through `json_model`.
#[verifier::external_type_specification]
#[verifier::external_body]
pub struct ExValue(serde_json::Value);

/// `serde_json::Error`, of which nothing is known.
#[verifier::external_type_specification]
#[verifier::external_body]
pub struct ExJsonError(serde_json::Error);

/// The document that a `serde_json::Value` holds.
pub uninterp spec fn json_model(value: serde_json::Value) -> Json;

/// The document that a JSON text denotes; `None` where `serde_json` rejects
/// the text.
pub uninterp spec fn json_document(text: Seq<u8>) -> Option<Json>;

/// Calls `serde_json::from_slice` for a `serde_json::Value`.
///
/// Claimed: whether the text is accepted, and the document that comes out,
/// depend on the bytes alone. The contract names that document
/// `json_document(text)`.
#[verifier::external_body]
pub(crate) fn parse_value(text: &[u8]) -> (r: Result<serde_json::Value, serde_json::Error>)
    ensures
        match r {
            Ok(value) => json_document(text@) == Some(json_model(value)),
            Err(_) => json_document(text@) is None,
        },
{
    serde_json::from_slice::<serde_json::Value>(text)
}

/// Calls `serde_json::Value::get` with a string key.
///
/// Claimed: the result is the member under `key` where the value is an object
/// that has one, and `None` for every other value.
#[verifier::external_body]
pub(crate) fn value_member<'a>(value: &'a serde_json::Value, key: &str) -> (r: Option<
    &'a serde_json::Value,
>)
    ensures
        match r {
            Some(found) => json_model(*value).member(key@) == Some(json_model(*found)),
            None => json_model(*value).member(key@) is None,
        },
{
    value.get(key)
}

/// `serde_json::Value::as_u64`.
///
/// Claimed: the result is the number where the value is a non-negative
/// integer that fits `u64`, and `None` for every other value.
pub assume_specification[ serde_json::Value::as_u64 ](value: &serde_json::Value) -> (r: Option<u64>)
    ensures
        r == json_model(*value).as_u64(),
;

/// `serde_json::Value::as_str`.
///
/// Claimed: the result is the text where the value is a string, and `None`
/// for every other value.
pub assume_specification<'a>[ serde_json::Value::as_str ](value: &'a serde_json::Value) -> (r:
    Option<&'a str>)
    ensures
        match r {
            Some(s) => json_model(*value).as_str() == Some(s@),
            None => json_model(*value).as_str() is None,
        },
;

/// `serde_json::Value::as_array`.
///
/// Claimed: the result is the vector of the elements, in order, where the
/// value is an array, and `None` for every other value.
pub assume_specification<'a>[ serde_json::Value::as_array ](value: &'a serde_json::Value) -> (r:
    Option<&'a Vec<serde_json::Value>>)
    ensures
        match r {
            Some(items) => json_model(*value).as_array() == Some(
                items@.map_values(|item: serde_json::Value| json_model(item)),
            ),
            None => json_model(*value).as_array() is None,
        },
;

/// `serde_json::Value::is_null`.
///
/// Claimed: the result is `true` for `null` and `false` for every other
/// value.
pub assume_specification[ serde_json::Value::is_null ](value: &serde_json::Value) -> (r: bool)
    ensures
        r == (json_model(*value) is Null),
;

/// `serde_json::Value::is_object`.
///
/// Claimed: the result is `true` for an object and `false` for every other
/// value.
pub assume_specification[ serde_json::Value::is_object ](value: &serde_json::Value) -> (r: bool)
    ensures
        r == (json_model(*value) is Object),
;

} // verus!
