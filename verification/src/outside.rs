//! What is taken on trust: types of other crates that are only carried
//! through, JSON as `serde_json` reads and writes it, and one conversion of text
//! that the standard library makes.

use serde_json::Error as JsonError;
use vstd::prelude::*;
use vstd::utf8::*;
use walkdir::Error as WalkError;

verus! {

/// Why the operating system declined. Carried through to whoever reports it.
#[verifier::external_type_specification]
#[verifier::external_body]
pub struct ExIoError(std::io::Error);

/// Why `walkdir` could not go on. Carried through.
#[verifier::external_type_specification]
#[verifier::external_body]
pub struct ExWalkError(WalkError);

/// Why `serde_json` could not read or write a document. Carried through.
#[verifier::external_type_specification]
#[verifier::external_body]
pub struct ExJsonError(JsonError);

/// A JSON document in memory. Read through [`json_of`].
#[verifier::external_type_specification]
#[verifier::external_body]
pub struct ExJsonValue(serde_json::Value);

/// What this library tells apart in a JSON value.
pub enum Json {
    /// A string.
    Text(Seq<char>),
    /// A whole number from zero to the largest `u64`.
    Number(u64),
    /// An object, as its members.
    Object(Map<Seq<char>, Json>),
    /// Anything else.
    Other,
}

impl Json {
    /// An object whose members are all strings and numbers.
    pub open spec fn is_flat(self) -> bool {
        self matches Json::Object(members) && forall|key: Seq<char>|
            members.contains_key(key) ==> #[trigger] members[key] is Text || members[key] is Number
    }
}

/// What a document in memory holds.
pub uninterp spec fn json_of(value: serde_json::Value) -> Json;

/// What the document that `text` spells holds; nothing where `text` spells
/// none.
pub uninterp spec fn json_parse(text: Seq<u8>) -> Option<Json>;

/// The indented spelling of a flat document.
pub uninterp spec fn json_pretty(document: Json) -> Seq<u8>;

/// The text of bytes that need not be UTF-8, with a replacement character for
/// each stretch that is not.
pub uninterp spec fn utf8_lossy(bytes: Seq<u8>) -> Seq<char>;

/// `serde_json::from_slice`, for a document of any shape: fails exactly on the
/// bytes that spell no document, and else holds what they spell.
#[verifier::external_body]
pub(crate) fn parse(text: &[u8]) -> (r: Result<serde_json::Value, JsonError>)
    ensures
        r is Ok == json_parse(text@) is Some,
        r matches Ok(value) ==> json_parse(text@) == Some(json_of(value)),
{
    serde_json::from_slice(text)
}

/// `serde_json::Value::get` with a key: the member of that name, where the
/// value is an object that has one.
#[verifier::external_body]
pub(crate) fn member<'a>(value: &'a serde_json::Value, key: &str) -> (r: Option<
    &'a serde_json::Value,
>)
    ensures
        r is Some == (json_of(*value) matches Json::Object(members) && members.contains_key(key@)),
        r matches Some(found) ==> json_of(*found) == json_of(*value)->Object_0[key@],
{
    value.get(key)
}

/// `serde_json::Value::as_str`: the text of a string, and nothing of any other
/// value.
#[verifier::external_body]
pub(crate) fn text_of(value: &serde_json::Value) -> (r: Option<&str>)
    ensures
        r is Some == json_of(*value) is Text,
        r matches Some(text) ==> json_of(*value) == Json::Text(text@),
{
    value.as_str()
}

/// `serde_json::Value::as_u64`: the number, where the value is a whole number
/// that fits, and nothing of any other value.
#[verifier::external_body]
pub(crate) fn number_of(value: &serde_json::Value) -> (r: Option<u64>)
    ensures
        r is Some == json_of(*value) is Number,
        r matches Some(n) ==> json_of(*value) == Json::Number(n),
{
    value.as_u64()
}

/// `serde_json::Map::new`: the object without members.
#[verifier::external_body]
pub(crate) fn empty_object() -> (r: serde_json::Value)
    ensures
        json_of(r) == Json::Object(Map::empty()),
{
    serde_json::Value::Object(serde_json::Map::new())
}

/// `serde_json::Value::from` on text: the string that holds it.
#[verifier::external_body]
pub(crate) fn text_value(text: &str) -> (r: serde_json::Value)
    ensures
        json_of(r) == Json::Text(text@),
{
    serde_json::Value::from(text)
}

/// `serde_json::Value::from` on a number: the number.
#[verifier::external_body]
pub(crate) fn number_value(n: u64) -> (r: serde_json::Value)
    ensures
        json_of(r) == Json::Number(n),
{
    serde_json::Value::from(n)
}

/// `IndexMut` of `serde_json::Value` with a key: writes one member of an
/// object, over the one of that name where there is one.
#[verifier::external_body]
pub(crate) fn put(object: &mut serde_json::Value, key: &str, value: serde_json::Value)
    requires
        json_of(*old(object)) is Object,
    ensures
        json_of(*final(object)) == Json::Object(
            json_of(*old(object))->Object_0.insert(key@, json_of(value)),
        ),
{
    object[key] = value;
}

/// `serde_json::to_vec_pretty` on a flat object: always succeeds, and what it
/// writes is read back as the object.
#[verifier::external_body]
pub(crate) fn to_pretty(value: &serde_json::Value) -> (r: Result<Vec<u8>, JsonError>)
    requires
        json_of(*value).is_flat(),
    ensures
        r is Ok,
        r matches Ok(text) ==> text@ == json_pretty(json_of(*value)) && json_parse(text@) == Some(
            json_of(*value),
        ),
{
    serde_json::to_vec_pretty(value)
}

/// `String::from_utf8_lossy`: the text of the bytes, which is their decoding
/// where they are UTF-8.
#[verifier::external_body]
pub(crate) fn lossy_text(bytes: &[u8]) -> (r: String)
    ensures
        r@ == utf8_lossy(bytes@),
        valid_utf8(bytes@) ==> r@ == decode_utf8(bytes@),
{
    String::from_utf8_lossy(bytes).into_owned()
}

} // verus!
