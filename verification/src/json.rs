//! JSON documents, as the parser gives them.

use vstd::prelude::*;
use crate::text::split::texts;

verus! {

/// A parsed JSON document, or a part of one. Nothing is known of what is inside but
/// through the functions below.
#[verifier::external_type_specification]
#[verifier::external_body]
pub struct ExternalValue(serde_json::Value);

/// The document that a text spells, where it is JSON.
pub uninterp spec fn json_value(text: Seq<char>) -> Option<serde_json::Value>;

/// The member of an object under a key, where there is an object that has one.
pub uninterp spec fn json_member(v: serde_json::Value, key: Seq<char>) -> Option<serde_json::Value>;

/// `serde_json::from_str`, asked for a `serde_json::Value`. What it gives, and
/// whether it gives anything, depends on the text alone.
#[verifier::external_body]
pub(crate) fn parse(text: &str) -> (r: Option<serde_json::Value>)
    ensures
        r == json_value(text@),
{
    serde_json::from_str(text).ok()
}

/// `serde_json::Value::get` with a key: the member under it, where the value is an
/// object that has one. What it gives depends on the value and the key alone.
#[verifier::external_body]
pub(crate) fn member<'a>(v: &'a serde_json::Value, key: &str) -> (r: Option<&'a serde_json::Value>)
    ensures
        match r {
            Some(m) => json_member(*v, key@) == Some(*m),
            None => json_member(*v, key@) is None,
        },
{
    v.get(key)
}

/// The JSON array that spells a list of texts.
pub uninterp spec fn json_array(list: Seq<Seq<char>>) -> Seq<char>;

/// The list of texts that a JSON array spells, where a text is one.
pub uninterp spec fn json_list(text: Seq<char>) -> Option<Seq<Seq<char>>>;

/// `serde_json::to_string` on a list of texts. It does not fail there, what it gives depends
/// on the texts alone, and `serde_json::from_str` reads it back.
#[verifier::external_body]
pub(crate) fn write_list(list: &[String]) -> (r: String)
    ensures
        r@ == json_array(texts(list@)),
        json_list(r@) == Some(texts(list@)),
{
    serde_json::to_string(list).unwrap_or_default()
}

/// `serde_json::from_str`, asked for a list of texts. What it gives, and whether it gives
/// anything, depends on the text alone.
#[verifier::external_body]
pub(crate) fn read_list(text: &str) -> (r: Option<Vec<String>>)
    ensures
        match r {
            Some(list) => json_list(text@) == Some(texts(list@)),
            None => json_list(text@) is None,
        },
{
    serde_json::from_str(text).ok()
}

} // verus!
