//! What a JSON document says at a given place.
//!
//! The grammar of JSON is the business of the `serde_json` crate. The functions here hand a
//! document to it and name what it answers; the answer depends on the document and the place alone.
use vstd::prelude::*;
use vstd::string::*;

use crate::search::{trim, trimmed};
use crate::text::{opt_text, owned};

verus! {

/// What is wrong with a document that is no JSON.
pub uninterp spec fn json_fault(content: Seq<u8>) -> Option<Seq<char>>;

/// `serde_json::from_slice` into a `Value`: the text of the error that it returns, or nothing where
/// the document is JSON.
#[verifier::external_body]
pub(crate) fn json_error(content: &[u8]) -> (r: Option<String>)
    ensures
        opt_text(r) == json_fault(content@),
{
    match serde_json::from_slice::<serde_json::Value>(content) {
        Ok(_) => None,
        Err(error) => Some(error.to_string()),
    }
}

/// The string at a place in a document.
pub uninterp spec fn json_string(content: Seq<u8>, pointer: Seq<char>) -> Option<Seq<char>>;

/// `serde_json::Value::pointer` and `as_str` on a parsed document: the string at the place that the
/// pointer names, or nothing where the document is no JSON or has no string there.
#[verifier::external_body]
pub(crate) fn json_string_at(content: &[u8], pointer: &str) -> (r: Option<String>)
    ensures
        opt_text(r) == json_string(content@, pointer@),
        json_fault(content@) is Some ==> r is None,
{
    let document: serde_json::Value = serde_json::from_slice(content).ok()?;
    document.pointer(pointer)?.as_str().map(str::to_string)
}

/// The truth value at a place in a document.
pub uninterp spec fn json_truth(content: Seq<u8>, pointer: Seq<char>) -> Option<bool>;

/// `serde_json::Value::pointer` and `as_bool` on a parsed document: the truth value at the place
/// that the pointer names, or nothing where the document is no JSON or has none there.
#[verifier::external_body]
pub(crate) fn json_bool_at(content: &[u8], pointer: &str) -> (r: Option<bool>)
    ensures
        r == json_truth(content@, pointer@),
        json_fault(content@) is Some ==> r is None,
{
    let document: serde_json::Value = serde_json::from_slice(content).ok()?;
    document.pointer(pointer)?.as_bool()
}

/// The number at a place in a document, where it is a whole one from zero up to `u64::MAX`.
pub uninterp spec fn json_number(content: Seq<u8>, pointer: Seq<char>) -> Option<u64>;

/// `serde_json::Value::pointer` and `as_u64` on a parsed document: the number at the place that the
/// pointer names, or nothing where the document is no JSON or has no such number there.
#[verifier::external_body]
pub(crate) fn json_number_at(content: &[u8], pointer: &str) -> (r: Option<u64>)
    ensures
        r == json_number(content@, pointer@),
        json_fault(content@) is Some ==> r is None,
{
    let document: serde_json::Value = serde_json::from_slice(content).ok()?;
    document.pointer(pointer)?.as_u64()
}

// ---------------------------------------------------------------------------------------------
// Objects
// ---------------------------------------------------------------------------------------------
/// `serde_json::Value`, any JSON value.
#[verifier::external_type_specification]
#[verifier::external_body]
pub struct ExJsonValue(serde_json::Value);

/// `serde_json::Map`, the entries of a JSON object.
#[verifier::external_type_specification]
#[verifier::external_body]
#[verifier::reject_recursive_types(K)]
#[verifier::reject_recursive_types(V)]
pub struct ExJsonMap<K, V>(serde_json::Map<K, V>);

/// What an object holds: the names of its entries, each with its value as it is printed without
/// white space.
pub uninterp spec fn json_entries(
    object: serde_json::Map<String, serde_json::Value>,
) -> Map<Seq<char>, Seq<char>>;

/// What the object at a place in a document holds.
pub uninterp spec fn json_object(content: Seq<char>, pointer: Seq<char>) -> Option<
    Map<Seq<char>, Seq<char>>,
>;

/// `serde_json::Value::pointer` and `as_object` on a parsed document: a copy of the object that the
/// pointer names, or nothing where the document is no JSON or has no object there.
#[verifier::external_body]
pub(crate) fn json_object_at(content: &str, pointer: &str) -> (r: Option<
    serde_json::Map<String, serde_json::Value>,
>)
    ensures
        match r {
            Some(object) => json_object(content@, pointer@) == Some(json_entries(object)),
            None => json_object(content@, pointer@) is None,
        },
{
    let document: serde_json::Value = serde_json::from_str(content).ok()?;
    document.pointer(pointer)?.as_object().cloned()
}

/// `serde_json::Map::remove`: the entry of that name is gone, the others stay.
#[verifier::external_body]
pub(crate) fn remove_entry(object: &mut serde_json::Map<String, serde_json::Value>, name: &str)
    ensures
        json_entries(*final(object)) == json_entries(*old(object)).remove(name@),
{
    object.remove(name);
}

/// A text that JSON prints as it is, between quotes: no quote, no backslash and no control character
/// below the space.
pub open spec fn is_printed_plainly(text: Seq<char>) -> bool {
    forall|i: int|
        0 <= i < text.len() ==> #[trigger] text[i] != '"' && text[i] != '\\' && text[i] >= ' '
}

/// `serde_json::Map::insert` with a `Value::String`: the entry of that name is the text, which is
/// printed between quotes, and the others stay.
#[verifier::external_body]
pub(crate) fn put_text(
    object: &mut serde_json::Map<String, serde_json::Value>,
    name: &str,
    text: &str,
)
    requires
        is_printed_plainly(text@),
    ensures
        json_entries(*final(object)) == json_entries(*old(object)).insert(
            name@,
            "\""@ + text@ + "\""@,
        ),
{
    object.insert(name.to_string(), serde_json::Value::String(text.to_string()));
}

/// `serde_json::Map::insert` with a `Value::Array` of one `Value::String`: the entry of that name is
/// the list of that one text, which is printed between quotes and brackets, and the others stay.
#[verifier::external_body]
pub(crate) fn put_list(
    object: &mut serde_json::Map<String, serde_json::Value>,
    name: &str,
    text: &str,
)
    requires
        is_printed_plainly(text@),
    ensures
        json_entries(*final(object)) == json_entries(*old(object)).insert(
            name@,
            "[\""@ + text@ + "\"]"@,
        ),
{
    let list: Vec<serde_json::Value> = vec![serde_json::Value::String(text.to_string())];
    object.insert(name.to_string(), serde_json::Value::Array(list));
}

/// A document, printed with another object at a place in it.
pub uninterp spec fn json_with(
    content: Seq<char>,
    pointer: Seq<char>,
    entries: Map<Seq<char>, Seq<char>>,
) -> Option<Seq<char>>;

/// `serde_json::Value::pointer_mut` and `serde_json::to_string_pretty`: the document with the object
/// at the place that the pointer names, or nothing where the document is no JSON or there is no such
/// place. The entries of an object are printed in the order of their names. How the document is
/// printed is only named.
#[verifier::external_body]
pub(crate) fn json_with_object(
    content: &str,
    pointer: &str,
    object: serde_json::Map<String, serde_json::Value>,
) -> (r: Option<String>)
    ensures
        opt_text(r) == json_with(content@, pointer@, json_entries(object)),
{
    let mut document: serde_json::Value = serde_json::from_str(content).ok()?;
    *document.pointer_mut(pointer)? = serde_json::Value::Object(object);
    serde_json::to_string_pretty(&document).ok()
}

// ---------------------------------------------------------------------------------------------
// Responses of the storage runtime
// ---------------------------------------------------------------------------------------------
/// What a response of the storage runtime amounts to, given what its document says: an error where
/// it does not confirm success.
pub open spec fn response_outcome(
    fault: Option<Seq<char>>,
    ok: Option<bool>,
    error: Option<Seq<char>>,
    otherwise: Seq<char>,
) -> Result<(), Seq<char>> {
    match fault {
        Some(message) => Err("SeekDB response format error: "@ + message),
        None => if ok == Some(true) {
            Ok(())
        } else {
            Err(
                match error {
                    Some(message) => message,
                    None => otherwise,
                },
            )
        },
    }
}

/// What a response amounts to, given what its document says.
pub fn judge_response(
    fault: Option<String>,
    ok: Option<bool>,
    error: Option<String>,
    otherwise: &str,
) -> (r: Result<(), String>)
    ensures
        match (r, response_outcome(opt_text(fault), ok, opt_text(error), otherwise@)) {
            (Ok(_), Ok(_)) => true,
            (Err(message), Err(expected)) => message@ == expected,
            _ => false,
        },
{
    match fault {
        Some(message) => Err(owned("SeekDB response format error: ").concat(message.as_str())),
        None => {
            let confirmed: bool = match ok {
                Some(value) => value,
                None => false,
            };
            if confirmed {
                Ok(())
            } else {
                match error {
                    Some(message) => Err(message),
                    None => Err(owned(otherwise)),
                }
            }
        },
    }
}

/// Reads a line that the storage runtime answered with. A blank line tells that it has ended;
/// `otherwise` is the error where the answer confirms nothing and names none.
pub fn read_response(line: &str, otherwise: &str) -> (r: Result<(), String>)
    ensures
        match r {
            Ok(_) => trim(line@).len() > 0 && response_outcome(
                json_fault(line.spec_bytes()),
                json_truth(line.spec_bytes(), "/ok"@),
                json_string(line.spec_bytes(), "/error"@),
                otherwise@,
            ) is Ok,
            Err(message) => if trim(line@).len() == 0 {
                message@ == "SeekDB storage runtime exited unexpectedly"@
            } else {
                response_outcome(
                    json_fault(line.spec_bytes()),
                    json_truth(line.spec_bytes(), "/ok"@),
                    json_string(line.spec_bytes(), "/error"@),
                    otherwise@,
                ) == Err::<(), Seq<char>>(message@)
            },
        },
{
    let body: String = trimmed(line);
    if body.as_str().is_empty() {
        return Err(owned("SeekDB storage runtime exited unexpectedly"));
    }
    let content: &[u8] = line.as_bytes();
    judge_response(
        json_error(content),
        json_bool_at(content, "/ok"),
        json_string_at(content, "/error"),
        otherwise,
    )
}

/// The number at a place in an answer of the storage runtime; `invalid` is the error where there is
/// none.
pub fn response_number(line: &str, pointer: &str, invalid: &str) -> (r: Result<u64, String>)
    ensures
        match r {
            Ok(value) => json_number(line.spec_bytes(), pointer@) == Some(value),
            Err(message) => json_number(line.spec_bytes(), pointer@) is None && message@
                == invalid@,
        },
{
    match json_number_at(line.as_bytes(), pointer) {
        Some(value) => Ok(value),
        None => Err(owned(invalid)),
    }
}

/// The truth value at a place in an answer of the storage runtime; `invalid` is the error where
/// there is none.
pub fn response_truth(line: &str, pointer: &str, invalid: &str) -> (r: Result<bool, String>)
    ensures
        match r {
            Ok(value) => json_truth(line.spec_bytes(), pointer@) == Some(value),
            Err(message) => json_truth(line.spec_bytes(), pointer@) is None && message@
                == invalid@,
        },
{
    match json_bool_at(line.as_bytes(), pointer) {
        Some(value) => Ok(value),
        None => Err(owned(invalid)),
    }
}

/// The text at a place in an answer of the storage runtime.
pub fn response_text(line: &str, pointer: &str) -> (r: Option<String>)
    ensures
        opt_text(r) == json_string(line.spec_bytes(), pointer@),
{
    json_string_at(line.as_bytes(), pointer)
}

} // verus!
