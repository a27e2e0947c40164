//! The JSON reader that the library relies on (`serde_json`), seen through
//! small trusted entry points that hand back plain values.
use vstd::prelude::*;

verus! {

/// What `serde_json` reads from `bytes` taken as a JSON array of values: for
/// each element, in order, the string stored under key `field` when the
/// element is an object holding a string there, and `None` otherwise. `None`
/// as a whole when `bytes` is not a JSON array.
pub uninterp spec fn json_array_string_fields(bytes: Seq<u8>, field: Seq<char>) -> Option<
    Seq<Option<Seq<char>>>,
>;

/// The message (`Display` text of the error) with which `serde_json` refuses
/// to read `bytes` as a JSON array of values.
pub uninterp spec fn json_array_error(bytes: Seq<u8>) -> Seq<char>;

/// Calls `serde_json::from_slice::<Vec<serde_json::Value>>` and, for each
/// element, `Value::get(field)` followed by `Value::as_str`; a failure is
/// handed back as the error's `Display` text.
///
/// Trusted: the result (or the failure) is exactly what
/// `json_array_string_fields` names for these arguments, and the message of
/// a failure is `json_array_error` of the bytes; the contract claims nothing
/// more about how JSON is read.
#[verifier::external_body]
pub(crate) fn read_array_string_fields(bytes: &[u8], field: &str) -> (r: Result<Vec<Option<String>>, String>)
    ensures
        match r {
            Ok(v) => json_array_string_fields(bytes@, field@) == Some(
                v@.map_values(|o: Option<String>| opt_string_view(o)),
            ),
            Err(m) => json_array_string_fields(bytes@, field@) is None && m@ == json_array_error(bytes@),
        },
{
    match serde_json::from_slice::<Vec<serde_json::Value>>(bytes) {
        Ok(values) => Ok(values.iter().map(|v| v.get(field).and_then(|s| s.as_str()).map(|s| s.to_string())).collect()),
        Err(e) => Err(e.to_string()),
    }
}

/// The view of an optional string.
pub open spec fn opt_string_view(o: Option<String>) -> Option<Seq<char>> {
    match o {
        Some(s) => Some(s@),
        None => None,
    }
}

/// Whether `serde_json` reads `text` as one JSON value.
pub uninterp spec fn json_text_parses(text: Seq<char>) -> bool;

/// The boolean at JSON pointer `pointer` in the JSON text, if `text` parses
/// and the pointer leads to a boolean.
pub uninterp spec fn json_bool_at(text: Seq<char>, pointer: Seq<char>) -> Option<bool>;

/// The string at JSON pointer `pointer` in the JSON text, if `text` parses
/// and the pointer leads to a string.
pub uninterp spec fn json_str_at(text: Seq<char>, pointer: Seq<char>) -> Option<Seq<char>>;

/// The message (`Display` text of the error) with which `serde_json` refuses
/// to read `text` as one JSON value.
pub uninterp spec fn json_value_error(text: Seq<char>) -> Seq<char>;

/// Calls `serde_json::from_str::<serde_json::Value>`, keeping only whether it
/// succeeded and, on failure, the error's `Display` text. Trusted: `Ok`
/// exactly when `json_text_parses` holds, and the message of a failure is
/// `json_value_error` of the text.
#[verifier::external_body]
pub(crate) fn check_json_text(text: &str) -> (r: Result<(), String>)
    ensures
        r is Ok <==> json_text_parses(text@),
        r matches Err(m) ==> m@ == json_value_error(text@),
{
    serde_json::from_str::<serde_json::Value>(text).map(|_| ()).map_err(|e| e.to_string())
}

/// Calls `serde_json::from_str::<serde_json::Value>`, then
/// `Value::pointer` and `Value::as_bool`. Trusted: the result is
/// `json_bool_at` of the inputs, and `None` when the text does not parse.
#[verifier::external_body]
pub(crate) fn json_bool_field(text: &str, pointer: &str) -> (r: Option<bool>)
    ensures
        r == json_bool_at(text@, pointer@),
        !json_text_parses(text@) ==> r is None,
{
    let v: serde_json::Value = serde_json::from_str(text).ok()?;
    v.pointer(pointer).and_then(|x| x.as_bool())
}

/// Calls `serde_json::from_str::<serde_json::Value>`, then
/// `Value::pointer` and `Value::as_str`. Trusted: the result is
/// `json_str_at` of the inputs, and `None` when the text does not parse.
#[verifier::external_body]
pub(crate) fn json_str_field(text: &str, pointer: &str) -> (r: Option<String>)
    ensures
        opt_string_view(r) == json_str_at(text@, pointer@),
        !json_text_parses(text@) ==> r is None,
{
    let v: serde_json::Value = serde_json::from_str(text).ok()?;
    v.pointer(pointer).and_then(|x| x.as_str()).map(|s| s.to_string())
}

} // verus!
