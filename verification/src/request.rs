//! Reading the fields of a client's request: its body as UTF-8 text, and a
//! string field of that text as JSON.
use vstd::prelude::*;

use vstd::utf8::decode_utf8;
use vstd::utf8::valid_utf8;

verus! {

/// What humphrey_json reads of the string field `key` of the JSON text
/// `text`: `Err` with the parser's message when `text` is not JSON;
/// `Ok(Some(s))` when it is an object whose field `key` holds the string `s`;
/// `Ok(None)` when it is JSON without such a field.
pub uninterp spec fn json_string_field(text: Seq<char>, key: Seq<char>) -> Result<Option<Seq<char>>, Seq<char>>;

/// The view of a field read from JSON text.
pub open spec fn field_view(r: Result<Option<String>, String>) -> Result<Option<Seq<char>>, Seq<char>> {
    match r {
        Ok(Some(s)) => Ok(Some(s@)),
        Ok(None) => Ok(None),
        Err(m) => Err(m@),
    }
}

/// `humphrey_json::from_str` of `text` into a JSON value, then the value's
/// field `key` as a string (`Value::get`, `Value::as_str`); a parse error
/// becomes its message. The contract names the result and claims no more of
/// it than that it depends on `text` and `key` alone.
#[verifier::external_body]
pub(crate) fn read_string_field(text: &str, key: &str) -> (r: Result<Option<String>, String>)
    ensures
        field_view(r) == json_string_field(text@, key@),
{
    match humphrey_json::from_str::<humphrey_json::Value, _>(text) {
        Ok(value) => Ok(value.get(key).and_then(|field| field.as_str()).map(|s| s.to_string())),
        Err(e) => Err(e.to_string()),
    }
}

/// `String::from_utf8`: the text the bytes encode, or none when they are not
/// valid UTF-8 (the error is dropped).
#[verifier::external_body]
pub(crate) fn utf8_text(bytes: Vec<u8>) -> (text: Option<String>)
    ensures
        text is Some <==> valid_utf8(bytes@),
        text matches Some(s) ==> s@ == decode_utf8(bytes@),
{
    String::from_utf8(bytes).ok()
}

/// The string field `key` of a request body read as UTF-8 JSON: `None` when
/// there is no body, it is not UTF-8 or not JSON; `Some(None)` when the JSON
/// has no string field `key`; `Some(Some(s))` when it holds `s`.
pub open spec fn body_field(body: Option<Seq<u8>>, key: Seq<char>) -> Option<Option<Seq<char>>> {
    match body {
        Some(b) => if valid_utf8(b) {
            match json_string_field(decode_utf8(b), key) {
                Ok(f) => Some(f),
                Err(_) => None,
            }
        } else {
            None
        },
        None => None,
    }
}

/// The view of a body's field.
pub open spec fn body_field_view(r: Option<Option<String>>) -> Option<Option<Seq<char>>> {
    match r {
        Some(Some(s)) => Some(Some(s@)),
        Some(None) => Some(None),
        None => None,
    }
}

/// The view of an optional body.
pub open spec fn body_view(body: Option<Vec<u8>>) -> Option<Seq<u8>> {
    match body {
        Some(b) => Some(b@),
        None => None,
    }
}

/// Reads the string field `key` of a request body (see `body_field`).
pub fn read_body_field(body: Option<Vec<u8>>, key: &str) -> (r: Option<Option<String>>)
    ensures
        body_field_view(r) == body_field(body_view(body), key@),
{
    let bytes = match body {
        Some(b) => b,
        None => {
            return None;
        },
    };
    let text = match utf8_text(bytes) {
        Some(t) => t,
        None => {
            return None;
        },
    };
    match read_string_field(text.as_str(), key) {
        Ok(field) => Some(field),
        Err(_) => None,
    }
}

} // verus!
