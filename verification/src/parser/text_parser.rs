//! The plain-text codec strategy: text bytes become a string value, and a
//! value goes out as its plain-text reading.

use vstd::prelude::*;

use crate::parser::value::{render_value, spec_text_of, JsonValue, SpecJson};
use crate::services::error::Error;

verus! {

/// Relies on `core::str::from_utf8`: it succeeds exactly on valid UTF-8 and
/// decodes it.
#[verifier::external_body]
fn utf8_string(bytes: &[u8]) -> (r: Option<String>)
    ensures
        (r is Some) == vstd::utf8::valid_utf8(bytes@),
        r matches Some(s) ==> s@ == vstd::utf8::decode_utf8(bytes@),
{
    match core::str::from_utf8(bytes) {
        Ok(s) => Some(s.to_string()),
        Err(_) => None,
    }
}

/// Decodes a plain-text body into a string value; bytes that are not valid
/// text are a parser error.
pub fn text_parser(bytes: &Vec<u8>) -> (r: Result<JsonValue, Error>)
    ensures
        (r is Ok) == vstd::utf8::valid_utf8(bytes@),
        r matches Ok(v) ==> v@ == SpecJson::Str(vstd::utf8::decode_utf8(bytes@)),
        r matches Err(e) ==> e matches Error::ParserError(m) && m@ == "Invalid text/plain"@,
    {
    match utf8_string(bytes.as_slice()) {
        Some(s) => Ok(JsonValue::Str(s)),
        None => Err(Error::ParserError(String::from_str("Invalid text/plain"))),
    }
}

/// The plain-text reading of a value: nothing for null, a string's own
/// characters, the JSON text of anything else.
pub fn get_text_from_value(value: &JsonValue) -> (r: Result<String, Error>)
    ensures
        r matches Ok(s) && s@ == spec_text_of(value@),
{
    match value {
        JsonValue::Null => Ok(String::new()),
        JsonValue::Str(s) => Ok(s.clone()),
        JsonValue::Raw(t) => Ok(t.clone()),
        JsonValue::Obj(_) => Ok(render_value(value)),
    }
}

/// Encodes a value as its plain-text reading.
pub fn text_serializer(value: &JsonValue) -> (r: Result<Vec<u8>, Error>)
    ensures
        r matches Ok(b) && b@ == vstd::utf8::encode_utf8(spec_text_of(value@)),
{
    match get_text_from_value(value) {
        Ok(s) => Ok(s.as_str().as_bytes_vec()),
        Err(e) => Err(e),
    }
}

} // verus!
