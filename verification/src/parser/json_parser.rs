//! The JSON codec strategy: bytes to a structured value and back.

use vstd::prelude::*;

use crate::parser::value::{
    json_decode_bytes, json_parse_bytes, render_value, spec_render_value, JsonValue, SpecJson,
};
use crate::services::error::Error;

verus! {

/// The bytes the JSON strategy emits for a value: a string's own text,
/// unquoted, and the JSON text of anything else.
pub open spec fn spec_json_bytes(v: SpecJson) -> Seq<u8> {
    match v {
        SpecJson::Str(s) => vstd::utf8::encode_utf8(s),
        _ => vstd::utf8::encode_utf8(spec_render_value(v)),
    }
}

/// Decodes a JSON body; bytes that are not JSON are a parser error.
pub fn json_parser(bytes: &Vec<u8>) -> (r: Result<JsonValue, Error>)
    ensures
        match r {
            Ok(v) => json_parse_bytes(bytes@) == Some(v@),
            Err(e) => json_parse_bytes(bytes@) is None && (e matches Error::ParserError(m)
                && m@ == "Invalid json"@),
        },
{
    match json_decode_bytes(bytes.as_slice()) {
        Some(v) => Ok(v),
        None => Err(Error::ParserError(String::from_str("Invalid json"))),
    }
}

/// Encodes a value as JSON bytes; a string goes out as its own text, every
/// other value as its JSON text.
pub fn json_serializer(value: &JsonValue) -> (r: Result<Vec<u8>, Error>)
    ensures
        r matches Ok(b) && b@ == spec_json_bytes(value@),
{
    match value {
        JsonValue::Str(s) => Ok(s.as_str().as_bytes_vec()),
        _ => {
            let text = render_value(value);
            proof {
                assert(!(value@ is Str));
            }
            Ok(text.as_str().as_bytes_vec())
        },
    }
}

} // verus!
