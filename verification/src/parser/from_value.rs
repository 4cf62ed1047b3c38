//! Extracting plain data from a structured value.

use vstd::prelude::*;

use crate::parser::value::{spec_text_of, JsonValue};
use crate::parser::text_parser::get_text_from_value;

verus! {

/// The string form of a value: its plain-text reading.
pub fn from_value_for_string(value: &JsonValue) -> (r: Option<String>)
    ensures
        r matches Some(s) && s@ == spec_text_of(value@),
{
    match get_text_from_value(value) {
        Ok(s) => Some(s),
        Err(_) => None,
    }
}

} // verus!
