//! Turning the bytes of a script file into source text.

use vstd::prelude::*;
use vstd::utf8::{decode_utf8, valid_utf8};

use crate::error::{CliError, Result};

verus! {

/// Decodes UTF-8 bytes (std's `String::from_utf8`).
///
/// Trusted: std documents that `from_utf8` succeeds exactly when the bytes
/// are valid UTF-8 and that the string it returns holds those bytes, so its
/// characters are the ones the bytes encode.
#[verifier::external_body]
fn string_from_utf8(bytes: Vec<u8>) -> (r: Option<String>)
    ensures
        r is Some <==> valid_utf8(bytes@),
        r matches Some(s) ==> s@ == decode_utf8(bytes@),
{
    match String::from_utf8(bytes) {
        Ok(s) => Some(s),
        Err(_) => None,
    }
}

/// The source text of a script whose file held `bytes`;
/// `InvalidEncoding` when they are not UTF-8.
pub fn decode_source(bytes: Vec<u8>) -> (r: Result<String>)
    ensures
        r is Ok <==> valid_utf8(bytes@),
        r matches Ok(s) ==> s@ == decode_utf8(bytes@),
        r matches Err(e) ==> e == CliError::InvalidEncoding,
{
    match string_from_utf8(bytes) {
        Some(s) => Ok(s),
        None => Err(CliError::InvalidEncoding),
    }
}

} // verus!
