//! Base64 decoding of report payloads, through the `base64` crate.
use vstd::prelude::*;
use vstd::string::StringSliceAdditionalSpecFns;
use vstd::utf8::{decode_utf8, valid_utf8};

verus! {

#[verifier::external_type_specification]
#[verifier::external_body]
pub struct ExDecodeError(base64::DecodeError);

/// What the standard Base64 alphabet with `=` padding decodes `text` to, or
/// `None` when `text` is not valid Base64.
pub uninterp spec fn base64_decoded(text: Seq<u8>) -> Option<Seq<u8>>;

/// Relies on `base64::decode` (the `STANDARD` engine): it returns the decoded
/// bytes, or an error when the input is not valid Base64; the result depends
/// on the input bytes alone.
#[verifier::external_body]
#[allow(deprecated)]
fn decode_standard(text: &[u8]) -> (r: Result<Vec<u8>, base64::DecodeError>)
    ensures
        match r {
            Ok(bytes) => base64_decoded(text@) == Some(bytes@),
            Err(_) => base64_decoded(text@) is None,
        },
{
    base64::decode(text)
}

/// Relies on `String::from_utf8`: it succeeds exactly on valid UTF-8, and the
/// string then holds the characters that the bytes encode.
#[verifier::external_body]
fn string_from_utf8(bytes: Vec<u8>) -> (r: Option<String>)
    ensures
        r is Some <==> valid_utf8(bytes@),
        r matches Some(s) ==> s@ == decode_utf8(bytes@),
{
    String::from_utf8(bytes).ok()
}

/// Why a Base64 text could not be turned into a string.
#[derive(Debug)]
pub enum DecodeFailure {
    /// The text is not valid Base64; the decoder's own error is kept.
    Base64(base64::DecodeError),
    /// The decoded bytes are not valid UTF-8.
    NotUtf8,
}

/// The bytes that the Base64 text `text` encodes.
pub fn decode_bytes(text: &[u8]) -> (r: Result<Vec<u8>, DecodeFailure>)
    ensures
        match r {
            Ok(bytes) => base64_decoded(text@) == Some(bytes@),
            Err(e) => base64_decoded(text@) is None && e is Base64,
        },
{
    match decode_standard(text) {
        Ok(bytes) => Ok(bytes),
        Err(e) => Err(DecodeFailure::Base64(e)),
    }
}

/// The text that the Base64 encoded `input` holds: it fails with `Base64`
/// when `input` is not valid Base64, and with `NotUtf8` when the decoded
/// bytes are not UTF-8.
pub fn decode_from_base64(input: &str) -> (r: Result<String, DecodeFailure>)
    ensures
        match base64_decoded(input.spec_bytes()) {
            Some(bytes) => if valid_utf8(bytes) {
                r matches Ok(s) && s@ == decode_utf8(bytes)
            } else {
                r matches Err(e) && e is NotUtf8
            },
            None => r matches Err(e) && e is Base64,
        },
{
    let bytes = decode_bytes(input.as_bytes())?;
    match string_from_utf8(bytes) {
        Some(s) => Ok(s),
        None => Err(DecodeFailure::NotUtf8),
    }
}

} // verus!
