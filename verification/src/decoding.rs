//! Bytes into text: strictly, where bytes that are no UTF-8 are an error, and
//! leniently, where they are replaced.

use vstd::prelude::*;
use vstd::utf8::{decode_utf8, valid_utf8};

verus! {

/// The text that lenient decoding makes of `bytes`: the text that they
/// encode, with a replacement character for each stretch that is no UTF-8.
pub uninterp spec fn lossy_text(bytes: Seq<u8>) -> Seq<char>;

/// Decodes `bytes` with `std::str::from_utf8`.
///
/// Trusted: by its documentation that function gives the text exactly when
/// the bytes are valid UTF-8, and the text is then the one that the bytes
/// encode; otherwise it gives an error, which comes back as `None`.
#[verifier::external_body]
pub(crate) fn decode_strict(bytes: &Vec<u8>) -> (r: Option<String>)
    ensures
        match r {
            Some(text) => valid_utf8(bytes@) && text@ == decode_utf8(bytes@),
            None => !valid_utf8(bytes@),
        },
{
    match std::str::from_utf8(bytes) {
        Ok(text) => Some(text.to_string()),
        Err(_) => None,
    }
}

/// Decodes `bytes` with `String::from_utf8_lossy`.
///
/// Trusted: the result is a function of the bytes alone, named `lossy_text`.
/// By its documentation that function leaves valid UTF-8 as it is, so that
/// the text is then the one that the bytes encode.
#[verifier::external_body]
pub(crate) fn decode_lossy(bytes: &Vec<u8>) -> (text: String)
    ensures
        text@ == lossy_text(bytes@),
        valid_utf8(bytes@) ==> text@ == decode_utf8(bytes@),
{
    String::from_utf8_lossy(bytes).into_owned()
}

} // verus!
