//! The base64 transport coding used by the challenge headers, called from
//! the outside crate behind trusted wrappers.

use vstd::prelude::*;

use base64::Engine;

verus! {

/// What the standard base64 encoding of a byte sequence reads as. The
/// encoding is a function of the bytes alone.
pub uninterp spec fn b64_encode_of(bytes: Seq<u8>) -> Seq<char>;

/// What the standard base64 decoding of a character sequence yields: the
/// decoded bytes, or nothing where the input is not valid base64. The result
/// is a function of the characters alone.
pub uninterp spec fn b64_decode_of(text: Seq<char>) -> Option<Seq<u8>>;

/// Relies on `base64::engine::general_purpose::STANDARD.encode`: the
/// standard alphabet with padding, so four characters for every started
/// three-byte group, and an empty input encodes to an empty string.
#[verifier::external_body]
pub(crate) fn b64_encode(bytes: &Vec<u8>) -> (r: String)
    requires
        bytes@.len() <= 3 * (usize::MAX as int / 4 - 1),
    ensures
        r@ == b64_encode_of(bytes@),
        r@.len() == 4 * ((bytes@.len() + 2) / 3),
{
    base64::engine::general_purpose::STANDARD.encode(bytes)
}

/// Relies on `base64::engine::general_purpose::STANDARD.decode`: decoding
/// either yields bytes or reports an error, which this wrapper maps to
/// `None`.
#[verifier::external_body]
pub(crate) fn b64_decode(text: &str) -> (r: Option<Vec<u8>>)
    ensures
        match (r, b64_decode_of(text@)) {
            (Some(v), Some(w)) => v@ == w,
            (None, None) => true,
            _ => false,
        },
{
    match base64::engine::general_purpose::STANDARD.decode(text.as_bytes()) {
        Ok(v) => Some(v),
        Err(_) => None,
    }
}

} // verus!
