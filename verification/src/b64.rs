//! The external URL-safe base64 codec, named but not modelled.

use vstd::prelude::*;

verus! {

/// The unpadded URL-safe base64 text of a byte sequence. The encoding is a
/// function of the bytes alone; its exact shape is left to the base64 crate.
pub uninterp spec fn b64_chars_of(b: Seq<u8>) -> Seq<char>;

/// What unpadded URL-safe base64 decoding yields for a text: the decoded
/// bytes, or nothing when the text is not a valid encoding.
pub uninterp spec fn b64_decoded_of(s: Seq<char>) -> Option<Seq<u8>>;

/// Relies on `base64::encode_config` with `URL_SAFE_NO_PAD`: the result is
/// the unpadded URL-safe base64 text of the input, it decodes back to the
/// input under the same configuration, and it is drawn from an alphabet of
/// letters, digits, `-` and `_`, so it never contains a `.`.
#[verifier::external_body]
pub(crate) fn b64_encode(bytes: &Vec<u8>) -> (r: String)
    ensures
        r@ == b64_chars_of(bytes@),
        b64_decoded_of(r@) == Some(bytes@),
        forall|i: int| 0 <= i < r@.len() ==> r@[i] != '.',
{
    base64::encode_config(bytes, base64::URL_SAFE_NO_PAD)
}

/// Relies on `base64::decode_config` with `URL_SAFE_NO_PAD`: the call
/// returns the decoded bytes of a valid unpadded URL-safe base64 text and
/// an error for any other text.
#[verifier::external_body]
pub(crate) fn b64_decode(s: &str) -> (r: Option<Vec<u8>>)
    ensures
        (match r {
            Some(v) => b64_decoded_of(s@) == Some(v@),
            None => b64_decoded_of(s@) is None,
        }),
{
    base64::decode_config(s, base64::URL_SAFE_NO_PAD).ok()
}

} // verus!
