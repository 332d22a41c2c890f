//! Base64 text for binary content, as produced by the `data-encoding` crate.

use vstd::prelude::*;

verus! {

/// The padded base64 text (RFC 4648, section 4) of `bytes`.
pub uninterp spec fn base64_text(bytes: Seq<u8>) -> Seq<char>;

/// The longest input, in bytes, that the encoder accepts.
pub open spec fn max_encodable_len() -> int {
    (usize::MAX / 512) as int
}

/// Encodes `input` with `data_encoding::BASE64.encode`.
///
/// Trusted: the result is taken to be the base64 text of the input, a
/// function of the input bytes alone.  The encoder may panic on inputs longer
/// than `usize::MAX / 512` bytes, which the precondition leaves out.
#[verifier::external_body]
pub(crate) fn base64_encode(input: &[u8]) -> (encoded: String)
    requires
        input@.len() <= max_encodable_len(),
    ensures
        encoded@ == base64_text(input@),
{
    data_encoding::BASE64.encode(input)
}

} // verus!
