//! Base64 transport of binary blobs inside JSON text.
use vstd::prelude::*;

use base64::engine::general_purpose;
use base64::Engine;

verus! {

/// The standard, padded base64 text of `b`.
pub uninterp spec fn base64_text(b: Seq<u8>) -> Seq<char>;

/// The bytes that the standard, padded base64 text `t` decodes to; `None`
/// where `t` is no such text.
pub uninterp spec fn base64_bytes(t: Seq<u8>) -> Option<Seq<u8>>;

/// Relies on base64's `STANDARD.encode`: the padded base64 text of the bytes.
#[verifier::external_body]
pub(crate) fn encode_base64(b: &[u8]) -> (r: String)
    requires
        b@.len() <= u32::MAX,
    ensures
        r@ == base64_text(b@),
{
    general_purpose::STANDARD.encode(b)
}

/// Relies on base64's `STANDARD.decode`: the decoded bytes, or `None` where
/// the input is no valid padded base64.
#[verifier::external_body]
pub(crate) fn decode_base64(t: &[u8]) -> (r: Option<Vec<u8>>)
    ensures
        match r {
            Some(v) => base64_bytes(t@) == Some(v@),
            None => base64_bytes(t@) is None,
        },
{
    general_purpose::STANDARD.decode(t).ok()
}

} // verus!
