//! Content addressing: files are identified by the hex lowercase SHA-256
//! digest of their bytes.

use vstd::prelude::*;

verus! {

/// The hex lowercase SHA-256 digest of a byte string, as ASCII bytes.
/// The digest of given bytes is a fixed value on every machine; nothing
/// shorter than the algorithm itself describes it, so it only has a name.
pub uninterp spec fn spec_sha256_hex(data: Seq<u8>) -> Seq<u8>;

/// Relies on `sha256::digest`, which hex-encodes the 32-byte SHA-256 digest
/// of its input into 64 lowercase hex characters.
#[verifier::external_body]
pub(crate) fn sha256_hex(data: &[u8]) -> (r: Vec<u8>)
    ensures
        r@ == spec_sha256_hex(data@),
        r@.len() == 64,
{
    sha256::digest(data).into_bytes()
}

} // verus!
