use vstd::prelude::*;
use sha2::Digest;

use crate::utility::hex_of;

verus! {

// ---------------------------------------------------------------------------
// Content digests. Every stored file carries the SHA-256 digest of its bytes,
// rendered as hexadecimal, so that a later read can be checked against it.
// ---------------------------------------------------------------------------

/// The 32-byte SHA-256 digest of a byte string, a function of the bytes alone.
pub uninterp spec fn sha256_of(bytes: Seq<u8>) -> Seq<u8>;

/// Relies on sha2's `Sha256::digest`: the 32-byte SHA-256 digest of the input,
/// a function of the input bytes alone.
#[verifier::external_body]
pub fn sha256(bytes: &[u8]) -> (r: Vec<u8>)
    ensures
        r@ == sha256_of(bytes@),
        r@.len() == 32,
{
    sha2::Sha256::digest(bytes).to_vec()
}

/// The hexadecimal rendering of the SHA-256 digest of a byte string.
pub open spec fn digest_hex_of(bytes: Seq<u8>) -> Seq<char> {
    hex_of(sha256_of(bytes))
}

/// Computes the content digest recorded in the catalog for a file's bytes.
pub fn digest_hex(bytes: &[u8]) -> (r: String)
    ensures
        r@ == digest_hex_of(bytes@),
{
    let d = sha256(bytes);
    crate::utility::u8_to_hex_str(d.as_slice())
}

} // verus!
