//! Content hashes of skill payloads.
use vstd::prelude::*;

verus! {

/// SHA-256 digest of a byte string as lower-case hex: a function of the bytes alone.
pub uninterp spec fn sha256_hex(bytes: Seq<u8>) -> Seq<char>;

/// Relies on `sha2::Sha256` and generic-array's `LowerHex`: the SHA-256
/// digest of the bytes, written as 64 lower-case hex digits.
#[verifier::external_body]
fn sha256_hex_digest(bytes: &[u8]) -> (r: String)
    ensures
        r@ == sha256_hex(bytes@),
        r@.len() == 64,
{
    let mut hasher = <sha2::Sha256 as sha2::Digest>::new();
    sha2::Digest::update(&mut hasher, bytes);
    format!("{:x}", sha2::Digest::finalize(hasher))
}

/// Hash recorded for a serialised skill input or output.
pub fn stable_payload_hash(serialized: &Vec<u8>) -> (r: String)
    ensures
        r@ == sha256_hex(serialized@),
        r@.len() == 64,
{
    sha256_hex_digest(serialized.as_slice())
}

} // verus!
