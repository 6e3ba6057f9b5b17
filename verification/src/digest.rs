//! The digest function: a collision-resistant hash over canonical bytes.
//!
//! What the hash function returns for given bytes is not specified here —
//! only that it is a function of the input bytes alone, under the name
//! `digest_of`. Everything the library proves about digests goes through
//! equality of the canonical byte encodings.

use vstd::prelude::*;

verus! {

/// The 32-byte digest of a byte string, as computed by the hash function.
/// A function of the input bytes alone: the same bytes give the same digest
/// on every replica and every run.
pub uninterp spec fn digest_of(bytes: Seq<u8>) -> Seq<u8>;

/// Relies on blake3::hash: a 256-bit cryptographic digest determined by the
/// input bytes alone.
#[verifier::external_body]
pub(crate) fn blake3_hash32(bytes: &Vec<u8>) -> (r: [u8; 32])
    ensures
        r@ == digest_of(bytes@),
{
    *blake3::hash(bytes.as_slice()).as_bytes()
}

} // verus!
