//! The hash function that seeds and keys are derived with.

use crate::bytes::append;
use vstd::prelude::*;

verus! {

/// The BLAKE3 digest of a byte string.
pub uninterp spec fn spec_blake3(data: Seq<u8>) -> Seq<u8>;

/// The digest that `blake3::hash` computes of `data`: 32 bytes that depend on
/// `data` alone.
#[verifier::external_body]
pub(crate) fn blake3(data: &[u8]) -> (digest: [u8; 32])
    ensures
        digest@ == spec_blake3(data@),
{
    *blake3::hash(data).as_bytes()
}

/// The seed for one purpose that is derived from a master seed: the digest
/// of the master seed followed by the purpose.
pub open spec fn derive_seed_spec(seed: Seq<u8>, purpose: u8) -> Seq<u8> {
    spec_blake3(seed + seq![purpose])
}

/// Derives the seed for one purpose from a master seed, so that one seed can
/// feed several independent consumers of randomness.
pub fn derive_seed(seed: &[u8; 32], purpose: u8) -> (derived: [u8; 32])
    ensures
        derived@ == derive_seed_spec(seed@, purpose),
{
    let mut data: Vec<u8> = Vec::new();
    append(&mut data, seed);
    data.push(purpose);
    assert(data@ =~= seed@ + seq![purpose]);
    blake3(data.as_slice())
}

} // verus!
