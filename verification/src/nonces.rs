//! Signing nonces that are derived from the session they are for.

use crate::bytes::append;
use crate::bytes::concat;
use crate::checksum::canonical_concat;
use crate::checksum::canonical_order;
use crate::frost::keys::SigningShare;
use crate::frost::round1::SigningNonces;
use crate::frost::round1::SigningNoncesView;
use crate::hash::blake3;
use crate::hash::spec_blake3;
use crate::participant::identity_bytes;
use crate::participant::serialize_identities;
use crate::participant::Identity;
use vstd::prelude::*;

verus! {

/// The seed of the nonces of a session: the BLAKE3 digest of the signing
/// share, the transaction hash and the signers in canonical order.
pub open spec fn nonce_seed(
    signing_share: Seq<u8>,
    transaction_hash: Seq<u8>,
    signers: Seq<Seq<u8>>,
) -> Seq<u8> {
    spec_blake3(signing_share + transaction_hash + concat(canonical_order(signers.to_set())))
}

/// The nonces of the session in which `signers` sign `transaction_hash`.
pub open spec fn deterministic_signing_nonces_spec(
    signing_share: Seq<u8>,
    transaction_hash: Seq<u8>,
    signers: Seq<Seq<u8>>,
) -> Option<SigningNoncesView> {
    SigningNoncesView::generate(
        signing_share,
        nonce_seed(signing_share, transaction_hash, signers),
    )
}

/// Derives the nonces of a signing session from the signing share, the
/// transaction hash and the set of signers. No randomness is consumed: the
/// same session gives the same nonces, in whatever order and however often
/// the signers are listed. A caller must therefore derive nonces only once
/// for each signing attempt.
///
/// Returns `None` where the primitive yields no nonces for the share.
pub fn deterministic_signing_nonces(
    secret_share: &SigningShare,
    transaction_hash: &[u8],
    signing_participants: &[Identity],
) -> (r: Option<SigningNonces>)
    ensures
        match r {
            Some(nonces) => deterministic_signing_nonces_spec(
                secret_share@,
                transaction_hash@,
                identity_bytes(signing_participants@),
            ) == Some(nonces@),
            None => deterministic_signing_nonces_spec(
                secret_share@,
                transaction_hash@,
                identity_bytes(signing_participants@),
            ) is None,
        },
{
    let items = serialize_identities(signing_participants);
    let mut data: Vec<u8> = Vec::new();
    append(&mut data, &secret_share.bytes);
    append(&mut data, transaction_hash);
    let tail = canonical_concat(&items);
    append(&mut data, tail.as_slice());
    let seed = blake3(data.as_slice());
    SigningNonces::generate(secret_share, &seed)
}

/// The nonces depend on the signers only as a set.
pub proof fn lemma_nonces_ignore_order_and_duplicates(
    signing_share: Seq<u8>,
    transaction_hash: Seq<u8>,
    a: Seq<Seq<u8>>,
    b: Seq<Seq<u8>>,
)
    requires
        forall|x: Seq<u8>| a.contains(x) <==> b.contains(x),
    ensures
        deterministic_signing_nonces_spec(signing_share, transaction_hash, a)
            == deterministic_signing_nonces_spec(signing_share, transaction_hash, b),
{
    assert(a.to_set() =~= b.to_set());
}

} // verus!
