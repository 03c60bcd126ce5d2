//! The nonces of a signing session and the commitments to them.

use crate::error::FrostError;
use crate::frost::keys::SigningShare;
use rand_core::SeedableRng;
use vstd::prelude::*;

verus! {

/// Whether 32 bytes encode a nonce commitment: an element of the Jubjub
/// group's prime-order subgroup other than the identity.
pub uninterp spec fn spec_is_nonce_commitment(bytes: Seq<u8>) -> bool;

/// The nonces and commitments that a random generator seeded with `seed`
/// yields for a signing share: hiding nonce, binding nonce, hiding
/// commitment, binding commitment. `None` where the share is no scalar or a
/// commitment cannot be serialized.
pub uninterp spec fn spec_signing_nonces(signing_share: Seq<u8>, seed: Seq<u8>) -> Option<
    (Seq<u8>, Seq<u8>, Seq<u8>, Seq<u8>),
>;

/// Asks `reddsa::frost::redjubjub::round1::NonceCommitment::deserialize`
/// whether `bytes` encode a nonce commitment. The answer depends on the bytes
/// alone.
#[verifier::external_body]
fn frost_check_nonce_commitment(bytes: &[u8; 32]) -> (r: Result<(), FrostError>)
    ensures
        r is Ok <==> spec_is_nonce_commitment(bytes@),
{
    match reddsa::frost::redjubjub::round1::NonceCommitment::deserialize(bytes) {
        Ok(_) => Ok(()),
        Err(e) => Err(FrostError { message: e.to_string() }),
    }
}

/// Generates signing nonces with
/// `reddsa::frost::redjubjub::round1::SigningNonces::new`, drawing the
/// randomness from a `rand_chacha::ChaCha20Rng` seeded with `seed`, and
/// serializes the nonces and their commitments. With the generator fixed by
/// the seed, the result depends on the two arguments alone.
#[verifier::external_body]
fn frost_signing_nonces(signing_share: &[u8; 32], seed: &[u8; 32]) -> (r: Option<
    ([u8; 32], [u8; 32], [u8; 32], [u8; 32]),
>)
    ensures
        r matches Some(n) ==> spec_signing_nonces(signing_share@, seed@) == Some(
            (n.0@, n.1@, n.2@, n.3@),
        ),
        r is None ==> spec_signing_nonces(signing_share@, seed@) is None,
{
    let share = reddsa::frost::redjubjub::keys::SigningShare::deserialize(signing_share).ok()?;
    let mut rng = rand_chacha::ChaCha20Rng::from_seed(*seed);
    let nonces = reddsa::frost::redjubjub::round1::SigningNonces::new(&share, &mut rng);
    Some(
        (
            nonces.hiding().serialize().try_into().ok()?,
            nonces.binding().serialize().try_into().ok()?,
            nonces.commitments().hiding().serialize().ok()?.try_into().ok()?,
            nonces.commitments().binding().serialize().ok()?.try_into().ok()?,
        ),
    )
}

/// A commitment to a signing nonce: a group element, as its 32 bytes. Every
/// value of this type encodes a valid element.
#[derive(Clone, Copy, Debug, PartialEq, Eq)]
pub struct NonceCommitment {
    bytes: [u8; 32],
}

impl View for NonceCommitment {
    type V = Seq<u8>;

    closed spec fn view(&self) -> Seq<u8> {
        self.bytes@
    }
}

impl NonceCommitment {
    #[verifier::type_invariant]
    pub open spec fn inv(self) -> bool {
        self@.len() == 32 && spec_is_nonce_commitment(self@)
    }

    /// The commitment that `bytes` encode, if they encode one.
    pub fn deserialize(bytes: [u8; 32]) -> (r: Result<NonceCommitment, FrostError>)
        ensures
            r is Ok <==> spec_is_nonce_commitment(bytes@),
            r matches Ok(commitment) ==> commitment@ == bytes@,
    {
        match frost_check_nonce_commitment(&bytes) {
            Ok(()) => Ok(NonceCommitment { bytes }),
            Err(e) => Err(e),
        }
    }

    /// The bytes of the commitment.
    pub fn serialize(&self) -> (bytes: [u8; 32])
        ensures
            bytes@ == self@,
    {
        self.bytes
    }
}

/// What [`SigningCommitments`] are made of.
pub struct SigningCommitmentsView {
    pub hiding: Seq<u8>,
    pub binding: Seq<u8>,
}

impl SigningCommitmentsView {
    /// Both commitments are valid group elements.
    pub open spec fn wf(self) -> bool {
        &&& self.hiding.len() == 32
        &&& self.binding.len() == 32
        &&& spec_is_nonce_commitment(self.hiding)
        &&& spec_is_nonce_commitment(self.binding)
    }
}

/// The pair of commitments that a participant publishes to open a signing
/// session.
#[derive(Clone, Copy, Debug, PartialEq, Eq)]
pub struct SigningCommitments {
    hiding: NonceCommitment,
    binding: NonceCommitment,
}

impl View for SigningCommitments {
    type V = SigningCommitmentsView;

    closed spec fn view(&self) -> SigningCommitmentsView {
        SigningCommitmentsView { hiding: self.hiding@, binding: self.binding@ }
    }
}

impl SigningCommitments {
    #[verifier::type_invariant]
    pub open spec fn inv(self) -> bool {
        self@.wf()
    }

    /// The pair of a hiding and a binding commitment.
    pub fn new(hiding: NonceCommitment, binding: NonceCommitment) -> (commitments:
        SigningCommitments)
        ensures
            commitments@ == (SigningCommitmentsView { hiding: hiding@, binding: binding@ }),
    {
        proof {
            use_type_invariant(&hiding);
            use_type_invariant(&binding);
        }
        SigningCommitments { hiding, binding }
    }

    /// The commitment to the hiding nonce.
    pub fn hiding(&self) -> (hiding: &NonceCommitment)
        ensures
            hiding@ == self@.hiding,
    {
        &self.hiding
    }

    /// The commitment to the binding nonce.
    pub fn binding(&self) -> (binding: &NonceCommitment)
        ensures
            binding@ == self@.binding,
    {
        &self.binding
    }
}

/// What [`SigningNonces`] are made of.
pub struct SigningNoncesView {
    pub hiding: Seq<u8>,
    pub binding: Seq<u8>,
    pub commitments: SigningCommitmentsView,
}

impl SigningNoncesView {
    /// The nonces that a generator seeded with `seed` yields for
    /// `signing_share`, if it yields nonces with valid commitments.
    pub open spec fn generate(signing_share: Seq<u8>, seed: Seq<u8>) -> Option<SigningNoncesView> {
        match spec_signing_nonces(signing_share, seed) {
            Some((hiding, binding, hiding_commitment, binding_commitment)) => {
                if spec_is_nonce_commitment(hiding_commitment) && spec_is_nonce_commitment(
                    binding_commitment,
                ) {
                    Some(
                        SigningNoncesView {
                            hiding,
                            binding,
                            commitments: SigningCommitmentsView {
                                hiding: hiding_commitment,
                                binding: binding_commitment,
                            },
                        },
                    )
                } else {
                    None
                }
            },
            None => None,
        }
    }
}

/// The secret nonces of one signing session, with the commitments to them.
/// They must be used for one signature only.
#[derive(Clone, PartialEq, Eq)]
pub struct SigningNonces {
    hiding: [u8; 32],
    binding: [u8; 32],
    commitments: SigningCommitments,
}

impl View for SigningNonces {
    type V = SigningNoncesView;

    closed spec fn view(&self) -> SigningNoncesView {
        SigningNoncesView {
            hiding: self.hiding@,
            binding: self.binding@,
            commitments: self.commitments@,
        }
    }
}

impl SigningNonces {
    /// The nonces that a generator seeded with `seed` yields for
    /// `signing_share`.
    pub fn generate(signing_share: &SigningShare, seed: &[u8; 32]) -> (r: Option<SigningNonces>)
        ensures
            match r {
                Some(nonces) => SigningNoncesView::generate(signing_share@, seed@) == Some(
                    nonces@,
                ),
                None => SigningNoncesView::generate(signing_share@, seed@) is None,
            },
    {
        match frost_signing_nonces(&signing_share.bytes, seed) {
            Some((hiding, binding, hiding_commitment, binding_commitment)) => {
                match NonceCommitment::deserialize(hiding_commitment) {
                    Ok(hiding_commitment) => match NonceCommitment::deserialize(
                        binding_commitment,
                    ) {
                        Ok(binding_commitment) => Some(
                            SigningNonces {
                                hiding,
                                binding,
                                commitments: SigningCommitments::new(
                                    hiding_commitment,
                                    binding_commitment,
                                ),
                            },
                        ),
                        Err(_) => None,
                    },
                    Err(_) => None,
                }
            },
            None => None,
        }
    }

    /// The hiding nonce.
    pub fn hiding(&self) -> (nonce: [u8; 32])
        ensures
            nonce@ == self@.hiding,
    {
        self.hiding
    }

    /// The binding nonce.
    pub fn binding(&self) -> (nonce: [u8; 32])
        ensures
            nonce@ == self@.binding,
    {
        self.binding
    }

    /// The commitments to the two nonces.
    pub fn commitments(&self) -> (commitments: &SigningCommitments)
        ensures
            commitments@ == self@.commitments,
    {
        &self.commitments
    }
}

} // verus!
