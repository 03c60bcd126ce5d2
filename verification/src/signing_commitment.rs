//! The commitment with which a participant opens a signing session.
//!
//! A commitment names its author, commits to the author's nonces and carries
//! a checksum of the transaction and the signer set. The author signs all of
//! it, so that nobody else can bind the author to other nonces or to another
//! session.

use crate::bytes::append;
use crate::bytes::to_array;
use crate::checksum::checksum;
use crate::checksum::checksum_spec;
use crate::checksum::Checksum;
use crate::checksum::ChecksumError;
use crate::checksum::CHECKSUM_LEN;
use crate::error::DeserializationError;
use crate::error::SignatureError;
use crate::frost::keys::SigningShare;
use crate::frost::round1::spec_is_nonce_commitment;
use crate::frost::round1::NonceCommitment;
use crate::frost::round1::SigningCommitments;
use crate::frost::round1::SigningCommitmentsView;
use crate::nonces::deterministic_signing_nonces;
use crate::nonces::deterministic_signing_nonces_spec;
use crate::participant::identity_bytes;
use crate::participant::lemma_parse_serialized;
use crate::participant::serialize_identities;
use crate::participant::spec_ed25519_sign;
use crate::participant::spec_ed25519_verifies;
use crate::participant::Identity;
use crate::participant::IdentityView;
use crate::participant::Secret;
use crate::participant::SecretView;
use crate::participant::Signature;
use crate::participant::IDENTITY_LEN;
use crate::participant::SIGNATURE_LEN;
use vstd::bytes::lemma_auto_spec_u64_to_from_le_bytes;
use vstd::bytes::spec_u64_from_le_bytes;
use vstd::bytes::spec_u64_to_le_bytes;
use vstd::bytes::u64_from_le_bytes;
use vstd::bytes::u64_to_le_bytes;
use vstd::prelude::*;

verus! {

/// The number of bytes of a serialized nonce commitment.
pub const NONCE_COMMITMENT_LEN: usize = 32;

/// The number of bytes that the signature of a commitment covers.
pub const AUTHENTICATED_DATA_LEN: usize = IDENTITY_LEN + NONCE_COMMITMENT_LEN * 2 + CHECKSUM_LEN;

/// The number of bytes of a serialized [`SigningCommitment`].
pub const SIGNING_COMMITMENT_LEN: usize = AUTHENTICATED_DATA_LEN + SIGNATURE_LEN;

/// The bytes that the signature of a commitment covers: the identity, the
/// hiding commitment, the binding commitment and the checksum in little
/// endian, without delimiters.
pub open spec fn spec_authenticated_data(
    identity: IdentityView,
    raw_commitments: SigningCommitmentsView,
    checksum: u64,
) -> Seq<u8> {
    identity.serialize() + raw_commitments.hiding + raw_commitments.binding + spec_u64_to_le_bytes(
        checksum,
    )
}

/// What a [`SigningCommitment`] is made of.
pub struct SigningCommitmentView {
    pub identity: IdentityView,
    pub raw_commitments: SigningCommitmentsView,
    pub checksum: u64,
    pub signature: Seq<u8>,
}

impl SigningCommitmentView {
    /// The bytes that the signature covers.
    pub open spec fn authenticated_data(self) -> Seq<u8> {
        spec_authenticated_data(self.identity, self.raw_commitments, self.checksum)
    }

    /// The signature is the identity's signature over the other fields.
    pub open spec fn authentic(self) -> bool {
        spec_ed25519_verifies(
            self.identity.verification_key,
            self.authenticated_data(),
            self.signature,
        )
    }

    /// The identity and the nonce commitments are valid, and the signature
    /// has its length.
    pub open spec fn wf(self) -> bool {
        &&& self.identity.wf()
        &&& self.raw_commitments.wf()
        &&& self.signature.len() == 64
    }

    /// The serialized commitment: the signature, then what it covers.
    pub open spec fn serialize(self) -> Seq<u8> {
        self.signature + self.authenticated_data()
    }

    /// The commitment that a serialization starts with, or why it holds
    /// none. Bytes after the commitment are not looked at.
    pub open spec fn parse(bytes: Seq<u8>) -> Result<SigningCommitmentView, DeserializationError> {
        if bytes.len() < 64 {
            Err(DeserializationError::UnexpectedEof)
        } else {
            match IdentityView::parse(bytes.subrange(64, bytes.len() as int)) {
                Err(e) => Err(e),
                Ok(identity) => {
                    let hiding = bytes.subrange(193, 225);
                    let binding = bytes.subrange(225, 257);
                    let commitment = SigningCommitmentView {
                        identity,
                        raw_commitments: SigningCommitmentsView { hiding, binding },
                        checksum: spec_u64_from_le_bytes(bytes.subrange(257, 265)),
                        signature: bytes.subrange(0, 64),
                    };
                    if bytes.len() < 225 {
                        Err(DeserializationError::UnexpectedEof)
                    } else if !spec_is_nonce_commitment(hiding) {
                        Err(DeserializationError::InvalidHidingCommitment)
                    } else if bytes.len() < 257 {
                        Err(DeserializationError::UnexpectedEof)
                    } else if !spec_is_nonce_commitment(binding) {
                        Err(DeserializationError::InvalidBindingCommitment)
                    } else if bytes.len() < 265 {
                        Err(DeserializationError::UnexpectedEof)
                    } else if !commitment.authentic() {
                        Err(DeserializationError::InvalidSignature)
                    } else {
                        Ok(commitment)
                    }
                },
            }
        }
    }

    /// The commitment of the owner of `secret` to `raw_commitments`, for the
    /// session in which `signers` sign `transaction_hash`.
    pub open spec fn from_raw_commitments(
        secret: SecretView,
        raw_commitments: SigningCommitmentsView,
        transaction_hash: Seq<u8>,
        signers: Seq<Seq<u8>>,
    ) -> SigningCommitmentView {
        let identity = secret.identity();
        let checksum = checksum_spec(transaction_hash, signers);
        SigningCommitmentView {
            identity,
            raw_commitments,
            checksum,
            signature: spec_ed25519_sign(
                secret.signing_key,
                spec_authenticated_data(identity, raw_commitments, checksum),
            ),
        }
    }

    /// The commitment of the owner of `secret` and `signing_share` for the
    /// session in which `signers` sign `transaction_hash`, if the session has
    /// nonces.
    pub open spec fn from_secrets(
        secret: SecretView,
        signing_share: Seq<u8>,
        transaction_hash: Seq<u8>,
        signers: Seq<Seq<u8>>,
    ) -> Option<SigningCommitmentView> {
        match deterministic_signing_nonces_spec(signing_share, transaction_hash, signers) {
            Some(nonces) => Some(
                SigningCommitmentView::from_raw_commitments(
                    secret,
                    nonces.commitments,
                    transaction_hash,
                    signers,
                ),
            ),
            None => None,
        }
    }
}

/// The checksum that binds a commitment to its session: that of the
/// transaction hash and the set of signers.
pub fn input_checksum(transaction_hash: &[u8], signing_participants: &[Identity]) -> (digest:
    Checksum)
    ensures
        digest == checksum_spec(transaction_hash@, identity_bytes(signing_participants@)),
{
    let items = serialize_identities(signing_participants);
    checksum(transaction_hash, &items)
}

/// The bytes that the signature of a commitment covers.
pub fn authenticated_data(
    identity: &Identity,
    raw_commitments: &SigningCommitments,
    checksum: Checksum,
) -> (data: [u8; AUTHENTICATED_DATA_LEN])
    ensures
        data@ == spec_authenticated_data(identity@, raw_commitments@, checksum),
{
    proof {
        use_type_invariant(identity);
        use_type_invariant(raw_commitments);
        lemma_parse_serialized(identity@);
        lemma_auto_spec_u64_to_from_le_bytes();
    }
    let mut data: Vec<u8> = Vec::new();
    append(&mut data, &identity.serialize());
    append(&mut data, &raw_commitments.hiding().serialize());
    append(&mut data, &raw_commitments.binding().serialize());
    let checksum_bytes = u64_to_le_bytes(checksum);
    append(&mut data, checksum_bytes.as_slice());
    assert(data@ =~= spec_authenticated_data(identity@, raw_commitments@, checksum));
    to_array(data.as_slice())
}

/// A participant's commitment for one signing session.
#[derive(Clone, Copy, Debug, PartialEq, Eq)]
pub struct SigningCommitment {
    identity: Identity,
    raw_commitments: SigningCommitments,
    /// A checksum of the transaction hash and the signers of the session. It
    /// tells quickly whether commitments were made for the same session.
    checksum: Checksum,
    /// The signature by which the owner of `identity` vouches for the other
    /// fields.
    signature: Signature,
}

impl View for SigningCommitment {
    type V = SigningCommitmentView;

    closed spec fn view(&self) -> SigningCommitmentView {
        SigningCommitmentView {
            identity: self.identity@,
            raw_commitments: self.raw_commitments@,
            checksum: self.checksum,
            signature: self.signature@,
        }
    }
}

impl SigningCommitment {
    #[verifier::type_invariant]
    pub open spec fn inv(self) -> bool {
        self@.wf()
    }

    /// Puts a commitment together without looking at the signature. Such a
    /// commitment must pass [`SigningCommitment::verify_authenticity`] before
    /// any of its fields is trusted.
    pub fn from_raw_parts_unverified(
        identity: Identity,
        raw_commitments: SigningCommitments,
        checksum: Checksum,
        signature: Signature,
    ) -> (commitment: SigningCommitment)
        ensures
            commitment@ == (SigningCommitmentView {
                identity: identity@,
                raw_commitments: raw_commitments@,
                checksum,
                signature: signature@,
            }),
    {
        proof {
            use_type_invariant(&identity);
            use_type_invariant(&raw_commitments);
        }
        SigningCommitment { identity, raw_commitments, checksum, signature }
    }

    /// Puts a commitment together, if `signature` is the identity's
    /// signature over the other parts.
    pub fn from_raw_parts(
        identity: Identity,
        raw_commitments: SigningCommitments,
        checksum: Checksum,
        signature: Signature,
    ) -> (r: Result<SigningCommitment, SignatureError>)
        ensures
            r is Ok <==> (SigningCommitmentView {
                identity: identity@,
                raw_commitments: raw_commitments@,
                checksum,
                signature: signature@,
            }).authentic(),
            r matches Ok(commitment) ==> commitment@ == (SigningCommitmentView {
                identity: identity@,
                raw_commitments: raw_commitments@,
                checksum,
                signature: signature@,
            }),
    {
        let commitment = SigningCommitment::from_raw_parts_unverified(
            identity,
            raw_commitments,
            checksum,
            signature,
        );
        match commitment.verify_authenticity() {
            Ok(()) => Ok(commitment),
            Err(e) => Err(e),
        }
    }

    /// The commitment of the owner of `participant_secret` to
    /// `raw_commitments`, signed, for the session in which
    /// `signing_participants` sign `transaction_hash`.
    pub fn from_raw_commitments(
        participant_secret: &Secret,
        raw_commitments: SigningCommitments,
        transaction_hash: &[u8],
        signing_participants: &[Identity],
    ) -> (commitment: SigningCommitment)
        ensures
            commitment@ == SigningCommitmentView::from_raw_commitments(
                participant_secret@,
                raw_commitments@,
                transaction_hash@,
                identity_bytes(signing_participants@),
            ),
            commitment@.authentic(),
    {
        let identity = participant_secret.to_identity();
        let checksum = input_checksum(transaction_hash, signing_participants);
        let data = authenticated_data(&identity, &raw_commitments, checksum);
        let signature = participant_secret.sign(&data);
        SigningCommitment::from_raw_parts_unverified(identity, raw_commitments, checksum, signature)
    }

    /// The commitment of the owner of `participant_secret` and `secret_share`
    /// for the session in which `signing_participants` sign
    /// `transaction_hash`. The nonces are derived from the share and the
    /// session, so the same arguments give the same commitment, and they must
    /// not be used for a second signing attempt.
    ///
    /// The session must have nonces;
    /// [`SigningCommitment::try_from_secrets`] finds out whether it has.
    pub fn from_secrets(
        participant_secret: &Secret,
        secret_share: &SigningShare,
        transaction_hash: &[u8],
        signing_participants: &[Identity],
    ) -> (commitment: SigningCommitment)
        requires
            deterministic_signing_nonces_spec(
                secret_share@,
                transaction_hash@,
                identity_bytes(signing_participants@),
            ) is Some,
        ensures
            SigningCommitmentView::from_secrets(
                participant_secret@,
                secret_share@,
                transaction_hash@,
                identity_bytes(signing_participants@),
            ) == Some(commitment@),
            commitment@.authentic(),
    {
        let nonces = deterministic_signing_nonces(
            secret_share,
            transaction_hash,
            signing_participants,
        ).unwrap();
        let raw_commitments = *nonces.commitments();
        SigningCommitment::from_raw_commitments(
            participant_secret,
            raw_commitments,
            transaction_hash,
            signing_participants,
        )
    }

    /// Like [`SigningCommitment::from_secrets`], for any arguments: `None`
    /// where the session has no nonces.
    pub fn try_from_secrets(
        participant_secret: &Secret,
        secret_share: &SigningShare,
        transaction_hash: &[u8],
        signing_participants: &[Identity],
    ) -> (r: Option<SigningCommitment>)
        ensures
            match r {
                Some(commitment) => SigningCommitmentView::from_secrets(
                    participant_secret@,
                    secret_share@,
                    transaction_hash@,
                    identity_bytes(signing_participants@),
                ) == Some(commitment@) && commitment@.authentic(),
                None => SigningCommitmentView::from_secrets(
                    participant_secret@,
                    secret_share@,
                    transaction_hash@,
                    identity_bytes(signing_participants@),
                ) is None,
            },
    {
        match deterministic_signing_nonces(secret_share, transaction_hash, signing_participants) {
            Some(_) => Some(
                SigningCommitment::from_secrets(
                    participant_secret,
                    secret_share,
                    transaction_hash,
                    signing_participants,
                ),
            ),
            None => None,
        }
    }

    /// Checks that the commitment was signed by the identity it names.
    pub fn verify_authenticity(&self) -> (r: Result<(), SignatureError>)
        ensures
            r is Ok <==> self@.authentic(),
    {
        let data = authenticated_data(&self.identity, &self.raw_commitments, self.checksum);
        self.identity.verify_data(&data, &self.signature)
    }

    /// Checks that the commitment was made for the session in which
    /// `signing_participants` sign `transaction_hash`.
    pub fn verify_checksum(&self, transaction_hash: &[u8], signing_participants: &[Identity]) -> (r:
        Result<(), ChecksumError>)
        ensures
            r is Ok <==> self@.checksum == checksum_spec(
                transaction_hash@,
                identity_bytes(signing_participants@),
            ),
            r matches Err(e) ==> e == ChecksumError::SigningCommitmentError,
    {
        let computed_checksum = input_checksum(transaction_hash, signing_participants);
        if self.checksum == computed_checksum {
            Ok(())
        } else {
            Err(ChecksumError::SigningCommitmentError)
        }
    }

    /// The identity of the commitment's author.
    pub fn identity(&self) -> (identity: &Identity)
        ensures
            identity@ == self@.identity,
    {
        &self.identity
    }

    /// The commitments to the author's nonces.
    pub fn raw_commitments(&self) -> (raw_commitments: &SigningCommitments)
        ensures
            raw_commitments@ == self@.raw_commitments,
    {
        &self.raw_commitments
    }

    /// The commitment to the hiding nonce.
    pub fn hiding(&self) -> (hiding: &NonceCommitment)
        ensures
            hiding@ == self@.raw_commitments.hiding,
    {
        self.raw_commitments.hiding()
    }

    /// The commitment to the binding nonce.
    pub fn binding(&self) -> (binding: &NonceCommitment)
        ensures
            binding@ == self@.raw_commitments.binding,
    {
        self.raw_commitments.binding()
    }

    /// The checksum of the session.
    pub fn checksum(&self) -> (checksum: Checksum)
        ensures
            checksum == self@.checksum,
    {
        self.checksum
    }

    /// The signature over the other fields.
    pub fn signature(&self) -> (signature: &Signature)
        ensures
            signature@ == self@.signature,
    {
        &self.signature
    }

    /// The commitment as [`SIGNING_COMMITMENT_LEN`] bytes: signature,
    /// identity, hiding commitment, binding commitment, checksum.
    pub fn serialize(&self) -> (bytes: [u8; SIGNING_COMMITMENT_LEN])
        ensures
            bytes@ == self@.serialize(),
            SigningCommitmentView::parse(bytes@) == (if self@.authentic() {
                Ok::<SigningCommitmentView, DeserializationError>(self@)
            } else {
                Err::<SigningCommitmentView, DeserializationError>(
                    DeserializationError::InvalidSignature,
                )
            }),
    {
        proof {
            use_type_invariant(self);
            lemma_deserialize_serialized(self@, Seq::empty());
            assert(self@.serialize() + Seq::<u8>::empty() =~= self@.serialize());
        }
        let mut data: Vec<u8> = Vec::new();
        self.serialize_into(&mut data);
        to_array(data.as_slice())
    }

    /// Appends the serialized commitment to `writer`.
    pub fn serialize_into(&self, writer: &mut Vec<u8>)
        ensures
            final(writer)@ == old(writer)@ + self@.serialize(),
            self@.serialize().len() == SIGNING_COMMITMENT_LEN,
    {
        let data = authenticated_data(&self.identity, &self.raw_commitments, self.checksum);
        append(writer, &self.signature.to_bytes());
        append(writer, &data);
        assert(writer@ =~= old(writer)@ + self@.serialize());
    }

    /// Reads a commitment from the first [`SIGNING_COMMITMENT_LEN`] bytes of
    /// `bytes`. A commitment that is well formed but not signed by the
    /// identity it names is refused like a malformed one.
    pub fn deserialize_from(bytes: &[u8]) -> (r: Result<SigningCommitment, DeserializationError>)
        ensures
            match r {
                Ok(commitment) => SigningCommitmentView::parse(bytes@) == Ok::<
                    SigningCommitmentView,
                    DeserializationError,
                >(commitment@) && commitment@.authentic(),
                Err(e) => SigningCommitmentView::parse(bytes@) == Err::<
                    SigningCommitmentView,
                    DeserializationError,
                >(e),
            },
    {
        let n = bytes.len();
        if n < 64 {
            return Err(DeserializationError::UnexpectedEof);
        }
        let signature_bytes: [u8; 64] = to_array(&bytes[0..64]);
        let signature = Signature::from_bytes(&signature_bytes);
        let identity = match Identity::deserialize_from(&bytes[64..n]) {
            Ok(identity) => identity,
            Err(e) => {
                return Err(e);
            },
        };
        if n < 225 {
            return Err(DeserializationError::UnexpectedEof);
        }
        let hiding = match NonceCommitment::deserialize(to_array(&bytes[193..225])) {
            Ok(hiding) => hiding,
            Err(_) => {
                return Err(DeserializationError::InvalidHidingCommitment);
            },
        };
        if n < 257 {
            return Err(DeserializationError::UnexpectedEof);
        }
        let binding = match NonceCommitment::deserialize(to_array(&bytes[225..257])) {
            Ok(binding) => binding,
            Err(_) => {
                return Err(DeserializationError::InvalidBindingCommitment);
            },
        };
        if n < 265 {
            return Err(DeserializationError::UnexpectedEof);
        }
        let checksum = u64_from_le_bytes(&bytes[257..265]);
        let raw_commitments = SigningCommitments::new(hiding, binding);
        match SigningCommitment::from_raw_parts(identity, raw_commitments, checksum, signature) {
            Ok(commitment) => Ok(commitment),
            Err(_) => Err(DeserializationError::InvalidSignature),
        }
    }
}

/// A serialized commitment reads back as itself, whatever follows it, if it
/// is signed by the identity it names. If it is not, it is refused for its
/// signature.
pub proof fn lemma_deserialize_serialized(commitment: SigningCommitmentView, rest: Seq<u8>)
    requires
        commitment.wf(),
    ensures
        commitment.serialize().len() == SIGNING_COMMITMENT_LEN,
        SigningCommitmentView::parse(commitment.serialize() + rest) == (if commitment.authentic() {
            Ok::<SigningCommitmentView, DeserializationError>(commitment)
        } else {
            Err::<SigningCommitmentView, DeserializationError>(
                DeserializationError::InvalidSignature,
            )
        }),
{
    lemma_auto_spec_u64_to_from_le_bytes();
    lemma_parse_serialized(commitment.identity);
    let identity = commitment.identity.serialize();
    let hiding = commitment.raw_commitments.hiding;
    let binding = commitment.raw_commitments.binding;
    let checksum = spec_u64_to_le_bytes(commitment.checksum);
    let bytes = commitment.serialize() + rest;
    assert(bytes.subrange(64, bytes.len() as int) =~= identity + (hiding + binding + checksum
        + rest));
    assert(bytes.subrange(0, 64) =~= commitment.signature);
    assert(bytes.subrange(193, 225) =~= hiding);
    assert(bytes.subrange(225, 257) =~= binding);
    assert(bytes.subrange(257, 265) =~= checksum);
}

/// Only a commitment that is signed by the identity it names is read from
/// bytes, and it is the one whose serialization the bytes start with.
pub proof fn lemma_parsed_is_authentic(bytes: Seq<u8>)
    requires
        SigningCommitmentView::parse(bytes) is Ok,
    ensures
        SigningCommitmentView::parse(bytes)->Ok_0.authentic(),
        SigningCommitmentView::parse(bytes)->Ok_0.wf(),
        SigningCommitmentView::parse(bytes)->Ok_0.serialize() == bytes.take(
            SIGNING_COMMITMENT_LEN as int,
        ),
{
    lemma_auto_spec_u64_to_from_le_bytes();
    let commitment = SigningCommitmentView::parse(bytes)->Ok_0;
    let tail = bytes.subrange(64, bytes.len() as int);
    assert(commitment.identity == IdentityView::from_bytes(tail));
    assert(commitment.identity.serialize() =~= bytes.subrange(64, 193)) by {
        assert(tail[0] == bytes[64]);
    }
    assert(commitment.serialize() =~= bytes.take(SIGNING_COMMITMENT_LEN as int));
}

/// Commitments for one session carry one checksum, whoever makes them and
/// whatever they commit to.
pub proof fn lemma_checksum_of_session(
    secret1: SecretView,
    raw_commitments1: SigningCommitmentsView,
    secret2: SecretView,
    raw_commitments2: SigningCommitmentsView,
    transaction_hash: Seq<u8>,
    signers1: Seq<Seq<u8>>,
    signers2: Seq<Seq<u8>>,
)
    requires
        forall|x: Seq<u8>| signers1.contains(x) <==> signers2.contains(x),
    ensures
        SigningCommitmentView::from_raw_commitments(
            secret1,
            raw_commitments1,
            transaction_hash,
            signers1,
        ).checksum == SigningCommitmentView::from_raw_commitments(
            secret2,
            raw_commitments2,
            transaction_hash,
            signers2,
        ).checksum,
{
    assert(signers1.to_set() =~= signers2.to_set());
}

} // verus!
