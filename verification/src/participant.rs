//! The key material of a participant: the secret that signs and decrypts, and
//! the public identity that others verify and encrypt to.

use crate::bytes::append;
use crate::bytes::equal;
use crate::bytes::to_array;
use crate::bytes::to_vec;
use crate::bytes::views;
use crate::error::DeserializationError;
use crate::error::SignatureError;
use crate::frost::keys::dkg::derive_identifier;
use crate::frost::keys::dkg::spec_identifier;
use vstd::prelude::*;

verus! {

/// The version byte that every serialized identity starts with.
pub const VERSION: u8 = 0x72;

/// The number of bytes of a signature.
pub const SIGNATURE_LEN: usize = 64;

/// The number of bytes of a serialized [`Identity`]: the version byte, the
/// verification key, the encryption key and the signature over these three.
pub const IDENTITY_LEN: usize = 129;

/// The Ed25519 verification key that belongs to a signing key.
pub uninterp spec fn spec_ed25519_verifying_key(signing_key: Seq<u8>) -> Seq<u8>;

/// The Ed25519 signature of `data` under a signing key.
pub uninterp spec fn spec_ed25519_sign(signing_key: Seq<u8>, data: Seq<u8>) -> Seq<u8>;

/// Whether `signature` is accepted as an Ed25519 signature of `data` under
/// `verifying_key`.
pub uninterp spec fn spec_ed25519_verifies(
    verifying_key: Seq<u8>,
    data: Seq<u8>,
    signature: Seq<u8>,
) -> bool;

/// The X25519 public key that belongs to a secret key.
pub uninterp spec fn spec_x25519_public_key(secret: Seq<u8>) -> Seq<u8>;

/// Derives the public half of an Ed25519 key pair with
/// `ed25519_dalek::SigningKey::verifying_key`. The key is a function of the
/// signing key alone.
#[verifier::external_body]
fn ed25519_verifying_key(signing_key: &[u8; 32]) -> (key: [u8; 32])
    ensures
        key@ == spec_ed25519_verifying_key(signing_key@),
{
    ed25519_dalek::SigningKey::from_bytes(signing_key).verifying_key().to_bytes()
}

/// Signs `data` with `ed25519_dalek::SigningKey` through
/// `ed25519_dalek::Signer::sign`. Ed25519 signing is deterministic, and what
/// it produces is accepted by `ed25519_dalek::Verifier::verify` under the
/// verification key of the same signing key.
#[verifier::external_body]
fn ed25519_sign(signing_key: &[u8; 32], data: &[u8]) -> (signature: [u8; 64])
    ensures
        signature@ == spec_ed25519_sign(signing_key@, data@),
        spec_ed25519_verifies(spec_ed25519_verifying_key(signing_key@), data@, signature@),
{
    let key = ed25519_dalek::SigningKey::from_bytes(signing_key);
    ed25519_dalek::Signer::sign(&key, data).to_bytes()
}

/// Checks a signature with `ed25519_dalek::Verifier::verify`, the
/// verification of RFC 8032, after decoding the key with
/// `ed25519_dalek::VerifyingKey::from_bytes`. The outcome is a function of the
/// three byte strings; a key that does not decode is rejected like a
/// signature that does not match.
#[verifier::external_body]
fn ed25519_verify(verifying_key: &[u8; 32], data: &[u8], signature: &[u8; 64]) -> (valid: bool)
    ensures
        valid == spec_ed25519_verifies(verifying_key@, data@, signature@),
{
    let signature = ed25519_dalek::Signature::from_bytes(signature);
    match ed25519_dalek::VerifyingKey::from_bytes(verifying_key) {
        Ok(key) => ed25519_dalek::Verifier::verify(&key, data, &signature).is_ok(),
        Err(_) => false,
    }
}

/// The X25519 secret that the owner of `secret` shares with the owner of the
/// public key `public`.
pub uninterp spec fn spec_x25519(secret: Seq<u8>, public: Seq<u8>) -> Seq<u8>;

/// Derives the public half of an X25519 key pair with
/// `x25519_dalek::PublicKey::from`. The key is a function of the secret
/// alone.
#[verifier::external_body]
pub(crate) fn x25519_public_key(secret: &[u8; 32]) -> (key: [u8; 32])
    ensures
        key@ == spec_x25519_public_key(secret@),
{
    x25519_dalek::PublicKey::from(&x25519_dalek::StaticSecret::from(*secret)).to_bytes()
}

/// The Diffie-Hellman agreement of `x25519_dalek::StaticSecret::diffie_hellman`.
/// The shared secret is a function of the two keys, and it is the one that
/// the owner of `public` computes from the own secret and the public key that
/// belongs to `secret`.
#[verifier::external_body]
pub(crate) fn x25519(secret: &[u8; 32], public: &[u8; 32]) -> (shared: [u8; 32])
    ensures
        shared@ == spec_x25519(secret@, public@),
        forall|other: Seq<u8>|
            public@ == #[trigger] spec_x25519_public_key(other) ==> shared@ == spec_x25519(
                other,
                spec_x25519_public_key(secret@),
            ),
{
    let public = x25519_dalek::PublicKey::from(*public);
    x25519_dalek::StaticSecret::from(*secret).diffie_hellman(&public).to_bytes()
}

/// An Ed25519 signature, as its 64 bytes.
#[derive(Clone, Copy, Debug, PartialEq, Eq, PartialOrd, Ord, Hash)]
pub struct Signature {
    pub bytes: [u8; 64],
}

impl View for Signature {
    type V = Seq<u8>;

    open spec fn view(&self) -> Seq<u8> {
        self.bytes@
    }
}

impl Signature {
    /// The signature that these bytes spell.
    pub fn from_bytes(bytes: &[u8; 64]) -> (signature: Signature)
        ensures
            signature@ == bytes@,
    {
        Signature { bytes: *bytes }
    }

    /// The bytes of the signature.
    pub fn to_bytes(&self) -> (bytes: [u8; 64])
        ensures
            bytes@ == self@,
    {
        self.bytes
    }
}

/// What an [`Identity`] is made of.
pub struct IdentityView {
    pub verification_key: Seq<u8>,
    pub encryption_key: Seq<u8>,
    pub signature: Seq<u8>,
}

impl IdentityView {
    /// The bytes that the identity's own signature covers.
    pub open spec fn authenticated_data(self) -> Seq<u8> {
        seq![VERSION] + self.verification_key + self.encryption_key
    }

    /// The serialized identity.
    pub open spec fn serialize(self) -> Seq<u8> {
        self.authenticated_data() + self.signature
    }

    /// The keys have their lengths and are signed by the verification key.
    pub open spec fn wf(self) -> bool {
        &&& self.verification_key.len() == 32
        &&& self.encryption_key.len() == 32
        &&& self.signature.len() == 64
        &&& spec_ed25519_verifies(
            self.verification_key,
            self.authenticated_data(),
            self.signature,
        )
    }

    /// What the first [`IDENTITY_LEN`] bytes of `bytes` hold, before the
    /// signature is checked.
    pub open spec fn from_bytes(bytes: Seq<u8>) -> IdentityView {
        IdentityView {
            verification_key: bytes.subrange(1, 33),
            encryption_key: bytes.subrange(33, 65),
            signature: bytes.subrange(65, 129),
        }
    }

    /// The identity that `bytes` start with, or why they hold none.
    pub open spec fn parse(bytes: Seq<u8>) -> Result<IdentityView, DeserializationError> {
        if bytes.len() < IDENTITY_LEN {
            Err(DeserializationError::UnexpectedEof)
        } else if bytes[0] != VERSION {
            Err(DeserializationError::UnsupportedVersion)
        } else if !IdentityView::from_bytes(bytes).wf() {
            Err(DeserializationError::InvalidIdentity)
        } else {
            Ok(IdentityView::from_bytes(bytes))
        }
    }
}

/// The public handle of a participant: a verification key for signatures, an
/// encryption key for messages to the participant, and a signature that binds
/// the two. Every value of this type carries a valid signature.
///
/// Identities are ordered as their serializations are, byte by byte.
#[derive(Clone, Copy, Debug, PartialEq, Eq, PartialOrd, Ord, Hash)]
pub struct Identity {
    verification_key: [u8; 32],
    encryption_key: [u8; 32],
    signature: Signature,
}

impl View for Identity {
    type V = IdentityView;

    closed spec fn view(&self) -> IdentityView {
        IdentityView {
            verification_key: self.verification_key@,
            encryption_key: self.encryption_key@,
            signature: self.signature@,
        }
    }
}

/// The encryption keys of a list of identities.
pub open spec fn encryption_keys(identities: Seq<Identity>) -> Seq<Seq<u8>> {
    Seq::new(identities.len(), |i: int| identities[i]@.encryption_key)
}

/// The serializations of a list of identities.
pub open spec fn identity_bytes(identities: Seq<Identity>) -> Seq<Seq<u8>> {
    Seq::new(identities.len(), |i: int| identities[i]@.serialize())
}

impl Identity {
    #[verifier::type_invariant]
    pub open spec fn inv(self) -> bool {
        self@.wf()
    }

    /// Puts an identity together, if `signature` is the verification key's
    /// signature over the version byte and the two keys.
    pub fn new(verification_key: [u8; 32], encryption_key: [u8; 32], signature: Signature) -> (r:
        Result<Identity, SignatureError>)
        ensures
            r is Ok <==> (IdentityView {
                verification_key: verification_key@,
                encryption_key: encryption_key@,
                signature: signature@,
            }).wf(),
            r matches Ok(identity) ==> identity@ == (IdentityView {
                verification_key: verification_key@,
                encryption_key: encryption_key@,
                signature: signature@,
            }),
    {
        let mut data: Vec<u8> = Vec::new();
        data.push(VERSION);
        append(&mut data, &verification_key);
        append(&mut data, &encryption_key);
        assert(data@ =~= seq![VERSION] + verification_key@ + encryption_key@);
        if ed25519_verify(&verification_key, data.as_slice(), &signature.bytes) {
            Ok(Identity { verification_key, encryption_key, signature })
        } else {
            Err(SignatureError {  })
        }
    }

    /// The identity's verification key.
    pub fn verification_key(&self) -> (key: [u8; 32])
        ensures
            key@ == self@.verification_key,
    {
        self.verification_key
    }

    /// The key to encrypt messages for this participant with.
    pub fn encryption_key(&self) -> (key: [u8; 32])
        ensures
            key@ == self@.encryption_key,
    {
        self.encryption_key
    }

    /// Checks that `signature` is this participant's signature of `data`.
    pub fn verify_data(&self, data: &[u8], signature: &Signature) -> (r: Result<(), SignatureError>)
        ensures
            r is Ok <==> spec_ed25519_verifies(self@.verification_key, data@, signature@),
    {
        if ed25519_verify(&self.verification_key, data, &signature.bytes) {
            Ok(())
        } else {
            Err(SignatureError {  })
        }
    }

    /// The identity as [`IDENTITY_LEN`] bytes: version, verification key,
    /// encryption key, signature.
    pub fn serialize(&self) -> (out: [u8; IDENTITY_LEN])
        ensures
            out@ == self@.serialize(),
    {
        let mut data: Vec<u8> = Vec::new();
        data.push(VERSION);
        append(&mut data, &self.verification_key);
        append(&mut data, &self.encryption_key);
        append(&mut data, &self.signature.bytes);
        assert(data@ =~= self@.serialize());
        to_array(data.as_slice())
    }

    /// Reads an identity from the first [`IDENTITY_LEN`] bytes of `bytes` and
    /// checks its signature.
    pub fn deserialize_from(bytes: &[u8]) -> (r: Result<Identity, DeserializationError>)
        ensures
            match r {
                Ok(identity) => IdentityView::parse(bytes@) == Ok::<
                    IdentityView,
                    DeserializationError,
                >(identity@),
                Err(e) => IdentityView::parse(bytes@) == Err::<IdentityView, DeserializationError>(
                    e,
                ),
            },
    {
        if bytes.len() < IDENTITY_LEN {
            return Err(DeserializationError::UnexpectedEof);
        }
        if bytes[0] != VERSION {
            return Err(DeserializationError::UnsupportedVersion);
        }
        let verification_key: [u8; 32] = to_array(&bytes[1..33]);
        let encryption_key: [u8; 32] = to_array(&bytes[33..65]);
        let signature: [u8; 64] = to_array(&bytes[65..129]);
        match Identity::new(verification_key, encryption_key, Signature::from_bytes(&signature)) {
            Ok(identity) => Ok(identity),
            Err(_) => Err(DeserializationError::InvalidIdentity),
        }
    }

    /// The identifier that the threshold-signature primitive knows this
    /// participant by: it is derived from the serialized identity. `None`
    /// for an identity that hashes to zero, which no identifier stands for.
    pub fn to_frost_identifier(&self) -> (identifier: Option<[u8; 32]>)
        ensures
            identifier matches Some(bytes) ==> spec_identifier(self@.serialize()) == Some(bytes@),
            identifier is None ==> spec_identifier(self@.serialize()) is None,
    {
        derive_identifier(&self.serialize())
    }

    /// Whether two identities are the same.
    pub fn same_as(&self, other: &Identity) -> (same: bool)
        ensures
            same == (self@ == other@),
            same == (self@.serialize() == other@.serialize()),
    {
        proof {
            use_type_invariant(self);
            use_type_invariant(other);
            lemma_serialize_injective(self@, other@);
        }
        equal(&self.verification_key, &other.verification_key) && equal(
            &self.encryption_key,
            &other.encryption_key,
        ) && equal(&self.signature.bytes, &other.signature.bytes)
    }
}

/// Identities with the same serialization are the same.
pub proof fn lemma_serialize_injective(a: IdentityView, b: IdentityView)
    requires
        a.wf(),
        b.wf(),
    ensures
        a.serialize() == b.serialize() <==> a == b,
{
    lemma_parse_serialized(a);
    lemma_parse_serialized(b);
}

/// A serialized identity reads back as itself.
pub proof fn lemma_parse_serialized(identity: IdentityView)
    requires
        identity.wf(),
    ensures
        identity.serialize().len() == IDENTITY_LEN,
        IdentityView::parse(identity.serialize()) == Ok::<IdentityView, DeserializationError>(
            identity,
        ),
        forall|rest: Seq<u8>|
            IdentityView::parse(#[trigger] (identity.serialize() + rest)) == Ok::<
                IdentityView,
                DeserializationError,
            >(identity),
{
    let bytes = identity.serialize();
    assert(IdentityView::from_bytes(bytes).verification_key =~= identity.verification_key);
    assert(IdentityView::from_bytes(bytes).encryption_key =~= identity.encryption_key);
    assert(IdentityView::from_bytes(bytes).signature =~= identity.signature);
    assert forall|rest: Seq<u8>|
        IdentityView::parse(#[trigger] (identity.serialize() + rest)) == Ok::<
            IdentityView,
            DeserializationError,
        >(identity) by {
        let long = bytes + rest;
        assert(IdentityView::from_bytes(long).verification_key =~= identity.verification_key);
        assert(IdentityView::from_bytes(long).encryption_key =~= identity.encryption_key);
        assert(IdentityView::from_bytes(long).signature =~= identity.signature);
    }
}

/// The serializations of `identities`, each in a vector of its own.
pub fn serialize_identities(identities: &[Identity]) -> (items: Vec<Vec<u8>>)
    ensures
        views(items@) == identity_bytes(identities@),
        items.len() == identities.len(),
        forall|i: int| 0 <= i < identities.len() ==> (#[trigger] identities[i])@.wf(),
{
    let mut items: Vec<Vec<u8>> = Vec::new();
    let mut i: usize = 0;
    while i < identities.len()
        invariant
            i <= identities.len(),
            items.len() == i,
            forall|j: int| 0 <= j < i ==> (#[trigger] items[j])@ == identities[j]@.serialize(),
            forall|j: int| 0 <= j < i ==> (#[trigger] identities[j])@.wf(),
        decreases identities.len() - i,
    {
        let identity = &identities[i];
        proof {
            use_type_invariant(identity);
        }
        let bytes = identity.serialize();
        items.push(to_vec(&bytes));
        i += 1;
    }
    assert(views(items@) =~= identity_bytes(identities@));
    items
}

/// What a [`Secret`] is made of.
pub struct SecretView {
    pub signing_key: Seq<u8>,
    pub decryption_key: Seq<u8>,
}

impl SecretView {
    /// The verification key that belongs to the secret.
    pub open spec fn verification_key(self) -> Seq<u8> {
        spec_ed25519_verifying_key(self.signing_key)
    }

    /// The public identity of the secret's owner.
    pub open spec fn identity(self) -> IdentityView {
        let verification_key = self.verification_key();
        let encryption_key = spec_x25519_public_key(self.decryption_key);
        IdentityView {
            verification_key,
            encryption_key,
            signature: spec_ed25519_sign(
                self.signing_key,
                seq![VERSION] + verification_key + encryption_key,
            ),
        }
    }
}

/// The private key material of a participant. It signs in the participant's
/// name and decrypts what was encrypted for the participant. It must not be
/// written to storage that others can read.
#[derive(Clone, PartialEq, Eq)]
pub struct Secret {
    signing_key: [u8; 32],
    decryption_key: [u8; 32],
}

impl View for Secret {
    type V = SecretView;

    closed spec fn view(&self) -> SecretView {
        SecretView { signing_key: self.signing_key@, decryption_key: self.decryption_key@ }
    }
}

impl Secret {
    /// The secret made of a signing key and a decryption key. Both must come
    /// from a cryptographically secure source of randomness.
    pub fn new(signing_key: [u8; 32], decryption_key: [u8; 32]) -> (secret: Secret)
        ensures
            secret@ == (SecretView {
                signing_key: signing_key@,
                decryption_key: decryption_key@,
            }),
    {
        Secret { signing_key, decryption_key }
    }

    /// The key that decrypts messages to this participant.
    pub fn decryption_key(&self) -> (key: [u8; 32])
        ensures
            key@ == self@.decryption_key,
    {
        self.decryption_key
    }

    /// The public identity that belongs to this secret.
    pub fn to_identity(&self) -> (identity: Identity)
        ensures
            identity@ == self@.identity(),
    {
        let verification_key = ed25519_verifying_key(&self.signing_key);
        let encryption_key = x25519_public_key(&self.decryption_key);
        let mut data: Vec<u8> = Vec::new();
        data.push(VERSION);
        append(&mut data, &verification_key);
        append(&mut data, &encryption_key);
        assert(data@ =~= seq![VERSION] + verification_key@ + encryption_key@);
        let signature = Signature { bytes: ed25519_sign(&self.signing_key, data.as_slice()) };
        Identity { verification_key, encryption_key, signature }
    }

    /// Signs `data` in the participant's name. The signature is accepted
    /// under the verification key of the participant's identity.
    pub fn sign(&self, data: &[u8]) -> (signature: Signature)
        ensures
            signature@ == spec_ed25519_sign(self@.signing_key, data@),
            spec_ed25519_verifies(self@.verification_key(), data@, signature@),
    {
        Signature { bytes: ed25519_sign(&self.signing_key, data) }
    }
}

} // verus!
