//! Round 1: every participant makes a secret package, which it keeps, and a
//! public package, which it sends to all participants.

use crate::bytes::append;
use crate::bytes::frame;
use crate::bytes::lemma_unframe_framed;
use crate::bytes::read_frame;
use crate::bytes::unframe;
use crate::bytes::write_frame;
use crate::error::DeserializationError;
use crate::bytes::to_vec;
use crate::bytes::views;
use crate::checksum::canonical_indices;
use crate::checksum::canonical_order;
use crate::checksum::checksum;
use crate::checksum::checksum_spec;
use crate::checksum::lemma_canonical_order_is;
use crate::checksum::pick;
use crate::checksum::Checksum;
use crate::dkg::error::Error;
use crate::dkg::error::ErrorKind;
use crate::dkg::error::InvalidInput;
use crate::dkg::group_key::import_spec;
use crate::dkg::group_key::GroupSecretKeyShard;
use crate::frost::keys::dkg::part1;
use crate::frost::keys::dkg::round1_secret_summary;
use crate::frost::keys::dkg::spec_identifier;
use crate::frost::keys::dkg::spec_part1;
use crate::frost::keys::dkg::spec_round1_secret_summary;
use crate::hash::derive_seed;
use crate::hash::derive_seed_spec;
use crate::multienc::decrypt;
use crate::multienc::decrypt_spec;
use crate::multienc::encrypt;
use crate::multienc::encrypt_spec;
use crate::participant::encryption_keys;
use crate::participant::identity_bytes;
use crate::participant::lemma_parse_serialized;
use crate::participant::lemma_serialize_injective;
use crate::participant::spec_x25519_public_key;
use crate::multienc::readable;
use crate::participant::serialize_identities;
use crate::participant::Identity;
use crate::participant::IdentityView;
use crate::participant::Secret;
use vstd::bytes::lemma_auto_spec_u64_to_from_le_bytes;
use vstd::bytes::spec_u16_to_le_bytes;
use vstd::bytes::spec_u64_from_le_bytes;
use vstd::bytes::spec_u64_to_le_bytes;
use vstd::bytes::u16_to_le_bytes;
use vstd::bytes::u64_from_le_bytes;
use vstd::bytes::u64_to_le_bytes;
use vstd::prelude::*;

verus! {

/// The checksum of a round 1 package: that of the least number of signers,
/// in little endian, and the set of participants.
pub open spec fn input_checksum_spec(min_signers: u16, participants: Seq<Seq<u8>>) -> u64 {
    checksum_spec(spec_u16_to_le_bytes(min_signers), participants)
}

/// The checksum of the inputs of round 1.
pub fn input_checksum(min_signers: u16, participants: &[Identity]) -> (digest: Checksum)
    ensures
        digest == input_checksum_spec(min_signers, identity_bytes(participants@)),
{
    let items = serialize_identities(participants);
    let primary = u16_to_le_bytes(min_signers);
    checksum(primary.as_slice(), &items)
}

/// Whether a serialized secret package can be handed to the second part of
/// the primitive's key generation.
pub open spec fn usable_secret(secret_package: Seq<u8>) -> bool {
    spec_round1_secret_summary(secret_package) matches Some((_, max_signers, true)) && max_signers
        >= 1
}

/// What a [`SecretPackage`] is made of.
pub struct SecretPackageView {
    pub bytes: Seq<u8>,
    pub min_signers: u16,
    pub max_signers: u16,
}

impl SecretPackageView {
    /// The bytes are a secret package of the primitive with these signer
    /// counts.
    pub open spec fn wf(self) -> bool {
        spec_round1_secret_summary(self.bytes) == Some((self.min_signers, self.max_signers, true))
            && self.max_signers >= 1
    }
}

/// What a participant keeps between round 1 and round 2: the primitive's
/// secret package, serialized, and its signer counts.
#[derive(PartialEq, Eq)]
pub struct SecretPackage {
    bytes: Vec<u8>,
    min_signers: u16,
    max_signers: u16,
}

impl View for SecretPackage {
    type V = SecretPackageView;

    closed spec fn view(&self) -> SecretPackageView {
        SecretPackageView {
            bytes: self.bytes@,
            min_signers: self.min_signers,
            max_signers: self.max_signers,
        }
    }
}

impl SecretPackage {
    #[verifier::type_invariant]
    pub open spec fn inv(self) -> bool {
        self@.wf()
    }

    /// Reads a secret package from its serialization. Bytes that the
    /// primitive cannot work with are refused.
    pub fn deserialize(bytes: Vec<u8>) -> (r: Option<SecretPackage>)
        ensures
            r is Some <==> usable_secret(bytes@),
            r matches Some(package) ==> package@.bytes == bytes@,
    {
        match round1_secret_summary(bytes.as_slice()) {
            Some((min_signers, max_signers, holds_coefficient)) => {
                if holds_coefficient && max_signers >= 1 {
                    Some(SecretPackage { bytes, min_signers, max_signers })
                } else {
                    None
                }
            },
            None => None,
        }
    }

    /// The serialized secret package.
    pub fn serialize(&self) -> (bytes: &Vec<u8>)
        ensures
            bytes@ == self@.bytes,
    {
        &self.bytes
    }

    /// The least number of signers.
    pub fn min_signers(&self) -> (n: u16)
        ensures
            n == self@.min_signers,
    {
        self.min_signers
    }

    /// The number of signers.
    pub fn max_signers(&self) -> (n: u16)
        ensures
            n == self@.max_signers,
    {
        self.max_signers
    }
}

/// What a round 1 [`PublicPackage`] is made of.
pub struct PublicPackageView {
    pub identity: IdentityView,
    pub frost_package: Seq<u8>,
    pub group_secret_key_shard_encrypted: Seq<u8>,
    pub checksum: u64,
}

impl PublicPackageView {
    /// The sender is a valid identity, and the payloads are of a length that
    /// can be written down.
    pub open spec fn wf(self) -> bool {
        &&& self.identity.wf()
        &&& self.frost_package.len() <= u64::MAX
        &&& self.group_secret_key_shard_encrypted.len() <= u64::MAX
    }

    /// The serialized package: the sender's identity, the primitive's
    /// package and the encrypted shard, each after its length, and the
    /// checksum in little endian.
    pub open spec fn serialize(self) -> Seq<u8> {
        self.identity.serialize() + frame(self.frost_package) + frame(
            self.group_secret_key_shard_encrypted,
        ) + spec_u64_to_le_bytes(self.checksum)
    }

    /// The package that bytes start with, or why they hold none.
    pub open spec fn parse(bytes: Seq<u8>) -> Result<PublicPackageView, DeserializationError> {
        match IdentityView::parse(bytes) {
            Err(e) => Err(e),
            Ok(identity) => match unframe(bytes.skip(129)) {
                None => Err(DeserializationError::UnexpectedEof),
                Some((frost_package, rest)) => match unframe(rest) {
                    None => Err(DeserializationError::UnexpectedEof),
                    Some((group_secret_key_shard_encrypted, rest)) => if rest.len() < 8 {
                        Err(DeserializationError::UnexpectedEof)
                    } else {
                        Ok(
                            PublicPackageView {
                                identity,
                                frost_package,
                                group_secret_key_shard_encrypted,
                                checksum: spec_u64_from_le_bytes(rest.subrange(0, 8)),
                            },
                        )
                    },
                },
            },
        }
    }
}

/// A serialized package reads back as itself, whatever follows it.
pub proof fn lemma_deserialize_serialized(package: PublicPackageView, rest: Seq<u8>)
    requires
        package.wf(),
    ensures
        PublicPackageView::parse(package.serialize() + rest) == Ok::<
            PublicPackageView,
            DeserializationError,
        >(package),
{
    lemma_auto_spec_u64_to_from_le_bytes();
    let identity = package.identity.serialize();
    let frost = frame(package.frost_package);
    let shard = frame(package.group_secret_key_shard_encrypted);
    let checksum = spec_u64_to_le_bytes(package.checksum);
    let bytes = package.serialize() + rest;
    lemma_parse_serialized(package.identity);
    assert(bytes =~= identity + (frost + shard + checksum + rest));
    assert(bytes.skip(129) =~= frost + (shard + checksum + rest));
    lemma_unframe_framed(package.frost_package, shard + checksum + rest);
    assert(shard + checksum + rest =~= shard + (checksum + rest));
    lemma_unframe_framed(package.group_secret_key_shard_encrypted, checksum + rest);
    assert((checksum + rest).subrange(0, 8) =~= checksum);
}

/// What a participant sends to all participants in round 1.
#[derive(Debug, PartialEq, Eq)]
pub struct PublicPackage {
    identity: Identity,
    frost_package: Vec<u8>,
    group_secret_key_shard_encrypted: Vec<u8>,
    checksum: Checksum,
}

impl View for PublicPackage {
    type V = PublicPackageView;

    closed spec fn view(&self) -> PublicPackageView {
        PublicPackageView {
            identity: self.identity@,
            frost_package: self.frost_package@,
            group_secret_key_shard_encrypted: self.group_secret_key_shard_encrypted@,
            checksum: self.checksum,
        }
    }
}

impl Clone for PublicPackage {
    fn clone(&self) -> (copy: PublicPackage)
        ensures
            copy@ == self@,
    {
        proof {
            use_type_invariant(self);
        }
        PublicPackage {
            identity: self.identity,
            frost_package: to_vec(self.frost_package.as_slice()),
            group_secret_key_shard_encrypted: to_vec(
                self.group_secret_key_shard_encrypted.as_slice(),
            ),
            checksum: self.checksum,
        }
    }
}

impl Clone for SecretPackage {
    fn clone(&self) -> (copy: SecretPackage)
        ensures
            copy@ == self@,
    {
        proof {
            use_type_invariant(self);
        }
        SecretPackage {
            bytes: to_vec(self.bytes.as_slice()),
            min_signers: self.min_signers,
            max_signers: self.max_signers,
        }
    }
}

/// The views of a list of packages.
pub open spec fn package_views(packages: Seq<&PublicPackage>) -> Seq<PublicPackageView> {
    Seq::new(packages.len(), |i: int| packages[i]@)
}

/// The serialized identities of the senders of a list of packages.
pub open spec fn sender_bytes(packages: Seq<PublicPackageView>) -> Seq<Seq<u8>> {
    Seq::new(packages.len(), |i: int| packages[i].identity.serialize())
}

/// The encryption keys of the participants in canonical order.
pub open spec fn canonical_encryption_keys(participants: Seq<Seq<u8>>) -> Seq<Seq<u8>> {
    let ordered = canonical_order(participants.to_set());
    Seq::new(ordered.len(), |i: int| ordered[i].subrange(33, 65))
}

/// The package of `identity` for a key generation among `participants` with
/// at least `min_signers` signers: the shard is encrypted for the
/// participants in canonical order.
pub open spec fn public_package_spec(
    identity: IdentityView,
    min_signers: u16,
    participants: Seq<Seq<u8>>,
    frost_package: Seq<u8>,
    shard: Seq<u8>,
    ephemeral_secret: Seq<u8>,
) -> Option<PublicPackageView> {
    match encrypt_spec(shard, canonical_encryption_keys(participants), ephemeral_secret) {
        Some(encrypted) => Some(
            PublicPackageView {
                identity,
                frost_package,
                group_secret_key_shard_encrypted: encrypted,
                checksum: input_checksum_spec(min_signers, participants),
            },
        ),
        None => None,
    }
}

/// The participants without duplicates, in canonical order.
pub fn canonical_participants(participants: &[Identity]) -> (ordered: Vec<Identity>)
    ensures
        identity_bytes(ordered@) == canonical_order(identity_bytes(participants@).to_set()),
        encryption_keys(ordered@) == canonical_encryption_keys(identity_bytes(participants@)),
        forall|i: int|
            0 <= i < participants.len() ==> encryption_keys(ordered@).contains(
                (#[trigger] participants[i])@.encryption_key,
            ),
{
    let items = serialize_identities(participants);
    let order = canonical_indices(&items);
    let ghost sorted = pick(views(items@), order@);
    proof {
        lemma_canonical_order_is(sorted, views(items@).to_set());
    }
    assert(views(items@).len() == items.len());
    assert(identity_bytes(participants@).len() == participants.len());
    let mut ordered: Vec<Identity> = Vec::new();
    let mut k: usize = 0;
    while k < order.len()
        invariant
            k <= order.len(),
            ordered.len() == k,
            items.len() == participants.len(),
            views(items@) == identity_bytes(participants@),
            forall|j: int| 0 <= j < order.len() ==> (#[trigger] order[j]) < items.len(),
            forall|j: int| 0 <= j < k ==> (#[trigger] ordered[j]) == participants[order[j] as int],
            forall|j: int| 0 <= j < k ==> (#[trigger] ordered[j])@.wf(),
        decreases order.len() - k,
    {
        let identity = participants[order[k]];
        proof {
            use_type_invariant(&identity);
        }
        ordered.push(identity);
        k += 1;
    }
    proof {
        assert(views(items@).len() == items.len());
        assert forall|j: int| 0 <= j < ordered.len() implies (#[trigger] ordered[j])@.serialize()
            == sorted[j] by {
            assert(views(items@)[order[j] as int] == identity_bytes(participants@)[order[j] as int]);
        }
        assert(identity_bytes(ordered@) =~= sorted);
        assert forall|j: int| 0 <= j < ordered.len() implies (#[trigger] ordered[j])@.encryption_key
            == sorted[j].subrange(33, 65) by {
            assert(ordered[j]@.serialize().subrange(33, 65) =~= ordered[j]@.encryption_key);
        }
        assert(encryption_keys(ordered@) =~= canonical_encryption_keys(
            identity_bytes(participants@),
        ));
        assert forall|i: int| 0 <= i < participants.len() implies encryption_keys(
            ordered@,
        ).contains((#[trigger] participants[i])@.encryption_key) by {
            let bytes = identity_bytes(participants@)[i];
            assert(identity_bytes(participants@).contains(bytes));
            assert(views(items@).to_set().contains(bytes));
            assert(sorted.contains(bytes));
            let j = choose|j: int| 0 <= j < sorted.len() && sorted[j] == bytes;
            assert(ordered[j]@.serialize() == sorted[j]);
            lemma_serialize_injective(ordered[j]@, participants[i]@);
            assert(encryption_keys(ordered@)[j] == participants[i]@.encryption_key);
        }
    }
    ordered
}

impl PublicPackage {
    #[verifier::type_invariant]
    pub open spec fn inv(self) -> bool {
        self@.wf()
    }

    /// The package of `identity` for a key generation among `participants`:
    /// `frost_package` is the primitive's package, and `shard` is encrypted
    /// for the participants with `ephemeral_secret`, which must be fresh
    /// randomness. `None` where the shard cannot be encrypted.
    pub fn new(
        identity: Identity,
        min_signers: u16,
        participants: &[Identity],
        frost_package: Vec<u8>,
        shard: &GroupSecretKeyShard,
        ephemeral_secret: &[u8; 32],
    ) -> (r: Option<PublicPackage>)
        ensures
            match r {
                Some(package) => public_package_spec(
                    identity@,
                    min_signers,
                    identity_bytes(participants@),
                    frost_package@,
                    shard@,
                    ephemeral_secret@,
                ) == Some(package@),
                None => public_package_spec(
                    identity@,
                    min_signers,
                    identity_bytes(participants@),
                    frost_package@,
                    shard@,
                    ephemeral_secret@,
                ) is None,
            },
            r matches Some(package) ==> readable(
                package@.group_secret_key_shard_encrypted,
                encryption_keys(participants@),
                shard@,
            ),
    {
        proof {
            use_type_invariant(&identity);
        }
        let recipients = canonical_participants(participants);
        assert forall|key: Seq<u8>| encryption_keys(participants@).contains(key) implies encryption_keys(
            recipients@,
        ).contains(key) by {
            let i = choose|i: int|
                0 <= i < encryption_keys(participants@).len() && encryption_keys(
                    participants@,
                )[i] == key;
            assert(participants[i]@.encryption_key == key);
        }
        let checksum = input_checksum(min_signers, participants);
        match shard.export(recipients.as_slice(), ephemeral_secret) {
            Some(encrypted) => Some(
                PublicPackage::from_parts(identity, frost_package, encrypted, checksum),
            ),
            None => None,
        }
    }

    /// The package with these parts.
    pub fn from_parts(
        identity: Identity,
        frost_package: Vec<u8>,
        group_secret_key_shard_encrypted: Vec<u8>,
        checksum: Checksum,
    ) -> (package: PublicPackage)
        ensures
            package@ == (PublicPackageView {
                identity: identity@,
                frost_package: frost_package@,
                group_secret_key_shard_encrypted: group_secret_key_shard_encrypted@,
                checksum,
            }),
    {
        proof {
            use_type_invariant(&identity);
        }
        let frost_len: usize = frost_package.len();
        let shard_len: usize = group_secret_key_shard_encrypted.len();
        assert(frost_len <= u64::MAX && shard_len <= u64::MAX);
        PublicPackage { identity, frost_package, group_secret_key_shard_encrypted, checksum }
    }

    /// The sender.
    pub fn identity(&self) -> (identity: &Identity)
        ensures
            identity@ == self@.identity,
    {
        &self.identity
    }

    /// The primitive's package, serialized.
    pub fn frost_package(&self) -> (frost_package: &Vec<u8>)
        ensures
            frost_package@ == self@.frost_package,
    {
        &self.frost_package
    }

    /// The sender's shard of the group's secret key, encrypted for the
    /// participants.
    pub fn group_secret_key_shard_encrypted(&self) -> (encrypted: &Vec<u8>)
        ensures
            encrypted@ == self@.group_secret_key_shard_encrypted,
    {
        &self.group_secret_key_shard_encrypted
    }

    /// The checksum of the inputs that the sender made the package from.
    pub fn checksum(&self) -> (checksum: Checksum)
        ensures
            checksum == self@.checksum,
    {
        self.checksum
    }

    /// Decrypts the sender's shard of the group's secret key.
    pub fn group_secret_key_shard(&self, secret: &Secret) -> (r: Result<
        GroupSecretKeyShard,
        Error,
    >)
        ensures
            match r {
                Ok(shard) => import_spec(
                    secret@.decryption_key,
                    self@.group_secret_key_shard_encrypted,
                ) == Some(shard@),
                Err(e) => e == Error::DecryptionError && import_spec(
                    secret@.decryption_key,
                    self@.group_secret_key_shard_encrypted,
                ) is None,
            },
    {
        match GroupSecretKeyShard::import(secret, self.group_secret_key_shard_encrypted.as_slice()) {
            Some(shard) => Ok(shard),
            None => Err(Error::DecryptionError),
        }
    }

    /// The serialized package.
    pub fn serialize(&self) -> (bytes: Vec<u8>)
        ensures
            bytes@ == self@.serialize(),
    {
        proof {
            use_type_invariant(self);
        }
        let mut bytes: Vec<u8> = Vec::new();
        append(&mut bytes, &self.identity.serialize());
        write_frame(&mut bytes, self.frost_package.as_slice());
        write_frame(&mut bytes, self.group_secret_key_shard_encrypted.as_slice());
        let checksum = u64_to_le_bytes(self.checksum);
        append(&mut bytes, checksum.as_slice());
        assert(bytes@ =~= self@.serialize());
        bytes
    }

    /// Reads a package from the bytes that its serialization starts with.
    /// The identity's signature is checked; the primitive's package is not
    /// looked into.
    pub fn deserialize_from(bytes: &[u8]) -> (r: Result<PublicPackage, DeserializationError>)
        ensures
            match r {
                Ok(package) => PublicPackageView::parse(bytes@) == Ok::<
                    PublicPackageView,
                    DeserializationError,
                >(package@),
                Err(e) => PublicPackageView::parse(bytes@) == Err::<
                    PublicPackageView,
                    DeserializationError,
                >(e),
            },
    {
        let identity = match Identity::deserialize_from(bytes) {
            Ok(identity) => identity,
            Err(e) => {
                return Err(e);
            },
        };
        proof {
            use_type_invariant(&identity);
        }
        let (frost_package, pos) = match read_frame(bytes, 129) {
            Some(read) => read,
            None => {
                return Err(DeserializationError::UnexpectedEof);
            },
        };
        let (group_secret_key_shard_encrypted, pos) = match read_frame(bytes, pos) {
            Some(read) => read,
            None => {
                return Err(DeserializationError::UnexpectedEof);
            },
        };
        if bytes.len() - pos < 8 {
            return Err(DeserializationError::UnexpectedEof);
        }
        assert(bytes@.skip(pos as int).subrange(0, 8) == bytes@.subrange(pos as int, pos + 8));
        let checksum = u64_from_le_bytes(&bytes[pos..pos + 8]);
        Ok(
            PublicPackage::from_parts(
                identity,
                frost_package,
                group_secret_key_shard_encrypted,
                checksum,
            ),
        )
    }
}

/// Encrypts a secret package for its owner.
pub fn export_secret_package(
    secret_package: &SecretPackage,
    identity: &Identity,
    ephemeral_secret: &[u8; 32],
) -> (r: Option<Vec<u8>>)
    ensures
        match r {
            Some(blob) => encrypt_spec(
                secret_package@.bytes,
                seq![identity@.encryption_key],
                ephemeral_secret@,
            ) == Some(blob@),
            None => encrypt_spec(
                secret_package@.bytes,
                seq![identity@.encryption_key],
                ephemeral_secret@,
            ) is None,
        },
        r matches Some(blob) ==> readable_by(blob@, identity@, secret_package@.bytes),
{
    let recipients = [*identity];
    assert(encryption_keys(recipients@) =~= seq![identity@.encryption_key]);
    assert(encryption_keys(recipients@)[0] == identity@.encryption_key);
    encrypt(secret_package.bytes.as_slice(), &recipients, ephemeral_secret)
}

/// Whether the owner of `identity` reads `data` from a blob.
pub open spec fn readable_by(blob: Seq<u8>, identity: IdentityView, data: Seq<u8>) -> bool {
    forall|decryption_key: Seq<u8>|
        identity.encryption_key == #[trigger] spec_x25519_public_key(decryption_key)
            ==> decrypt_spec(decryption_key, blob) == Some(data)
}

/// The secret package that the owner of `decryption_key` reads from a blob.
pub open spec fn import_secret_package_spec(exported: Seq<u8>, decryption_key: Seq<u8>) -> Result<
    Seq<u8>,
    ErrorKind,
> {
    match decrypt_spec(decryption_key, exported) {
        None => Err(ErrorKind::DecryptionError),
        Some(bytes) => if usable_secret(bytes) {
            Ok(bytes)
        } else {
            Err(ErrorKind::InvalidInput(InvalidInput::UnusableSecretPackage))
        },
    }
}

/// Decrypts the secret package that round 1 returned to the owner of
/// `secret`.
pub fn import_secret_package(exported: &[u8], secret: &Secret) -> (r: Result<SecretPackage, Error>)
    ensures
        match r {
            Ok(package) => import_secret_package_spec(exported@, secret@.decryption_key) == Ok::<
                Seq<u8>,
                ErrorKind,
            >(package@.bytes),
            Err(e) => import_secret_package_spec(exported@, secret@.decryption_key) == Err::<
                Seq<u8>,
                ErrorKind,
            >(e@),
        },
{
    match decrypt(secret, exported) {
        None => Err(Error::DecryptionError),
        Some(bytes) => match SecretPackage::deserialize(bytes) {
            Some(package) => Ok(package),
            None => Err(Error::InvalidInput(InvalidInput::UnusableSecretPackage)),
        },
    }
}

/// The purposes for which round 1 derives seeds from the seed it is given.
pub const SEED_PART1: u8 = 0;

pub const SEED_SECRET_PACKAGE: u8 = 1;

pub const SEED_SHARD: u8 = 2;

pub const SEED_SHARD_ENCRYPTION: u8 = 3;

/// What round 1 returns: the encrypted secret package and the public
/// package, or why there are none.
pub open spec fn round1_spec(
    self_identity: IdentityView,
    min_signers: u16,
    participants: Seq<Seq<u8>>,
    seed: Seq<u8>,
) -> Result<(Seq<u8>, PublicPackageView), ErrorKind> {
    let signers = canonical_order(participants.to_set());
    if !participants.contains(self_identity.serialize()) {
        Err(ErrorKind::InvalidInput(InvalidInput::MissingSelfIdentity))
    } else if signers.len() > u16::MAX {
        Err(ErrorKind::InvalidInput(InvalidInput::TooManyParticipants))
    } else {
        match spec_identifier(self_identity.serialize()) {
            None => Err(ErrorKind::InvalidInput(InvalidInput::UnusableIdentity)),
            Some(identifier) => match spec_part1(
                identifier,
                signers.len() as u16,
                min_signers,
                derive_seed_spec(seed, SEED_PART1),
            ) {
                None => Err(ErrorKind::FrostError),
                Some((secret_package, frost_package)) => if !usable_secret(secret_package) {
                    Err(ErrorKind::InvalidInput(InvalidInput::UnusableSecretPackage))
                } else {
                    match (
                        encrypt_spec(
                            secret_package,
                            seq![self_identity.encryption_key],
                            derive_seed_spec(seed, SEED_SECRET_PACKAGE),
                        ),
                        public_package_spec(
                            self_identity,
                            min_signers,
                            participants,
                            frost_package,
                            derive_seed_spec(seed, SEED_SHARD),
                            derive_seed_spec(seed, SEED_SHARD_ENCRYPTION),
                        ),
                    ) {
                        (Some(encrypted_secret_package), Some(public_package)) => Ok(
                            (encrypted_secret_package, public_package),
                        ),
                        _ => Err(ErrorKind::EncryptionError),
                    }
                },
            },
        }
    }
}

/// Whether `identity` is among `participants`.
fn includes(participants: &[Identity], identity: &Identity) -> (found: bool)
    ensures
        found == identity_bytes(participants@).contains(identity@.serialize()),
        found ==> encryption_keys(participants@).contains(identity@.encryption_key),
{
    let mut i: usize = 0;
    while i < participants.len()
        invariant
            i <= participants.len(),
            forall|j: int| 0 <= j < i ==> identity_bytes(participants@)[j] != identity@.serialize(),
        decreases participants.len() - i,
    {
        if participants[i].same_as(identity) {
            assert(identity_bytes(participants@)[i as int] == identity@.serialize());
            assert(encryption_keys(participants@)[i as int] == identity@.encryption_key);
            return true;
        }
        i += 1;
    }
    false
}

/// Round 1 of the key generation for the participant `self_identity`, among
/// `participants` of whom `min_signers` shall be able to sign. The order in
/// which the participants are listed, and how often, does not matter.
///
/// All randomness is derived from `seed`, which must be fresh and come from
/// a cryptographically secure source.
///
/// Returns the secret package, encrypted for the participant itself, and the
/// public package for all participants.
pub fn round1(
    self_identity: &Identity,
    min_signers: u16,
    participants: &[Identity],
    seed: &[u8; 32],
) -> (r: Result<(Vec<u8>, PublicPackage), Error>)
    ensures
        match r {
            Ok((encrypted_secret_package, public_package)) => round1_spec(
                self_identity@,
                min_signers,
                identity_bytes(participants@),
                seed@,
            ) matches Ok(expected) && expected == (encrypted_secret_package@, public_package@),
            Err(e) => round1_spec(
                self_identity@,
                min_signers,
                identity_bytes(participants@),
                seed@,
            ) matches Err(expected) && expected == e@,
        },
        r matches Ok(made) ==> readable(
            made.1@.group_secret_key_shard_encrypted,
            encryption_keys(participants@),
            derive_seed_spec(seed@, SEED_SHARD),
        ),
        r matches Ok(made) ==> readable_by(
            made.1@.group_secret_key_shard_encrypted,
            self_identity@,
            derive_seed_spec(seed@, SEED_SHARD),
        ),
        r matches Ok(made) ==> derive_seed_spec(seed@, SEED_SHARD).len() == 32,
        r matches Ok(made) ==> exists|secret_package: Seq<u8>|
            usable_secret(secret_package) && #[trigger] readable_by(
                made.0@,
                self_identity@,
                secret_package,
            ),
{
    if !includes(participants, self_identity) {
        return Err(Error::InvalidInput(InvalidInput::MissingSelfIdentity));
    }
    let signers = canonical_participants(participants);
    assert(identity_bytes(signers@).len() == signers.len());
    if signers.len() > 0xffff {
        return Err(Error::InvalidInput(InvalidInput::TooManyParticipants));
    }
    let max_signers = signers.len() as u16;
    let identifier = match self_identity.to_frost_identifier() {
        Some(identifier) => identifier,
        None => {
            return Err(Error::InvalidInput(InvalidInput::UnusableIdentity));
        },
    };
    let (secret_package, frost_package) = match part1(
        &identifier,
        max_signers,
        min_signers,
        &derive_seed(seed, SEED_PART1),
    ) {
        Ok(packages) => packages,
        Err(e) => {
            return Err(Error::FrostError(e));
        },
    };
    let secret_package = match SecretPackage::deserialize(secret_package) {
        Some(secret_package) => secret_package,
        None => {
            return Err(Error::InvalidInput(InvalidInput::UnusableSecretPackage));
        },
    };
    let encrypted_secret_package = export_secret_package(
        &secret_package,
        self_identity,
        &derive_seed(seed, SEED_SECRET_PACKAGE),
    );
    let shard = GroupSecretKeyShard::new(derive_seed(seed, SEED_SHARD));
    let public_package = PublicPackage::new(
        *self_identity,
        min_signers,
        participants,
        frost_package,
        &shard,
        &derive_seed(seed, SEED_SHARD_ENCRYPTION),
    );
    proof {
        use_type_invariant(&secret_package);
    }
    match (encrypted_secret_package, public_package) {
        (Some(encrypted_secret_package), Some(public_package)) => {
            assert(readable_by(encrypted_secret_package@, self_identity@, secret_package@.bytes));
            Ok((encrypted_secret_package, public_package))
        },
        _ => Err(Error::EncryptionError),
    }
}

} // verus!
