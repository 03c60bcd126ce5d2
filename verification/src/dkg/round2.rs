//! Round 2: every participant checks the public packages of round 1 and
//! makes one package for each other participant.

use crate::bytes::append;
use crate::bytes::frame;
use crate::bytes::lemma_unframe_framed;
use crate::bytes::read_frame;
use crate::bytes::to_vec;
use crate::bytes::unframe;
use crate::bytes::write_frame;
use crate::error::DeserializationError;
use crate::participant::lemma_parse_serialized;
use crate::dkg::round1::readable_by;
use crate::bytes::views;
use crate::checksum::checksum;
use crate::checksum::checksum_spec;
use crate::checksum::Checksum;
use crate::dkg::error::Error;
use crate::dkg::error::ErrorKind;
use crate::dkg::error::InvalidInput;
use crate::dkg::round1;
use crate::dkg::utils::build_round1_frost_packages;
use crate::dkg::utils::build_round1_spec;
use crate::dkg::utils::find_sender;
use crate::dkg::utils::lemma_lookup;
use crate::dkg::utils::lemma_lookup_found;
use crate::dkg::utils::round1_prefix;
use crate::frost::keys::dkg::one_for_each;
use crate::dkg::utils::lemma_round1_prefix_len;
use crate::dkg::utils::lemma_round1_prefix_senders;
use crate::dkg::utils::lookup;
use crate::frost::keys::dkg::spec_round1_packages;
use crate::dkg::utils::sender_views;
use crate::dkg::utils::senders_spec;
use crate::dkg::utils::SenderView;
use crate::frost::keys::dkg::entries_view;
use crate::frost::keys::dkg::part2;
use crate::frost::keys::dkg::round2_secret_signers;
use crate::frost::keys::dkg::spec_identifier;
use crate::frost::keys::dkg::spec_part2;
use crate::frost::keys::dkg::spec_round2_secret_signers;
use crate::hash::derive_seed;
use crate::hash::derive_seed_spec;
use crate::multienc::decrypt;
use crate::multienc::decrypt_spec;
use crate::multienc::encrypt;
use crate::multienc::encrypt_spec;
use crate::participant::encryption_keys;
use crate::participant::Identity;
use crate::participant::IdentityView;
use crate::participant::Secret;
use vstd::bytes::lemma_auto_spec_u64_to_from_le_bytes;
use vstd::bytes::spec_u64_from_le_bytes;
use vstd::bytes::spec_u64_to_le_bytes;
use vstd::bytes::u64_from_le_bytes;
use vstd::bytes::u64_to_le_bytes;
use vstd::prelude::*;

verus! {

/// Whether a serialized secret package can be handed to the third part of
/// the primitive's key generation.
pub open spec fn usable_secret(secret_package: Seq<u8>) -> bool {
    spec_round2_secret_signers(secret_package) matches Some((_, max_signers)) && max_signers >= 1
}

/// What a [`SecretPackage`] is made of.
pub struct SecretPackageView {
    pub bytes: Seq<u8>,
    pub min_signers: u16,
    pub max_signers: u16,
}

impl SecretPackageView {
    /// The bytes are a secret package of the primitive with these signer
    /// counts.
    pub open spec fn wf(self) -> bool {
        spec_round2_secret_signers(self.bytes) == Some((self.min_signers, self.max_signers))
            && self.max_signers >= 1
    }
}

/// What a participant keeps between round 2 and round 3: the primitive's
/// secret package, serialized, and its signer counts.
#[derive(PartialEq, Eq)]
pub struct SecretPackage {
    bytes: Vec<u8>,
    min_signers: u16,
    max_signers: u16,
}

impl View for SecretPackage {
    type V = SecretPackageView;

    closed spec fn view(&self) -> SecretPackageView {
        SecretPackageView {
            bytes: self.bytes@,
            min_signers: self.min_signers,
            max_signers: self.max_signers,
        }
    }
}

impl Clone for SecretPackage {
    fn clone(&self) -> (copy: SecretPackage)
        ensures
            copy@ == self@,
    {
        proof {
            use_type_invariant(self);
        }
        SecretPackage {
            bytes: to_vec(self.bytes.as_slice()),
            min_signers: self.min_signers,
            max_signers: self.max_signers,
        }
    }
}

impl SecretPackage {
    #[verifier::type_invariant]
    pub open spec fn inv(self) -> bool {
        self@.wf()
    }

    /// Reads a secret package from its serialization. Bytes that the
    /// primitive cannot work with are refused.
    pub fn deserialize(bytes: Vec<u8>) -> (r: Option<SecretPackage>)
        ensures
            r is Some <==> usable_secret(bytes@),
            r matches Some(package) ==> package@.bytes == bytes@,
    {
        match round2_secret_signers(bytes.as_slice()) {
            Some((min_signers, max_signers)) => {
                if max_signers >= 1 {
                    Some(SecretPackage { bytes, min_signers, max_signers })
                } else {
                    None
                }
            },
            None => None,
        }
    }

    /// The serialized secret package.
    pub fn serialize(&self) -> (bytes: &Vec<u8>)
        ensures
            bytes@ == self@.bytes,
    {
        &self.bytes
    }
}

/// The least number of signers and the number of signers of the key
/// generation that a secret package belongs to.
pub fn get_secret_package_signers(secret_package: &SecretPackage) -> (signers: (u16, u16))
    ensures
        signers == (secret_package@.min_signers, secret_package@.max_signers),
        secret_package@.wf(),
{
    proof {
        use_type_invariant(secret_package);
    }
    (secret_package.min_signers, secret_package.max_signers)
}

/// What a round 2 [`PublicPackage`] is made of.
pub struct PublicPackageView {
    pub sender_identity: IdentityView,
    pub recipient_identity: IdentityView,
    pub frost_package: Seq<u8>,
    pub checksum: u64,
}

impl PublicPackageView {
    /// The sender and the recipient are valid identities, and the payload is
    /// of a length that can be written down.
    pub open spec fn wf(self) -> bool {
        &&& self.sender_identity.wf()
        &&& self.recipient_identity.wf()
        &&& self.frost_package.len() <= u64::MAX
    }

    /// The serialized package: the sender's identity, the recipient's
    /// identity, the primitive's package after its length, and the checksum
    /// in little endian.
    pub open spec fn serialize(self) -> Seq<u8> {
        self.sender_identity.serialize() + self.recipient_identity.serialize() + frame(
            self.frost_package,
        ) + spec_u64_to_le_bytes(self.checksum)
    }

    /// The package that bytes start with, or why they hold none.
    pub open spec fn parse(bytes: Seq<u8>) -> Result<PublicPackageView, DeserializationError> {
        match IdentityView::parse(bytes) {
            Err(e) => Err(e),
            Ok(sender_identity) => match IdentityView::parse(bytes.skip(129)) {
                Err(e) => Err(e),
                Ok(recipient_identity) => match unframe(bytes.skip(258)) {
                    None => Err(DeserializationError::UnexpectedEof),
                    Some((frost_package, rest)) => if rest.len() < 8 {
                        Err(DeserializationError::UnexpectedEof)
                    } else {
                        Ok(
                            PublicPackageView {
                                sender_identity,
                                recipient_identity,
                                frost_package,
                                checksum: spec_u64_from_le_bytes(rest.subrange(0, 8)),
                            },
                        )
                    },
                },
            },
        }
    }
}

/// A serialized package reads back as itself, whatever follows it.
pub proof fn lemma_deserialize_serialized(package: PublicPackageView, rest: Seq<u8>)
    requires
        package.wf(),
    ensures
        PublicPackageView::parse(package.serialize() + rest) == Ok::<
            PublicPackageView,
            DeserializationError,
        >(package),
{
    lemma_auto_spec_u64_to_from_le_bytes();
    let sender = package.sender_identity.serialize();
    let recipient = package.recipient_identity.serialize();
    let frost = frame(package.frost_package);
    let checksum = spec_u64_to_le_bytes(package.checksum);
    let bytes = package.serialize() + rest;
    lemma_parse_serialized(package.sender_identity);
    lemma_parse_serialized(package.recipient_identity);
    assert(bytes =~= sender + (recipient + frost + checksum + rest));
    assert(bytes.skip(129) =~= recipient + (frost + checksum + rest));
    assert(bytes.skip(258) =~= frost + (checksum + rest));
    lemma_unframe_framed(package.frost_package, checksum + rest);
    assert((checksum + rest).subrange(0, 8) =~= checksum);
}

/// What a participant sends to one other participant in round 2. The
/// payload is the recipient's share of the sender's secret: it must travel
/// on a confidential channel.
#[derive(Clone, Debug, PartialEq, Eq)]
pub struct PublicPackage {
    sender_identity: Identity,
    recipient_identity: Identity,
    frost_package: Vec<u8>,
    checksum: Checksum,
}

impl View for PublicPackage {
    type V = PublicPackageView;

    closed spec fn view(&self) -> PublicPackageView {
        PublicPackageView {
            sender_identity: self.sender_identity@,
            recipient_identity: self.recipient_identity@,
            frost_package: self.frost_package@,
            checksum: self.checksum,
        }
    }
}

/// The views of a list of packages.
pub open spec fn package_views(packages: Seq<&PublicPackage>) -> Seq<PublicPackageView> {
    Seq::new(packages.len(), |i: int| packages[i]@)
}

/// The views of a list of packages.
pub open spec fn owned_package_views(packages: Seq<PublicPackage>) -> Seq<PublicPackageView> {
    Seq::new(packages.len(), |i: int| packages[i]@)
}

impl PublicPackage {
    /// The package that carries `frost_package` from `sender_identity` to
    /// `recipient_identity`.
    pub fn new(
        sender_identity: Identity,
        recipient_identity: Identity,
        frost_package: Vec<u8>,
        checksum: Checksum,
    ) -> (package: PublicPackage)
        ensures
            package@ == (PublicPackageView {
                sender_identity: sender_identity@,
                recipient_identity: recipient_identity@,
                frost_package: frost_package@,
                checksum,
            }),
    {
        PublicPackage { sender_identity, recipient_identity, frost_package, checksum }
    }

    /// The sender.
    pub fn sender_identity(&self) -> (identity: &Identity)
        ensures
            identity@ == self@.sender_identity,
    {
        &self.sender_identity
    }

    /// The participant that the package is for.
    pub fn recipient_identity(&self) -> (identity: &Identity)
        ensures
            identity@ == self@.recipient_identity,
    {
        &self.recipient_identity
    }

    /// The primitive's package, serialized.
    pub fn frost_package(&self) -> (frost_package: &Vec<u8>)
        ensures
            frost_package@ == self@.frost_package,
    {
        &self.frost_package
    }

    /// The checksum of the round 1 packages that the sender made the package
    /// from.
    pub fn checksum(&self) -> (checksum: Checksum)
        ensures
            checksum == self@.checksum,
    {
        self.checksum
    }

    /// The serialized package.
    pub fn serialize(&self) -> (bytes: Vec<u8>)
        ensures
            bytes@ == self@.serialize(),
    {
        let mut bytes: Vec<u8> = Vec::new();
        append(&mut bytes, &self.sender_identity.serialize());
        append(&mut bytes, &self.recipient_identity.serialize());
        write_frame(&mut bytes, self.frost_package.as_slice());
        let checksum = u64_to_le_bytes(self.checksum);
        append(&mut bytes, checksum.as_slice());
        assert(bytes@ =~= self@.serialize());
        bytes
    }

    /// Reads a package from the bytes that its serialization starts with.
    /// The signatures of the two identities are checked; the primitive's
    /// package is not looked into.
    pub fn deserialize_from(bytes: &[u8]) -> (r: Result<PublicPackage, DeserializationError>)
        ensures
            match r {
                Ok(package) => PublicPackageView::parse(bytes@) == Ok::<
                    PublicPackageView,
                    DeserializationError,
                >(package@) && package@.wf(),
                Err(e) => PublicPackageView::parse(bytes@) == Err::<
                    PublicPackageView,
                    DeserializationError,
                >(e),
            },
    {
        let sender_identity = match Identity::deserialize_from(bytes) {
            Ok(identity) => identity,
            Err(e) => {
                return Err(e);
            },
        };
        assert(bytes@.skip(129) == bytes@.subrange(129, bytes@.len() as int));
        let recipient_identity = match Identity::deserialize_from(&bytes[129..bytes.len()]) {
            Ok(identity) => identity,
            Err(e) => {
                return Err(e);
            },
        };
        proof {
            use_type_invariant(&sender_identity);
            use_type_invariant(&recipient_identity);
        }
        let (frost_package, pos) = match read_frame(bytes, 258) {
            Some(read) => read,
            None => {
                return Err(DeserializationError::UnexpectedEof);
            },
        };
        if bytes.len() - pos < 8 {
            return Err(DeserializationError::UnexpectedEof);
        }
        assert(bytes@.skip(pos as int).subrange(0, 8) == bytes@.subrange(pos as int, pos + 8));
        let checksum = u64_from_le_bytes(&bytes[pos..pos + 8]);
        Ok(PublicPackage { sender_identity, recipient_identity, frost_package, checksum })
    }
}

/// The serializations of a list of round 1 packages.
pub open spec fn serialized(packages: Seq<round1::PublicPackageView>) -> Seq<Seq<u8>> {
    Seq::new(packages.len(), |i: int| packages[i].serialize())
}

/// The checksum of a round 2 package: that of the set of round 1 packages
/// that it was made from.
pub open spec fn input_checksum_spec(packages: Seq<round1::PublicPackageView>) -> u64 {
    checksum_spec(Seq::empty(), serialized(packages))
}

/// The checksum of the inputs of round 2. It does not depend on the order
/// of the packages.
pub fn input_checksum(round1_public_packages: &[&round1::PublicPackage]) -> (digest: Checksum)
    ensures
        digest == input_checksum_spec(round1::package_views(round1_public_packages@)),
{
    let mut items: Vec<Vec<u8>> = Vec::new();
    let mut i: usize = 0;
    while i < round1_public_packages.len()
        invariant
            i <= round1_public_packages.len(),
            items.len() == i,
            forall|j: int|
                0 <= j < i ==> (#[trigger] items[j])@ == round1_public_packages[j]@.serialize(),
        decreases round1_public_packages.len() - i,
    {
        items.push(round1_public_packages[i].serialize());
        i += 1;
    }
    assert(views(items@) =~= serialized(round1::package_views(round1_public_packages@)));
    let primary: Vec<u8> = Vec::new();
    assert(primary@ =~= Seq::empty());
    checksum(primary.as_slice(), &items)
}

/// Encrypts a secret package for its owner.
pub fn export_secret_package(
    secret_package: &SecretPackage,
    identity: &Identity,
    ephemeral_secret: &[u8; 32],
) -> (r: Option<Vec<u8>>)
    ensures
        match r {
            Some(blob) => encrypt_spec(
                secret_package@.bytes,
                seq![identity@.encryption_key],
                ephemeral_secret@,
            ) == Some(blob@),
            None => encrypt_spec(
                secret_package@.bytes,
                seq![identity@.encryption_key],
                ephemeral_secret@,
            ) is None,
        },
        r matches Some(blob) ==> readable_by(blob@, identity@, secret_package@.bytes),
{
    let recipients = [*identity];
    assert(encryption_keys(recipients@) =~= seq![identity@.encryption_key]);
    assert(encryption_keys(recipients@)[0] == identity@.encryption_key);
    encrypt(secret_package.bytes.as_slice(), &recipients, ephemeral_secret)
}

/// The secret package that the owner of `decryption_key` reads from a blob.
pub open spec fn import_secret_package_spec(exported: Seq<u8>, decryption_key: Seq<u8>) -> Result<
    Seq<u8>,
    ErrorKind,
> {
    match decrypt_spec(decryption_key, exported) {
        None => Err(ErrorKind::DecryptionError),
        Some(bytes) => if usable_secret(bytes) {
            Ok(bytes)
        } else {
            Err(ErrorKind::InvalidInput(InvalidInput::UnusableSecretPackage))
        },
    }
}

/// Decrypts the secret package that round 2 returned to the owner of
/// `secret`.
pub fn import_secret_package(exported: &[u8], secret: &Secret) -> (r: Result<SecretPackage, Error>)
    ensures
        match r {
            Ok(package) => import_secret_package_spec(exported@, secret@.decryption_key) == Ok::<
                Seq<u8>,
                ErrorKind,
            >(package@.bytes),
            Err(e) => import_secret_package_spec(exported@, secret@.decryption_key) == Err::<
                Seq<u8>,
                ErrorKind,
            >(e@),
        },
{
    match decrypt(secret, exported) {
        None => Err(Error::DecryptionError),
        Some(bytes) => match SecretPackage::deserialize(bytes) {
            Some(package) => Ok(package),
            None => Err(Error::InvalidInput(InvalidInput::UnusableSecretPackage)),
        },
    }
}

/// The purpose for which round 2 derives a seed from the seed it is given.
pub const SEED_SECRET_PACKAGE: u8 = 0;

/// The public packages that carry the primitive's packages to their
/// recipients: each recipient is the sender of the round 1 package with the
/// package's identifier.
pub open spec fn outgoing(
    entries: Seq<(Seq<u8>, Seq<u8>)>,
    senders: Seq<SenderView>,
    self_identity: IdentityView,
    checksum: u64,
) -> Seq<PublicPackageView> {
    Seq::new(
        entries.len(),
        |i: int|
            PublicPackageView {
                sender_identity: self_identity,
                recipient_identity: lookup(senders, entries[i].0)->Some_0,
                frost_package: entries[i].1,
                checksum,
            },
    )
}

/// Round 2 addresses one package to each participant but the caller: where
/// the primitive returns one package for each round 1 package that it is
/// handed, there are as many public packages as other participants, each for
/// the sender of a round 1 package, none for the caller and no two for one
/// recipient.
pub proof fn lemma_outgoing_recipients(
    entries: Seq<(Seq<u8>, Seq<u8>)>,
    round1_public_packages: Seq<round1::PublicPackageView>,
    expected_checksum: u64,
    self_identity: IdentityView,
    checksum: u64,
)
    requires
        round1_prefix(
            round1_public_packages,
            expected_checksum,
            round1_public_packages.len() as int,
        ) matches Ok(accepted) && spec_identifier(self_identity.serialize()) matches Some(own)
            && accepted.contains_key(own) && one_for_each(entries, accepted.remove(own)),
    ensures
        ({
            let packages = outgoing(
                entries,
                senders_spec(round1_public_packages),
                self_identity,
                checksum,
            );
            &&& packages.len() == round1_public_packages.len() - 1
            &&& forall|i: int|
                0 <= i < packages.len() ==> (#[trigger] packages[i]).recipient_identity
                    != self_identity && exists|j: int|
                    0 <= j < round1_public_packages.len() && (
                    #[trigger] round1_public_packages[j]).identity
                        == packages[i].recipient_identity
            &&& forall|i: int, k: int|
                0 <= i < k < packages.len() ==> (#[trigger] packages[i]).recipient_identity != (
                #[trigger] packages[k]).recipient_identity
        }),
{
    let n = round1_public_packages.len() as int;
    let accepted = round1_prefix(round1_public_packages, expected_checksum, n)->Ok_0;
    let own = spec_identifier(self_identity.serialize())->Some_0;
    let others = accepted.remove(own);
    let senders = senders_spec(round1_public_packages);
    let packages = outgoing(entries, senders, self_identity, checksum);
    lemma_round1_prefix_senders(round1_public_packages, expected_checksum, n);
    lemma_round1_prefix_len(round1_public_packages, expected_checksum, n);
    assert(others.dom() =~= accepted.dom().remove(own));
    let recipients = Seq::new(entries.len(), |i: int| entries[i].0);
    assert(recipients.no_duplicates()) by {
        assert forall|i: int, j: int|
            0 <= i < recipients.len() && 0 <= j < recipients.len() && i != j implies recipients[i]
            != recipients[j] by {
            if i < j {
                assert(entries[i].0 != entries[j].0);
            } else {
                assert(entries[j].0 != entries[i].0);
            }
        }
    }
    assert(recipients.to_set() =~= others.dom()) by {
        assert forall|key: Seq<u8>| recipients.to_set().contains(key) <==> others.dom().contains(
            key,
        ) by {
            if recipients.contains(key) {
                let i = choose|i: int| 0 <= i < recipients.len() && recipients[i] == key;
                assert(others.contains_key(entries[i].0));
            }
            if others.contains_key(key) {
                let i = choose|i: int| 0 <= i < entries.len() && (#[trigger] entries[i]).0 == key;
                assert(recipients[i] == key);
            }
        }
    }
    recipients.unique_seq_to_set();
    assert forall|i: int| 0 <= i < packages.len() implies lookup(
        senders,
        (#[trigger] entries[i]).0,
    ) is Some by {
        let key = entries[i].0;
        assert(others.contains_key(key));
        assert(accepted.contains_key(key));
        let j = choose|j: int|
            0 <= j < n && spec_identifier((#[trigger] round1_public_packages[j]).identity.serialize())
                == Some(key);
        assert(senders[j].identifier == key);
        lemma_lookup(senders, key);
    }
    assert forall|i: int| 0 <= i < packages.len() implies (#[trigger] packages[i]).recipient_identity
        != self_identity && exists|j: int|
        0 <= j < round1_public_packages.len() && (#[trigger] round1_public_packages[j]).identity
            == packages[i].recipient_identity by {
        let key = entries[i].0;
        assert(others.contains_key(key));
        lemma_lookup_found(senders, key);
        let j = choose|j: int|
            0 <= j < senders.len() && (#[trigger] senders[j]).identifier == key
                && senders[j].identity == lookup(senders, key)->Some_0;
        assert(round1_public_packages[j].identity == packages[i].recipient_identity);
        assert(spec_identifier(round1_public_packages[j].identity.serialize()) is Some);
    }
    assert forall|i: int, k: int| 0 <= i < k < packages.len() implies (
    #[trigger] packages[i]).recipient_identity != (#[trigger] packages[k]).recipient_identity by {
        assert(entries[i].0 != entries[k].0);
        lemma_lookup_found(senders, entries[i].0);
        lemma_lookup_found(senders, entries[k].0);
        let j1 = choose|j: int|
            0 <= j < senders.len() && (#[trigger] senders[j]).identifier == entries[i].0
                && senders[j].identity == lookup(senders, entries[i].0)->Some_0;
        let j2 = choose|j: int|
            0 <= j < senders.len() && (#[trigger] senders[j]).identifier == entries[k].0
                && senders[j].identity == lookup(senders, entries[k].0)->Some_0;
        assert(spec_identifier(round1_public_packages[j1].identity.serialize()) is Some);
        assert(spec_identifier(round1_public_packages[j2].identity.serialize()) is Some);
    }
}

/// What round 2 returns: the encrypted secret package and the public
/// packages, one for each other participant; or why there are none.
pub open spec fn round2_spec(
    self_identity: IdentityView,
    round1_secret_package: round1::SecretPackageView,
    round1_public_packages: Seq<round1::PublicPackageView>,
    seed: Seq<u8>,
) -> Result<(Seq<u8>, Seq<PublicPackageView>), ErrorKind> {
    match build_round1_spec(
        round1_public_packages,
        round1_secret_package.min_signers,
        round1_secret_package.max_signers,
    ) {
        Err(e) => Err(e),
        Ok(accepted) => match spec_identifier(self_identity.serialize()) {
            None => Err(ErrorKind::InvalidInput(InvalidInput::UnusableIdentity)),
            Some(own) => if !accepted.contains_key(own) {
                Err(ErrorKind::InvalidInput(InvalidInput::MissingOwnPublicPackage))
            } else {
                match spec_part2(round1_secret_package.bytes, accepted.remove(own)) {
                    None => Err(ErrorKind::FrostError),
                    Some((secret_package, entries)) => if !usable_secret(secret_package) {
                        Err(ErrorKind::InvalidInput(InvalidInput::UnusableSecretPackage))
                    } else {
                        match encrypt_spec(
                            secret_package,
                            seq![self_identity.encryption_key],
                            derive_seed_spec(seed, SEED_SECRET_PACKAGE),
                        ) {
                            None => Err(ErrorKind::EncryptionError),
                            Some(encrypted_secret_package) => Ok(
                                (
                                    encrypted_secret_package,
                                    outgoing(
                                        entries,
                                        senders_spec(round1_public_packages),
                                        self_identity,
                                        input_checksum_spec(round1_public_packages),
                                    ),
                                ),
                            ),
                        }
                    },
                }
            },
        },
    }
}

/// Round 2 of the key generation for the participant `self_identity`, who
/// holds `round1_secret_package` and was sent `round1_public_packages` by
/// all participants, itself included.
///
/// Every package must carry the checksum of the signer count and the
/// senders; one that does not fails the round. The participant's own package
/// is not handed to the primitive.
///
/// All randomness is derived from `seed`, which must be fresh and come from
/// a cryptographically secure source.
///
/// Returns the secret package for round 3, encrypted for the participant
/// itself, and the public packages, one for each other participant, each
/// with the checksum of the round 1 packages.
#[verifier::loop_isolation(false)]
pub fn round2(
    self_identity: &Identity,
    round1_secret_package: &round1::SecretPackage,
    round1_public_packages: &[&round1::PublicPackage],
    seed: &[u8; 32],
) -> (r: Result<(Vec<u8>, Vec<PublicPackage>), Error>)
    ensures
        match r {
            Ok((encrypted_secret_package, public_packages)) => round2_spec(
                self_identity@,
                round1_secret_package@,
                round1::package_views(round1_public_packages@),
                seed@,
            ) matches Ok(expected) && expected == (
                encrypted_secret_package@,
                owned_package_views(public_packages@),
            ),
            Err(e) => round2_spec(
                self_identity@,
                round1_secret_package@,
                round1::package_views(round1_public_packages@),
                seed@,
            ) matches Err(kind) && kind == e@,
        },
        r matches Ok(made) ==> exists|secret_package: Seq<u8>|
            usable_secret(secret_package) && #[trigger] readable_by(
                made.0@,
                self_identity@,
                secret_package,
            ),
        r matches Ok(made) ==> made.1@.len() == round1_public_packages@.len() - 1,
        r matches Ok(made) ==> forall|i: int|
            0 <= i < made.1@.len() ==> (#[trigger] made.1@[i])@.recipient_identity
                != self_identity@ && exists|j: int|
                0 <= j < round1_public_packages@.len() && (
                #[trigger] round1_public_packages@[j])@.identity
                    == made.1@[i]@.recipient_identity,
        r matches Ok(made) ==> forall|i: int, k: int|
            0 <= i < k < made.1@.len() ==> (#[trigger] made.1@[i])@.recipient_identity != (
            #[trigger] made.1@[k])@.recipient_identity,
{
    proof {
        use_type_invariant(round1_secret_package);
    }
    let ghost round1 = round1::package_views(round1_public_packages@);
    let ghost expected = round1::input_checksum_spec(
        round1_secret_package@.min_signers,
        round1::sender_bytes(round1),
    );
    let (senders, mut frost_packages) = match build_round1_frost_packages(
        round1_public_packages,
        round1_secret_package.min_signers(),
        round1_secret_package.max_signers(),
    ) {
        Ok(built) => built,
        Err(e) => {
            return Err(e);
        },
    };
    let identifier = match self_identity.to_frost_identifier() {
        Some(identifier) => identifier,
        None => {
            return Err(Error::InvalidInput(InvalidInput::UnusableIdentity));
        },
    };
    let ghost accepted = spec_round1_packages(frost_packages);
    // The primitive must not be handed the caller's own package.
    if !frost_packages.remove(&identifier) {
        return Err(Error::InvalidInput(InvalidInput::MissingOwnPublicPackage));
    }
    let (secret_package, entries) = match part2(
        round1_secret_package.serialize().as_slice(),
        &frost_packages,
    ) {
        Ok(made) => made,
        Err(e) => {
            return Err(Error::FrostError(e));
        },
    };
    let secret_package = match SecretPackage::deserialize(secret_package) {
        Some(secret_package) => secret_package,
        None => {
            return Err(Error::InvalidInput(InvalidInput::UnusableSecretPackage));
        },
    };
    let encrypted_secret_package = match export_secret_package(
        &secret_package,
        self_identity,
        &derive_seed(seed, SEED_SECRET_PACKAGE),
    ) {
        Some(encrypted_secret_package) => encrypted_secret_package,
        None => {
            return Err(Error::EncryptionError);
        },
    };
    let checksum = input_checksum(round1_public_packages);
    proof {
        use_type_invariant(&secret_package);
        assert(readable_by(encrypted_secret_package@, self_identity@, secret_package@.bytes));
    }

    let ghost all = entries_view(entries@);
    let ghost known = sender_views(senders@);
    proof {
        // One package for each sender of a round 1 package but the caller.
        lemma_outgoing_recipients(all, round1, expected, self_identity@, checksum);
        lemma_round1_prefix_senders(round1, expected, round1.len() as int);
    }
    let mut public_packages: Vec<PublicPackage> = Vec::new();
    let mut i: usize = 0;
    while i < entries.len()
        invariant
            i <= entries.len(),
            public_packages.len() == i,
            forall|j: int|
                0 <= j < i ==> (#[trigger] public_packages[j])@ == outgoing(
                    all,
                    known,
                    self_identity@,
                    checksum,
                )[j],
        decreases entries.len() - i,
    {
        proof {
            // The recipient is the sender of a round 1 package.
            let key = all[i as int].0;
            assert(accepted.remove(identifier@).contains_key(key));
            assert(accepted.contains_key(key));
            let j = choose|j: int|
                0 <= j < round1.len() && spec_identifier(
                    (#[trigger] round1[j]).identity.serialize(),
                ) == Some(key);
            assert(known[j].identifier == key);
            lemma_lookup(known, key);
        }
        let recipient_identity = match find_sender(&senders, &entries[i].0) {
            Some(recipient_identity) => recipient_identity,
            None => unreached(),
        };
        let package = PublicPackage::new(
            *self_identity,
            recipient_identity,
            to_vec(entries[i].1.as_slice()),
            checksum,
        );
        public_packages.push(package);
        i += 1;
    }
    proof {
        let packages = outgoing(all, known, self_identity@, checksum);
        assert(owned_package_views(public_packages@) =~= packages);
        assert forall|i: int| 0 <= i < public_packages@.len() implies (
        #[trigger] public_packages@[i])@.recipient_identity != self_identity@ && exists|j: int|
            0 <= j < round1_public_packages@.len() && (
            #[trigger] round1_public_packages@[j])@.identity
                == public_packages@[i]@.recipient_identity by {
            assert(public_packages@[i]@ == packages[i]);
            let j = choose|j: int|
                0 <= j < round1.len() && (#[trigger] round1[j]).identity
                    == packages[i].recipient_identity;
            assert(round1_public_packages@[j]@.identity == packages[i].recipient_identity);
        }
        assert forall|i: int, k: int| 0 <= i < k < public_packages@.len() implies (
        #[trigger] public_packages@[i])@.recipient_identity != (
        #[trigger] public_packages@[k])@.recipient_identity by {
            assert(public_packages@[i]@ == packages[i]);
            assert(public_packages@[k]@ == packages[k]);
        }
    }
    Ok((encrypted_secret_package, public_packages))
}

} // verus!
