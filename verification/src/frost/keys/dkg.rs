//! The three parts of the primitive's distributed key generation, and the
//! packages that pass between them, each as its serialization.

use crate::error::FrostError;
use rand_core::SeedableRng;
use reddsa::frost::redjubjub;
use std::collections::BTreeMap;
use vstd::prelude::*;

verus! {

/// The round 1 packages that a participant holds of other participants, by
/// the sender's identifier.
#[verifier::external_body]
pub struct Round1Packages {
    map: BTreeMap<redjubjub::Identifier, redjubjub::keys::dkg::round1::Package>,
}

/// The round 2 packages that a participant was sent, by the sender's
/// identifier.
#[verifier::external_body]
pub struct Round2Packages {
    map: BTreeMap<redjubjub::Identifier, redjubjub::keys::dkg::round2::Package>,
}

/// What a collection of round 1 packages holds: for each sender's serialized
/// identifier the serialization of the package that is held for it.
pub uninterp spec fn spec_round1_packages(packages: Round1Packages) -> Map<Seq<u8>, Seq<u8>>;

/// What a collection of round 2 packages holds: for each sender's serialized
/// identifier the serialization of the package that is held for it.
pub uninterp spec fn spec_round2_packages(packages: Round2Packages) -> Map<Seq<u8>, Seq<u8>>;

/// What the round 1 package that bytes decode to is serialized to. `None`
/// for bytes that decode to no package.
pub uninterp spec fn spec_round1_package_read(package: Seq<u8>) -> Option<Seq<u8>>;

/// What the round 2 package that bytes decode to is serialized to. `None`
/// for bytes that decode to no package.
pub uninterp spec fn spec_round2_package_read(package: Seq<u8>) -> Option<Seq<u8>>;

/// Whether a payload is the serialization of the round 1 package that it
/// decodes to. Decoding does not look at what follows a package, so that
/// other bytes can decode to the same package.
pub open spec fn canonical_round1_package(package: Seq<u8>) -> bool {
    spec_round1_package_read(package) == Some(package)
}

/// Whether a payload is the serialization of the round 2 package that it
/// decodes to.
pub open spec fn canonical_round2_package(package: Seq<u8>) -> bool {
    spec_round2_package_read(package) == Some(package)
}

/// Whether the bytes are a serialized identifier and a serialized round 1
/// package.
pub uninterp spec fn spec_is_round1_entry(identifier: Seq<u8>, package: Seq<u8>) -> bool;

/// Whether the bytes are a serialized identifier and a serialized round 2
/// package.
pub uninterp spec fn spec_is_round2_entry(identifier: Seq<u8>, package: Seq<u8>) -> bool;

/// The serialized identifier that is derived from a byte string, if one is.
pub uninterp spec fn spec_identifier(data: Seq<u8>) -> Option<Seq<u8>>;

/// Of a serialized round 1 secret package: the least number of signers, the
/// number of signers, and whether the package holds a coefficient. `None` for
/// bytes that are no such package.
pub uninterp spec fn spec_round1_secret_summary(secret_package: Seq<u8>) -> Option<
    (u16, u16, bool),
>;

/// Of a serialized round 2 secret package: the least number of signers and
/// the number of signers. `None` for bytes that are no such package.
pub uninterp spec fn spec_round2_secret_signers(secret_package: Seq<u8>) -> Option<(u16, u16)>;

/// What part 1 returns with its randomness drawn from a generator seeded
/// with `seed`: the serialized secret package and the serialized package.
pub uninterp spec fn spec_part1(
    identifier: Seq<u8>,
    max_signers: u16,
    min_signers: u16,
    seed: Seq<u8>,
) -> Option<(Seq<u8>, Seq<u8>)>;

/// What part 2 returns: the serialized secret package and, in the order of
/// the recipients' identifiers, each recipient's serialized identifier and
/// package.
pub uninterp spec fn spec_part2(
    secret_package: Seq<u8>,
    round1_packages: Map<Seq<u8>, Seq<u8>>,
) -> Option<(Seq<u8>, Seq<(Seq<u8>, Seq<u8>)>)>;

/// What part 3 returns: the serialized key package and the serialized public
/// key package.
pub uninterp spec fn spec_part3(
    secret_package: Seq<u8>,
    round1_packages: Map<Seq<u8>, Seq<u8>>,
    round2_packages: Map<Seq<u8>, Seq<u8>>,
) -> Option<(Seq<u8>, Seq<u8>)>;

impl Round1Packages {
    /// An empty `BTreeMap`.
    #[verifier::external_body]
    pub(crate) fn new() -> (packages: Round1Packages)
        ensures
            spec_round1_packages(packages).dom() == Set::<Seq<u8>>::empty(),
    {
        Round1Packages { map: BTreeMap::new() }
    }

    /// Reads the identifier with `Identifier::deserialize` and the package
    /// with `round1::Package::deserialize`, and enters them with
    /// `BTreeMap::insert`. What `deserialize` refuses is not entered.
    /// Otherwise the entry replaces the one that the identifier had, and the
    /// result says whether it had one. The payload must be the serialization
    /// of the package that it decodes to: the map holds the decoded package,
    /// and that is then what the payload stands for.
    #[verifier::external_body]
    pub(crate) fn insert(&mut self, identifier: &[u8; 32], package: &[u8]) -> (r: Result<
        bool,
        FrostError,
    >)
        requires
            canonical_round1_package(package@),
        ensures
            match r {
                Ok(replaced) => {
                    &&& spec_is_round1_entry(identifier@, package@)
                    &&& replaced == spec_round1_packages(*old(self)).contains_key(identifier@)
                    &&& spec_round1_packages(*final(self)) == spec_round1_packages(
                        *old(self),
                    ).insert(identifier@, package@)
                },
                Err(_) => {
                    &&& !spec_is_round1_entry(identifier@, package@)
                    &&& spec_round1_packages(*final(self)) == spec_round1_packages(*old(self))
                },
            },
    {
        let read = || -> Result<_, redjubjub::Error> {
            let identifier = redjubjub::Identifier::deserialize(identifier)?;
            Ok((identifier, redjubjub::keys::dkg::round1::Package::deserialize(package)?))
        };
        match read() {
            Ok((identifier, package)) => Ok(self.map.insert(identifier, package).is_some()),
            Err(e) => Err(FrostError { message: e.to_string() }),
        }
    }

    /// Takes out the entry of an identifier with `BTreeMap::remove`, and says
    /// whether there was one. Bytes that are no identifier have no entry.
    #[verifier::external_body]
    pub(crate) fn remove(&mut self, identifier: &[u8; 32]) -> (removed: bool)
        ensures
            removed == spec_round1_packages(*old(self)).contains_key(identifier@),
            spec_round1_packages(*final(self)) == spec_round1_packages(*old(self)).remove(
                identifier@,
            ),
    {
        match redjubjub::Identifier::deserialize(identifier) {
            Ok(identifier) => self.map.remove(&identifier).is_some(),
            Err(_) => false,
        }
    }
}

impl Round2Packages {
    /// An empty `BTreeMap`.
    #[verifier::external_body]
    pub(crate) fn new() -> (packages: Round2Packages)
        ensures
            spec_round2_packages(packages).dom() == Set::<Seq<u8>>::empty(),
    {
        Round2Packages { map: BTreeMap::new() }
    }

    /// Reads the identifier with `Identifier::deserialize` and the package
    /// with `round2::Package::deserialize`, and enters them with
    /// `BTreeMap::insert`. What `deserialize` refuses is not entered.
    /// Otherwise the entry replaces the one that the identifier had, and the
    /// result says whether it had one. The payload must be the serialization
    /// of the package that it decodes to: the map holds the decoded package,
    /// and that is then what the payload stands for.
    #[verifier::external_body]
    pub(crate) fn insert(&mut self, identifier: &[u8; 32], package: &[u8]) -> (r: Result<
        bool,
        FrostError,
    >)
        requires
            canonical_round2_package(package@),
        ensures
            match r {
                Ok(replaced) => {
                    &&& spec_is_round2_entry(identifier@, package@)
                    &&& replaced == spec_round2_packages(*old(self)).contains_key(identifier@)
                    &&& spec_round2_packages(*final(self)) == spec_round2_packages(
                        *old(self),
                    ).insert(identifier@, package@)
                },
                Err(_) => {
                    &&& !spec_is_round2_entry(identifier@, package@)
                    &&& spec_round2_packages(*final(self)) == spec_round2_packages(*old(self))
                },
            },
    {
        let read = || -> Result<_, redjubjub::Error> {
            let identifier = redjubjub::Identifier::deserialize(identifier)?;
            Ok((identifier, redjubjub::keys::dkg::round2::Package::deserialize(package)?))
        };
        match read() {
            Ok((identifier, package)) => Ok(self.map.insert(identifier, package).is_some()),
            Err(e) => Err(FrostError { message: e.to_string() }),
        }
    }
}

/// Decodes a payload with `round1::Package::deserialize` and encodes the
/// package again with `round1::Package::serialize`. The result depends on
/// the payload alone. Decoding stops where the package ends, so the result
/// can be shorter than the payload.
#[verifier::external_body]
pub(crate) fn read_round1_package(package: &[u8]) -> (r: Result<Vec<u8>, FrostError>)
    ensures
        r matches Ok(canonical) ==> spec_round1_package_read(package@) == Some(canonical@),
        r is Err ==> spec_round1_package_read(package@) is None,
{
    let decoded = redjubjub::keys::dkg::round1::Package::deserialize(package);
    decoded.and_then(|p| p.serialize()).map_err(|e| FrostError { message: e.to_string() })
}

/// Decodes a payload with `round2::Package::deserialize` and encodes the
/// package again with `round2::Package::serialize`. The result depends on
/// the payload alone. Decoding stops where the package ends, so the result
/// can be shorter than the payload.
#[verifier::external_body]
pub(crate) fn read_round2_package(package: &[u8]) -> (r: Result<Vec<u8>, FrostError>)
    ensures
        r matches Ok(canonical) ==> spec_round2_package_read(package@) == Some(canonical@),
        r is Err ==> spec_round2_package_read(package@) is None,
{
    let decoded = redjubjub::keys::dkg::round2::Package::deserialize(package);
    decoded.and_then(|p| p.serialize()).map_err(|e| FrostError { message: e.to_string() })
}

/// Derives an identifier from a byte string with `Identifier::derive` and
/// serializes it. The identifier depends on the bytes alone; none is derived
/// where they hash to zero.
#[verifier::external_body]
pub(crate) fn derive_identifier(data: &[u8]) -> (identifier: Option<[u8; 32]>)
    ensures
        identifier matches Some(bytes) ==> spec_identifier(data@) == Some(bytes@),
        identifier is None ==> spec_identifier(data@) is None,
{
    redjubjub::Identifier::derive(data).ok()?.serialize().try_into().ok()
}

/// Reads a round 1 secret package with `round1::SecretPackage::deserialize`
/// and returns its signer counts. The third part of the result says whether
/// the package differs from one with the same identifier, commitment and
/// counts and no coefficient.
#[verifier::external_body]
pub(crate) fn round1_secret_summary(secret_package: &[u8]) -> (summary: Option<(u16, u16, bool)>)
    ensures
        summary == spec_round1_secret_summary(secret_package@),
{
    let package = redjubjub::keys::dkg::round1::SecretPackage::deserialize(secret_package).ok()?;
    let hollow = redjubjub::keys::dkg::round1::SecretPackage::new(
        *package.identifier(),
        Vec::new(),
        package.commitment().clone(),
        *package.min_signers(),
        *package.max_signers(),
    );
    Some((*package.min_signers(), *package.max_signers(), package != hollow))
}

/// Reads a round 2 secret package with `round2::SecretPackage::deserialize`
/// and returns its signer counts.
#[verifier::external_body]
pub(crate) fn round2_secret_signers(secret_package: &[u8]) -> (signers: Option<(u16, u16)>)
    ensures
        signers == spec_round2_secret_signers(secret_package@),
{
    let package = redjubjub::keys::dkg::round2::SecretPackage::deserialize(secret_package).ok()?;
    Some((*package.min_signers(), *package.max_signers()))
}

/// Runs `reddsa::frost::redjubjub::keys::dkg::part1` for a serialized
/// identifier, with a `rand_chacha::ChaCha20Rng` seeded with `seed` as the
/// source of randomness, and serializes the two packages. With the generator
/// fixed by the seed, the result depends on the arguments alone.
#[verifier::external_body]
pub(crate) fn part1(identifier: &[u8; 32], max_signers: u16, min_signers: u16, seed: &[u8; 32]) -> (r:
    Result<(Vec<u8>, Vec<u8>), FrostError>)
    ensures
        r matches Ok(packages) ==> spec_part1(identifier@, max_signers, min_signers, seed@)
            == Some((packages.0@, packages.1@)),
        r is Err ==> spec_part1(identifier@, max_signers, min_signers, seed@) is None,
{
    let run = || -> Result<_, redjubjub::Error> {
        let identifier = redjubjub::Identifier::deserialize(identifier)?;
        let rng = rand_chacha::ChaCha20Rng::from_seed(*seed);
        let (secret, package) = redjubjub::keys::dkg::part1(
            identifier,
            max_signers,
            min_signers,
            rng,
        )?;
        Ok((secret.serialize()?, package.serialize()?))
    };
    run().map_err(|e| FrostError { message: e.to_string() })
}

/// Whether there is one entry for each sender, and no other.
pub open spec fn one_for_each(
    entries: Seq<(Seq<u8>, Seq<u8>)>,
    senders: Map<Seq<u8>, Seq<u8>>,
) -> bool {
    &&& forall|i: int| 0 <= i < entries.len() ==> senders.contains_key((#[trigger] entries[i]).0)
    &&& forall|i: int, j: int|
        0 <= i < j < entries.len() ==> (#[trigger] entries[i]).0 != (#[trigger] entries[j]).0
    &&& forall|key: Seq<u8>|
        senders.contains_key(key) ==> exists|i: int|
            0 <= i < entries.len() && (#[trigger] entries[i]).0 == key
}

/// Runs `reddsa::frost::redjubjub::keys::dkg::part2` on a serialized secret
/// package and the packages of the other participants, and serializes what
/// it returns, the packages in the order of the map that `part2` hands back.
/// That map has one package for each identifier of the map that `part2` is
/// given. The secret package must hold a coefficient and count at least one
/// signer: `part2` evaluates its polynomial and subtracts one from the count.
#[verifier::external_body]
pub(crate) fn part2(secret_package: &[u8], round1_packages: &Round1Packages) -> (r: Result<
    (Vec<u8>, Vec<([u8; 32], Vec<u8>)>),
    FrostError,
>)
    requires
        spec_round1_secret_summary(secret_package@) matches Some((_, max_signers, true))
            && max_signers >= 1,
    ensures
        r matches Ok(packages) ==> spec_part2(
            secret_package@,
            spec_round1_packages(*round1_packages),
        ) == Some((packages.0@, entries_view(packages.1@))),
        r is Err ==> spec_part2(secret_package@, spec_round1_packages(*round1_packages)) is None,
        r matches Ok(packages) ==> one_for_each(
            entries_view(packages.1@),
            spec_round1_packages(*round1_packages),
        ),
{
    let run = || -> Result<_, redjubjub::Error> {
        let secret = redjubjub::keys::dkg::round1::SecretPackage::deserialize(secret_package)?;
        let (secret, packages) = redjubjub::keys::dkg::part2(secret, &round1_packages.map)?;
        let mut entries = Vec::new();
        for (identifier, package) in packages.iter() {
            let identifier = identifier.serialize().try_into();
            entries.push((identifier.or(Err(redjubjub::Error::MalformedIdentifier))?, package.serialize()?));
        }
        Ok((secret.serialize()?, entries))
    };
    run().map_err(|e| FrostError { message: e.to_string() })
}

/// Runs `reddsa::frost::redjubjub::keys::dkg::part3` on a serialized secret
/// package and the packages of the other participants, and serializes the
/// key package and the public key package that it returns. The secret
/// package must count at least one signer: `part3` subtracts one from the
/// count.
#[verifier::external_body]
pub(crate) fn part3(
    secret_package: &[u8],
    round1_packages: &Round1Packages,
    round2_packages: &Round2Packages,
) -> (r: Result<(Vec<u8>, Vec<u8>), FrostError>)
    requires
        spec_round2_secret_signers(secret_package@) matches Some((_, max_signers)) && max_signers
            >= 1,
    ensures
        r matches Ok(packages) ==> spec_part3(
            secret_package@,
            spec_round1_packages(*round1_packages),
            spec_round2_packages(*round2_packages),
        ) == Some((packages.0@, packages.1@)),
        r is Err ==> spec_part3(
            secret_package@,
            spec_round1_packages(*round1_packages),
            spec_round2_packages(*round2_packages),
        ) is None,
{
    let run = || -> Result<_, redjubjub::Error> {
        let secret = redjubjub::keys::dkg::round2::SecretPackage::deserialize(secret_package)?;
        let (key_package, public_key_package) = redjubjub::keys::dkg::part3(
            &secret,
            &round1_packages.map,
            &round2_packages.map,
        )?;
        Ok((key_package.serialize()?, public_key_package.serialize()?))
    };
    run().map_err(|e| FrostError { message: e.to_string() })
}

/// The identifiers and packages of a list of entries.
pub open spec fn entries_view(entries: Seq<([u8; 32], Vec<u8>)>) -> Seq<(Seq<u8>, Seq<u8>)> {
    Seq::new(entries.len(), |i: int| (entries[i].0@, entries[i].1@))
}

} // verus!
