//! Round 3: every participant checks what it was sent in round 2 and derives
//! its share of the group's key.

use crate::bytes::equal;
use crate::checksum::ChecksumError;
use crate::dkg::error::fails_with;
use crate::dkg::error::Error;
use crate::dkg::error::ErrorKind;
use crate::dkg::error::InvalidInput;
use crate::dkg::group_key::combine_spec;
use crate::dkg::group_key::import_spec;
use crate::dkg::group_key::shard_views;
use crate::dkg::group_key::GroupSecretKey;
use crate::dkg::group_key::GroupSecretKeyShard;
use crate::dkg::round1;
use crate::dkg::round2;
use crate::dkg::round2::get_secret_package_signers;
use crate::dkg::utils::build_round1_frost_packages;
use crate::dkg::utils::build_round1_spec;
use crate::dkg::utils::find_sender;
use crate::dkg::utils::lemma_lookup;
use crate::dkg::utils::lemma_round1_prefix_canonical;
use crate::dkg::utils::lemma_round1_rejects_checksum_mismatch;
use crate::frost::keys::dkg::canonical_round1_package;
use crate::dkg::utils::sender_views;
use crate::dkg::utils::Sender;
use crate::frost::keys::dkg::part3;
use crate::frost::keys::dkg::spec_identifier;
use crate::frost::keys::dkg::canonical_round2_package;
use crate::frost::keys::dkg::read_round2_package;
use crate::frost::keys::dkg::spec_is_round2_entry;
use crate::frost::keys::dkg::spec_round2_package_read;
use crate::frost::keys::dkg::spec_part3;
use crate::frost::keys::dkg::spec_round2_packages;
use crate::frost::keys::dkg::Round2Packages;
use crate::frost::keys::KeyPackage;
use crate::frost::keys::PublicKeyPackage;
use crate::participant::IdentityView;
use crate::participant::Secret;
use crate::participant::SecretView;
use vstd::prelude::*;

verus! {

/// What a round 2 package adds to the packages that were accepted before it,
/// or why it is refused: for a checksum that is not the expected one, for a
/// recipient that is not the caller, for a sender without identifier, for a
/// sender that was seen before, for a payload that the primitive cannot
/// read, or for a payload that bytes follow which are no part of the
/// primitive's package. The checksum is looked at first.
pub open spec fn round2_step(
    accepted: Map<Seq<u8>, Seq<u8>>,
    package: round2::PublicPackageView,
    expected_checksum: u64,
    identity: IdentityView,
) -> Result<Map<Seq<u8>, Seq<u8>>, ErrorKind> {
    if package.checksum != expected_checksum {
        Err(ErrorKind::ChecksumError(ChecksumError::DkgPublicPackageError))
    } else if package.recipient_identity != identity {
        Err(ErrorKind::InvalidInput(InvalidInput::WrongRecipient))
    } else {
        match spec_identifier(package.sender_identity.serialize()) {
            None => Err(ErrorKind::InvalidInput(InvalidInput::UnusableIdentity)),
            Some(identifier) => if accepted.contains_key(identifier) {
                Err(ErrorKind::InvalidInput(InvalidInput::DuplicateSender))
            } else if spec_round2_package_read(package.frost_package) is None {
                Err(ErrorKind::FrostError)
            } else if !canonical_round2_package(package.frost_package) {
                Err(ErrorKind::InvalidInput(InvalidInput::NonCanonicalPayload))
            } else if !spec_is_round2_entry(identifier, package.frost_package) {
                Err(ErrorKind::FrostError)
            } else {
                Ok(accepted.insert(identifier, package.frost_package))
            },
        }
    }
}

/// What the first `n` packages add up to, or why the first of them that is
/// refused is refused.
pub open spec fn round2_prefix(
    packages: Seq<round2::PublicPackageView>,
    expected_checksum: u64,
    identity: IdentityView,
    n: int,
) -> Result<Map<Seq<u8>, Seq<u8>>, ErrorKind>
    decreases n,
{
    if n <= 0 {
        Ok(Map::empty())
    } else {
        match round2_prefix(packages, expected_checksum, identity, n - 1) {
            Err(e) => Err(e),
            Ok(accepted) => round2_step(accepted, packages[n - 1], expected_checksum, identity),
        }
    }
}

/// The shards that the owner of `decryption_key` reads from the first `n`
/// packages, if all can be read.
pub open spec fn shards_prefix(
    packages: Seq<round1::PublicPackageView>,
    decryption_key: Seq<u8>,
    n: int,
) -> Option<Seq<Seq<u8>>>
    decreases n,
{
    if n <= 0 {
        Some(Seq::empty())
    } else {
        match (
            shards_prefix(packages, decryption_key, n - 1),
            import_spec(decryption_key, packages[n - 1].group_secret_key_shard_encrypted),
        ) {
            (Some(shards), Some(shard)) => Some(shards.push(shard)),
            _ => None,
        }
    }
}

/// The group's secret key as the owner of `decryption_key` reads it from the
/// packages of round 1.
pub open spec fn group_secret_key_spec(
    packages: Seq<round1::PublicPackageView>,
    decryption_key: Seq<u8>,
) -> Option<Seq<u8>> {
    match shards_prefix(packages, decryption_key, packages.len() as int) {
        Some(shards) => Some(combine_spec(shards)),
        None => None,
    }
}

/// What round 3 returns: the key package, the public key package and the
/// group's secret key; or why there are none.
pub open spec fn round3_spec(
    secret: SecretView,
    round2_secret_package: round2::SecretPackageView,
    round1_public_packages: Seq<round1::PublicPackageView>,
    round2_public_packages: Seq<round2::PublicPackageView>,
) -> Result<(Seq<u8>, Seq<u8>, Seq<u8>), ErrorKind> {
    let identity = secret.identity();
    match build_round1_spec(
        round1_public_packages,
        round2_secret_package.min_signers,
        round2_secret_package.max_signers,
    ) {
        Err(e) => Err(e),
        Ok(round1_packages) => match spec_identifier(identity.serialize()) {
            None => Err(ErrorKind::InvalidInput(InvalidInput::UnusableIdentity)),
            Some(own) => if !round1_packages.contains_key(own) {
                Err(ErrorKind::InvalidInput(InvalidInput::MissingOwnPublicPackage))
            } else {
                match round2_prefix(
                    round2_public_packages,
                    round2::input_checksum_spec(round1_public_packages),
                    identity,
                    round2_public_packages.len() as int,
                ) {
                    Err(e) => Err(e),
                    Ok(round2_packages) => if round1_public_packages.len() - 1
                        != round2_public_packages.len() {
                        Err(ErrorKind::InvalidInput(InvalidInput::PackageCountMismatch))
                    } else {
                        match spec_part3(
                            round2_secret_package.bytes,
                            round1_packages.remove(own),
                            round2_packages,
                        ) {
                            None => Err(ErrorKind::FrostError),
                            Some((key_package, public_key_package)) => match group_secret_key_spec(
                                round1_public_packages,
                                secret.decryption_key,
                            ) {
                                None => Err(ErrorKind::DecryptionError),
                                Some(group_secret_key) => Ok(
                                    (key_package, public_key_package, group_secret_key),
                                ),
                            },
                        }
                    },
                }
            },
        },
    }
}

/// Once a package is refused, the packages after it do not matter.
pub proof fn lemma_round2_prefix_err(
    packages: Seq<round2::PublicPackageView>,
    expected_checksum: u64,
    identity: IdentityView,
    i: int,
    n: int,
)
    requires
        0 <= i <= n,
        round2_prefix(packages, expected_checksum, identity, i) is Err,
    ensures
        round2_prefix(packages, expected_checksum, identity, n) == round2_prefix(
            packages,
            expected_checksum,
            identity,
            i,
        ),
    decreases n - i,
{
    if i < n {
        lemma_round2_prefix_err(packages, expected_checksum, identity, i, n - 1);
    }
}

/// The accepted packages come from exactly the senders of the packages.
pub proof fn lemma_round2_prefix_senders(
    packages: Seq<round2::PublicPackageView>,
    expected_checksum: u64,
    identity: IdentityView,
    n: int,
)
    requires
        0 <= n <= packages.len(),
        round2_prefix(packages, expected_checksum, identity, n) is Ok,
    ensures
        forall|j: int|
            0 <= j < n ==> spec_identifier(
                (#[trigger] packages[j]).sender_identity.serialize(),
            ) is Some,
        forall|key: Seq<u8>|
            round2_prefix(packages, expected_checksum, identity, n)->Ok_0.contains_key(key)
                <==> exists|j: int|
                0 <= j < n && spec_identifier((#[trigger] packages[j]).sender_identity.serialize())
                    == Some(key),
    decreases n,
{
    if n > 0 {
        lemma_round2_prefix_senders(packages, expected_checksum, identity, n - 1);
        let before = round2_prefix(packages, expected_checksum, identity, n - 1)->Ok_0;
        let after = round2_prefix(packages, expected_checksum, identity, n)->Ok_0;
        let added = spec_identifier(packages[n - 1].sender_identity.serialize())->Some_0;
        assert(after == before.insert(added, packages[n - 1].frost_package));
        assert forall|key: Seq<u8>| after.contains_key(key) <==> exists|j: int|
            0 <= j < n && spec_identifier((#[trigger] packages[j]).sender_identity.serialize())
                == Some(key) by {
            if after.contains_key(key) {
                if key == added {
                    assert(spec_identifier(packages[n - 1].sender_identity.serialize()) == Some(
                        key,
                    ));
                } else {
                    assert(before.contains_key(key));
                    let j = choose|j: int|
                        0 <= j < n - 1 && spec_identifier(
                            (#[trigger] packages[j]).sender_identity.serialize(),
                        ) == Some(key);
                    assert(spec_identifier(packages[j].sender_identity.serialize()) == Some(key));
                }
            }
            if exists|j: int|
                0 <= j < n && spec_identifier((#[trigger] packages[j]).sender_identity.serialize())
                    == Some(key) {
                let j = choose|j: int|
                    0 <= j < n && spec_identifier(
                        (#[trigger] packages[j]).sender_identity.serialize(),
                    ) == Some(key);
                if j < n - 1 {
                    assert(spec_identifier(packages[j].sender_identity.serialize()) == Some(key));
                    assert(before.contains_key(key));
                }
            }
        }
    }
}

/// Every payload that is accepted is the serialization of the package that
/// it decodes to.
pub proof fn lemma_round2_prefix_canonical(
    packages: Seq<round2::PublicPackageView>,
    expected_checksum: u64,
    identity: IdentityView,
    n: int,
)
    requires
        0 <= n <= packages.len(),
        round2_prefix(packages, expected_checksum, identity, n) is Ok,
    ensures
        forall|j: int|
            0 <= j < n ==> canonical_round2_package((#[trigger] packages[j]).frost_package),
    decreases n,
{
    if n > 0 {
        lemma_round2_prefix_canonical(packages, expected_checksum, identity, n - 1);
    }
}

/// Where a shard cannot be read, no group secret key is made.
proof fn lemma_shards_prefix_none(
    packages: Seq<round1::PublicPackageView>,
    decryption_key: Seq<u8>,
    i: int,
    n: int,
)
    requires
        0 <= i <= n,
        shards_prefix(packages, decryption_key, i) is None,
    ensures
        shards_prefix(packages, decryption_key, n) is None,
    decreases n - i,
{
    if i < n {
        lemma_shards_prefix_none(packages, decryption_key, i, n - 1);
    }
}

/// Round 3 of the key generation for the owner of `secret`, who holds
/// `round2_secret_package`, was sent `round1_public_packages` by all
/// participants, itself included, and `round2_public_packages` by all other
/// participants.
///
/// The round 1 packages are checked as in round 2. Every round 2 package
/// must carry the checksum of the round 1 packages, be addressed to the
/// caller, and come from a sender of its own; the first package that does
/// not fails the round, and its checksum is looked at before anything else
/// in it. Nothing is returned beside an error.
///
/// Returns the caller's key package, the group's public key package, and the
/// group's secret key, which is combined from the shards in all round 1
/// packages.
#[verifier::loop_isolation(false)]
pub fn round3(
    secret: &Secret,
    round2_secret_package: &round2::SecretPackage,
    round1_public_packages: &[&round1::PublicPackage],
    round2_public_packages: &[&round2::PublicPackage],
) -> (r: Result<(KeyPackage, PublicKeyPackage, GroupSecretKey), Error>)
    ensures
        match r {
            Ok((key_package, public_key_package, group_secret_key)) => round3_spec(
                secret@,
                round2_secret_package@,
                round1::package_views(round1_public_packages@),
                round2::package_views(round2_public_packages@),
            ) matches Ok(expected) && expected == (
                key_package@,
                public_key_package@,
                group_secret_key@,
            ),
            Err(e) => round3_spec(
                secret@,
                round2_secret_package@,
                round1::package_views(round1_public_packages@),
                round2::package_views(round2_public_packages@),
            ) matches Err(kind) && kind == e@,
        },
{
    let ghost round1 = round1::package_views(round1_public_packages@);
    let ghost round2 = round2::package_views(round2_public_packages@);
    let identity = secret.to_identity();
    let (min_signers, max_signers) = get_secret_package_signers(round2_secret_package);

    let (_, mut round1_frost_packages) = match build_round1_frost_packages(
        round1_public_packages,
        min_signers,
        max_signers,
    ) {
        Ok(built) => built,
        Err(e) => {
            return Err(e);
        },
    };
    let own_identifier = match identity.to_frost_identifier() {
        Some(identifier) => identifier,
        None => {
            return Err(Error::InvalidInput(InvalidInput::UnusableIdentity));
        },
    };
    // The primitive must not be handed the caller's own package.
    if !round1_frost_packages.remove(&own_identifier) {
        return Err(Error::InvalidInput(InvalidInput::MissingOwnPublicPackage));
    }
    let expected_checksum = round2::input_checksum(round1_public_packages);

    let n = round2_public_packages.len();
    let mut senders: Vec<Sender> = Vec::new();
    let mut round2_frost_packages = Round2Packages::new();
    assert(spec_round2_packages(round2_frost_packages) =~= Map::empty());
    let mut i: usize = 0;
    while i < n
        invariant
            i <= n,
            n == round2_public_packages.len(),
            round2 == round2::package_views(round2_public_packages@),
            identity@ == secret@.identity(),
            senders.len() == i,
            round2_prefix(round2, expected_checksum, identity@, i as int) == Ok::<
                Map<Seq<u8>, Seq<u8>>,
                ErrorKind,
            >(spec_round2_packages(round2_frost_packages)),
            forall|j: int|
                0 <= j < i ==> spec_identifier(round2[j].sender_identity.serialize()) == Some(
                    (#[trigger] senders[j]).identifier@,
                ),
        decreases n - i,
    {
        let public_package = round2_public_packages[i];
        proof {
            lemma_round2_prefix_senders(round2, expected_checksum, identity@, i as int);
        }
        if public_package.checksum() != expected_checksum {
            proof {
                lemma_round2_prefix_err(round2, expected_checksum, identity@, i + 1, n as int);
            }
            return Err(Error::ChecksumError(ChecksumError::DkgPublicPackageError));
        }
        if !identity.same_as(public_package.recipient_identity()) {
            proof {
                lemma_round2_prefix_err(round2, expected_checksum, identity@, i + 1, n as int);
            }
            return Err(Error::InvalidInput(InvalidInput::WrongRecipient));
        }
        let sender_identity = *public_package.sender_identity();
        let identifier = match sender_identity.to_frost_identifier() {
            Some(identifier) => identifier,
            None => {
                proof {
                    lemma_round2_prefix_err(round2, expected_checksum, identity@, i + 1, n as int);
                }
                return Err(Error::InvalidInput(InvalidInput::UnusableIdentity));
            },
        };
        let seen = find_sender(&senders, &identifier);
        proof {
            lemma_lookup(sender_views(senders@), identifier@);
            if seen is Some {
                let j = choose|j: int|
                    0 <= j < senders.len() && (#[trigger] sender_views(
                        senders@,
                    )[j]).identifier == identifier@;
                assert(senders[j].identifier@ == identifier@);
                assert(spec_identifier(round2[j].sender_identity.serialize()) == Some(identifier@));
            } else {
                if spec_round2_packages(round2_frost_packages).contains_key(identifier@) {
                    let j = choose|j: int|
                        0 <= j < i && spec_identifier(
                            (#[trigger] round2[j]).sender_identity.serialize(),
                        ) == Some(identifier@);
                    assert(senders[j].identifier@ == identifier@);
                    assert(sender_views(senders@)[j].identifier == identifier@);
                }
            }
        }
        if seen.is_some() {
            proof {
                lemma_round2_prefix_err(round2, expected_checksum, identity@, i + 1, n as int);
            }
            return Err(Error::InvalidInput(InvalidInput::DuplicateSender));
        }
        // The primitive decodes a payload without looking at what follows
        // the package. Only the package's own serialization stands for it.
        let canonical = match read_round2_package(public_package.frost_package().as_slice()) {
            Ok(canonical) => canonical,
            Err(e) => {
                proof {
                    lemma_round2_prefix_err(round2, expected_checksum, identity@, i + 1, n as int);
                }
                return Err(Error::FrostError(e));
            },
        };
        if !equal(canonical.as_slice(), public_package.frost_package().as_slice()) {
            proof {
                lemma_round2_prefix_err(round2, expected_checksum, identity@, i + 1, n as int);
            }
            return Err(Error::InvalidInput(InvalidInput::NonCanonicalPayload));
        }
        match round2_frost_packages.insert(&identifier, public_package.frost_package().as_slice()) {
            Ok(_) => {},
            Err(e) => {
                proof {
                    lemma_round2_prefix_err(round2, expected_checksum, identity@, i + 1, n as int);
                }
                return Err(Error::FrostError(e));
            },
        }
        senders.push(Sender { identifier, identity: sender_identity });
        i += 1;
    }

    // One round 2 package from the sender of each round 1 package but the
    // caller's own.
    if round1_public_packages.len() - 1 != n {
        return Err(Error::InvalidInput(InvalidInput::PackageCountMismatch));
    }
    let (key_package, public_key_package) = match part3(
        round2_secret_package.serialize().as_slice(),
        &round1_frost_packages,
        &round2_frost_packages,
    ) {
        Ok(packages) => packages,
        Err(e) => {
            return Err(Error::FrostError(e));
        },
    };

    let m = round1_public_packages.len();
    let mut shards: Vec<GroupSecretKeyShard> = Vec::new();
    let mut i: usize = 0;
    assert(shard_views(shards@) =~= Seq::empty());
    while i < m
        invariant
            i <= m,
            m == round1_public_packages.len(),
            round1 == round1::package_views(round1_public_packages@),
            shards_prefix(round1, secret@.decryption_key, i as int) == Some(shard_views(shards@)),
        decreases m - i,
    {
        let ghost before = shard_views(shards@);
        match round1_public_packages[i].group_secret_key_shard(secret) {
            Ok(shard) => {
                shards.push(shard);
                assert(shard_views(shards@) =~= before.push(shard@));
            },
            Err(e) => {
                proof {
                    lemma_shards_prefix_none(round1, secret@.decryption_key, i + 1, m as int);
                }
                return Err(e);
            },
        }
        i += 1;
    }
    let group_secret_key = GroupSecretKeyShard::combine(shards.as_slice());

    Ok(
        (
            KeyPackage { bytes: key_package },
            PublicKeyPackage { bytes: public_key_package },
            group_secret_key,
        ),
    )
}

/// Whether round 3 accepts the packages of round 1: they pass the checks of
/// round 2, and one of them comes from the caller.
pub open spec fn round1_accepted(
    secret: SecretView,
    round2_secret_package: round2::SecretPackageView,
    round1_public_packages: Seq<round1::PublicPackageView>,
) -> bool {
    &&& build_round1_spec(
        round1_public_packages,
        round2_secret_package.min_signers,
        round2_secret_package.max_signers,
    ) matches Ok(accepted)
    &&& spec_identifier(secret.identity().serialize()) matches Some(own)
    &&& accepted.contains_key(own)
}

/// Round 3 fails where a round 2 package does not carry the checksum of the
/// round 1 packages. Where the packages before it are accepted, it fails
/// with a checksum error.
pub proof fn lemma_round3_rejects_checksum_mismatch(
    secret: SecretView,
    round2_secret_package: round2::SecretPackageView,
    round1_public_packages: Seq<round1::PublicPackageView>,
    round2_public_packages: Seq<round2::PublicPackageView>,
    i: int,
)
    requires
        round1_accepted(secret, round2_secret_package, round1_public_packages),
        0 <= i < round2_public_packages.len(),
        round2_public_packages[i].checksum != round2::input_checksum_spec(round1_public_packages),
    ensures
        round3_spec(
            secret,
            round2_secret_package,
            round1_public_packages,
            round2_public_packages,
        ) is Err,
        round2_prefix(
            round2_public_packages,
            round2::input_checksum_spec(round1_public_packages),
            secret.identity(),
            i,
        ) is Ok ==> fails_with(
            round3_spec(
                secret,
                round2_secret_package,
                round1_public_packages,
                round2_public_packages,
            ),
            ErrorKind::ChecksumError(ChecksumError::DkgPublicPackageError),
        ),
{
    let expected = round2::input_checksum_spec(round1_public_packages);
    let identity = secret.identity();
    let n = round2_public_packages.len() as int;
    if round2_prefix(round2_public_packages, expected, identity, i) is Ok {
        lemma_round2_prefix_err(round2_public_packages, expected, identity, i + 1, n);
    } else {
        lemma_round2_prefix_err(round2_public_packages, expected, identity, i, n);
    }
}

/// Round 3 fails where a round 2 package is addressed to another
/// participant than the caller. Where the packages before it are accepted and
/// it carries the right checksum, it fails for invalid input.
pub proof fn lemma_round3_rejects_wrong_recipient(
    secret: SecretView,
    round2_secret_package: round2::SecretPackageView,
    round1_public_packages: Seq<round1::PublicPackageView>,
    round2_public_packages: Seq<round2::PublicPackageView>,
    i: int,
)
    requires
        round1_accepted(secret, round2_secret_package, round1_public_packages),
        0 <= i < round2_public_packages.len(),
        round2_public_packages[i].recipient_identity != secret.identity(),
    ensures
        round3_spec(
            secret,
            round2_secret_package,
            round1_public_packages,
            round2_public_packages,
        ) is Err,
        round2_prefix(
            round2_public_packages,
            round2::input_checksum_spec(round1_public_packages),
            secret.identity(),
            i,
        ) is Ok && round2_public_packages[i].checksum == round2::input_checksum_spec(
            round1_public_packages,
        ) ==> fails_with(
            round3_spec(
                secret,
                round2_secret_package,
                round1_public_packages,
                round2_public_packages,
            ),
            ErrorKind::InvalidInput(InvalidInput::WrongRecipient),
        ),
{
    let expected = round2::input_checksum_spec(round1_public_packages);
    let identity = secret.identity();
    let n = round2_public_packages.len() as int;
    if round2_prefix(round2_public_packages, expected, identity, i) is Ok {
        lemma_round2_prefix_err(round2_public_packages, expected, identity, i + 1, n);
    } else {
        lemma_round2_prefix_err(round2_public_packages, expected, identity, i, n);
    }
}

/// Round 3 fails where two round 2 packages come from one sender. Where the
/// packages before the second are accepted, and it carries the right
/// checksum and is addressed to the caller, it fails for invalid input.
pub proof fn lemma_round3_rejects_duplicate_sender(
    secret: SecretView,
    round2_secret_package: round2::SecretPackageView,
    round1_public_packages: Seq<round1::PublicPackageView>,
    round2_public_packages: Seq<round2::PublicPackageView>,
    j: int,
    i: int,
)
    requires
        round1_accepted(secret, round2_secret_package, round1_public_packages),
        0 <= j < i < round2_public_packages.len(),
        round2_public_packages[i].sender_identity == round2_public_packages[j].sender_identity,
    ensures
        round3_spec(
            secret,
            round2_secret_package,
            round1_public_packages,
            round2_public_packages,
        ) is Err,
        round2_prefix(
            round2_public_packages,
            round2::input_checksum_spec(round1_public_packages),
            secret.identity(),
            i,
        ) is Ok && round2_public_packages[i].checksum == round2::input_checksum_spec(
            round1_public_packages,
        ) && round2_public_packages[i].recipient_identity == secret.identity() ==> fails_with(
            round3_spec(
                secret,
                round2_secret_package,
                round1_public_packages,
                round2_public_packages,
            ),
            ErrorKind::InvalidInput(InvalidInput::DuplicateSender),
        ),
{
    let expected = round2::input_checksum_spec(round1_public_packages);
    let identity = secret.identity();
    let n = round2_public_packages.len() as int;
    if round2_prefix(round2_public_packages, expected, identity, i) is Ok {
        lemma_round2_prefix_senders(round2_public_packages, expected, identity, i);
        let sender = spec_identifier(round2_public_packages[j].sender_identity.serialize());
        assert(sender is Some);
        assert(round2_prefix(round2_public_packages, expected, identity, i)->Ok_0.contains_key(
            sender->Some_0,
        ));
        lemma_round2_prefix_err(round2_public_packages, expected, identity, i + 1, n);
    } else {
        lemma_round2_prefix_err(round2_public_packages, expected, identity, i, n);
    }
}

/// Round 3 returns keys only if every check has passed: the packages of
/// round 1 are as many as there are signers and carry the checksum of the
/// signer count and the senders; the packages of round 2 are one fewer, carry
/// the checksum of the packages of round 1, are addressed to the caller and
/// come from different senders; and every payload is the serialization of
/// the package that the primitive decodes it to.
pub proof fn lemma_round3_success_means_all_checks_passed(
    secret: SecretView,
    round2_secret_package: round2::SecretPackageView,
    round1_public_packages: Seq<round1::PublicPackageView>,
    round2_public_packages: Seq<round2::PublicPackageView>,
)
    requires
        round3_spec(
            secret,
            round2_secret_package,
            round1_public_packages,
            round2_public_packages,
        ) is Ok,
    ensures
        round1_public_packages.len() == round2_secret_package.max_signers,
        round2_public_packages.len() == round1_public_packages.len() - 1,
        forall|i: int|
            0 <= i < round1_public_packages.len() ==> (
            #[trigger] round1_public_packages[i]).checksum == round1::input_checksum_spec(
                round2_secret_package.min_signers,
                round1::sender_bytes(round1_public_packages),
            ),
        forall|i: int|
            0 <= i < round2_public_packages.len() ==> (
            #[trigger] round2_public_packages[i]).checksum == round2::input_checksum_spec(
                round1_public_packages,
            ) && round2_public_packages[i].recipient_identity == secret.identity(),
        forall|i: int, j: int|
            0 <= j < i < round2_public_packages.len() ==> (
            #[trigger] round2_public_packages[i]).sender_identity != (
            #[trigger] round2_public_packages[j]).sender_identity,
        forall|i: int|
            0 <= i < round1_public_packages.len() ==> canonical_round1_package(
                (#[trigger] round1_public_packages[i]).frost_package,
            ),
        forall|i: int|
            0 <= i < round2_public_packages.len() ==> canonical_round2_package(
                (#[trigger] round2_public_packages[i]).frost_package,
            ),
{
    lemma_round1_prefix_canonical(
        round1_public_packages,
        round1::input_checksum_spec(
            round2_secret_package.min_signers,
            round1::sender_bytes(round1_public_packages),
        ),
        round1_public_packages.len() as int,
    );
    lemma_round2_prefix_canonical(
        round2_public_packages,
        round2::input_checksum_spec(round1_public_packages),
        secret.identity(),
        round2_public_packages.len() as int,
    );
    assert forall|i: int| 0 <= i < round1_public_packages.len() implies (
    #[trigger] round1_public_packages[i]).checksum == round1::input_checksum_spec(
        round2_secret_package.min_signers,
        round1::sender_bytes(round1_public_packages),
    ) by {
        if round1_public_packages[i].checksum != round1::input_checksum_spec(
            round2_secret_package.min_signers,
            round1::sender_bytes(round1_public_packages),
        ) {
            lemma_round1_rejects_checksum_mismatch(
                round1_public_packages,
                round2_secret_package.min_signers,
                round2_secret_package.max_signers,
                i,
            );
        }
    }
    assert forall|i: int| 0 <= i < round2_public_packages.len() implies (
    #[trigger] round2_public_packages[i]).checksum == round2::input_checksum_spec(
        round1_public_packages,
    ) && round2_public_packages[i].recipient_identity == secret.identity() by {
        if round2_public_packages[i].checksum != round2::input_checksum_spec(
            round1_public_packages,
        ) {
            lemma_round3_rejects_checksum_mismatch(
                secret,
                round2_secret_package,
                round1_public_packages,
                round2_public_packages,
                i,
            );
        }
        if round2_public_packages[i].recipient_identity != secret.identity() {
            lemma_round3_rejects_wrong_recipient(
                secret,
                round2_secret_package,
                round1_public_packages,
                round2_public_packages,
                i,
            );
        }
    }
    assert forall|i: int, j: int| 0 <= j < i < round2_public_packages.len() implies (
    #[trigger] round2_public_packages[i]).sender_identity != (
    #[trigger] round2_public_packages[j]).sender_identity by {
        if round2_public_packages[i].sender_identity == round2_public_packages[j].sender_identity {
            lemma_round3_rejects_duplicate_sender(
                secret,
                round2_secret_package,
                round1_public_packages,
                round2_public_packages,
                j,
                i,
            );
        }
    }
}

/// The shards that are read from the first `n` packages are the first `n`
/// of the shards that are read from all.
proof fn lemma_shards_prefix(
    packages: Seq<round1::PublicPackageView>,
    shards: Seq<Seq<u8>>,
    decryption_key: Seq<u8>,
    n: int,
)
    requires
        0 <= n <= packages.len(),
        shards.len() == packages.len(),
        forall|i: int|
            0 <= i < packages.len() ==> import_spec(
                decryption_key,
                (#[trigger] packages[i]).group_secret_key_shard_encrypted,
            ) == Some(shards[i]),
    ensures
        shards_prefix(packages, decryption_key, n) == Some(shards.take(n)),
    decreases n,
{
    if n > 0 {
        lemma_shards_prefix(packages, shards, decryption_key, n - 1);
        assert(import_spec(decryption_key, packages[n - 1].group_secret_key_shard_encrypted)
            == Some(shards[n - 1]));
        assert(shards.take(n) =~= shards.take(n - 1).push(shards[n - 1]));
    } else {
        assert(shards.take(0) =~= Seq::empty());
    }
}

/// Participants who read the same shards from the packages of round 1
/// derive the same group secret key: the combination of the shards.
pub proof fn lemma_group_secret_key_agreement(
    packages: Seq<round1::PublicPackageView>,
    shards: Seq<Seq<u8>>,
    decryption_key1: Seq<u8>,
    decryption_key2: Seq<u8>,
)
    requires
        shards.len() == packages.len(),
        forall|i: int|
            0 <= i < packages.len() ==> import_spec(
                decryption_key1,
                (#[trigger] packages[i]).group_secret_key_shard_encrypted,
            ) == Some(shards[i]),
        forall|i: int|
            0 <= i < packages.len() ==> import_spec(
                decryption_key2,
                (#[trigger] packages[i]).group_secret_key_shard_encrypted,
            ) == Some(shards[i]),
    ensures
        group_secret_key_spec(packages, decryption_key1) == Some(combine_spec(shards)),
        group_secret_key_spec(packages, decryption_key2) == Some(combine_spec(shards)),
{
    lemma_shards_prefix(packages, shards, decryption_key1, packages.len() as int);
    lemma_shards_prefix(packages, shards, decryption_key2, packages.len() as int);
    assert(shards.take(packages.len() as int) == shards);
}

} // verus!
