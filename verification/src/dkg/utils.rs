//! What round 2 and round 3 do alike with the packages of round 1.

use crate::bytes::equal;
use crate::checksum::ChecksumError;
use crate::dkg::error::fails_with;
use crate::dkg::error::Error;
use crate::dkg::error::ErrorKind;
use crate::dkg::error::InvalidInput;
use crate::dkg::round1::input_checksum;
use crate::dkg::round1::input_checksum_spec;
use crate::dkg::round1::package_views;
use crate::dkg::round1::sender_bytes;
use crate::dkg::round1::PublicPackage;
use crate::dkg::round1::PublicPackageView;
use crate::frost::keys::dkg::spec_identifier;
use crate::frost::keys::dkg::canonical_round1_package;
use crate::frost::keys::dkg::read_round1_package;
use crate::frost::keys::dkg::spec_is_round1_entry;
use crate::frost::keys::dkg::spec_round1_package_read;
use crate::frost::keys::dkg::spec_round1_packages;
use crate::frost::keys::dkg::Round1Packages;
use crate::participant::identity_bytes;
use crate::participant::Identity;
use crate::participant::IdentityView;
use vstd::prelude::*;

verus! {

/// What a [`Sender`] is made of.
pub struct SenderView {
    pub identifier: Seq<u8>,
    pub identity: IdentityView,
}

/// A participant whose package was accepted, with the identifier that the
/// primitive knows the participant by.
#[derive(Clone, Copy, Debug, PartialEq, Eq)]
pub struct Sender {
    pub identifier: [u8; 32],
    pub identity: Identity,
}

impl View for Sender {
    type V = SenderView;

    open spec fn view(&self) -> SenderView {
        SenderView { identifier: self.identifier@, identity: self.identity@ }
    }
}

/// The views of a list of senders.
pub open spec fn sender_views(senders: Seq<Sender>) -> Seq<SenderView> {
    Seq::new(senders.len(), |i: int| senders[i]@)
}

/// The senders of a list of packages, each with its identifier.
pub open spec fn senders_spec(packages: Seq<PublicPackageView>) -> Seq<SenderView> {
    Seq::new(
        packages.len(),
        |i: int|
            SenderView {
                identifier: spec_identifier(packages[i].identity.serialize())->Some_0,
                identity: packages[i].identity,
            },
    )
}

/// The identity of the first sender with an identifier.
pub open spec fn lookup(senders: Seq<SenderView>, identifier: Seq<u8>) -> Option<IdentityView>
    decreases senders.len(),
{
    if senders.len() == 0 {
        None
    } else if senders[0].identifier == identifier {
        Some(senders[0].identity)
    } else {
        lookup(senders.drop_first(), identifier)
    }
}

/// A sender is found exactly if some sender has the identifier.
pub proof fn lemma_lookup(senders: Seq<SenderView>, identifier: Seq<u8>)
    ensures
        lookup(senders, identifier) is Some <==> exists|j: int|
            0 <= j < senders.len() && (#[trigger] senders[j]).identifier == identifier,
    decreases senders.len(),
{
    if senders.len() > 0 {
        let rest = senders.drop_first();
        lemma_lookup(rest, identifier);
        if senders[0].identifier != identifier {
            if exists|j: int| 0 <= j < senders.len() && (#[trigger] senders[j]).identifier == identifier {
                let j = choose|j: int|
                    0 <= j < senders.len() && (#[trigger] senders[j]).identifier == identifier;
                assert(rest[j - 1].identifier == identifier);
            }
            if exists|j: int| 0 <= j < rest.len() && (#[trigger] rest[j]).identifier == identifier {
                let j = choose|j: int|
                    0 <= j < rest.len() && (#[trigger] rest[j]).identifier == identifier;
                assert(senders[j + 1].identifier == identifier);
            }
        } else {
            assert(senders[0].identifier == identifier);
        }
    }
}

/// The sender that is found has the identifier.
pub proof fn lemma_lookup_found(senders: Seq<SenderView>, identifier: Seq<u8>)
    requires
        lookup(senders, identifier) is Some,
    ensures
        exists|j: int|
            0 <= j < senders.len() && (#[trigger] senders[j]).identifier == identifier
                && senders[j].identity == lookup(senders, identifier)->Some_0,
    decreases senders.len(),
{
    if senders[0].identifier == identifier {
        assert(senders[0].identity == lookup(senders, identifier)->Some_0);
    } else {
        let rest = senders.drop_first();
        lemma_lookup_found(rest, identifier);
        let j = choose|j: int|
            0 <= j < rest.len() && (#[trigger] rest[j]).identifier == identifier
                && rest[j].identity == lookup(rest, identifier)->Some_0;
        assert(senders[j + 1].identifier == identifier);
    }
}

/// Finds the identity of the first sender with an identifier.
pub fn find_sender(senders: &Vec<Sender>, identifier: &[u8; 32]) -> (r: Option<Identity>)
    ensures
        match r {
            Some(identity) => lookup(sender_views(senders@), identifier@) == Some(identity@),
            None => lookup(sender_views(senders@), identifier@) is None,
        },
{
    let ghost all = sender_views(senders@);
    let mut i: usize = 0;
    assert(all.skip(0) == all);
    while i < senders.len()
        invariant
            i <= senders.len(),
            all == sender_views(senders@),
            lookup(all, identifier@) == lookup(all.skip(i as int), identifier@),
        decreases senders.len() - i,
    {
        assert(all.skip(i as int).drop_first() == all.skip(i + 1));
        assert(all.skip(i as int)[0] == senders[i as int]@);
        if equal(&senders[i].identifier, identifier) {
            return Some(senders[i].identity);
        }
        i += 1;
    }
    None
}

/// What a round 1 package adds to the packages that were accepted before it,
/// or why it is refused: for a checksum that is not the expected one, for a
/// sender without identifier, for a sender that was seen before, for a
/// payload that the primitive cannot read, or for a payload that bytes
/// follow which are no part of the primitive's package.
pub open spec fn round1_step(
    accepted: Map<Seq<u8>, Seq<u8>>,
    package: PublicPackageView,
    expected_checksum: u64,
) -> Result<Map<Seq<u8>, Seq<u8>>, ErrorKind> {
    if package.checksum != expected_checksum {
        Err(ErrorKind::ChecksumError(ChecksumError::DkgPublicPackageError))
    } else {
        match spec_identifier(package.identity.serialize()) {
            None => Err(ErrorKind::InvalidInput(InvalidInput::UnusableIdentity)),
            Some(identifier) => if accepted.contains_key(identifier) {
                Err(ErrorKind::InvalidInput(InvalidInput::DuplicateSender))
            } else if spec_round1_package_read(package.frost_package) is None {
                Err(ErrorKind::FrostError)
            } else if !canonical_round1_package(package.frost_package) {
                Err(ErrorKind::InvalidInput(InvalidInput::NonCanonicalPayload))
            } else if !spec_is_round1_entry(identifier, package.frost_package) {
                Err(ErrorKind::FrostError)
            } else {
                Ok(accepted.insert(identifier, package.frost_package))
            },
        }
    }
}

/// What the first `n` packages add up to, or why the first of them that is
/// refused is refused.
pub open spec fn round1_prefix(
    packages: Seq<PublicPackageView>,
    expected_checksum: u64,
    n: int,
) -> Result<Map<Seq<u8>, Seq<u8>>, ErrorKind>
    decreases n,
{
    if n <= 0 {
        Ok(Map::empty())
    } else {
        match round1_prefix(packages, expected_checksum, n - 1) {
            Err(e) => Err(e),
            Ok(accepted) => round1_step(accepted, packages[n - 1], expected_checksum),
        }
    }
}

/// The primitive's round 1 packages by the sender's identifier, as they are
/// found in the public packages of a key generation with these signer
/// counts; or why the public packages are refused. The checksum that every
/// package must carry is that of `min_signers` and the senders.
pub open spec fn build_round1_spec(
    packages: Seq<PublicPackageView>,
    min_signers: u16,
    max_signers: u16,
) -> Result<Map<Seq<u8>, Seq<u8>>, ErrorKind> {
    if packages.len() != max_signers {
        Err(ErrorKind::InvalidInput(InvalidInput::WrongNumberOfPublicPackages))
    } else {
        round1_prefix(
            packages,
            input_checksum_spec(min_signers, sender_bytes(packages)),
            packages.len() as int,
        )
    }
}

/// Once a package is refused, the packages after it do not matter.
pub proof fn lemma_round1_prefix_err(
    packages: Seq<PublicPackageView>,
    expected_checksum: u64,
    i: int,
    n: int,
)
    requires
        0 <= i <= n,
        round1_prefix(packages, expected_checksum, i) is Err,
    ensures
        round1_prefix(packages, expected_checksum, n) == round1_prefix(
            packages,
            expected_checksum,
            i,
        ),
    decreases n - i,
{
    if i < n {
        lemma_round1_prefix_err(packages, expected_checksum, i, n - 1);
    }
}

/// The accepted packages come from exactly the senders of the packages.
pub proof fn lemma_round1_prefix_senders(
    packages: Seq<PublicPackageView>,
    expected_checksum: u64,
    n: int,
)
    requires
        0 <= n <= packages.len(),
        round1_prefix(packages, expected_checksum, n) is Ok,
    ensures
        forall|j: int|
            0 <= j < n ==> spec_identifier((#[trigger] packages[j]).identity.serialize()) is Some,
        forall|key: Seq<u8>|
            round1_prefix(packages, expected_checksum, n)->Ok_0.contains_key(key) <==> exists|
                j: int,
            |
                0 <= j < n && spec_identifier((#[trigger] packages[j]).identity.serialize())
                    == Some(key),
    decreases n,
{
    if n > 0 {
        lemma_round1_prefix_senders(packages, expected_checksum, n - 1);
        let before = round1_prefix(packages, expected_checksum, n - 1)->Ok_0;
        let after = round1_prefix(packages, expected_checksum, n)->Ok_0;
        let added = spec_identifier(packages[n - 1].identity.serialize())->Some_0;
        assert(after == before.insert(added, packages[n - 1].frost_package));
        assert forall|key: Seq<u8>| after.contains_key(key) <==> exists|j: int|
            0 <= j < n && spec_identifier((#[trigger] packages[j]).identity.serialize()) == Some(
                key,
            ) by {
            if after.contains_key(key) {
                if key == added {
                    assert(spec_identifier(packages[n - 1].identity.serialize()) == Some(key));
                } else {
                    assert(before.contains_key(key));
                    let j = choose|j: int|
                        0 <= j < n - 1 && spec_identifier(
                            (#[trigger] packages[j]).identity.serialize(),
                        ) == Some(key);
                    assert(spec_identifier(packages[j].identity.serialize()) == Some(key));
                }
            }
            if exists|j: int|
                0 <= j < n && spec_identifier((#[trigger] packages[j]).identity.serialize())
                    == Some(key) {
                let j = choose|j: int|
                    0 <= j < n && spec_identifier((#[trigger] packages[j]).identity.serialize())
                        == Some(key);
                if j < n - 1 {
                    assert(spec_identifier(packages[j].identity.serialize()) == Some(key));
                    assert(before.contains_key(key));
                }
            }
        }
    }
}

/// Every payload that is accepted is the serialization of the package that
/// it decodes to.
pub proof fn lemma_round1_prefix_canonical(
    packages: Seq<PublicPackageView>,
    expected_checksum: u64,
    n: int,
)
    requires
        0 <= n <= packages.len(),
        round1_prefix(packages, expected_checksum, n) is Ok,
    ensures
        forall|j: int|
            0 <= j < n ==> canonical_round1_package((#[trigger] packages[j]).frost_package),
    decreases n,
{
    if n > 0 {
        lemma_round1_prefix_canonical(packages, expected_checksum, n - 1);
    }
}

/// As many packages are accepted as were looked at.
pub proof fn lemma_round1_prefix_len(
    packages: Seq<PublicPackageView>,
    expected_checksum: u64,
    n: int,
)
    requires
        0 <= n <= packages.len(),
        round1_prefix(packages, expected_checksum, n) is Ok,
    ensures
        round1_prefix(packages, expected_checksum, n)->Ok_0.dom().finite(),
        round1_prefix(packages, expected_checksum, n)->Ok_0.dom().len() == n,
    decreases n,
{
    if n > 0 {
        lemma_round1_prefix_len(packages, expected_checksum, n - 1);
        let before = round1_prefix(packages, expected_checksum, n - 1)->Ok_0;
        let added = spec_identifier(packages[n - 1].identity.serialize())->Some_0;
        assert(round1_prefix(packages, expected_checksum, n)->Ok_0.dom() =~= before.dom().insert(
            added,
        ));
    } else {
        assert(round1_prefix(packages, expected_checksum, n)->Ok_0.dom() =~= Set::empty());
    }
}

/// The packages of round 1 are refused where one of them does not carry the
/// checksum of the signer count and the senders. Where their number is right
/// and the packages before it are accepted, they are refused with a checksum
/// error.
pub proof fn lemma_round1_rejects_checksum_mismatch(
    packages: Seq<PublicPackageView>,
    min_signers: u16,
    max_signers: u16,
    i: int,
)
    requires
        0 <= i < packages.len(),
        packages[i].checksum != input_checksum_spec(min_signers, sender_bytes(packages)),
    ensures
        build_round1_spec(packages, min_signers, max_signers) is Err,
        packages.len() == max_signers && round1_prefix(
            packages,
            input_checksum_spec(min_signers, sender_bytes(packages)),
            i,
        ) is Ok ==> fails_with(
            build_round1_spec(packages, min_signers, max_signers),
            ErrorKind::ChecksumError(ChecksumError::DkgPublicPackageError),
        ),
{
    let expected = input_checksum_spec(min_signers, sender_bytes(packages));
    let n = packages.len() as int;
    if round1_prefix(packages, expected, i) is Ok {
        lemma_round1_prefix_err(packages, expected, i + 1, n);
    } else {
        lemma_round1_prefix_err(packages, expected, i, n);
    }
}

/// Checks the public packages of round 1 and hands the primitive's packages
/// in them to a collection that the primitive can work with. Returns the
/// collection and the senders, in the order of the packages.
pub fn build_round1_frost_packages(
    round1_public_packages: &[&PublicPackage],
    min_signers: u16,
    max_signers: u16,
) -> (r: Result<(Vec<Sender>, Round1Packages), Error>)
    ensures
        match r {
            Ok((senders, frost_packages)) => {
                &&& build_round1_spec(
                    package_views(round1_public_packages@),
                    min_signers,
                    max_signers,
                ) matches Ok(accepted)
                &&& accepted == spec_round1_packages(frost_packages)
                &&& sender_views(senders@) == senders_spec(package_views(round1_public_packages@))
            },
            Err(e) => build_round1_spec(
                package_views(round1_public_packages@),
                min_signers,
                max_signers,
            ) matches Err(kind) && kind == e@,
        },
{
    let ghost packages = package_views(round1_public_packages@);
    let n = round1_public_packages.len();
    if n != max_signers as usize {
        return Err(Error::InvalidInput(InvalidInput::WrongNumberOfPublicPackages));
    }
    let mut identities: Vec<Identity> = Vec::new();
    let mut i: usize = 0;
    while i < n
        invariant
            i <= n,
            n == round1_public_packages.len(),
            packages == package_views(round1_public_packages@),
            identities.len() == i,
            forall|j: int| 0 <= j < i ==> (#[trigger] identities[j])@ == packages[j].identity,
        decreases n - i,
    {
        identities.push(*round1_public_packages[i].identity());
        i += 1;
    }
    assert(identity_bytes(identities@) =~= sender_bytes(packages));
    let expected_checksum = input_checksum(min_signers, identities.as_slice());

    let mut senders: Vec<Sender> = Vec::new();
    let mut frost_packages = Round1Packages::new();
    assert(spec_round1_packages(frost_packages) =~= Map::empty());
    let mut i: usize = 0;
    while i < n
        invariant
            i <= n,
            n == round1_public_packages.len(),
            packages == package_views(round1_public_packages@),
            senders.len() == i,
            n == max_signers,
            expected_checksum == input_checksum_spec(min_signers, sender_bytes(packages)),
            round1_prefix(packages, expected_checksum, i as int) == Ok::<
                Map<Seq<u8>, Seq<u8>>,
                ErrorKind,
            >(spec_round1_packages(frost_packages)),
            forall|j: int|
                0 <= j < i ==> (#[trigger] senders[j])@ == senders_spec(packages)[j]
                    && spec_identifier(packages[j].identity.serialize()) is Some,
        decreases n - i,
    {
        let public_package = round1_public_packages[i];
        proof {
            lemma_round1_prefix_senders(packages, expected_checksum, i as int);
        }
        if public_package.checksum() != expected_checksum {
            proof {
                lemma_round1_prefix_err(packages, expected_checksum, i + 1, n as int);
            }
            return Err(Error::ChecksumError(ChecksumError::DkgPublicPackageError));
        }
        let identity = *public_package.identity();
        let identifier = match identity.to_frost_identifier() {
            Some(identifier) => identifier,
            None => {
                proof {
                    lemma_round1_prefix_err(packages, expected_checksum, i + 1, n as int);
                }
                return Err(Error::InvalidInput(InvalidInput::UnusableIdentity));
            },
        };
        let seen = find_sender(&senders, &identifier);
        proof {
            lemma_lookup(sender_views(senders@), identifier@);
            if seen is Some {
                let j = choose|j: int|
                    0 <= j < senders.len() && (#[trigger] sender_views(
                        senders@,
                    )[j]).identifier == identifier@;
                assert(senders[j]@ == senders_spec(packages)[j]);
                assert(spec_identifier(packages[j].identity.serialize()) == Some(identifier@));
            } else {
                if spec_round1_packages(frost_packages).contains_key(identifier@) {
                    let j = choose|j: int|
                        0 <= j < i && spec_identifier(
                            (#[trigger] packages[j]).identity.serialize(),
                        ) == Some(identifier@);
                    assert(senders[j]@ == senders_spec(packages)[j]);
                    assert(sender_views(senders@)[j].identifier == identifier@);
                }
            }
        }
        if seen.is_some() {
            proof {
                lemma_round1_prefix_err(packages, expected_checksum, i + 1, n as int);
            }
            return Err(Error::InvalidInput(InvalidInput::DuplicateSender));
        }
        // The primitive decodes a payload without looking at what follows
        // the package. Only the package's own serialization stands for it.
        let canonical = match read_round1_package(public_package.frost_package().as_slice()) {
            Ok(canonical) => canonical,
            Err(e) => {
                proof {
                    lemma_round1_prefix_err(packages, expected_checksum, i + 1, n as int);
                }
                return Err(Error::FrostError(e));
            },
        };
        if !equal(canonical.as_slice(), public_package.frost_package().as_slice()) {
            proof {
                lemma_round1_prefix_err(packages, expected_checksum, i + 1, n as int);
            }
            return Err(Error::InvalidInput(InvalidInput::NonCanonicalPayload));
        }
        match frost_packages.insert(&identifier, public_package.frost_package().as_slice()) {
            Ok(_) => {},
            Err(e) => {
                proof {
                    lemma_round1_prefix_err(packages, expected_checksum, i + 1, n as int);
                }
                return Err(Error::FrostError(e));
            },
        }
        senders.push(Sender { identifier, identity });
        i += 1;
    }
    assert(sender_views(senders@) =~= senders_spec(packages));
    Ok((senders, frost_packages))
}

} // verus!
