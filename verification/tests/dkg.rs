use frost_protocol::checksum::ChecksumError;
use frost_protocol::dkg::error::Error;
use frost_protocol::dkg::error::InvalidInput;
use frost_protocol::dkg::group_key::GroupSecretKeyShard;
use frost_protocol::dkg::round1;
use frost_protocol::dkg::round2;
use frost_protocol::dkg::round2::import_secret_package;
use frost_protocol::dkg::round3::round3;
use frost_protocol::error::DeserializationError;
use frost_protocol::participant::Identity;
use frost_protocol::participant::Secret;
use rand::thread_rng;
use rand::RngCore;

fn random_seed() -> [u8; 32] {
    let mut seed = [0u8; 32];
    thread_rng().fill_bytes(&mut seed);
    seed
}

fn random_secret() -> Secret {
    Secret::new(random_seed(), random_seed())
}

/// Runs rounds 1 and 2 for all participants. Returns, for each participant,
/// its round 2 secret package, and all public packages of both rounds.
fn run_two_rounds(
    secrets: &[Secret],
    min_signers: u16,
) -> (
    Vec<round2::SecretPackage>,
    Vec<round1::PublicPackage>,
    Vec<Vec<round2::PublicPackage>>,
) {
    let identities: Vec<Identity> = secrets.iter().map(|s| s.to_identity()).collect();
    let mut round1_secrets = Vec::new();
    let mut round1_packages = Vec::new();
    for (secret, identity) in secrets.iter().zip(&identities) {
        let (encrypted, package) =
            round1::round1(identity, min_signers, &identities, &random_seed())
                .expect("round 1 failed");
        round1_secrets.push(
            round1::import_secret_package(&encrypted, secret)
                .expect("secret package import failed"),
        );
        round1_packages.push(package);
    }
    let all_round1: Vec<&round1::PublicPackage> = round1_packages.iter().collect();
    let mut round2_secrets = Vec::new();
    let mut round2_packages = Vec::new();
    for ((secret, identity), round1_secret) in secrets.iter().zip(&identities).zip(&round1_secrets)
    {
        let (encrypted, packages) =
            round2::round2(identity, round1_secret, &all_round1, &random_seed())
                .expect("round 2 failed");
        round2_secrets.push(
            import_secret_package(&encrypted, secret)
                .expect("round 2 secret package import failed"),
        );
        round2_packages.push(packages);
    }
    (round2_secrets, round1_packages, round2_packages)
}

/// The round 2 packages that the others made for `recipient`.
fn packages_for<'a>(
    round2_packages: &'a [Vec<round2::PublicPackage>],
    recipient: &Identity,
) -> Vec<&'a round2::PublicPackage> {
    round2_packages
        .iter()
        .flatten()
        .filter(|p| p.recipient_identity().eq(recipient))
        .collect()
}

#[test]
fn test_round3_missing_round1_packages() {
    let secret1 = random_secret();
    let secret2 = random_secret();
    let identity1 = secret1.to_identity();
    let identity2 = secret2.to_identity();

    let (round1_secret_package_1, package1) =
        round1::round1(&identity1, 2, &[identity1, identity2], &random_seed())
            .expect("round 1 failed");

    let (round1_secret_package_2, package2) =
        round1::round1(&identity2, 2, &[identity1, identity2], &random_seed())
            .expect("round 1 failed");

    let round1_secret_package_1 =
        round1::import_secret_package(&round1_secret_package_1, &secret1)
            .expect("secret package import failed");
    let (encrypted_secret_package, _) = round2::round2(
        &identity1,
        &round1_secret_package_1,
        &[&package1, &package2],
        &random_seed(),
    )
    .expect("round 2 failed");

    let round1_secret_package_2 =
        round1::import_secret_package(&round1_secret_package_2, &secret2)
            .expect("secret package import failed");
    let (_, round2_public_packages_2) = round2::round2(
        &identity2,
        &round1_secret_package_2,
        &[&package1, &package2],
        &random_seed(),
    )
    .expect("round 2 failed");

    let round2_public_packages = [round2_public_packages_2
        .iter()
        .find(|p| p.recipient_identity().eq(&identity1))
        .expect("should have package for identity1")];

    let secret_package = import_secret_package(&encrypted_secret_package, &secret1)
        .expect("round 2 secret package import failed");

    let result = round3(
        &secret1,
        &secret_package,
        &[&package2],
        &round2_public_packages,
    );

    match result {
        Err(Error::InvalidInput(_)) => (),
        _ => panic!("dkg round3 should have failed with InvalidInput"),
    }
}

#[test]
fn test_round3_invalid_round1_checksum() {
    let secret1 = random_secret();
    let secret2 = random_secret();
    let identity1 = secret1.to_identity();
    let identity2 = secret2.to_identity();

    let (round1_secret_package_1, package1) =
        round1::round1(&identity1, 2, &[identity1, identity2], &random_seed())
            .expect("round 1 failed");

    let (round1_secret_package_2, package2) =
        round1::round1(&identity2, 2, &[identity1, identity2], &random_seed())
            .expect("round 1 failed");

    let round1_secret_package_1 =
        round1::import_secret_package(&round1_secret_package_1, &secret1)
            .expect("secret package import failed");
    let (encrypted_secret_package, _) = round2::round2(
        &identity1,
        &round1_secret_package_1,
        &[&package1, &package2],
        &random_seed(),
    )
    .expect("round 2 failed");

    let round1_secret_package_2 =
        round1::import_secret_package(&round1_secret_package_2, &secret2)
            .expect("secret package import failed");
    let (_, round2_public_packages_2) = round2::round2(
        &identity2,
        &round1_secret_package_2,
        &[&package1, &package2],
        &random_seed(),
    )
    .expect("round 2 failed");

    let round2_public_packages = [round2_public_packages_2
        .iter()
        .find(|p| p.recipient_identity().eq(&identity1))
        .expect("should have package for identity1")];

    let secret_package = import_secret_package(&encrypted_secret_package, &secret1)
        .expect("round 2 secret package import failed");

    let result = round3(
        &secret1,
        &secret_package,
        &[&package1, &package1],
        &round2_public_packages,
    );

    match result {
        Err(Error::ChecksumError(_)) => (),
        _ => panic!("dkg round3 should have failed with ChecksumError"),
    }
}

#[test]
fn test_round3() {
    let secret1 = random_secret();
    let secret2 = random_secret();
    let secret3 = random_secret();
    let identity1 = secret1.to_identity();
    let identity2 = secret2.to_identity();
    let identity3 = secret3.to_identity();

    let (round1_secret_package_1, package1) = round1::round1(
        &identity1,
        2,
        &[identity1, identity2, identity3],
        &random_seed(),
    )
    .expect("round 1 failed");

    let (round1_secret_package_2, package2) = round1::round1(
        &identity2,
        2,
        &[identity1, identity2, identity3],
        &random_seed(),
    )
    .expect("round 1 failed");

    let (round1_secret_package_3, package3) = round1::round1(
        &identity3,
        2,
        &[identity1, identity2, identity3],
        &random_seed(),
    )
    .expect("round 1 failed");

    let round1_secret_package_1 =
        round1::import_secret_package(&round1_secret_package_1, &secret1)
            .expect("secret package import failed");
    let (encrypted_secret_package, _) = round2::round2(
        &identity1,
        &round1_secret_package_1,
        &[&package1, &package2, &package3],
        &random_seed(),
    )
    .expect("round 2 failed");

    let round1_secret_package_2 =
        round1::import_secret_package(&round1_secret_package_2, &secret2)
            .expect("secret package import failed");
    let (_, round2_public_packages_2) = round2::round2(
        &identity2,
        &round1_secret_package_2,
        &[&package1, &package2, &package3],
        &random_seed(),
    )
    .expect("round 2 failed");

    let round1_secret_package_3 =
        round1::import_secret_package(&round1_secret_package_3, &secret3)
            .expect("secret package import failed");
    let (_, round2_public_packages_3) = round2::round2(
        &identity3,
        &round1_secret_package_3,
        &[&package1, &package2, &package3],
        &random_seed(),
    )
    .expect("round 2 failed");

    let round2_public_packages = [
        round2_public_packages_2
            .iter()
            .find(|p| p.recipient_identity().eq(&identity1))
            .expect("should have package for identity1"),
        round2_public_packages_3
            .iter()
            .find(|p| p.recipient_identity().eq(&identity1))
            .expect("should have package for identity1"),
    ];

    let secret_package = import_secret_package(&encrypted_secret_package, &secret1)
        .expect("round 2 secret package import failed");

    round3(
        &secret1,
        &secret_package,
        &[&package1, &package2, &package3],
        &round2_public_packages,
    )
    .expect("round 3 failed");
}

#[test]
fn all_participants_derive_the_same_keys() {
    for (min_signers, max_signers) in [(2u16, 2usize), (2, 3), (3, 3), (3, 5)] {
        let secrets: Vec<Secret> = (0..max_signers).map(|_| random_secret()).collect();
        let (round2_secrets, round1_packages, round2_packages) =
            run_two_rounds(&secrets, min_signers);
        let all_round1: Vec<&round1::PublicPackage> = round1_packages.iter().collect();

        let mut results = Vec::new();
        for (secret, round2_secret) in secrets.iter().zip(&round2_secrets) {
            let received = packages_for(&round2_packages, &secret.to_identity());
            assert_eq!(received.len(), max_signers - 1);
            results.push(
                round3(secret, round2_secret, &all_round1, &received).expect("round 3 failed"),
            );
        }
        for (key_package, public_key_package, group_secret_key) in &results[1..] {
            assert_eq!(*group_secret_key, results[0].2);
            assert_eq!(public_key_package.bytes, results[0].1.bytes);
            assert_ne!(key_package.bytes, results[0].0.bytes);
        }

        // In whatever order a participant lists what it was sent.
        let mut reversed_round1 = all_round1.clone();
        reversed_round1.reverse();
        let mut reversed_round2 = packages_for(&round2_packages, &secrets[0].to_identity());
        reversed_round2.reverse();
        let again = round3(
            &secrets[0],
            &round2_secrets[0],
            &reversed_round1,
            &reversed_round2,
        )
        .expect("round 3 failed");
        assert_eq!(again, results[0]);
    }
}

#[test]
fn round1_rejects_what_the_primitive_rejects() {
    let secret1 = random_secret();
    let secret2 = random_secret();
    let identities = [secret1.to_identity(), secret2.to_identity()];
    for min_signers in [0u16, 1, 3] {
        match round1::round1(&identities[0], min_signers, &identities, &random_seed()) {
            Err(Error::FrostError(_)) => (),
            _ => panic!("round 1 should have failed with FrostError"),
        }
    }
    match round1::round1(&identities[0], 2, &[identities[0]], &random_seed()) {
        Err(Error::FrostError(_)) => (),
        _ => panic!("round 1 should have failed with FrostError"),
    }
}

#[test]
fn round1_needs_the_caller_among_the_participants() {
    let identity = random_secret().to_identity();
    let others = [random_secret().to_identity(), random_secret().to_identity()];
    assert_eq!(
        round1::round1(&identity, 2, &others, &random_seed()).err(),
        Some(Error::InvalidInput(InvalidInput::MissingSelfIdentity))
    );
}

#[test]
fn round1_is_a_function_of_its_arguments() {
    let secret = random_secret();
    let identity = secret.to_identity();
    let other = random_secret().to_identity();
    let seed = random_seed();
    let first = round1::round1(&identity, 2, &[identity, other], &seed).expect("round 1 failed");
    let again = round1::round1(&identity, 2, &[other, identity, other], &seed)
        .expect("round 1 failed");
    assert_eq!(first, again);
    let fresh =
        round1::round1(&identity, 2, &[identity, other], &random_seed()).expect("round 1 failed");
    assert_ne!(first.0, fresh.0);
    assert_ne!(first.1, fresh.1);
    assert_eq!(first.1.checksum(), fresh.1.checksum());
    assert_eq!(
        first.1.checksum(),
        round1::input_checksum(2, &[other, identity])
    );
    assert_ne!(
        first.1.checksum(),
        round1::input_checksum(3, &[other, identity])
    );
    assert_eq!(*first.1.identity(), identity);
}

#[test]
fn round1_secret_package_is_for_its_owner_only() {
    let secret = random_secret();
    let identity = secret.to_identity();
    let other_secret = random_secret();
    let other = other_secret.to_identity();
    let (encrypted, _) =
        round1::round1(&identity, 2, &[identity, other], &random_seed()).expect("round 1 failed");
    assert!(round1::import_secret_package(&encrypted, &secret).is_ok());
    assert!(round1::import_secret_package(&encrypted, &other_secret).err()
        == Some(Error::DecryptionError));
    let mut tampered = encrypted.clone();
    let last = tampered.len() - 1;
    tampered[last] ^= 1;
    assert!(round1::import_secret_package(&tampered, &secret).err() == Some(Error::DecryptionError));
}

#[test]
fn round1_shard_is_readable_by_every_participant() {
    let secrets = [random_secret(), random_secret(), random_secret()];
    let identities: Vec<Identity> = secrets.iter().map(|s| s.to_identity()).collect();
    let (_, package) =
        round1::round1(&identities[1], 2, &identities, &random_seed()).expect("round 1 failed");
    let shard = match package.group_secret_key_shard(&secrets[0]) {
        Ok(shard) => shard,
        Err(_) => panic!("cannot decrypt shard"),
    };
    assert!(package.group_secret_key_shard(&secrets[1]) == Ok(shard));
    assert!(package.group_secret_key_shard(&secrets[2]) == Ok(shard));
    assert!(package.group_secret_key_shard(&random_secret()) == Err(Error::DecryptionError));
}

#[test]
fn round2_makes_one_package_for_each_other_participant() {
    let secrets = [random_secret(), random_secret(), random_secret()];
    let identities: Vec<Identity> = secrets.iter().map(|s| s.to_identity()).collect();
    let (_, round1_packages, round2_packages) = run_two_rounds(&secrets, 2);
    let all_round1: Vec<&round1::PublicPackage> = round1_packages.iter().collect();
    let expected_checksum = round2::input_checksum(&all_round1);
    for (sender, packages) in identities.iter().zip(&round2_packages) {
        assert_eq!(packages.len(), 2);
        for package in packages {
            assert_eq!(package.sender_identity(), sender);
            assert_ne!(package.recipient_identity(), sender);
            assert!(identities.contains(package.recipient_identity()));
            assert_eq!(package.checksum(), expected_checksum);
        }
        assert_ne!(
            packages[0].recipient_identity(),
            packages[1].recipient_identity()
        );
    }
    let mut reordered = all_round1.clone();
    reordered.rotate_left(1);
    reordered.push(all_round1[0]);
    assert_eq!(round2::input_checksum(&reordered), expected_checksum);
    assert_ne!(round2::input_checksum(&all_round1[1..]), expected_checksum);
}

#[test]
fn round2_rejects_inconsistent_round1_packages() {
    let secrets = [random_secret(), random_secret(), random_secret()];
    let identities: Vec<Identity> = secrets.iter().map(|s| s.to_identity()).collect();
    let (encrypted, package1) =
        round1::round1(&identities[0], 2, &identities, &random_seed()).expect("round 1 failed");
    let (_, package2) =
        round1::round1(&identities[1], 2, &identities, &random_seed()).expect("round 1 failed");
    let (_, package3) =
        round1::round1(&identities[2], 2, &identities, &random_seed()).expect("round 1 failed");
    // The third participant believes that three signers are needed.
    let (_, package3_other) =
        round1::round1(&identities[2], 3, &identities, &random_seed()).expect("round 1 failed");
    let secret_package =
        round1::import_secret_package(&encrypted, &secrets[0]).expect("import failed");

    let run = |packages: &[&round1::PublicPackage]| {
        round2::round2(&identities[0], &secret_package, packages, &random_seed()).err()
    };
    assert_eq!(run(&[&package1, &package2, &package3]), None);
    assert_eq!(
        run(&[&package1, &package2, &package3_other]),
        Some(Error::ChecksumError(ChecksumError::DkgPublicPackageError))
    );
    assert_eq!(
        run(&[&package1, &package2]),
        Some(Error::InvalidInput(
            InvalidInput::WrongNumberOfPublicPackages
        ))
    );
    assert_eq!(
        run(&[&package1, &package2, &package2]),
        Some(Error::ChecksumError(ChecksumError::DkgPublicPackageError))
    );
}

#[test]
fn round3_rejects_a_round2_package_of_another_session() {
    let secrets = [random_secret(), random_secret(), random_secret()];
    let (round2_secrets, round1_packages, round2_packages) = run_two_rounds(&secrets, 2);
    let all_round1: Vec<&round1::PublicPackage> = round1_packages.iter().collect();
    let mut received = packages_for(&round2_packages, &secrets[0].to_identity());

    // A session of the first two participants only.
    let (_, _, smaller_session) = run_two_rounds(&secrets[..2], 2);
    let stale = packages_for(&smaller_session, &secrets[0].to_identity());
    assert_eq!(stale.len(), 1);
    assert_eq!(stale[0].sender_identity(), received[0].sender_identity());
    received[0] = stale[0];

    assert_eq!(
        round3(&secrets[0], &round2_secrets[0], &all_round1, &received).err(),
        Some(Error::ChecksumError(ChecksumError::DkgPublicPackageError))
    );
}

#[test]
fn round3_rejects_a_tampered_checksum() {
    // A, B and C generate a key of which two can sign.
    let secrets = [random_secret(), random_secret(), random_secret()];
    let (round2_secrets, round1_packages, round2_packages) = run_two_rounds(&secrets, 2);
    let all_round1: Vec<&round1::PublicPackage> = round1_packages.iter().collect();
    let a = secrets[0].to_identity();
    let c = secrets[2].to_identity();

    // C tampers with the checksum of its package for A.
    let from_c = round2_packages[2]
        .iter()
        .find(|p| p.recipient_identity().eq(&a))
        .expect("should have package for A");
    let tampered = round2::PublicPackage::new(
        c,
        a,
        from_c.frost_package().clone(),
        from_c.checksum() ^ 1,
    );
    let from_b = round2_packages[1]
        .iter()
        .find(|p| p.recipient_identity().eq(&a))
        .expect("should have package for A");

    let result = round3(
        &secrets[0],
        &round2_secrets[0],
        &all_round1,
        &[from_b, &tampered],
    );
    assert_eq!(
        result.err(),
        Some(Error::ChecksumError(ChecksumError::DkgPublicPackageError))
    );
    let result = round3(
        &secrets[0],
        &round2_secrets[0],
        &all_round1,
        &[&tampered, from_b],
    );
    assert_eq!(
        result.err(),
        Some(Error::ChecksumError(ChecksumError::DkgPublicPackageError))
    );
    assert!(round3(
        &secrets[0],
        &round2_secrets[0],
        &all_round1,
        &[from_b, from_c]
    )
    .is_ok());
}

#[test]
fn round3_rejects_a_package_for_another_recipient() {
    let secrets = [random_secret(), random_secret(), random_secret()];
    let (round2_secrets, round1_packages, round2_packages) = run_two_rounds(&secrets, 2);
    let all_round1: Vec<&round1::PublicPackage> = round1_packages.iter().collect();
    let mut received = packages_for(&round2_packages, &secrets[0].to_identity());
    let for_another = packages_for(&round2_packages, &secrets[1].to_identity());
    received[1] = for_another[1];

    assert_eq!(
        round3(&secrets[0], &round2_secrets[0], &all_round1, &received).err(),
        Some(Error::InvalidInput(InvalidInput::WrongRecipient))
    );
}

#[test]
fn round3_rejects_two_packages_of_one_sender() {
    let secrets = [random_secret(), random_secret(), random_secret()];
    let (round2_secrets, round1_packages, round2_packages) = run_two_rounds(&secrets, 2);
    let all_round1: Vec<&round1::PublicPackage> = round1_packages.iter().collect();
    let received = packages_for(&round2_packages, &secrets[0].to_identity());

    assert_eq!(
        round3(
            &secrets[0],
            &round2_secrets[0],
            &all_round1,
            &[received[0], received[0]]
        )
        .err(),
        Some(Error::InvalidInput(InvalidInput::DuplicateSender))
    );
    assert_eq!(
        round3(
            &secrets[0],
            &round2_secrets[0],
            &all_round1,
            &[received[0], received[1], received[0]]
        )
        .err(),
        Some(Error::InvalidInput(InvalidInput::DuplicateSender))
    );
}

#[test]
fn round3_rejects_a_wrong_number_of_packages() {
    let secrets = [random_secret(), random_secret(), random_secret()];
    let (round2_secrets, round1_packages, round2_packages) = run_two_rounds(&secrets, 2);
    let all_round1: Vec<&round1::PublicPackage> = round1_packages.iter().collect();
    let received = packages_for(&round2_packages, &secrets[0].to_identity());

    assert_eq!(
        round3(&secrets[0], &round2_secrets[0], &all_round1, &received[..1]).err(),
        Some(Error::InvalidInput(InvalidInput::PackageCountMismatch))
    );
    assert_eq!(
        round3(&secrets[0], &round2_secrets[0], &all_round1, &[]).err(),
        Some(Error::InvalidInput(InvalidInput::PackageCountMismatch))
    );
    assert_eq!(
        round3(
            &secrets[0],
            &round2_secrets[0],
            &all_round1[..2],
            &received
        )
        .err(),
        Some(Error::InvalidInput(
            InvalidInput::WrongNumberOfPublicPackages
        ))
    );
}

#[test]
fn round3_rejects_round1_packages_without_the_callers_own() {
    let secrets = [random_secret(), random_secret(), random_secret()];
    let (round2_secrets, round1_packages, round2_packages) = run_two_rounds(&secrets, 2);
    let received = packages_for(&round2_packages, &secrets[0].to_identity());
    // The packages of the others, and of a stranger who names the same
    // participants.
    let stranger = random_secret();
    let identities: Vec<Identity> = secrets.iter().map(|s| s.to_identity()).collect();
    let mut named = identities.clone();
    named.push(stranger.to_identity());
    let (_, strange_package) = round1::round1(&stranger.to_identity(), 2, &named, &random_seed())
        .expect("round 1 failed");
    let result = round3(
        &secrets[0],
        &round2_secrets[0],
        &[&round1_packages[1], &round1_packages[2], &strange_package],
        &received,
    );
    match result {
        Err(Error::ChecksumError(_)) | Err(Error::InvalidInput(_)) => (),
        _ => panic!("round 3 should have failed"),
    }
}

#[test]
fn round3_fails_with_a_secret_that_cannot_read_the_shards() {
    let secrets = [random_secret(), random_secret()];
    let (round2_secrets, round1_packages, round2_packages) = run_two_rounds(&secrets, 2);
    let all_round1: Vec<&round1::PublicPackage> = round1_packages.iter().collect();
    let received = packages_for(&round2_packages, &secrets[0].to_identity());
    // The same signing key with another decryption key: the identity differs.
    let result = round3(&random_secret(), &round2_secrets[0], &all_round1, &received);
    assert_eq!(
        result.err(),
        Some(Error::InvalidInput(InvalidInput::MissingOwnPublicPackage))
    );
}

#[test]
fn shards_combine_by_exclusive_or() {
    let a = GroupSecretKeyShard::new([0x0f; 32]);
    let b = GroupSecretKeyShard::new([0x35; 32]);
    let mut c_bytes = [0u8; 32];
    c_bytes[0] = 0xff;
    c_bytes[31] = 0x01;
    let c = GroupSecretKeyShard::new(c_bytes);

    assert_eq!(GroupSecretKeyShard::combine(&[]), [0u8; 32]);
    assert_eq!(GroupSecretKeyShard::combine(&[a]), [0x0f; 32]);
    assert_eq!(GroupSecretKeyShard::combine(&[a, b]), [0x3a; 32]);
    let mut expected = [0x3a; 32];
    expected[0] = 0xc5;
    expected[31] = 0x3b;
    assert_eq!(GroupSecretKeyShard::combine(&[a, b, c]), expected);
    assert_eq!(GroupSecretKeyShard::combine(&[c, a, b]), expected);
    assert_eq!(GroupSecretKeyShard::combine(&[b, c, a]), expected);
}

#[test]
fn shards_are_exported_for_their_recipients() {
    let secrets = [random_secret(), random_secret()];
    let identities = [secrets[0].to_identity(), secrets[1].to_identity()];
    let shard = GroupSecretKeyShard::new(random_seed());
    let exported = shard
        .export(&identities, &random_seed())
        .expect("export failed");
    assert!(GroupSecretKeyShard::import(&secrets[0], &exported) == Some(shard));
    assert!(GroupSecretKeyShard::import(&secrets[1], &exported) == Some(shard));
    assert!(GroupSecretKeyShard::import(&random_secret(), &exported).is_none());
}

#[test]
fn round1_public_package_round_trip() {
    let secrets = [random_secret(), random_secret()];
    let identities = [secrets[0].to_identity(), secrets[1].to_identity()];
    let (_, package) =
        round1::round1(&identities[0], 2, &identities, &random_seed()).expect("round 1 failed");
    let bytes = package.serialize();

    let frost_len = package.frost_package().len();
    let shard_len = package.group_secret_key_shard_encrypted().len();
    assert_eq!(bytes.len(), 129 + 8 + frost_len + 8 + shard_len + 8);
    assert_eq!(bytes[..129], identities[0].serialize()[..]);
    assert_eq!(bytes[129..137], (frost_len as u64).to_le_bytes()[..]);
    assert_eq!(bytes[137..137 + frost_len], package.frost_package()[..]);
    assert_eq!(
        bytes[137 + frost_len..145 + frost_len],
        (shard_len as u64).to_le_bytes()[..]
    );
    assert_eq!(
        bytes[145 + frost_len..145 + frost_len + shard_len],
        package.group_secret_key_shard_encrypted()[..]
    );
    assert_eq!(
        bytes[145 + frost_len + shard_len..],
        package.checksum().to_le_bytes()[..]
    );

    assert_eq!(
        round1::PublicPackage::deserialize_from(&bytes),
        Ok(package.clone())
    );
    let mut longer = bytes.clone();
    longer.extend_from_slice(b"more");
    assert_eq!(
        round1::PublicPackage::deserialize_from(&longer),
        Ok(package.clone())
    );
    for len in 0..bytes.len() {
        assert_eq!(
            round1::PublicPackage::deserialize_from(&bytes[..len]),
            Err(DeserializationError::UnexpectedEof)
        );
    }
    let mut tampered = bytes.clone();
    tampered[5] ^= 1;
    assert_eq!(
        round1::PublicPackage::deserialize_from(&tampered),
        Err(DeserializationError::InvalidIdentity)
    );
    let mut too_long = bytes.clone();
    too_long[136] = 0xff;
    assert_eq!(
        round1::PublicPackage::deserialize_from(&too_long),
        Err(DeserializationError::UnexpectedEof)
    );
}

#[test]
fn round2_public_package_round_trip() {
    let secrets = [random_secret(), random_secret()];
    let (_, _, round2_packages) = run_two_rounds(&secrets, 2);
    let package = &round2_packages[0][0];
    let bytes = package.serialize();

    let frost_len = package.frost_package().len();
    assert_eq!(bytes.len(), 129 + 129 + 8 + frost_len + 8);
    assert_eq!(bytes[..129], secrets[0].to_identity().serialize()[..]);
    assert_eq!(bytes[129..258], secrets[1].to_identity().serialize()[..]);
    assert_eq!(bytes[258..266], (frost_len as u64).to_le_bytes()[..]);
    assert_eq!(bytes[266..266 + frost_len], package.frost_package()[..]);
    assert_eq!(bytes[266 + frost_len..], package.checksum().to_le_bytes()[..]);

    assert_eq!(
        round2::PublicPackage::deserialize_from(&bytes),
        Ok(package.clone())
    );
    for len in 0..bytes.len() {
        assert_eq!(
            round2::PublicPackage::deserialize_from(&bytes[..len]),
            Err(DeserializationError::UnexpectedEof)
        );
    }
    let mut wrong_version = bytes.clone();
    wrong_version[129] = 0;
    assert_eq!(
        round2::PublicPackage::deserialize_from(&wrong_version),
        Err(DeserializationError::UnsupportedVersion)
    );
}

#[test]
fn secret_packages_round_trip() {
    let secrets = [random_secret(), random_secret()];
    let identities = [secrets[0].to_identity(), secrets[1].to_identity()];
    let (encrypted, _) =
        round1::round1(&identities[0], 2, &identities, &random_seed()).expect("round 1 failed");
    let package =
        round1::import_secret_package(&encrypted, &secrets[0]).expect("import failed");
    assert_eq!(package.min_signers(), 2);
    assert_eq!(package.max_signers(), 2);
    assert!(
        round1::SecretPackage::deserialize(package.serialize().clone()) == Some(package.clone())
    );
    assert!(round1::SecretPackage::deserialize(vec![1, 2, 3]).is_none());
    assert!(round2::SecretPackage::deserialize(vec![1, 2, 3]).is_none());

    let (round2_secrets, _, _) = run_two_rounds(&secrets, 2);
    assert_eq!(
        round2::get_secret_package_signers(&round2_secrets[0]),
        (2, 2)
    );
    assert!(
        round2::SecretPackage::deserialize(round2_secrets[0].serialize().clone())
            == Some(round2_secrets[0].clone())
    );
}

#[test]
fn round2_refuses_payloads_that_are_not_the_primitives_own() {
    let secrets = [random_secret(), random_secret(), random_secret()];
    let identities: Vec<Identity> = secrets.iter().map(|s| s.to_identity()).collect();
    let (encrypted, package1) =
        round1::round1(&identities[0], 2, &identities, &random_seed()).expect("round 1 failed");
    let (_, package2) =
        round1::round1(&identities[1], 2, &identities, &random_seed()).expect("round 1 failed");
    let (_, package3) =
        round1::round1(&identities[2], 2, &identities, &random_seed()).expect("round 1 failed");
    let secret_package =
        round1::import_secret_package(&encrypted, &secrets[0]).expect("import failed");
    let with_payload = |payload: Vec<u8>| {
        round1::PublicPackage::from_parts(
            *package2.identity(),
            payload,
            package2.group_secret_key_shard_encrypted().clone(),
            package2.checksum(),
        )
    };
    let run = |package: &round1::PublicPackage| {
        round2::round2(
            &identities[0],
            &secret_package,
            &[&package1, package, &package3],
            &random_seed(),
        )
        .err()
    };

    assert_eq!(run(&with_payload(package2.frost_package().clone())), None);

    // The primitive decodes the longer payload to the same package.
    let mut longer = package2.frost_package().clone();
    longer.push(0);
    assert_eq!(
        run(&with_payload(longer)),
        Some(Error::InvalidInput(InvalidInput::NonCanonicalPayload))
    );

    match run(&with_payload(vec![1, 2, 3])) {
        Some(Error::FrostError(_)) => (),
        _ => panic!("round 2 should have failed with FrostError"),
    }
    let mut shorter = package2.frost_package().clone();
    shorter.pop();
    match run(&with_payload(shorter)) {
        Some(Error::FrostError(_)) => (),
        _ => panic!("round 2 should have failed with FrostError"),
    }
}

#[test]
fn round3_refuses_payloads_that_are_not_the_primitives_own() {
    let secrets = [random_secret(), random_secret(), random_secret()];
    let (round2_secrets, round1_packages, round2_packages) = run_two_rounds(&secrets, 2);
    let all_round1: Vec<&round1::PublicPackage> = round1_packages.iter().collect();
    let received = packages_for(&round2_packages, &secrets[0].to_identity());
    let with_payload = |payload: Vec<u8>| {
        round2::PublicPackage::new(
            *received[0].sender_identity(),
            *received[0].recipient_identity(),
            payload,
            received[0].checksum(),
        )
    };
    let run = |package: &round2::PublicPackage| {
        round3(
            &secrets[0],
            &round2_secrets[0],
            &all_round1,
            &[package, received[1]],
        )
        .err()
    };

    assert_eq!(run(&with_payload(received[0].frost_package().clone())), None);

    // The primitive decodes the longer payload to the same package.
    let mut longer = received[0].frost_package().clone();
    longer.push(0);
    assert_eq!(
        run(&with_payload(longer)),
        Some(Error::InvalidInput(InvalidInput::NonCanonicalPayload))
    );

    match run(&with_payload(vec![1, 2, 3])) {
        Some(Error::FrostError(_)) => (),
        _ => panic!("round 3 should have failed with FrostError"),
    }
}
