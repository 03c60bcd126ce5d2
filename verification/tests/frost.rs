use frost_protocol::dkg::round1;
use frost_protocol::dkg::round2;
use frost_protocol::dkg::round3::round3;
use frost_protocol::frost::keys::KeyPackage;
use frost_protocol::frost::keys::PublicKeyPackage;
use frost_protocol::frost::keys::SigningShare;
use frost_protocol::frost::round1::NonceCommitment;
use frost_protocol::nonces::deterministic_signing_nonces;
use frost_protocol::participant::Identity;
use frost_protocol::participant::Secret;
use frost_protocol::signing_commitment::SigningCommitment;
use rand::thread_rng;
use rand::RngCore;
use reddsa::frost::redjubjub;
use std::collections::BTreeMap;

fn random_seed() -> [u8; 32] {
    let mut seed = [0u8; 32];
    thread_rng().fill_bytes(&mut seed);
    seed
}

fn random_secret() -> Secret {
    Secret::new(random_seed(), random_seed())
}

/// Runs the key generation for all participants.
fn generate_keys(secrets: &[Secret], min_signers: u16) -> Vec<(KeyPackage, PublicKeyPackage)> {
    let identities: Vec<Identity> = secrets.iter().map(|s| s.to_identity()).collect();
    let mut round1_secrets = Vec::new();
    let mut round1_packages = Vec::new();
    for (secret, identity) in secrets.iter().zip(&identities) {
        let (encrypted, package) =
            round1::round1(identity, min_signers, &identities, &random_seed())
                .expect("round 1 failed");
        round1_secrets.push(
            round1::import_secret_package(&encrypted, secret)
                .expect("secret package import failed"),
        );
        round1_packages.push(package);
    }
    let all_round1: Vec<&round1::PublicPackage> = round1_packages.iter().collect();
    let mut round2_secrets = Vec::new();
    let mut round2_packages = Vec::new();
    for ((secret, identity), round1_secret) in secrets.iter().zip(&identities).zip(&round1_secrets)
    {
        let (encrypted, packages) =
            round2::round2(identity, round1_secret, &all_round1, &random_seed())
                .expect("round 2 failed");
        round2_secrets.push(
            round2::import_secret_package(&encrypted, secret)
                .expect("round 2 secret package import failed"),
        );
        round2_packages.extend(packages);
    }
    let mut keys = Vec::new();
    for ((secret, identity), round2_secret) in secrets.iter().zip(&identities).zip(&round2_secrets)
    {
        let received: Vec<&round2::PublicPackage> = round2_packages
            .iter()
            .filter(|p| p.recipient_identity().eq(identity))
            .collect();
        let (key_package, public_key_package, _) =
            round3(secret, round2_secret, &all_round1, &received).expect("round 3 failed");
        keys.push((key_package, public_key_package));
    }
    keys
}

#[test]
fn identifier_is_derived_from_the_serialized_identity() {
    let identity = random_secret().to_identity();
    let expected = redjubjub::Identifier::derive(&identity.serialize())
        .expect("no identifier")
        .serialize();
    assert_eq!(
        identity.to_frost_identifier().expect("no identifier")[..],
        expected[..]
    );
    assert_ne!(
        identity.to_frost_identifier(),
        random_secret().to_identity().to_frost_identifier()
    );
}

#[test]
fn nonce_commitments_are_group_elements() {
    let nonces = deterministic_signing_nonces(&SigningShare::default(), b"tx", &[])
        .expect("no nonces");
    let hiding = nonces.commitments().hiding().serialize();
    assert_eq!(NonceCommitment::deserialize(hiding).map(|c| c.serialize()), Ok(hiding));
    assert!(redjubjub::round1::NonceCommitment::deserialize(&hiding).is_ok());
    // Neither the encoding of the identity nor bytes off the curve.
    let mut identity = [0u8; 32];
    identity[0] = 1;
    assert!(NonceCommitment::deserialize(identity).is_err());
    assert!(NonceCommitment::deserialize([0xff; 32]).is_err());
}

#[test]
fn commitments_belong_to_the_nonces() {
    let share = SigningShare::new([3u8; 32]);
    let signers = [random_secret().to_identity(), random_secret().to_identity()];
    let nonces = deterministic_signing_nonces(&share, b"tx", &signers).expect("no nonces");
    assert_ne!(nonces.hiding(), nonces.binding());

    let hiding = redjubjub::frost::round1::Nonce::deserialize(&nonces.hiding()).expect("no nonce");
    let binding =
        redjubjub::frost::round1::Nonce::deserialize(&nonces.binding()).expect("no nonce");
    let rebuilt = redjubjub::round1::SigningNonces::from_nonces(hiding, binding);
    assert_eq!(
        rebuilt.commitments().hiding().serialize().expect("no bytes")[..],
        nonces.commitments().hiding().serialize()[..]
    );
    assert_eq!(
        rebuilt.commitments().binding().serialize().expect("no bytes")[..],
        nonces.commitments().binding().serialize()[..]
    );

    let again = deterministic_signing_nonces(&share, b"tx", &[signers[1], signers[0]])
        .expect("no nonces");
    assert!(again == nonces);
    let other = deterministic_signing_nonces(&share, b"other tx", &signers).expect("no nonces");
    assert!(other != nonces);
    let fewer = deterministic_signing_nonces(&share, b"tx", &signers[..1]).expect("no nonces");
    assert!(fewer != nonces);
}

#[test]
fn secret_packages_that_the_primitive_cannot_work_with_are_refused() {
    let mut rng = thread_rng();
    let identifier = redjubjub::Identifier::derive(b"someone").expect("no identifier");
    let (secret, _) =
        redjubjub::keys::dkg::part1(identifier, 3, 2, &mut rng).expect("part 1 failed");
    let bytes = secret.serialize().expect("no bytes");
    let package = round1::SecretPackage::deserialize(bytes).expect("refused");
    assert_eq!(package.min_signers(), 2);
    assert_eq!(package.max_signers(), 3);

    let hollow = redjubjub::keys::dkg::round1::SecretPackage::new(
        identifier,
        Vec::new(),
        secret.commitment().clone(),
        2,
        3,
    );
    assert!(round1::SecretPackage::deserialize(hollow.serialize().expect("no bytes")).is_none());

    // A package that counts no signers: the counts are the last two bytes.
    let mut bytes = secret.serialize().expect("no bytes");
    let last = bytes.len() - 1;
    assert_eq!(bytes[last], 3);
    bytes[last] = 0;
    assert!(round1::SecretPackage::deserialize(bytes).is_none());
}

#[test]
fn generated_keys_sign() {
    let secrets = [random_secret(), random_secret(), random_secret()];
    let keys = generate_keys(&secrets, 2);
    let identities: Vec<Identity> = secrets.iter().map(|s| s.to_identity()).collect();

    let key_packages: Vec<redjubjub::keys::KeyPackage> = keys
        .iter()
        .map(|(k, _)| redjubjub::keys::KeyPackage::deserialize(&k.bytes).expect("no key package"))
        .collect();
    let public_key_package = redjubjub::keys::PublicKeyPackage::deserialize(&keys[0].1.bytes)
        .expect("no public key package");
    assert_eq!(public_key_package.verifying_shares().len(), 3);
    for (key_package, identity) in key_packages.iter().zip(&identities) {
        assert_eq!(*key_package.min_signers(), 2);
        assert_eq!(
            key_package.identifier().serialize()[..],
            identity.to_frost_identifier().expect("no identifier")[..]
        );
        assert_eq!(
            key_package.verifying_key(),
            public_key_package.verifying_key()
        );
    }

    // The first and the third participant sign a transaction.
    let transaction_hash = b"transaction hash";
    let signers = [identities[0], identities[2]];
    let mut commitments = BTreeMap::new();
    let mut signer_nonces = Vec::new();
    for index in [0usize, 2] {
        let mut share = [0u8; 32];
        share.copy_from_slice(&key_packages[index].signing_share().serialize());
        let share = SigningShare::new(share);
        let commitment =
            SigningCommitment::from_secrets(&secrets[index], &share, transaction_hash, &signers);
        assert!(commitment.verify_authenticity().is_ok());
        assert!(commitment
            .verify_checksum(transaction_hash, &signers)
            .is_ok());
        commitments.insert(
            *key_packages[index].identifier(),
            redjubjub::round1::SigningCommitments::new(
                redjubjub::round1::NonceCommitment::deserialize(&commitment.hiding().serialize())
                    .expect("no commitment"),
                redjubjub::round1::NonceCommitment::deserialize(&commitment.binding().serialize())
                    .expect("no commitment"),
            ),
        );
        let nonces =
            deterministic_signing_nonces(&share, transaction_hash, &signers).expect("no nonces");
        assert!(nonces.commitments() == commitment.raw_commitments());
        signer_nonces.push(redjubjub::round1::SigningNonces::from_nonces(
            redjubjub::frost::round1::Nonce::deserialize(&nonces.hiding()).expect("no nonce"),
            redjubjub::frost::round1::Nonce::deserialize(&nonces.binding()).expect("no nonce"),
        ));
    }
    let signing_package = redjubjub::SigningPackage::new(commitments, transaction_hash);
    let mut shares = BTreeMap::new();
    for (index, nonces) in [0usize, 2].into_iter().zip(&signer_nonces) {
        let share = redjubjub::round2::sign(&signing_package, nonces, &key_packages[index])
            .expect("signing failed");
        shares.insert(*key_packages[index].identifier(), share);
    }
    let signature = redjubjub::aggregate(&signing_package, &shares, &public_key_package)
        .expect("aggregation failed");
    assert!(public_key_package
        .verifying_key()
        .verify(transaction_hash, &signature)
        .is_ok());
    assert!(public_key_package
        .verifying_key()
        .verify(b"another transaction", &signature)
        .is_err());
}

#[test]
fn the_primitive_does_not_look_at_what_follows_a_package() {
    // Why payloads are compared with what they decode to before they are
    // handed to the primitive.
    let mut rng = thread_rng();
    let identifier = redjubjub::Identifier::derive(b"someone").expect("no identifier");
    let (_, package) =
        redjubjub::keys::dkg::part1(identifier, 3, 2, &mut rng).expect("part 1 failed");
    let bytes = package.serialize().expect("no bytes");
    let mut longer = bytes.clone();
    longer.push(0);
    let decoded =
        redjubjub::keys::dkg::round1::Package::deserialize(&longer).expect("no package");
    assert_eq!(decoded, package);
    assert_eq!(decoded.serialize().expect("no bytes"), bytes);
}
