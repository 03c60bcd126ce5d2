use frost_protocol::error::DeserializationError;
use frost_protocol::frost::keys::SigningShare;
use frost_protocol::participant::Identity;
use frost_protocol::participant::Secret;
use frost_protocol::signing_commitment::authenticated_data;
use frost_protocol::signing_commitment::input_checksum;
use frost_protocol::signing_commitment::SigningCommitment;
use frost_protocol::signing_commitment::AUTHENTICATED_DATA_LEN;
use frost_protocol::signing_commitment::SIGNING_COMMITMENT_LEN;
use rand::thread_rng;
use rand::RngCore;

fn random_secret<R: RngCore>(rng: &mut R) -> Secret {
    let mut signing_key = [0u8; 32];
    let mut decryption_key = [0u8; 32];
    rng.fill_bytes(&mut signing_key);
    rng.fill_bytes(&mut decryption_key);
    Secret::new(signing_key, decryption_key)
}

fn random_identities<R: RngCore>(rng: &mut R) -> [Identity; 3] {
    [
        random_secret(rng).to_identity(),
        random_secret(rng).to_identity(),
        random_secret(rng).to_identity(),
    ]
}

fn unhex(text: &str) -> Vec<u8> {
    let digits: Vec<u8> = text
        .bytes()
        .filter(|b| !b.is_ascii_whitespace())
        .map(|b| match b {
            b'0'..=b'9' => b - b'0',
            b'a'..=b'f' => b - b'a' + 10,
            _ => panic!("not a hex digit"),
        })
        .collect();
    assert_eq!(digits.len() % 2, 0);
    digits.chunks(2).map(|pair| pair[0] * 16 + pair[1]).collect()
}

#[test]
fn serialization_round_trip() {
    let mut rng = thread_rng();

    let secret = random_secret(&mut rng);
    let signing_share = SigningShare::default();
    let signing_participants = random_identities(&mut rng);

    let commitment = SigningCommitment::from_secrets(
        &secret,
        &signing_share,
        b"transaction hash",
        &signing_participants,
    );

    let serialized = commitment.serialize();

    let deserialized =
        SigningCommitment::deserialize_from(&serialized[..]).expect("deserialization failed");

    assert_eq!(deserialized, commitment);
}

#[test]
fn deserialization_regression() {
    let serialization = unhex(
        "
        307be5a2c20495d05966fc12b2cee3ea4d44cb3623f92b0f6a391c626fa7708e835
        26e886448d5ef376c5d09675aed3e711cd3e0df9f6c607604e6a7371a210e725c3a
        20a22aebc59d856bfbaa48fde8f8ea6fe48ddd978555932c283e760397f78b4b468
        2f9b70f8baad6d7752f5e25bcbc6b3453d16d92589da722ad13a7390d0057c6aae8
        363a50e835b89b44bccdd5889ef5a362fa89d841c96e65b34dbe3adf8f71faa041f
        394ef6b127c4b6b1e43714f32c450e8d3d089b376915acd6500639cad9b202c479e
        4216e2d4d16cad09b634e01270f4a52707d924fd9834e6206f48f04388ae90bcd63
        f901369c6034760245574a2d3068f52b617d33ca1a417ea391d3785b542f5
    ",
    );
    let deserialized =
        SigningCommitment::deserialize_from(&serialization[..]).expect("deserialization failed");
    assert_eq!(serialization, deserialized.serialize());
}

#[test]
fn test_invalid_deserialization() {
    let mut rng = thread_rng();

    let secret = random_secret(&mut rng);
    let signing_share = SigningShare::default();
    let signing_participants = random_identities(&mut rng);

    let commitment = SigningCommitment::from_secrets(
        &secret,
        &signing_share,
        b"transaction hash",
        &signing_participants,
    );

    let serialized = commitment.serialize();

    for index in 0..serialized.len() {
        let mut invalid_serialization = serialized;
        invalid_serialization[index] ^= 0xff;
        assert!(SigningCommitment::deserialize_from(&invalid_serialization[..]).is_err());
    }
}

#[test]
fn test_valid_signature() {
    let mut rng = thread_rng();

    let secret = random_secret(&mut rng);
    let signing_share = SigningShare::default();
    let signing_participants = random_identities(&mut rng);

    let commitment = SigningCommitment::from_secrets(
        &secret,
        &signing_share,
        b"transaction hash",
        &signing_participants,
    );

    assert!(commitment.verify_authenticity().is_ok());
}

#[test]
fn test_invalid_signature() {
    let mut rng = thread_rng();

    let secret = random_secret(&mut rng);
    let signing_share = SigningShare::default();
    let signing_participants = random_identities(&mut rng);

    let commitment = SigningCommitment::from_secrets(
        &secret,
        &signing_share,
        b"transaction hash",
        &signing_participants,
    );

    let unrelated_secret = random_secret(&mut rng);
    let invalid_signature = unrelated_secret.sign(&authenticated_data(
        commitment.identity(),
        commitment.raw_commitments(),
        commitment.checksum(),
    ));

    let invalid_commitment = SigningCommitment::from_raw_parts_unverified(
        commitment.identity().clone(),
        *commitment.raw_commitments(),
        commitment.checksum(),
        invalid_signature,
    );

    assert!(invalid_commitment.verify_authenticity().is_err());
}

#[test]
fn test_checksum_stability() {
    let mut rng = thread_rng();

    let secret1 = random_secret(&mut rng);
    let secret2 = random_secret(&mut rng);
    let signing_share1 = SigningShare::default();
    let signing_share2 = SigningShare::default();
    let transaction_hash = b"something";
    let signing_participants = random_identities(&mut rng);

    let commitment1 = SigningCommitment::from_secrets(
        &secret1,
        &signing_share1,
        transaction_hash,
        &signing_participants,
    );

    let commitment2 = SigningCommitment::from_secrets(
        &secret2,
        &signing_share2,
        transaction_hash,
        &signing_participants,
    );

    assert_ne!(commitment1, commitment2);
    assert_eq!(commitment1.checksum(), commitment2.checksum());
}

#[test]
fn test_checksum_variation_with_transaction_hash() {
    let mut rng = thread_rng();

    let secret = random_secret(&mut rng);
    let signing_share = SigningShare::default();
    let signing_participants = random_identities(&mut rng);

    let commitment1 = SigningCommitment::from_secrets(
        &secret,
        &signing_share,
        b"something",
        &signing_participants,
    );

    let commitment2 = SigningCommitment::from_secrets(
        &secret,
        &signing_share,
        b"something else",
        &signing_participants,
    );

    assert_ne!(commitment1.checksum(), commitment2.checksum());
}

#[test]
fn test_checksum_variation_with_signers_list() {
    let mut rng = thread_rng();

    let secret = random_secret(&mut rng);
    let signing_share = SigningShare::default();
    let transaction_hash = b"something";
    let signing_participants1 = random_identities(&mut rng);
    let signing_participants2 = random_identities(&mut rng);

    let commitment1 = SigningCommitment::from_secrets(
        &secret,
        &signing_share,
        transaction_hash,
        &signing_participants1,
    );

    let commitment2 = SigningCommitment::from_secrets(
        &secret,
        &signing_share,
        transaction_hash,
        &signing_participants2,
    );

    assert_ne!(commitment1.checksum(), commitment2.checksum());
}

#[test]
fn serialized_commitment_has_the_documented_layout() {
    let mut rng = thread_rng();
    let secret = random_secret(&mut rng);
    let signing_participants = random_identities(&mut rng);
    let commitment = SigningCommitment::from_secrets(
        &secret,
        &SigningShare::default(),
        b"transaction hash",
        &signing_participants,
    );

    assert_eq!(AUTHENTICATED_DATA_LEN, 201);
    assert_eq!(SIGNING_COMMITMENT_LEN, 265);
    let serialized = commitment.serialize();
    assert_eq!(serialized.len(), 265);
    assert_eq!(serialized[..64], commitment.signature().to_bytes()[..]);
    assert_eq!(serialized[64..193], secret.to_identity().serialize()[..]);
    assert_eq!(serialized[64], 0x72);
    assert_eq!(serialized[193..225], commitment.hiding().serialize()[..]);
    assert_eq!(serialized[225..257], commitment.binding().serialize()[..]);
    assert_eq!(serialized[257..], commitment.checksum().to_le_bytes()[..]);
    assert_eq!(
        serialized[64..],
        authenticated_data(
            commitment.identity(),
            commitment.raw_commitments(),
            commitment.checksum()
        )[..]
    );

    let mut written = vec![1u8, 2, 3];
    commitment.serialize_into(&mut written);
    assert_eq!(written[..3], [1u8, 2, 3]);
    assert_eq!(written[3..], serialized[..]);
}

#[test]
fn commitment_is_a_function_of_the_session() {
    let mut rng = thread_rng();
    let secret = random_secret(&mut rng);
    let share = SigningShare::new([7u8; 32]);
    let [a, b, c] = random_identities(&mut rng);

    let commitment = SigningCommitment::from_secrets(&secret, &share, b"tx", &[a, b, c]);
    let again = SigningCommitment::from_secrets(&secret, &share, b"tx", &[a, b, c]);
    let reordered = SigningCommitment::from_secrets(&secret, &share, b"tx", &[c, a, b, a, c]);
    assert_eq!(commitment, again);
    assert_eq!(commitment, reordered);

    let other_share = SigningShare::new([8u8; 32]);
    let other = SigningCommitment::from_secrets(&secret, &other_share, b"tx", &[a, b, c]);
    assert_eq!(commitment.checksum(), other.checksum());
    assert_ne!(commitment.raw_commitments(), other.raw_commitments());
    assert_ne!(commitment.serialize(), other.serialize());
}

#[test]
fn try_from_secrets_agrees_with_from_secrets() {
    let mut rng = thread_rng();
    let secret = random_secret(&mut rng);
    let share = SigningShare::default();
    let signers = random_identities(&mut rng);
    let commitment = SigningCommitment::from_secrets(&secret, &share, b"tx", &signers);
    assert_eq!(
        SigningCommitment::try_from_secrets(&secret, &share, b"tx", &signers),
        Some(commitment)
    );
}

#[test]
fn try_from_secrets_refuses_a_share_that_is_no_scalar() {
    let mut rng = thread_rng();
    let secret = random_secret(&mut rng);
    let share = SigningShare::new([0xff; 32]);
    let signers = random_identities(&mut rng);
    assert_eq!(
        SigningCommitment::try_from_secrets(&secret, &share, b"tx", &signers),
        None
    );
}

#[test]
fn verify_checksum_accepts_the_session_and_no_other() {
    let mut rng = thread_rng();
    let secret = random_secret(&mut rng);
    let share = SigningShare::default();
    let [a, b, c] = random_identities(&mut rng);
    let commitment = SigningCommitment::from_secrets(&secret, &share, b"tx", &[a, b, c]);

    assert_eq!(commitment.checksum(), input_checksum(b"tx", &[a, b, c]));
    assert!(commitment.verify_checksum(b"tx", &[a, b, c]).is_ok());
    assert!(commitment.verify_checksum(b"tx", &[b, c, a, a]).is_ok());
    assert_eq!(
        commitment.verify_checksum(b"other tx", &[a, b, c]),
        Err(frost_protocol::checksum::ChecksumError::SigningCommitmentError)
    );
    assert!(commitment.verify_checksum(b"tx", &[a, b]).is_err());
}

#[test]
fn from_raw_parts_checks_the_signature() {
    let mut rng = thread_rng();
    let secret = random_secret(&mut rng);
    let share = SigningShare::default();
    let signers = random_identities(&mut rng);
    let commitment = SigningCommitment::from_secrets(&secret, &share, b"tx", &signers);

    let rebuilt = SigningCommitment::from_raw_parts(
        *commitment.identity(),
        *commitment.raw_commitments(),
        commitment.checksum(),
        *commitment.signature(),
    );
    assert_eq!(rebuilt, Ok(commitment));

    let tampered = SigningCommitment::from_raw_parts(
        *commitment.identity(),
        *commitment.raw_commitments(),
        commitment.checksum() ^ 1,
        *commitment.signature(),
    );
    assert!(tampered.is_err());
}

#[test]
fn deserialization_reports_what_is_wrong() {
    let mut rng = thread_rng();
    let secret = random_secret(&mut rng);
    let share = SigningShare::default();
    let signers = random_identities(&mut rng);
    let commitment = SigningCommitment::from_secrets(&secret, &share, b"tx", &signers);
    let serialized = commitment.serialize();

    for len in [0, 63, 64, 192, 193, 224, 256, 264] {
        assert_eq!(
            SigningCommitment::deserialize_from(&serialized[..len]),
            Err(DeserializationError::UnexpectedEof)
        );
    }

    let mut longer = serialized.to_vec();
    longer.extend_from_slice(b"what follows is not looked at");
    assert_eq!(SigningCommitment::deserialize_from(&longer), Ok(commitment));

    let mut wrong_version = serialized;
    wrong_version[64] = 0x73;
    assert_eq!(
        SigningCommitment::deserialize_from(&wrong_version),
        Err(DeserializationError::UnsupportedVersion)
    );

    let mut wrong_identity = serialized;
    wrong_identity[100] ^= 1;
    assert_eq!(
        SigningCommitment::deserialize_from(&wrong_identity),
        Err(DeserializationError::InvalidIdentity)
    );

    let mut wrong_hiding = serialized;
    wrong_hiding[193..225].copy_from_slice(&[0xff; 32]);
    assert_eq!(
        SigningCommitment::deserialize_from(&wrong_hiding),
        Err(DeserializationError::InvalidHidingCommitment)
    );

    let mut wrong_binding = serialized;
    wrong_binding[225..257].copy_from_slice(&[0xff; 32]);
    assert_eq!(
        SigningCommitment::deserialize_from(&wrong_binding),
        Err(DeserializationError::InvalidBindingCommitment)
    );

    let mut wrong_checksum = serialized;
    wrong_checksum[260] ^= 1;
    assert_eq!(
        SigningCommitment::deserialize_from(&wrong_checksum),
        Err(DeserializationError::InvalidSignature)
    );

    let mut wrong_signature = serialized;
    wrong_signature[10] ^= 1;
    assert_eq!(
        SigningCommitment::deserialize_from(&wrong_signature),
        Err(DeserializationError::InvalidSignature)
    );
}
