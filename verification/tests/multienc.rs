use frost_protocol::hash::derive_seed;
use frost_protocol::multienc::decrypt;
use frost_protocol::multienc::encrypt;
use frost_protocol::multienc::HEADER_LEN;
use frost_protocol::multienc::SLOT_OVERHEAD;
use frost_protocol::participant::Identity;
use frost_protocol::participant::Secret;

fn secret(tag: u8) -> Secret {
    Secret::new([tag; 32], [tag.wrapping_add(50); 32])
}

#[test]
fn every_recipient_can_decrypt() {
    let secrets = [secret(1), secret(2), secret(3)];
    let recipients: Vec<Identity> = secrets.iter().map(|s| s.to_identity()).collect();
    let blob = encrypt(b"a message", &recipients, &[9; 32]).expect("encryption failed");
    for secret in &secrets {
        assert_eq!(decrypt(secret, &blob), Some(b"a message".to_vec()));
    }
    assert_eq!(decrypt(&secret(4), &blob), None);
}

#[test]
fn blob_layout() {
    let recipients = [secret(1).to_identity(), secret(2).to_identity()];
    let message = b"a message";
    let blob = encrypt(message, &recipients, &[9; 32]).expect("encryption failed");
    assert_eq!(HEADER_LEN, 36);
    assert_eq!(SLOT_OVERHEAD, 48);
    let slot_len = message.len() + SLOT_OVERHEAD;
    assert_eq!(blob.len(), HEADER_LEN + 2 * slot_len);
    // The ephemeral public key is the X25519 public key of the ephemeral
    // secret: the encryption key of an identity with that decryption key.
    assert_eq!(
        blob[..32],
        Secret::new([0; 32], [9; 32]).to_identity().encryption_key()[..]
    );
    assert_eq!(blob[32..36], 9u32.to_le_bytes()[..]);
    assert_eq!(blob[36..68], recipients[0].encryption_key()[..]);
    assert_eq!(
        blob[36 + slot_len..68 + slot_len],
        recipients[1].encryption_key()[..]
    );
    // The message is not in the clear.
    assert!(!blob.windows(message.len()).any(|w| w == message));
}

#[test]
fn encryption_is_a_function_of_its_arguments() {
    let recipients = [secret(1).to_identity(), secret(2).to_identity()];
    let blob = encrypt(b"a message", &recipients, &[9; 32]).expect("encryption failed");
    assert_eq!(encrypt(b"a message", &recipients, &[9; 32]), Some(blob.clone()));
    assert_ne!(encrypt(b"a message", &recipients, &[8; 32]), Some(blob.clone()));
    assert_ne!(encrypt(b"b message", &recipients, &[9; 32]), Some(blob));
}

#[test]
fn empty_message_and_no_recipients() {
    let blob = encrypt(b"", &[secret(1).to_identity()], &[9; 32]).expect("encryption failed");
    assert_eq!(blob.len(), HEADER_LEN + SLOT_OVERHEAD);
    assert_eq!(decrypt(&secret(1), &blob), Some(vec![]));

    let blob = encrypt(b"nobody reads this", &[], &[9; 32]).expect("encryption failed");
    assert_eq!(blob.len(), HEADER_LEN);
    assert_eq!(decrypt(&secret(1), &blob), None);
}

#[test]
fn tampered_blobs_are_refused() {
    let recipients = [secret(1).to_identity(), secret(2).to_identity()];
    let blob = encrypt(b"a message", &recipients, &[9; 32]).expect("encryption failed");
    for index in 0..blob.len() {
        let mut tampered = blob.clone();
        tampered[index] ^= 0x40;
        // The second recipient's slot is of no concern to the first.
        let in_other_slot = index >= HEADER_LEN + 9 + SLOT_OVERHEAD;
        let expected = if in_other_slot {
            Some(b"a message".to_vec())
        } else {
            None
        };
        assert_eq!(decrypt(&secret(1), &tampered), expected, "byte {}", index);
    }
    for len in 0..blob.len() {
        let expected = if len >= HEADER_LEN + 9 + SLOT_OVERHEAD {
            Some(b"a message".to_vec())
        } else {
            None
        };
        assert_eq!(decrypt(&secret(1), &blob[..len]), expected, "length {}", len);
    }
}

#[test]
fn derived_seeds_differ_by_purpose() {
    let seed = [7u8; 32];
    assert_eq!(derive_seed(&seed, 0), derive_seed(&seed, 0));
    assert_ne!(derive_seed(&seed, 0), derive_seed(&seed, 1));
    assert_ne!(derive_seed(&seed, 0), derive_seed(&[8u8; 32], 0));
    assert_ne!(derive_seed(&seed, 0), seed);
}
