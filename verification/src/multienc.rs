//! Encryption of one message for several recipients.
//!
//! The sender draws an ephemeral X25519 key. For each recipient, the message
//! is sealed with ChaCha20-Poly1305 under a key that is derived from the
//! secret that the ephemeral key shares with the recipient's encryption key.
//! A blob holds the ephemeral public key, the length of the message, and for
//! each recipient a slot: the recipient's encryption key and the sealed
//! message.

use crate::bytes::append;
use crate::bytes::lemma_take_contains;
use crate::bytes::equal;
use crate::bytes::to_array;
use crate::hash::blake3;
use crate::hash::spec_blake3;
use crate::participant::encryption_keys;
use crate::participant::spec_x25519;
use crate::participant::spec_x25519_public_key;
use crate::participant::x25519;
use crate::participant::x25519_public_key;
use crate::participant::Identity;
use crate::participant::Secret;
use chacha20poly1305::aead::Aead;
use chacha20poly1305::KeyInit;
use vstd::bytes::lemma_auto_spec_u32_to_from_le_bytes;
use vstd::bytes::spec_u32_from_le_bytes;
use vstd::bytes::spec_u32_to_le_bytes;
use vstd::bytes::u32_from_le_bytes;
use vstd::bytes::u32_to_le_bytes;
use vstd::prelude::*;

verus! {

/// The number of bytes before the first slot of a blob: the ephemeral public
/// key and the length of the message.
pub const HEADER_LEN: usize = 36;

/// The number of bytes by which a slot is longer than the message: the
/// recipient's encryption key and the tag of the sealed message.
pub const SLOT_OVERHEAD: usize = 48;

/// What ChaCha20-Poly1305 makes of a message under a key and a nonce, if the
/// message is not too long for it.
pub uninterp spec fn spec_aead_seal(key: Seq<u8>, nonce: Seq<u8>, plaintext: Seq<u8>) -> Option<
    Seq<u8>,
>;

/// The message that ChaCha20-Poly1305 recovers from sealed bytes under a key
/// and a nonce, if the bytes carry the tag for them.
pub uninterp spec fn spec_aead_open(key: Seq<u8>, nonce: Seq<u8>, sealed: Seq<u8>) -> Option<
    Seq<u8>,
>;

/// Seals a message with `chacha20poly1305::ChaCha20Poly1305` through
/// `Aead::encrypt`, without associated data. The sealed bytes depend on the
/// arguments alone, and `Aead::decrypt` recovers the message from them under
/// the same key and nonce.
#[verifier::external_body]
fn aead_seal(key: &[u8; 32], nonce: &[u8; 12], plaintext: &[u8]) -> (sealed: Option<Vec<u8>>)
    ensures
        sealed matches Some(bytes) ==> spec_aead_seal(key@, nonce@, plaintext@) == Some(bytes@),
        sealed matches Some(bytes) ==> spec_aead_open(key@, nonce@, bytes@) == Some(plaintext@),
        sealed is None ==> spec_aead_seal(key@, nonce@, plaintext@) is None,
{
    let cipher = chacha20poly1305::ChaCha20Poly1305::new(chacha20poly1305::Key::from_slice(key));
    cipher.encrypt(chacha20poly1305::Nonce::from_slice(nonce), plaintext).ok()
}

/// Opens sealed bytes with `chacha20poly1305::ChaCha20Poly1305` through
/// `Aead::decrypt`, without associated data. The outcome depends on the
/// arguments alone.
#[verifier::external_body]
fn aead_open(key: &[u8; 32], nonce: &[u8; 12], sealed: &[u8]) -> (opened: Option<Vec<u8>>)
    ensures
        opened matches Some(bytes) ==> spec_aead_open(key@, nonce@, sealed@) == Some(bytes@),
        opened is None ==> spec_aead_open(key@, nonce@, sealed@) is None,
{
    let cipher = chacha20poly1305::ChaCha20Poly1305::new(chacha20poly1305::Key::from_slice(key));
    cipher.decrypt(chacha20poly1305::Nonce::from_slice(nonce), sealed).ok()
}

/// The nonce of every slot. A slot's key is used for that slot only.
pub open spec fn zero_nonce() -> Seq<u8> {
    Seq::new(12, |i: int| 0u8)
}

/// The key of a recipient's slot: the digest of the shared secret, the
/// ephemeral public key and the recipient's encryption key.
pub open spec fn slot_key(shared: Seq<u8>, ephemeral_public: Seq<u8>, recipient: Seq<u8>) -> Seq<
    u8,
> {
    spec_blake3(shared + ephemeral_public + recipient)
}

/// The slot of one recipient.
pub open spec fn slot(data: Seq<u8>, recipient: Seq<u8>, ephemeral_secret: Seq<u8>) -> Option<
    Seq<u8>,
> {
    let key = slot_key(
        spec_x25519(ephemeral_secret, recipient),
        spec_x25519_public_key(ephemeral_secret),
        recipient,
    );
    match spec_aead_seal(key, zero_nonce(), data) {
        Some(sealed) => if sealed.len() + 32 == data.len() + SLOT_OVERHEAD {
            Some(recipient + sealed)
        } else {
            None
        },
        None => None,
    }
}

/// The slots of the recipients, in their order.
pub open spec fn slots(data: Seq<u8>, recipients: Seq<Seq<u8>>, ephemeral_secret: Seq<u8>) -> Option<
    Seq<u8>,
>
    decreases recipients.len(),
{
    if recipients.len() == 0 {
        Some(Seq::empty())
    } else {
        match (
            slots(data, recipients.drop_last(), ephemeral_secret),
            slot(data, recipients.last(), ephemeral_secret),
        ) {
            (Some(before), Some(last)) => Some(before + last),
            _ => None,
        }
    }
}

/// The blob that holds `data` for the owners of the encryption keys
/// `recipients`, or `None` where the message is too long.
pub open spec fn encrypt_spec(
    data: Seq<u8>,
    recipients: Seq<Seq<u8>>,
    ephemeral_secret: Seq<u8>,
) -> Option<Seq<u8>> {
    if data.len() > u32::MAX {
        None
    } else {
        match slots(data, recipients, ephemeral_secret) {
            Some(body) => Some(
                spec_x25519_public_key(ephemeral_secret) + spec_u32_to_le_bytes(data.len() as u32)
                    + body,
            ),
            None => None,
        }
    }
}

/// The sealed message of the first complete slot for `recipient` in a
/// sequence of slots of `slot_len` bytes each.
pub open spec fn find_slot(body: Seq<u8>, slot_len: int, recipient: Seq<u8>) -> Option<Seq<u8>>
    decreases body.len(),
{
    if slot_len < SLOT_OVERHEAD || body.len() < slot_len {
        None
    } else if body.subrange(0, 32) == recipient {
        Some(body.subrange(32, slot_len))
    } else {
        find_slot(body.skip(slot_len), slot_len, recipient)
    }
}

/// The message that the owner of `decryption_key` reads from a blob: what
/// the first slot for the owner's encryption key opens to.
pub open spec fn decrypt_spec(decryption_key: Seq<u8>, blob: Seq<u8>) -> Option<Seq<u8>> {
    if blob.len() < HEADER_LEN {
        None
    } else {
        let ephemeral_public = blob.subrange(0, 32);
        let data_len = spec_u32_from_le_bytes(blob.subrange(32, HEADER_LEN as int));
        let recipient = spec_x25519_public_key(decryption_key);
        match find_slot(blob.skip(HEADER_LEN as int), data_len + SLOT_OVERHEAD, recipient) {
            Some(sealed) => spec_aead_open(
                slot_key(spec_x25519(decryption_key, ephemeral_public), ephemeral_public, recipient),
                zero_nonce(),
                sealed,
            ),
            None => None,
        }
    }
}

/// Whether the owner of each of the encryption keys `recipients` reads
/// `data` from a blob.
pub open spec fn readable(blob: Seq<u8>, recipients: Seq<Seq<u8>>, data: Seq<u8>) -> bool {
    forall|decryption_key: Seq<u8>|
        recipients.contains(#[trigger] spec_x25519_public_key(decryption_key)) ==> decrypt_spec(
            decryption_key,
            blob,
        ) == Some(data)
}

/// Whether the first slot for the owner of `decryption_key` opens to `data`
/// under the key that the owner derives.
pub open spec fn opens(
    body: Seq<u8>,
    slot_len: int,
    decryption_key: Seq<u8>,
    ephemeral_public: Seq<u8>,
    data: Seq<u8>,
) -> bool {
    let recipient = spec_x25519_public_key(decryption_key);
    find_slot(body, slot_len, recipient) matches Some(sealed) && spec_aead_open(
        slot_key(spec_x25519(decryption_key, ephemeral_public), ephemeral_public, recipient),
        zero_nonce(),
        sealed,
    ) == Some(data)
}

/// Whether bytes are made of slots of `slot_len` bytes each.
pub open spec fn whole_slots(body: Seq<u8>, slot_len: int) -> bool
    decreases body.len(),
{
    body.len() == 0 || (slot_len >= SLOT_OVERHEAD && body.len() >= slot_len && whole_slots(
        body.skip(slot_len),
        slot_len,
    ))
}

/// A slot that is put behind other slots is found for its recipient unless
/// an earlier slot is, and changes nothing for other recipients.
proof fn lemma_find_slot_append(body: Seq<u8>, slot: Seq<u8>, slot_len: int, recipient: Seq<u8>)
    requires
        slot_len >= 48,
        whole_slots(body, slot_len),
        slot.len() == slot_len,
    ensures
        whole_slots(body + slot, slot_len),
        find_slot(body + slot, slot_len, recipient) == (if find_slot(body, slot_len, recipient)
            is Some {
            find_slot(body, slot_len, recipient)
        } else if slot.subrange(0, 32) == recipient {
            Some(slot.subrange(32, slot_len))
        } else {
            None
        }),
    decreases body.len(),
{
    let joined = body + slot;
    if body.len() == 0 {
        assert(joined =~= slot);
        assert(slot.skip(slot_len).len() == 0);
        assert(whole_slots(slot.skip(slot_len), slot_len));
        assert(find_slot(slot.skip(slot_len), slot_len, recipient) is None);
        assert(find_slot(body, slot_len, recipient) is None);
    } else {
        assert(joined.skip(slot_len) =~= body.skip(slot_len) + slot);
        assert(joined.subrange(0, 32) =~= body.subrange(0, 32));
        assert(joined.subrange(32, slot_len) =~= body.subrange(32, slot_len));
        lemma_find_slot_append(body.skip(slot_len), slot, slot_len, recipient);
        if body.subrange(0, 32) == recipient {
            assert(find_slot(body, slot_len, recipient) == Some(body.subrange(32, slot_len)));
            assert(find_slot(joined, slot_len, recipient) == Some(joined.subrange(32, slot_len)));
        } else {
            assert(find_slot(body, slot_len, recipient) == find_slot(
                body.skip(slot_len),
                slot_len,
                recipient,
            ));
            assert(find_slot(joined, slot_len, recipient) == find_slot(
                joined.skip(slot_len),
                slot_len,
                recipient,
            ));
        }
    }
}

/// Where a recipient's slot cannot be made, no blob can.
proof fn lemma_slots_none(
    data: Seq<u8>,
    recipients: Seq<Seq<u8>>,
    ephemeral_secret: Seq<u8>,
    i: int,
)
    requires
        0 <= i <= recipients.len(),
        slots(data, recipients.take(i), ephemeral_secret) is None,
    ensures
        slots(data, recipients, ephemeral_secret) is None,
    decreases recipients.len() - i,
{
    if i < recipients.len() {
        assert(recipients.take(i + 1).drop_last() == recipients.take(i));
        lemma_slots_none(data, recipients, ephemeral_secret, i + 1);
    } else {
        assert(recipients.take(i) == recipients);
    }
}

/// The key of the slot that `secret` shares with `recipient`.
fn derive_slot_key(shared: &[u8; 32], ephemeral_public: &[u8; 32], recipient: &[u8; 32]) -> (key:
    [u8; 32])
    ensures
        key@ == slot_key(shared@, ephemeral_public@, recipient@),
{
    let mut material: Vec<u8> = Vec::new();
    append(&mut material, shared);
    append(&mut material, ephemeral_public);
    append(&mut material, recipient);
    assert(material@ =~= shared@ + ephemeral_public@ + recipient@);
    blake3(material.as_slice())
}

/// Encrypts `data` for `recipients`. `ephemeral_secret` must be fresh
/// randomness that is used for this blob only.
///
/// Returns `None` where the message is longer than ChaCha20-Poly1305 or the
/// blob's length field allow.
pub fn encrypt(data: &[u8], recipients: &[Identity], ephemeral_secret: &[u8; 32]) -> (r: Option<
    Vec<u8>,
>)
    ensures
        match r {
            Some(blob) => encrypt_spec(
                data@,
                encryption_keys(recipients@),
                ephemeral_secret@,
            ) == Some(blob@),
            None => encrypt_spec(data@, encryption_keys(recipients@), ephemeral_secret@) is None,
        },
        r matches Some(blob) ==> readable(blob@, encryption_keys(recipients@), data@),
{
    if data.len() > 0xffff_ffff {
        return None;
    }
    let ghost slot_len: int = data@.len() as int + 48;
    let ghost keys = encryption_keys(recipients@);
    let ephemeral_public = x25519_public_key(ephemeral_secret);
    let nonce = [0u8; 12];
    assert(nonce@ =~= zero_nonce());
    let mut blob: Vec<u8> = Vec::new();
    append(&mut blob, &ephemeral_public);
    let len_bytes = u32_to_le_bytes(data.len() as u32);
    append(&mut blob, len_bytes.as_slice());
    let ghost header = blob@;
    let ghost mut body = Seq::<u8>::empty();
    assert(blob@ =~= header + body);
    let mut i: usize = 0;
    while i < recipients.len()
        invariant
            i <= recipients.len(),
            data@.len() <= u32::MAX,
            keys == encryption_keys(recipients@),
            nonce@ == zero_nonce(),
            ephemeral_public@ == spec_x25519_public_key(ephemeral_secret@),
            header == spec_x25519_public_key(ephemeral_secret@) + spec_u32_to_le_bytes(
                data@.len() as u32,
            ),
            slots(data@, keys.take(i as int), ephemeral_secret@) == Some(body),
            blob@ == header + body,
            slot_len == data@.len() + 48,
            whole_slots(body, slot_len),
            forall|decryption_key: Seq<u8>|
                keys.take(i as int).contains(#[trigger] spec_x25519_public_key(decryption_key))
                    ==> opens(body, slot_len, decryption_key, ephemeral_public@, data@),
            forall|other: Seq<u8>|
                !keys.take(i as int).contains(other) ==> (#[trigger] find_slot(
                    body,
                    slot_len,
                    other,
                )) is None,
        decreases recipients.len() - i,
    {
        let recipient = recipients[i].encryption_key();
        let shared = x25519(ephemeral_secret, &recipient);
        let key = derive_slot_key(&shared, &ephemeral_public, &recipient);
        proof {
            assert(keys.take(i + 1).drop_last() == keys.take(i as int));
            assert(keys.take(i + 1).last() == recipient@);
            assert(keys[i as int] == recipient@);
        }
        let sealed = match aead_seal(&key, &nonce, data) {
            Some(sealed) => sealed,
            None => {
                proof {
                    lemma_slots_none(data@, keys, ephemeral_secret@, i + 1);
                }
                return None;
            },
        };
        if sealed.len() as u64 != data.len() as u64 + 16 {
            proof {
                lemma_slots_none(data@, keys, ephemeral_secret@, i + 1);
            }
            return None;
        }
        append(&mut blob, &recipient);
        append(&mut blob, sealed.as_slice());
        proof {
            let before = body;
            let slot = recipient@ + sealed@;
            body = before + slot;
            assert(blob@ =~= header + body);
            assert(slot.subrange(0, 32) =~= recipient@);
            assert(slot.subrange(32, slot_len) =~= sealed@);
            lemma_find_slot_append(before, slot, slot_len, recipient@);
            assert forall|decryption_key: Seq<u8>|
                keys.take(i + 1).contains(
                    #[trigger] spec_x25519_public_key(decryption_key),
                ) implies opens(body, slot_len, decryption_key, ephemeral_public@, data@) by {
                let own = spec_x25519_public_key(decryption_key);
                lemma_take_contains(keys, i as int, own);
                lemma_find_slot_append(before, slot, slot_len, own);
                if !keys.take(i as int).contains(own) {
                    assert(find_slot(before, slot_len, own) is None);
                    assert(recipient@ == own);
                    assert(shared@ == spec_x25519(decryption_key, ephemeral_public@));
                }
            }
            assert forall|other: Seq<u8>| !keys.take(i + 1).contains(other) implies (
            #[trigger] find_slot(body, slot_len, other)) is None by {
                lemma_take_contains(keys, i as int, other);
                lemma_find_slot_append(before, slot, slot_len, other);
                assert(find_slot(before, slot_len, other) is None);
            }
        }
        i += 1;
    }
    proof {
        assert(keys.take(recipients.len() as int) == keys);
        lemma_auto_spec_u32_to_from_le_bytes();
        assert(blob@.subrange(0, 32) =~= ephemeral_public@);
        assert(blob@.subrange(32, 36) =~= spec_u32_to_le_bytes(data@.len() as u32));
        assert(blob@.skip(36) =~= body);
        assert forall|decryption_key: Seq<u8>|
            keys.contains(#[trigger] spec_x25519_public_key(decryption_key)) implies decrypt_spec(
                decryption_key,
                blob@,
            ) == Some(data@) by {
            assert(opens(body, slot_len, decryption_key, ephemeral_public@, data@));
        }
    }
    Some(blob)
}

/// Decrypts a blob with the secret of one of its recipients. Returns `None`
/// where the blob holds no slot for the secret's owner, or the slot was not
/// sealed for the owner.
pub fn decrypt(secret: &Secret, blob: &[u8]) -> (r: Option<Vec<u8>>)
    ensures
        match r {
            Some(data) => decrypt_spec(secret@.decryption_key, blob@) == Some(data@),
            None => decrypt_spec(secret@.decryption_key, blob@) is None,
        },
{
    if blob.len() < HEADER_LEN {
        return None;
    }
    let ephemeral_public: [u8; 32] = to_array(&blob[0..32]);
    let data_len = u32_from_le_bytes(&blob[32..HEADER_LEN]);
    let slot_len: u64 = data_len as u64 + SLOT_OVERHEAD as u64;
    let decryption_key = secret.decryption_key();
    let recipient = x25519_public_key(&decryption_key);
    let nonce = [0u8; 12];
    assert(nonce@ =~= zero_nonce());
    let mut pos: usize = HEADER_LEN;
    assert(blob@.skip(HEADER_LEN as int) == blob@.skip(pos as int));
    while (blob.len() - pos) as u64 >= slot_len
        invariant
            36 <= pos <= blob.len(),
            slot_len == data_len + 48,
            ephemeral_public@ == blob@.subrange(0, 32),
            data_len == spec_u32_from_le_bytes(blob@.subrange(32, 36)),
            decryption_key@ == secret@.decryption_key,
            recipient@ == spec_x25519_public_key(decryption_key@),
            nonce@ == zero_nonce(),
            find_slot(blob@.skip(36), slot_len as int, recipient@) == find_slot(
                blob@.skip(pos as int),
                slot_len as int,
                recipient@,
            ),
        decreases blob.len() - pos,
    {
        let end = pos + slot_len as usize;
        let ghost rest = blob@.skip(pos as int);
        assert(rest.subrange(0, 32) == blob@.subrange(pos as int, pos + 32));
        assert(rest.subrange(32, slot_len as int) == blob@.subrange(pos + 32, end as int));
        assert(rest.skip(slot_len as int) == blob@.skip(end as int));
        if equal(&blob[pos..pos + 32], &recipient) {
            let shared = x25519(&decryption_key, &ephemeral_public);
            let key = derive_slot_key(&shared, &ephemeral_public, &recipient);
            return aead_open(&key, &nonce, &blob[pos + 32..end]);
        }
        pos = end;
    }
    None
}

} // verus!
