//! The group's auxiliary secret key, which every participant contributes a
//! shard to.

use crate::multienc::decrypt;
use crate::multienc::decrypt_spec;
use crate::multienc::encrypt;
use crate::multienc::encrypt_spec;
use crate::multienc::readable;
use crate::participant::encryption_keys;
use crate::participant::Identity;
use crate::participant::Secret;
use crate::bytes::to_array;
use vstd::prelude::*;
use vstd::seq_lib::lemma_fold_left_permutation;

verus! {

/// The number of bytes of the group's secret key and of each shard of it.
pub const GROUP_SECRET_KEY_LEN: usize = 32;

/// The secret key that the participants of a key generation share.
pub type GroupSecretKey = [u8; GROUP_SECRET_KEY_LEN];

/// The bytewise exclusive or of two keys.
pub open spec fn xor_keys(a: Seq<u8>, b: Seq<u8>) -> Seq<u8> {
    Seq::new(32, |i: int| a[i] ^ b[i])
}

/// The key that shards combine to: their bytewise exclusive or.
pub open spec fn combine_spec(shards: Seq<Seq<u8>>) -> Seq<u8>
    decreases shards.len(),
{
    if shards.len() == 0 {
        Seq::new(32, |i: int| 0u8)
    } else {
        xor_keys(combine_spec(shards.drop_last()), shards.last())
    }
}

/// The combination of shards is a fold with the exclusive or.
proof fn lemma_combine_is_fold(shards: Seq<Seq<u8>>, f: spec_fn(Seq<u8>, Seq<u8>) -> Seq<u8>)
    requires
        forall|a: Seq<u8>, b: Seq<u8>| #[trigger] f(a, b) == xor_keys(a, b),
    ensures
        combine_spec(shards) == shards.fold_left(Seq::new(32, |i: int| 0u8), f),
    decreases shards.len(),
{
    if shards.len() > 0 {
        lemma_combine_is_fold(shards.drop_last(), f);
    }
}

/// The group's secret key does not depend on the order in which the shards
/// are combined.
pub proof fn lemma_combine_ignores_order(a: Seq<Seq<u8>>, b: Seq<Seq<u8>>)
    requires
        a.to_multiset() == b.to_multiset(),
    ensures
        combine_spec(a) == combine_spec(b),
{
    let f = |key: Seq<u8>, shard: Seq<u8>| xor_keys(key, shard);
    assert forall|x: Seq<u8>, y: Seq<u8>, v: Seq<u8>| #[trigger] f(f(v, x), y) == f(f(v, y), x) by {
        assert forall|i: int| 0 <= i < 32 implies xor_keys(xor_keys(v, x), y)[i] == xor_keys(
            xor_keys(v, y),
            x,
        )[i] by {
            let p = v[i];
            let q = x[i];
            let r = y[i];
            assert((p ^ q) ^ r == (p ^ r) ^ q) by (bit_vector);
        }
        assert(xor_keys(xor_keys(v, x), y) =~= xor_keys(xor_keys(v, y), x));
    }
    lemma_combine_is_fold(a, f);
    lemma_combine_is_fold(b, f);
    lemma_fold_left_permutation(a, b, f, Seq::new(32, |i: int| 0u8));
}

/// One participant's contribution to the group's secret key.
#[derive(Clone, Copy, PartialEq, Eq)]
pub struct GroupSecretKeyShard {
    pub shard: [u8; GROUP_SECRET_KEY_LEN],
}

impl View for GroupSecretKeyShard {
    type V = Seq<u8>;

    open spec fn view(&self) -> Seq<u8> {
        self.shard@
    }
}

/// The shards as byte strings.
pub open spec fn shard_views(shards: Seq<GroupSecretKeyShard>) -> Seq<Seq<u8>> {
    Seq::new(shards.len(), |i: int| shards[i]@)
}

impl GroupSecretKeyShard {
    /// The shard made of these bytes, which must be fresh randomness.
    pub fn new(shard: [u8; 32]) -> (r: GroupSecretKeyShard)
        ensures
            r@ == shard@,
    {
        GroupSecretKeyShard { shard }
    }

    /// Combines the shards of all participants into the group's secret key.
    pub fn combine(shards: &[GroupSecretKeyShard]) -> (key: GroupSecretKey)
        ensures
            key@ == combine_spec(shard_views(shards@)),
    {
        let mut key = [0u8; 32];
        let ghost all = shard_views(shards@);
        assert(key@ =~= combine_spec(all.take(0)));
        let mut k: usize = 0;
        while k < shards.len()
            invariant
                k <= shards.len(),
                all == shard_views(shards@),
                key@ == combine_spec(all.take(k as int)),
            decreases shards.len() - k,
        {
            let ghost before = key@;
            let shard = shards[k].shard;
            let mut i: usize = 0;
            while i < 32
                invariant
                    i <= 32,
                    before.len() == 32,
                    forall|j: int| 0 <= j < i ==> key@[j] == before[j] ^ shard@[j],
                    forall|j: int| i <= j < 32 ==> key@[j] == before[j],
                decreases 32 - i,
            {
                key[i] = key[i] ^ shard[i];
                i += 1;
            }
            proof {
                assert(all.take(k + 1).drop_last() == all.take(k as int));
                assert(key@ =~= xor_keys(before, shard@));
            }
            k += 1;
        }
        assert(all.take(shards.len() as int) == all);
        key
    }

    /// Encrypts the shard for `recipients`.
    pub fn export(&self, recipients: &[Identity], ephemeral_secret: &[u8; 32]) -> (r: Option<
        Vec<u8>,
    >)
        ensures
            match r {
                Some(blob) => encrypt_spec(
                    self@,
                    encryption_keys(recipients@),
                    ephemeral_secret@,
                ) == Some(blob@),
                None => encrypt_spec(self@, encryption_keys(recipients@), ephemeral_secret@)
                    is None,
            },
            r matches Some(blob) ==> readable(blob@, encryption_keys(recipients@), self@),
    {
        encrypt(&self.shard, recipients, ephemeral_secret)
    }

    /// Decrypts a shard that was encrypted for the owner of `secret`.
    pub fn import(secret: &Secret, exported: &[u8]) -> (r: Option<GroupSecretKeyShard>)
        ensures
            match r {
                Some(shard) => import_spec(secret@.decryption_key, exported@) == Some(shard@),
                None => import_spec(secret@.decryption_key, exported@) is None,
            },
    {
        match decrypt(secret, exported) {
            Some(bytes) => {
                if bytes.len() == 32 {
                    Some(GroupSecretKeyShard { shard: to_array(bytes.as_slice()) })
                } else {
                    None
                }
            },
            None => None,
        }
    }
}

/// The shard that the owner of `decryption_key` reads from a blob.
pub open spec fn import_spec(decryption_key: Seq<u8>, exported: Seq<u8>) -> Option<Seq<u8>> {
    match decrypt_spec(decryption_key, exported) {
        Some(bytes) => if bytes.len() == 32 {
            Some(bytes)
        } else {
            None
        },
        None => None,
    }
}

} // verus!
