//! Key shares.

pub mod dkg;

use vstd::prelude::*;

verus! {

/// A participant's share of the group's signing key: a scalar of the Jubjub
/// curve, as its 32 bytes.
#[derive(Clone, Copy, PartialEq, Eq)]
pub struct SigningShare {
    pub bytes: [u8; 32],
}

impl View for SigningShare {
    type V = Seq<u8>;

    open spec fn view(&self) -> Seq<u8> {
        self.bytes@
    }
}

impl SigningShare {
    /// The share that these bytes spell.
    pub fn new(bytes: [u8; 32]) -> (share: SigningShare)
        ensures
            share@ == bytes@,
    {
        SigningShare { bytes }
    }

    /// The bytes of the share.
    pub fn serialize(&self) -> (bytes: [u8; 32])
        ensures
            bytes@ == self@,
    {
        self.bytes
    }
}

/// A participant's long-lived key share with what is needed to sign with it,
/// as the primitive serializes it.
#[derive(Clone, Debug, PartialEq, Eq)]
pub struct KeyPackage {
    pub bytes: Vec<u8>,
}

impl View for KeyPackage {
    type V = Seq<u8>;

    open spec fn view(&self) -> Seq<u8> {
        self.bytes@
    }
}

/// The public keys of the group and of all its participants, as the
/// primitive serializes them.
#[derive(Clone, Debug, PartialEq, Eq)]
pub struct PublicKeyPackage {
    pub bytes: Vec<u8>,
}

impl View for PublicKeyPackage {
    type V = Seq<u8>;

    open spec fn view(&self) -> Seq<u8> {
        self.bytes@
    }
}

impl Default for SigningShare {
    /// The zero scalar.
    fn default() -> (share: SigningShare)
        ensures
            share@ == Seq::new(32, |i: int| 0u8),
    {
        let share = SigningShare { bytes: [0u8; 32] };
        assert(share@ =~= Seq::new(32, |i: int| 0u8));
        share
    }
}

} // verus!
