//! Distributed key generation for FROST threshold signatures, and the
//! authenticated commitments that open a signing session.
//!
//! In a key generation, `n` participants derive a group public key and one
//! secret share each, such that any `t` of them can sign and fewer cannot.
//! The three rounds of the protocol are the functions of [`dkg`]. Every
//! package carries a [`checksum`] of the inputs it was made from, so that a
//! participant notices when others worked from other inputs.
//!
//! A signing session is opened by each signer with a
//! [`signing_commitment::SigningCommitment`]: a commitment to nonces that is
//! signed by its author and bound to the transaction and the set of signers.
//!
//! All functions are pure: what they return depends on their arguments alone.
//! Randomness is handed in as a seed. Every value that crosses the boundary
//! to a cryptographic primitive is held as plain bytes, so that the contracts
//! of this crate can speak about what is hashed, signed, encrypted and
//! compared. The primitives themselves are trusted: their results are named
//! by specification functions without a body, and the contracts of this
//! crate are stated and proved over these names.

pub mod bytes;
pub mod checksum;
pub mod dkg;
pub mod error;
pub mod frost;
pub mod hash;
pub mod multienc;
pub mod nonces;
pub mod participant;
pub mod signing_commitment;
