//! The ways in which received bytes can fail to be what they claim.

use vstd::prelude::*;

verus! {

/// A signature does not belong to the data and key it was checked against.
#[derive(Clone, Copy, Debug, PartialEq, Eq, Structural)]
pub struct SignatureError {}

/// The threshold-signature primitive rejected what it was given.
#[derive(Clone, Debug, PartialEq, Eq)]
pub struct FrostError {
    /// The primitive's own account of what was wrong.
    pub message: String,
}

/// Why a byte string is no serialized value.
#[derive(Clone, Copy, Debug, PartialEq, Eq, Structural)]
pub enum DeserializationError {
    /// The input ends before the value does.
    UnexpectedEof,
    /// The identity starts with a version byte that is not supported.
    UnsupportedVersion,
    /// The identity's keys are not signed by its own verification key.
    InvalidIdentity,
    /// The hiding commitment is no valid group element.
    InvalidHidingCommitment,
    /// The binding commitment is no valid group element.
    InvalidBindingCommitment,
    /// The value is not signed by the identity it names.
    InvalidSignature,
}

} // verus!
