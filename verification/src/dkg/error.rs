//! What can go wrong in a round of the key generation.

use crate::checksum::ChecksumError;
use crate::error::FrostError;
use vstd::prelude::*;

verus! {

/// What is wrong with the packages or identities that a round was given.
#[derive(Clone, Copy, Debug, PartialEq, Eq, Structural)]
pub enum InvalidInput {
    /// The participants do not include the caller.
    MissingSelfIdentity,
    /// There are more participants than the primitive can count.
    TooManyParticipants,
    /// No identifier can be derived from an identity.
    UnusableIdentity,
    /// The secret package is none that an earlier round returns.
    UnusableSecretPackage,
    /// The number of round 1 packages is not the number of signers.
    WrongNumberOfPublicPackages,
    /// Two packages come from one sender.
    DuplicateSender,
    /// No round 1 package comes from the caller.
    MissingOwnPublicPackage,
    /// A payload is not the serialization of the package that it decodes
    /// to: other bytes follow the package.
    NonCanonicalPayload,
    /// A round 2 package is addressed to another participant.
    WrongRecipient,
    /// The round 2 packages do not come from the senders of the round 1
    /// packages.
    PackageCountMismatch,
}

/// Why a round of the key generation failed.
#[derive(Clone, Debug, PartialEq, Eq)]
pub enum Error {
    /// The input is not what the round expects. Correct it and call again.
    InvalidInput(InvalidInput),
    /// The primitive rejected the cryptographic material. The session is
    /// lost.
    FrostError(FrostError),
    /// Participants worked from different inputs. Collect the inputs again.
    ChecksumError(ChecksumError),
    /// A message could not be encrypted.
    EncryptionError,
    /// A message could not be decrypted with the caller's secret.
    DecryptionError,
}

/// An [`Error`] without the primitive's account of a failure.
pub enum ErrorKind {
    InvalidInput(InvalidInput),
    FrostError,
    ChecksumError(ChecksumError),
    EncryptionError,
    DecryptionError,
}

impl View for Error {
    type V = ErrorKind;

    open spec fn view(&self) -> ErrorKind {
        match *self {
            Error::InvalidInput(reason) => ErrorKind::InvalidInput(reason),
            Error::FrostError(_) => ErrorKind::FrostError,
            Error::ChecksumError(e) => ErrorKind::ChecksumError(e),
            Error::EncryptionError => ErrorKind::EncryptionError,
            Error::DecryptionError => ErrorKind::DecryptionError,
        }
    }
}

/// Whether an outcome is the failure of this kind.
pub open spec fn fails_with<T>(outcome: Result<T, ErrorKind>, kind: ErrorKind) -> bool {
    outcome matches Err(e) && e == kind
}

} // verus!
