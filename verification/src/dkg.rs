//! Distributed key generation in three rounds.
//!
//! In round 1 every participant publishes a package. In round 2 every
//! participant turns the packages of round 1 into one package for each other
//! participant. In round 3 every participant turns what it was sent into its
//! share of the group's key. Checksums in the packages let a participant
//! notice that others worked from other inputs.

pub mod error;
pub mod group_key;
pub mod round1;
pub mod utils;
pub mod round2;
pub mod round3;
