//! The values that are exchanged with the threshold-signature primitive,
//! FROST over the Jubjub curve, each held in its serialized form.

pub mod keys;
pub mod round1;
