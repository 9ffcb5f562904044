//! Convenience re-exports.
pub use crate::elgamal::keys::{ElGamalParams, KeyPair, PublicKey};
pub use crate::group::{Group, GroupPoint, GroupScalar};
pub use crate::proofs::TranscriptForGroup;
pub use crate::Curve;
