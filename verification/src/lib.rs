//! Prime-order groups, Modified ElGamal, Pedersen commitments and Sigma
//! proofs for discrete-logarithm relations, with their algebra stated over
//! discrete logarithms and proved.
pub mod bytes;
pub mod transcript;
pub mod zq;
pub mod group;
pub mod ristretto;
pub mod k256;
pub mod p384;
pub mod error;
pub mod elgamal;
pub mod pedersen;
pub mod serialization;
pub mod proofs;
pub mod prelude;
pub mod randomness;

use vstd::prelude::*;

verus! {

/// The group that the library uses by default.
pub type Curve = crate::ristretto::RistrettoGroup;

} // verus!
