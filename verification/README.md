# dlog-sigma-primitives

Prime-order groups, Modified ElGamal encryption, Pedersen commitments and
non-interactive Sigma proofs (Fiat–Shamir over `merlin` transcripts) for
discrete-logarithm relations, with their algebra stated and proved in Verus.

Every value is modelled by what it stands for: a point by its discrete
logarithm, a scalar by its residue modulo the group order, a ciphertext by
the triple of its components. Contracts speak of these models, and the laws
of the library (decryption inverts encryption, commitments and ciphertexts
are homomorphic, honest proofs are accepted, serialized values read back)
are proof functions.

## Layout

- `src/group.rs`: the `GroupScalar`, `GroupPoint` and `Group` traits.
- `src/ristretto.rs`, `src/k256.rs`, `src/p384.rs`: the backends over
  `curve25519-dalek`, `k256` and `p384`.
- `src/transcript.rs`: what the library states of `merlin` transcripts;
  `src/randomness.rs`: random bytes drawn from a transcript.
- `src/elgamal/`: keys, ciphertexts, the discrete-log table and their laws.
- `src/pedersen/`: Pedersen commitments and their laws.
- `src/proofs/`: the `SigmaProtocol` trait with its one-shot `prove` and
  `verify`, the Sigma protocols, the verifiable fingerprints and the
  shuffle proof, each with its completeness law.
- `src/serialization.rs`: serialized forms and the checks that decoding
  makes.
- `tests/`: tests of the library.
- `app/`: serde support for the library's values and a displayable error;
  it is ordinary Rust around the library.
