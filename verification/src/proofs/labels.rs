//! Transcript labels and protocol domains, as byte strings.
use vstd::prelude::*;

verus! {

/// `b"dom-sep"`.
pub const DOM_SEP: [u8; 7] = [100u8, 111u8, 109u8, 45u8, 115u8, 101u8, 112u8];

/// `b"ELGAMAL-ZERO"`.
pub const ZERO_DOMAIN: [u8; 12] = [69u8, 76u8, 71u8, 65u8, 77u8, 65u8, 76u8, 45u8, 90u8, 69u8, 82u8, 79u8];

/// `b"ELGAMAL-PLAINTEXT"`.
pub const PLAINTEXT_DOMAIN: [u8; 17] = [69u8, 76u8, 71u8, 65u8, 77u8, 65u8, 76u8, 45u8, 80u8, 76u8, 65u8, 73u8, 78u8, 84u8, 69u8, 88u8, 84u8];

/// `b"exp"`.
pub const EXP_DOMAIN: [u8; 3] = [101u8, 120u8, 112u8];

/// `b"ELGAMAL-LOGEQ"`.
pub const LOGEQ_DOMAIN: [u8; 13] = [69u8, 76u8, 71u8, 65u8, 77u8, 65u8, 76u8, 45u8, 76u8, 79u8, 71u8, 69u8, 81u8];

/// `b"ELGAMAL-NOTID"`.
pub const NOTID_DOMAIN: [u8; 13] = [69u8, 76u8, 71u8, 65u8, 77u8, 65u8, 76u8, 45u8, 78u8, 79u8, 84u8, 73u8, 68u8];

/// `b"ELGAMAL-DEC"`.
pub const DEC_DOMAIN: [u8; 11] = [69u8, 76u8, 71u8, 65u8, 77u8, 65u8, 76u8, 45u8, 68u8, 69u8, 67u8];

/// `b"ELGAMAL-OR"`.
pub const OR_DOMAIN: [u8; 10] = [69u8, 76u8, 71u8, 65u8, 77u8, 65u8, 76u8, 45u8, 79u8, 82u8];

/// `b"DV-NIZKP"`.
pub const DV_DOMAIN: [u8; 8] = [68u8, 86u8, 45u8, 78u8, 73u8, 90u8, 75u8, 80u8];

/// `b""`.
pub const LABEL_EMPTY: [u8; 0] = [];

/// `b"H"`.
pub const LABEL_H: [u8; 1] = [72u8];

/// `b"G1"`.
pub const LABEL_G1: [u8; 2] = [71u8, 49u8];

/// `b"G2"`.
pub const LABEL_G2: [u8; 2] = [71u8, 50u8];

/// `b"G3"`.
pub const LABEL_G3: [u8; 2] = [71u8, 51u8];

/// `b"O"`.
pub const LABEL_O: [u8; 1] = [79u8];

/// `b"C"`.
pub const LABEL_C: [u8; 1] = [67u8];

/// `b"CT"`.
pub const LABEL_CT: [u8; 2] = [67u8, 84u8];

/// `b"C1"`.
pub const LABEL_C1: [u8; 2] = [67u8, 49u8];

/// `b"C2"`.
pub const LABEL_C2: [u8; 2] = [67u8, 50u8];

/// `b"M"`.
pub const LABEL_M: [u8; 1] = [77u8];

/// `b"K"`.
pub const LABEL_K: [u8; 1] = [75u8];

/// `b"T"`.
pub const LABEL_T: [u8; 1] = [84u8];

/// `b"I"`.
pub const LABEL_I: [u8; 1] = [73u8];

/// `b"I0"`.
pub const LABEL_I0: [u8; 2] = [73u8, 48u8];

/// `b"I1A"`.
pub const LABEL_I1A: [u8; 3] = [73u8, 49u8, 65u8];

/// `b"I1B"`.
pub const LABEL_I1B: [u8; 3] = [73u8, 49u8, 66u8];

/// `b"B0"`.
pub const LABEL_B0: [u8; 2] = [66u8, 48u8];

/// `b"B1A"`.
pub const LABEL_B1A: [u8; 3] = [66u8, 49u8, 65u8];

/// `b"B1B"`.
pub const LABEL_B1B: [u8; 3] = [66u8, 49u8, 66u8];

/// `b"P0"`.
pub const LABEL_P0: [u8; 2] = [80u8, 48u8];

/// `b"P1A"`.
pub const LABEL_P1A: [u8; 3] = [80u8, 49u8, 65u8];

/// `b"P1B"`.
pub const LABEL_P1B: [u8; 3] = [80u8, 49u8, 66u8];

/// `b"n"`.
pub const LABEL_N: [u8; 1] = [110u8];

/// `b"c"`.
pub const LABEL_CHALLENGE: [u8; 1] = [99u8];

/// `b"c1"`.
pub const LABEL_CHALLENGE1: [u8; 2] = [99u8, 49u8];

/// `b"c2"`.
pub const LABEL_CHALLENGE2: [u8; 2] = [99u8, 50u8];

/// `b"x"`.
pub const LABEL_X: [u8; 1] = [120u8];

/// `b"e"`.
pub const LABEL_E: [u8; 1] = [101u8];

/// `b"lambda"`.
pub const LABEL_LAMBDA: [u8; 6] = [108u8, 97u8, 109u8, 98u8, 100u8, 97u8];

/// `b"fp"`.
pub const LABEL_FP: [u8; 2] = [102u8, 112u8];

/// `b"comm"`.
pub const LABEL_COMM: [u8; 4] = [99u8, 111u8, 109u8, 109u8];

/// `b"commitment"`.
pub const LABEL_COMMITMENT: [u8; 10] = [99u8, 111u8, 109u8, 109u8, 105u8, 116u8, 109u8, 101u8, 110u8, 116u8];

/// `b"ciphertext"`.
pub const LABEL_CIPHERTEXT: [u8; 10] = [99u8, 105u8, 112u8, 104u8, 101u8, 114u8, 116u8, 101u8, 120u8, 116u8];

/// `b"base"`.
pub const LABEL_BASE: [u8; 4] = [98u8, 97u8, 115u8, 101u8];

/// `b"pk"`.
pub const LABEL_PK: [u8; 2] = [112u8, 107u8];

/// `b"[t]PK"`.
pub const LABEL_T_PK: [u8; 5] = [91u8, 116u8, 93u8, 80u8, 75u8];

/// `b"[t1]PK"`.
pub const LABEL_T1_PK: [u8; 6] = [91u8, 116u8, 49u8, 93u8, 80u8, 75u8];

/// `b"[t*r]PK"`.
pub const LABEL_TR_PK: [u8; 7] = [91u8, 116u8, 42u8, 114u8, 93u8, 80u8, 75u8];

/// `b"[t2]C"`.
pub const LABEL_T2_C: [u8; 5] = [91u8, 116u8, 50u8, 93u8, 67u8];

/// `b"[-t]C"`.
pub const LABEL_NEG_T_C: [u8; 5] = [91u8, 45u8, 116u8, 93u8, 67u8];

/// `b"c_d"`.
pub const LABEL_C_D: [u8; 3] = [99u8, 95u8, 100u8];

/// `b"c_delta"`.
pub const LABEL_C_DELTA: [u8; 7] = [99u8, 95u8, 100u8, 101u8, 108u8, 116u8, 97u8];

/// `b"c_a"`.
pub const LABEL_C_A: [u8; 3] = [99u8, 95u8, 97u8];

/// `b"commit"`.
pub const LABEL_COMMIT: [u8; 6] = [99u8, 111u8, 109u8, 109u8, 105u8, 116u8];

/// `b"commit_d"`.
pub const LABEL_COMMIT_D: [u8; 8] = [99u8, 111u8, 109u8, 109u8, 105u8, 116u8, 95u8, 100u8];

/// `b"f"`.
pub const LABEL_F: [u8; 1] = [102u8];

/// `b"c_prime"`.
pub const LABEL_C_PRIME: [u8; 7] = [99u8, 95u8, 112u8, 114u8, 105u8, 109u8, 101u8];

} // verus!
