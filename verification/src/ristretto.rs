//! The Ristretto group of `curve25519-dalek`.
//!
//! Points are held by their canonical 32-byte encodings and scalars by their
//! canonical 32-byte little-endian encodings; every operation goes through
//! `curve25519-dalek`.
use vstd::prelude::*;
use curve25519_dalek::constants::RISTRETTO_BASEPOINT_COMPRESSED;
use curve25519_dalek::ristretto::{CompressedRistretto, RistrettoPoint as DalekPoint};
use curve25519_dalek::scalar::Scalar as DalekScalar;
use curve25519_dalek::traits::{Identity, IsIdentity, VartimeMultiscalarMul};
use rand_chacha::ChaCha20Rng;
use crate::bytes::{le_nat, le_bytes, lemma_le_roundtrip, lemma_le_injective};
use crate::randomness::RandomBytesProvider;
use crate::group::{GroupScalar, GroupPoint, Group, msm_val, rng_fill_bytes, chacha_bytes_at, chacha_stream_at};
use crate::transcript::{TranscriptOp, merlin_challenge};

verus! {

/// The order `l = 2^252 + 27742317777372353535851937790883648493` of the
/// Ristretto group.
pub open spec fn ristretto_order() -> nat {
    7237005577332262213973186563042994240857116359379907606001950938285454250989nat
}

/// Whether `CompressedRistretto::decompress` accepts a 32-byte string.
pub uninterp spec fn ristretto_decodes(enc: Seq<u8>) -> bool;

/// The discrete logarithm, base the Ristretto basepoint, of the group element
/// that an accepted encoding denotes. No function computes it; the wrappers
/// below state the group operations of `curve25519-dalek` in its terms.
pub uninterp spec fn ristretto_dlog(enc: Seq<u8>) -> int;

/// The discrete logarithm of an encoding, as a residue.
pub open spec fn rdlog(enc: Seq<u8>) -> int {
    ristretto_dlog(enc) % ristretto_order() as int
}

/// Whether 32 bytes denote, little-endian, a number below the order.
pub open spec fn canonical(b: Seq<u8>) -> bool {
    le_nat(b) < ristretto_order()
}

// --- scalars -------------------------------------------------------------

/// `Scalar::from_canonical_bytes(a) + Scalar::from_canonical_bytes(b)`, as
/// bytes: the sum modulo `l`.
#[verifier::external_body]
fn dalek_scalar_add(a: &[u8; 32], b: &[u8; 32]) -> (r: [u8; 32])
    requires
        canonical(a@),
        canonical(b@),
    ensures
        le_nat(r@) == (le_nat(a@) + le_nat(b@)) % ristretto_order(),
{
    (DalekScalar::from_canonical_bytes(*a).unwrap() + DalekScalar::from_canonical_bytes(*b).unwrap()).to_bytes()
}

/// Scalar subtraction of `curve25519-dalek`, as bytes: the difference modulo `l`.
#[verifier::external_body]
fn dalek_scalar_sub(a: &[u8; 32], b: &[u8; 32]) -> (r: [u8; 32])
    requires
        canonical(a@),
        canonical(b@),
    ensures
        le_nat(r@) as int == (le_nat(a@) - le_nat(b@)) % ristretto_order() as int,
{
    (DalekScalar::from_canonical_bytes(*a).unwrap() - DalekScalar::from_canonical_bytes(*b).unwrap()).to_bytes()
}

/// Scalar multiplication of `curve25519-dalek`, as bytes: the product modulo `l`.
#[verifier::external_body]
fn dalek_scalar_mul(a: &[u8; 32], b: &[u8; 32]) -> (r: [u8; 32])
    requires
        canonical(a@),
        canonical(b@),
    ensures
        le_nat(r@) == (le_nat(a@) * le_nat(b@)) % ristretto_order(),
{
    (DalekScalar::from_canonical_bytes(*a).unwrap() * DalekScalar::from_canonical_bytes(*b).unwrap()).to_bytes()
}

/// `Scalar::invert`: the inverse modulo `l` of a nonzero scalar.
#[verifier::external_body]
fn dalek_scalar_invert(a: &[u8; 32]) -> (r: [u8; 32])
    requires
        canonical(a@),
        le_nat(a@) != 0,
    ensures
        canonical(r@),
        (le_nat(r@) * le_nat(a@)) % ristretto_order() == 1,
{
    DalekScalar::from_canonical_bytes(*a).unwrap().invert().to_bytes()
}

/// `Scalar::from(u64)`, as bytes: the value itself.
#[verifier::external_body]
fn dalek_scalar_from_u64(v: u64) -> (r: [u8; 32])
    ensures
        le_nat(r@) == v,
{
    DalekScalar::from(v).to_bytes()
}

/// `Scalar::from_bytes_mod_order_wide`, as bytes: the 512-bit little-endian
/// integer reduced modulo `l`.
#[verifier::external_body]
fn dalek_scalar_reduce_wide(input: &[u8; 64]) -> (r: [u8; 32])
    ensures
        le_nat(r@) == le_nat(input@) % ristretto_order(),
{
    DalekScalar::from_bytes_mod_order_wide(input).to_bytes()
}

/// Whether `Scalar::from_canonical_bytes` accepts the bytes: exactly when
/// they denote a number below `l`.
#[verifier::external_body]
fn dalek_scalar_is_canonical(b: &[u8; 32]) -> (r: bool)
    ensures
        r == canonical(b@),
{
    bool::from(DalekScalar::from_canonical_bytes(*b).is_some())
}

// --- points --------------------------------------------------------------

/// `CompressedRistretto::from_slice(b)` then `decompress`: whether the slice
/// is an accepted encoding.
#[verifier::external_body]
fn dalek_decompresses(b: &[u8]) -> (r: bool)
    ensures
        r == (b@.len() == 32 && ristretto_decodes(b@)),
{
    match CompressedRistretto::from_slice(b) {
        Ok(c) => c.decompress().is_some(),
        Err(_) => false,
    }
}

/// The compressed basepoint: its discrete logarithm is 1.
#[verifier::external_body]
fn dalek_basepoint() -> (r: [u8; 32])
    ensures
        ristretto_decodes(r@),
        (ristretto_dlog(r@) % ristretto_order() as int) == 1,
{
    RISTRETTO_BASEPOINT_COMPRESSED.to_bytes()
}

/// The compressed identity: its discrete logarithm is 0.
#[verifier::external_body]
fn dalek_identity() -> (r: [u8; 32])
    ensures
        ristretto_decodes(r@),
        (ristretto_dlog(r@) % ristretto_order() as int) == 0,
{
    DalekPoint::identity().compress().to_bytes()
}

/// `RistrettoPoint::random`, compressed: some element of the group.
#[verifier::external_body]
fn dalek_point_random(rng: &mut ChaCha20Rng) -> (r: [u8; 32])
    ensures
        ristretto_decodes(r@),
{
    DalekPoint::random(rng).compress().to_bytes()
}

/// Point addition, on compressed encodings.
#[verifier::external_body]
fn dalek_point_add(a: &[u8; 32], b: &[u8; 32]) -> (r: [u8; 32])
    requires
        ristretto_decodes(a@),
        ristretto_decodes(b@),
    ensures
        ristretto_decodes(r@),
        (ristretto_dlog(r@) % ristretto_order() as int) == ((ristretto_dlog(a@) % ristretto_order() as int) + (ristretto_dlog(b@) % ristretto_order() as int)) % ristretto_order() as int,
{
    let p = CompressedRistretto(*a).decompress().unwrap();
    let q = CompressedRistretto(*b).decompress().unwrap();
    (p + q).compress().to_bytes()
}

/// Point subtraction, on compressed encodings.
#[verifier::external_body]
fn dalek_point_sub(a: &[u8; 32], b: &[u8; 32]) -> (r: [u8; 32])
    requires
        ristretto_decodes(a@),
        ristretto_decodes(b@),
    ensures
        ristretto_decodes(r@),
        (ristretto_dlog(r@) % ristretto_order() as int) == ((ristretto_dlog(a@) % ristretto_order() as int) - (ristretto_dlog(b@) % ristretto_order() as int)) % ristretto_order() as int,
{
    let p = CompressedRistretto(*a).decompress().unwrap();
    let q = CompressedRistretto(*b).decompress().unwrap();
    (p - q).compress().to_bytes()
}

/// Point negation, on compressed encodings.
#[verifier::external_body]
fn dalek_point_neg(a: &[u8; 32]) -> (r: [u8; 32])
    requires
        ristretto_decodes(a@),
    ensures
        ristretto_decodes(r@),
        (ristretto_dlog(r@) % ristretto_order() as int) == (-(ristretto_dlog(a@) % ristretto_order() as int)) % ristretto_order() as int,
{
    (-CompressedRistretto(*a).decompress().unwrap()).compress().to_bytes()
}

/// Scalar multiplication `[s]P`, on compressed encodings.
#[verifier::external_body]
fn dalek_point_mul(p: &[u8; 32], s: &[u8; 32]) -> (r: [u8; 32])
    requires
        ristretto_decodes(p@),
        canonical(s@),
    ensures
        ristretto_decodes(r@),
        (ristretto_dlog(r@) % ristretto_order() as int) == ((ristretto_dlog(p@) % ristretto_order() as int) * le_nat(s@)) % ristretto_order() as int,
{
    let point = CompressedRistretto(*p).decompress().unwrap();
    (point * DalekScalar::from_canonical_bytes(*s).unwrap()).compress().to_bytes()
}

/// Point equality of `curve25519-dalek`: group elements are equal exactly
/// when their discrete logarithms are, and the encoding is canonical.
#[verifier::external_body]
fn dalek_point_eq(a: &[u8; 32], b: &[u8; 32]) -> (r: bool)
    requires
        ristretto_decodes(a@),
        ristretto_decodes(b@),
    ensures
        r == ((ristretto_dlog(a@) % ristretto_order() as int) == (ristretto_dlog(b@) % ristretto_order() as int)),
        r == (a@ == b@),
{
    CompressedRistretto(*a).decompress().unwrap() == CompressedRistretto(*b).decompress().unwrap()
}

/// `IsIdentity::is_identity`.
#[verifier::external_body]
fn dalek_is_identity(a: &[u8; 32]) -> (r: bool)
    requires
        ristretto_decodes(a@),
    ensures
        r == ((ristretto_dlog(a@) % ristretto_order() as int) == 0),
{
    CompressedRistretto(*a).decompress().unwrap().is_identity()
}

/// `sum_{i < n} s_i * dlog(p_i)`.
pub open spec fn dlog_dot(scalars: Seq<[u8; 32]>, points: Seq<[u8; 32]>, n: int) -> int
    decreases n,
{
    if n <= 0 {
        0
    } else {
        dlog_dot(scalars, points, n - 1) + le_nat(scalars[n - 1]@) * rdlog(points[n - 1]@)
    }
}

/// `VartimeMultiscalarMul::vartime_multiscalar_mul` for Ristretto points,
/// on encodings; `curve25519-dalek` asserts that the two lists have one length.
#[verifier::external_body]
fn dalek_vartime_multiscalar_mul(scalars: &[[u8; 32]], points: &[[u8; 32]]) -> (r: [u8; 32])
    requires
        scalars@.len() == points@.len(),
        forall|i: int| 0 <= i < scalars@.len() ==> canonical(#[trigger] scalars@[i]@),
        forall|i: int| 0 <= i < points@.len() ==> ristretto_decodes(#[trigger] points@[i]@),
    ensures
        ristretto_decodes(r@),
        (ristretto_dlog(r@) % ristretto_order() as int) == dlog_dot(scalars@, points@, scalars@.len() as int) % ristretto_order() as int,
{
    let s: Vec<DalekScalar> = scalars.iter().map(|b| DalekScalar::from_canonical_bytes(*b).unwrap()).collect();
    let p: Vec<DalekPoint> = points.iter().map(|b| CompressedRistretto(*b).decompress().unwrap()).collect();
    DalekPoint::vartime_multiscalar_mul(s, p).compress().to_bytes()
}

// --- the group -----------------------------------------------------------

/// A scalar of the Ristretto group: canonical little-endian bytes.
#[derive(PartialEq, Eq, Debug, Clone, Copy)]
pub struct RistrettoScalar {
    bytes: [u8; 32],
}

impl RistrettoScalar {
    #[verifier::type_invariant]
    spec fn inv(self) -> bool {
        canonical(self.bytes@)
    }
}

/// A point of the Ristretto group: its canonical compressed encoding.
#[derive(PartialEq, Eq, Debug, Clone, Copy)]
pub struct RistrettoPoint {
    enc: [u8; 32],
}

impl RistrettoPoint {
    #[verifier::type_invariant]
    spec fn inv(self) -> bool {
        ristretto_decodes(self.enc@)
    }
}

/// The Ristretto group.
#[derive(PartialEq, Eq, Debug, Clone, Copy)]
pub struct RistrettoGroup(());

impl GroupScalar for RistrettoGroup {
    type Scalar = RistrettoScalar;

    const SCALAR_SIZE: usize = 32;

    open spec fn order() -> nat {
        ristretto_order()
    }

    closed spec fn scalar_val(s: RistrettoScalar) -> int {
        le_nat(s.bytes@) as int % ristretto_order() as int
    }

    closed spec fn scalar_bytes(s: RistrettoScalar) -> Seq<u8> {
        s.bytes@
    }

    open spec fn scalar_decodes(b: Seq<u8>) -> bool {
        b.len() == 32 && canonical(b)
    }

    open spec fn decoded_scalar_val(b: Seq<u8>) -> int {
        le_nat(b) as int % ristretto_order() as int
    }

    open spec fn u64_scalar_bytes(v: u64) -> Seq<u8> {
        le_bytes(v as nat, 32)
    }

    open spec fn challenge_len() -> nat {
        64
    }

    open spec fn spec_challenge(entries: Seq<TranscriptOp>, label: Seq<u8>) -> int {
        (le_nat(merlin_challenge(entries, label, 64)) % ristretto_order()) as int
    }

    proof fn lemma_challenge_range(entries: Seq<TranscriptOp>, label: Seq<u8>) {
        vstd::arithmetic::div_mod::lemma_mod_bound(le_nat(merlin_challenge(entries, label, 64)) as int, ristretto_order() as int);
    }

    open spec fn seeded_draw(seed: Seq<u8>, pos: int) -> (int, int) {
        let d = chacha_stream_at(seed, pos);
        ((le_nat(d.0) % ristretto_order()) as int, d.1)
    }

    proof fn lemma_order() {
    }

    proof fn lemma_scalar_bytes_determine(a: RistrettoScalar, b: RistrettoScalar) {
    }

    proof fn lemma_scalar_facts(s: RistrettoScalar) {
    }

    fn scalar_random(rng: &mut ChaCha20Rng) -> (r: RistrettoScalar) {
        let mut uniform_bytes = [0u8; 64];
        rng_fill_bytes(rng, &mut uniform_bytes);
        let bytes = dalek_scalar_reduce_wide(&uniform_bytes);
        RistrettoScalar { bytes }
    }

    fn scalar_inv(scalar: RistrettoScalar) -> (r: RistrettoScalar) {
        proof {
            use_type_invariant(&scalar);
            vstd::arithmetic::div_mod::lemma_small_mod(le_nat(scalar.bytes@), ristretto_order());
        }
        let bytes = dalek_scalar_invert(&scalar.bytes);
        proof {
            vstd::arithmetic::div_mod::lemma_small_mod(le_nat(bytes@), ristretto_order());
        }
        RistrettoScalar { bytes }
    }

    fn scalar_at(seed: &[u8; 32], pos: u128) -> (r: (RistrettoScalar, u128)) {
        let (uniform_bytes, next) = chacha_bytes_at(*seed, pos);
        let bytes = dalek_scalar_reduce_wide(&uniform_bytes);
        proof {
            vstd::arithmetic::div_mod::lemma_small_mod(le_nat(bytes@), ristretto_order());
        }
        (RistrettoScalar { bytes }, next)
    }

    fn scalar_from_random_bytes(source: RandomBytesProvider<'_>) -> (r: RistrettoScalar) {
        let mut scalar_bytes = [0u8; 64];
        source.fill_bytes(&mut scalar_bytes);
        let bytes = dalek_scalar_reduce_wide(&scalar_bytes);
        proof {
            vstd::arithmetic::div_mod::lemma_small_mod(le_nat(bytes@), ristretto_order());
        }
        RistrettoScalar { bytes }
    }

    fn scalar_to_bytes(buffer: &mut [u8], scalar: &RistrettoScalar) {
        proof {
            use_type_invariant(scalar);
        }
        let mut i: usize = 0;
        while i < 32
            invariant
                buffer@.len() == 32,
                0 <= i <= 32,
                forall|j: int| 0 <= j < i ==> buffer@[j] == scalar.bytes@[j],
            decreases 32 - i,
        {
            buffer[i] = scalar.bytes[i];
            i = i + 1;
        }
        assert(buffer@ =~= scalar.bytes@);
    }

    fn scalar_from_bytes(buffer: &[u8]) -> (r: Option<RistrettoScalar>) {
        if buffer.len() != 32 {
            return None;
        }
        let mut bytes = [0u8; 32];
        let mut i: usize = 0;
        while i < 32
            invariant
                buffer@.len() == 32,
                0 <= i <= 32,
                forall|j: int| 0 <= j < i ==> bytes@[j] == buffer@[j],
            decreases 32 - i,
        {
            bytes[i] = buffer[i];
            i = i + 1;
        }
        assert(bytes@ =~= buffer@);
        if dalek_scalar_is_canonical(&bytes) {
            Some(RistrettoScalar { bytes })
        } else {
            None
        }
    }

    fn scalar_from_u64(v: u64) -> (r: RistrettoScalar) {
        let bytes = dalek_scalar_from_u64(v);
        proof {
            lemma_le_roundtrip(bytes@);
            assert((v as nat) < ristretto_order());
        }
        RistrettoScalar { bytes }
    }

    fn scalar_add(a: &RistrettoScalar, b: &RistrettoScalar) -> (r: RistrettoScalar) {
        proof {
            use_type_invariant(a);
            use_type_invariant(b);
            vstd::arithmetic::div_mod::lemma_small_mod(le_nat(a.bytes@), ristretto_order());
            vstd::arithmetic::div_mod::lemma_small_mod(le_nat(b.bytes@), ristretto_order());
        }
        let bytes = dalek_scalar_add(&a.bytes, &b.bytes);
        proof {
            vstd::arithmetic::div_mod::lemma_mod_bound((le_nat(a.bytes@) + le_nat(b.bytes@)) as int, ristretto_order() as int);
            vstd::arithmetic::div_mod::lemma_small_mod(le_nat(bytes@), ristretto_order());
        }
        RistrettoScalar { bytes }
    }

    fn scalar_sub(a: &RistrettoScalar, b: &RistrettoScalar) -> (r: RistrettoScalar) {
        proof {
            use_type_invariant(a);
            use_type_invariant(b);
            vstd::arithmetic::div_mod::lemma_small_mod(le_nat(a.bytes@), ristretto_order());
            vstd::arithmetic::div_mod::lemma_small_mod(le_nat(b.bytes@), ristretto_order());
        }
        let bytes = dalek_scalar_sub(&a.bytes, &b.bytes);
        proof {
            vstd::arithmetic::div_mod::lemma_mod_bound(le_nat(a.bytes@) - le_nat(b.bytes@), ristretto_order() as int);
            vstd::arithmetic::div_mod::lemma_small_mod(le_nat(bytes@), ristretto_order());
        }
        RistrettoScalar { bytes }
    }

    fn scalar_mul(a: &RistrettoScalar, b: &RistrettoScalar) -> (r: RistrettoScalar) {
        proof {
            use_type_invariant(a);
            use_type_invariant(b);
            vstd::arithmetic::div_mod::lemma_small_mod(le_nat(a.bytes@), ristretto_order());
            vstd::arithmetic::div_mod::lemma_small_mod(le_nat(b.bytes@), ristretto_order());
        }
        let bytes = dalek_scalar_mul(&a.bytes, &b.bytes);
        proof {
            vstd::arithmetic::div_mod::lemma_mod_bound((le_nat(a.bytes@) * le_nat(b.bytes@)) as int, ristretto_order() as int);
            vstd::arithmetic::div_mod::lemma_small_mod(le_nat(bytes@), ristretto_order());
        }
        RistrettoScalar { bytes }
    }

    fn scalar_eq(a: &RistrettoScalar, b: &RistrettoScalar) -> (r: bool) {
        proof {
            use_type_invariant(a);
            use_type_invariant(b);
            vstd::arithmetic::div_mod::lemma_small_mod(le_nat(a.bytes@), ristretto_order());
            vstd::arithmetic::div_mod::lemma_small_mod(le_nat(b.bytes@), ristretto_order());
        }
        let mut i: usize = 0;
        while i < 32
            invariant
                0 <= i <= 32,
                forall|j: int| 0 <= j < i ==> a.bytes@[j] == b.bytes@[j],
            decreases 32 - i,
        {
            if a.bytes[i] != b.bytes[i] {
                proof {
                    assert(a.bytes@[i as int] != b.bytes@[i as int]);
                    assert(a.bytes@.len() == 32 && b.bytes@.len() == 32);
                    if le_nat(a.bytes@) == le_nat(b.bytes@) {
                        lemma_le_injective(a.bytes@, b.bytes@);
                    }
                    use_type_invariant(a);
                    use_type_invariant(b);
                    vstd::arithmetic::div_mod::lemma_small_mod(le_nat(a.bytes@), ristretto_order());
                    vstd::arithmetic::div_mod::lemma_small_mod(le_nat(b.bytes@), ristretto_order());
                }
                return false;
            }
            i = i + 1;
        }
        proof {
            assert(a.bytes@ =~= b.bytes@);
        }
        true
    }
}


impl GroupPoint for RistrettoGroup {
    type Point = RistrettoPoint;

    const POINT_SIZE: usize = 32;

    closed spec fn point_val(p: RistrettoPoint) -> int {
        rdlog(p.enc@)
    }

    closed spec fn point_bytes(p: RistrettoPoint) -> Seq<u8> {
        p.enc@
    }

    open spec fn point_decodes(b: Seq<u8>) -> bool {
        b.len() == 32 && ristretto_decodes(b)
    }

    open spec fn decoded_val(b: Seq<u8>) -> int {
        rdlog(b)
    }

    open spec fn point_canonical(b: Seq<u8>) -> bool {
        true
    }

    proof fn lemma_point_size() {
    }

    proof fn lemma_point_bytes_determine(a: RistrettoPoint, b: RistrettoPoint) {
    }

    proof fn lemma_point_facts(p: RistrettoPoint) {
    }

    fn generator() -> (r: RistrettoPoint) {
        RistrettoPoint { enc: dalek_basepoint() }
    }

    fn point_random(rng: &mut ChaCha20Rng) -> (r: RistrettoPoint) {
        RistrettoPoint { enc: dalek_point_random(rng) }
    }

    fn identity() -> (r: RistrettoPoint) {
        RistrettoPoint { enc: dalek_identity() }
    }

    fn is_id(point: &RistrettoPoint) -> (r: bool) {
        proof {
            use_type_invariant(point);
        }
        dalek_is_identity(&point.enc)
    }

    fn point_inv(point: RistrettoPoint) -> (r: RistrettoPoint) {
        proof {
            use_type_invariant(&point);
        }
        RistrettoPoint { enc: dalek_point_neg(&point.enc) }
    }

    fn point_to_bytes(buffer: &mut [u8], point: &RistrettoPoint) {
        proof {
            use_type_invariant(point);
        }
        let mut i: usize = 0;
        while i < 32
            invariant
                buffer@.len() == 32,
                0 <= i <= 32,
                forall|j: int| 0 <= j < i ==> buffer@[j] == point.enc@[j],
            decreases 32 - i,
        {
            buffer[i] = point.enc[i];
            i = i + 1;
        }
        assert(buffer@ =~= point.enc@);
    }

    fn point_from_bytes(buffer: &[u8]) -> (r: Option<RistrettoPoint>) {
        if !dalek_decompresses(buffer) {
            return None;
        }
        let mut enc = [0u8; 32];
        let mut i: usize = 0;
        while i < 32
            invariant
                buffer@.len() == 32,
                0 <= i <= 32,
                forall|j: int| 0 <= j < i ==> enc@[j] == buffer@[j],
            decreases 32 - i,
        {
            enc[i] = buffer[i];
            i = i + 1;
        }
        assert(enc@ =~= buffer@);
        Some(RistrettoPoint { enc })
    }

    fn point_add(a: &RistrettoPoint, b: &RistrettoPoint) -> (r: RistrettoPoint) {
        proof {
            use_type_invariant(a);
            use_type_invariant(b);
        }
        RistrettoPoint { enc: dalek_point_add(&a.enc, &b.enc) }
    }

    fn point_sub(a: &RistrettoPoint, b: &RistrettoPoint) -> (r: RistrettoPoint) {
        proof {
            use_type_invariant(a);
            use_type_invariant(b);
        }
        RistrettoPoint { enc: dalek_point_sub(&a.enc, &b.enc) }
    }

    fn point_mul(p: &RistrettoPoint, s: &RistrettoScalar) -> (r: RistrettoPoint) {
        proof {
            use_type_invariant(p);
            use_type_invariant(s);
            vstd::arithmetic::div_mod::lemma_small_mod(le_nat(s.bytes@), ristretto_order());
        }
        RistrettoPoint { enc: dalek_point_mul(&p.enc, &s.bytes) }
    }

    fn point_eq(a: &RistrettoPoint, b: &RistrettoPoint) -> (r: bool) {
        proof {
            use_type_invariant(a);
            use_type_invariant(b);
        }
        let r = dalek_point_eq(&a.enc, &b.enc);
        proof {
            if r {
                assert(a.enc =~= b.enc);
            }
        }
        r
    }
}

proof fn lemma_dot_is_msm(
    sb: Seq<[u8; 32]>,
    pb: Seq<[u8; 32]>,
    scalars: Seq<RistrettoScalar>,
    points: Seq<RistrettoPoint>,
    n: int,
)
    requires
        0 <= n <= sb.len(),
        sb.len() == scalars.len(),
        pb.len() == points.len(),
        n <= pb.len(),
        forall|i: int| 0 <= i < sb.len() ==> #[trigger] sb[i] == scalars[i].bytes && canonical(sb[i]@),
        forall|i: int| 0 <= i < pb.len() ==> #[trigger] pb[i] == points[i].enc,
    ensures
        dlog_dot(sb, pb, n) == msm_val::<RistrettoGroup>(scalars, points, n),
    decreases n,
{
    if n > 0 {
        lemma_dot_is_msm(sb, pb, scalars, points, n - 1);
        assert(sb[n - 1] == scalars[n - 1].bytes);
        assert(pb[n - 1] == points[n - 1].enc);
        vstd::arithmetic::div_mod::lemma_small_mod(le_nat(sb[n - 1]@), ristretto_order());
    }
}

impl Group for RistrettoGroup {
    fn vartime_multi_mul(scalars: &[RistrettoScalar], points: &[RistrettoPoint]) -> (r: RistrettoPoint) {
        let mut sb: Vec<[u8; 32]> = Vec::new();
        let mut pb: Vec<[u8; 32]> = Vec::new();
        let mut i: usize = 0;
        while i < scalars.len()
            invariant
                scalars@.len() == points@.len(),
                0 <= i <= scalars@.len(),
                sb@.len() == i,
                pb@.len() == i,
                forall|j: int| 0 <= j < i ==> #[trigger] sb@[j] == scalars@[j].bytes && canonical(sb@[j]@),
                forall|j: int| 0 <= j < i ==> #[trigger] pb@[j] == points@[j].enc && ristretto_decodes(pb@[j]@),
            decreases scalars@.len() - i,
        {
            let s = scalars[i];
            let p = points[i];
            proof {
                use_type_invariant(&s);
                use_type_invariant(&p);
            }
            sb.push(s.bytes);
            pb.push(p.enc);
            i = i + 1;
        }
        let enc = dalek_vartime_multiscalar_mul(sb.as_slice(), pb.as_slice());
        proof {
            lemma_dot_is_msm(sb@, pb@, scalars@, points@, scalars@.len() as int);
        }
        RistrettoPoint { enc }
    }
}

} // verus!
