//! The secp256k1 group of the `k256` crate.
//!
//! Points are held by their `GroupEncoding` form: the 33-byte compressed
//! SEC1 encoding, and 33 zero bytes for the identity. Scalars are held by
//! their 32-byte big-endian encodings below the order. Every operation goes
//! through `k256`.
use vstd::prelude::*;
use k256::elliptic_curve::group::GroupEncoding;
use k256::elliptic_curve::sec1::FromEncodedPoint;
use k256::elliptic_curve::{Field, PrimeField};
use k256::elliptic_curve::Group as CurveGroup;
use k256::{AffinePoint, CompressedPoint, EncodedPoint, FieldBytes, ProjectivePoint, Scalar};
use rand_chacha::ChaCha20Rng;
use rand_core::SeedableRng;
use crate::bytes::{zero_bytes, is_zero_bytes, be_nat, le_bytes, lemma_be_injective, lemma_be_roundtrip};
use crate::randomness::RandomBytesProvider;
use crate::group::{GroupScalar, GroupPoint, Group};
use crate::transcript::{TranscriptOp, merlin_challenge};

verus! {

/// The order of the secp256k1 group.
pub open spec fn k256_order() -> nat {
    0xFFFFFFFFFFFFFFFFFFFFFFFFFFFFFFFEBAAEDCE6AF48A03BBFD25E8CD0364141nat
}

/// Whether 32 bytes are the big-endian encoding of a scalar below the order.
pub open spec fn k256_canonical(b: Seq<u8>) -> bool {
    b.len() == 32 && be_nat(b) < k256_order()
}

/// Whether `GroupEncoding::from_bytes` of `ProjectivePoint` accepts 33 bytes.
pub uninterp spec fn k256_valid(e: Seq<u8>) -> bool;

/// The discrete logarithm, base the generator, of the point whose
/// `GroupEncoding` form is `e`. No function computes it; the wrappers below
/// state the group operations of `k256` in its terms.
pub uninterp spec fn k256_dlog(e: Seq<u8>) -> int;

/// What `EncodedPoint::from_bytes` followed by
/// `AffinePoint::from_encoded_point` gives for a SEC1 byte string: the
/// `GroupEncoding` form of the point, or `None`.
pub uninterp spec fn k256_sec1_point(b: Seq<u8>) -> Option<Seq<u8>>;

/// The value of `Scalar::random` drawn from a ChaCha20 generator seeded with
/// `seed` and set to word position `pos`, and the word position the
/// generator is at after the draw; rejection sampling from a seeded stream
/// is deterministic.
pub uninterp spec fn k256_seeded_scalar(seed: Seq<u8>, pos: int) -> (int, int);

/// The discrete logarithm of a `GroupEncoding` form, as a residue.
pub open spec fn kdlog(e: Seq<u8>) -> int {
    k256_dlog(e) % k256_order() as int
}

/// The shape of what `GroupEncoding::to_bytes` gives: for the identity,
/// 33 zero bytes (the one-byte SEC1 identity padded with zeros);
/// otherwise the compressed SEC1 encoding of the point, which decodes to
/// the point.
pub open spec fn k256_repr(e: Seq<u8>) -> bool {
    &&& e.len() == 33
    &&& kdlog(e) == 0 ==> e == zero_bytes(33)
    &&& kdlog(e) != 0 ==> (e[0] == 2 || e[0] == 3) && k256_sec1_point(e) == Some(e)
}

/// A SEC1 string of the compressed form.
pub open spec fn k256_compressed(b: Seq<u8>) -> bool {
    b.len() == 33 && (b[0] == 2 || b[0] == 3)
}

// --- scalars -------------------------------------------------------------

/// `Scalar + Scalar`: the sum modulo the order.
#[verifier::external_body]
fn k256_scalar_add(a: &[u8; 32], b: &[u8; 32]) -> (r: [u8; 32])
    requires
        k256_canonical(a@),
        k256_canonical(b@),
    ensures
        be_nat(r@) == (be_nat(a@) + be_nat(b@)) % k256_order(),
{
    let x = Scalar::from_repr(FieldBytes::clone_from_slice(a)).unwrap();
    let y = Scalar::from_repr(FieldBytes::clone_from_slice(b)).unwrap();
    let mut r = [0u8; 32];
    r.copy_from_slice(&(x + y).to_repr());
    r
}

/// `Scalar - Scalar`: the difference modulo the order.
#[verifier::external_body]
fn k256_scalar_sub(a: &[u8; 32], b: &[u8; 32]) -> (r: [u8; 32])
    requires
        k256_canonical(a@),
        k256_canonical(b@),
    ensures
        be_nat(r@) as int == (be_nat(a@) - be_nat(b@)) % k256_order() as int,
{
    let x = Scalar::from_repr(FieldBytes::clone_from_slice(a)).unwrap();
    let y = Scalar::from_repr(FieldBytes::clone_from_slice(b)).unwrap();
    let mut r = [0u8; 32];
    r.copy_from_slice(&(x - y).to_repr());
    r
}

/// `Scalar * Scalar`: the product modulo the order.
#[verifier::external_body]
fn k256_scalar_mul(a: &[u8; 32], b: &[u8; 32]) -> (r: [u8; 32])
    requires
        k256_canonical(a@),
        k256_canonical(b@),
    ensures
        be_nat(r@) == (be_nat(a@) * be_nat(b@)) % k256_order(),
{
    let x = Scalar::from_repr(FieldBytes::clone_from_slice(a)).unwrap();
    let y = Scalar::from_repr(FieldBytes::clone_from_slice(b)).unwrap();
    let mut r = [0u8; 32];
    r.copy_from_slice(&(x * y).to_repr());
    r
}

/// `Scalar::invert`, which gives `None` for zero alone: the inverse modulo
/// the order of a nonzero scalar.
#[verifier::external_body]
fn k256_scalar_invert(a: &[u8; 32]) -> (r: [u8; 32])
    requires
        k256_canonical(a@),
        be_nat(a@) != 0,
    ensures
        k256_canonical(r@),
        (be_nat(r@) * be_nat(a@)) % k256_order() == 1,
{
    let x = Scalar::from_repr(FieldBytes::clone_from_slice(a)).unwrap();
    let mut r = [0u8; 32];
    r.copy_from_slice(&x.invert().unwrap().to_repr());
    r
}

/// `Scalar::from(u64)`: the value itself.
#[verifier::external_body]
fn k256_scalar_from_u64(v: u64) -> (r: [u8; 32])
    ensures
        be_nat(r@) == v,
{
    let mut r = [0u8; 32];
    r.copy_from_slice(&Scalar::from(v).to_repr());
    r
}

/// Whether `Scalar::from_repr` accepts the bytes: exactly when they denote
/// a number below the order.
#[verifier::external_body]
fn k256_scalar_is_canonical(b: &[u8; 32]) -> (r: bool)
    ensures
        r == k256_canonical(b@),
{
    bool::from(Scalar::from_repr(FieldBytes::clone_from_slice(b)).is_some())
}

/// `Scalar::random` on the generator: some scalar.
#[verifier::external_body]
fn k256_scalar_random(rng: &mut ChaCha20Rng) -> (r: [u8; 32])
    ensures
        k256_canonical(r@),
{
    let mut r = [0u8; 32];
    r.copy_from_slice(&Scalar::random(rng).to_repr());
    r
}

/// `Scalar::random` on a ChaCha20 generator made by `from_seed(seed)` and
/// set to word position `pos` by `set_word_pos`, with the position that
/// `get_word_pos` gives after the draw.
#[verifier::external_body]
fn k256_scalar_at(seed: [u8; 32], pos: u128) -> (r: ([u8; 32], u128))
    ensures
        k256_canonical(r.0@),
        be_nat(r.0@) == k256_seeded_scalar(seed@, pos as int).0,
        r.1 == k256_seeded_scalar(seed@, pos as int).1,
{
    let mut rng = ChaCha20Rng::from_seed(seed);
    rng.set_word_pos(pos);
    let mut r = [0u8; 32];
    r.copy_from_slice(&Scalar::random(&mut rng).to_repr());
    (r, rng.get_word_pos())
}

// --- points --------------------------------------------------------------

/// `ProjectivePoint::GENERATOR`, in `GroupEncoding` form.
#[verifier::external_body]
fn k256_generator() -> (r: [u8; 33])
    ensures
        k256_valid(r@),
        k256_repr(r@),
        k256_dlog(r@) % k256_order() as int == 1,
{
    let mut r = [0u8; 33];
    r.copy_from_slice(&ProjectivePoint::GENERATOR.to_bytes());
    r
}

/// `ProjectivePoint::IDENTITY`, in `GroupEncoding` form.
#[verifier::external_body]
fn k256_identity() -> (r: [u8; 33])
    ensures
        r@ == zero_bytes(33),
        k256_valid(r@),
        k256_repr(r@),
        kdlog(r@) == 0,
{
    let mut r = [0u8; 33];
    r.copy_from_slice(&ProjectivePoint::IDENTITY.to_bytes());
    r
}

/// `ProjectivePoint::random`: some point.
#[verifier::external_body]
fn k256_point_random(rng: &mut ChaCha20Rng) -> (r: [u8; 33])
    ensures
        k256_valid(r@),
        k256_repr(r@),
{
    let mut r = [0u8; 33];
    r.copy_from_slice(&ProjectivePoint::random(rng).to_bytes());
    r
}

/// Point addition.
#[verifier::external_body]
fn k256_point_add(a: &[u8; 33], b: &[u8; 33]) -> (r: [u8; 33])
    requires
        k256_valid(a@),
        k256_repr(a@),
        k256_valid(b@),
        k256_repr(b@),
    ensures
        k256_valid(r@),
        k256_repr(r@),
        kdlog(r@) == (kdlog(a@) + kdlog(b@)) % k256_order() as int,
{
    let p = ProjectivePoint::from_bytes(&CompressedPoint::clone_from_slice(a)).unwrap();
    let q = ProjectivePoint::from_bytes(&CompressedPoint::clone_from_slice(b)).unwrap();
    let mut r = [0u8; 33];
    r.copy_from_slice(&(p + q).to_bytes());
    r
}

/// Point subtraction.
#[verifier::external_body]
fn k256_point_sub(a: &[u8; 33], b: &[u8; 33]) -> (r: [u8; 33])
    requires
        k256_valid(a@),
        k256_repr(a@),
        k256_valid(b@),
        k256_repr(b@),
    ensures
        k256_valid(r@),
        k256_repr(r@),
        kdlog(r@) == (kdlog(a@) - kdlog(b@)) % k256_order() as int,
{
    let p = ProjectivePoint::from_bytes(&CompressedPoint::clone_from_slice(a)).unwrap();
    let q = ProjectivePoint::from_bytes(&CompressedPoint::clone_from_slice(b)).unwrap();
    let mut r = [0u8; 33];
    r.copy_from_slice(&(p - q).to_bytes());
    r
}

/// Point negation.
#[verifier::external_body]
fn k256_point_neg(a: &[u8; 33]) -> (r: [u8; 33])
    requires
        k256_valid(a@),
        k256_repr(a@),
    ensures
        k256_valid(r@),
        k256_repr(r@),
        kdlog(r@) == (-kdlog(a@)) % k256_order() as int,
{
    let p = ProjectivePoint::from_bytes(&CompressedPoint::clone_from_slice(a)).unwrap();
    let mut r = [0u8; 33];
    r.copy_from_slice(&(-p).to_bytes());
    r
}

/// Scalar multiplication `[s]P`.
#[verifier::external_body]
fn k256_point_mul(p: &[u8; 33], s: &[u8; 32]) -> (r: [u8; 33])
    requires
        k256_valid(p@),
        k256_repr(p@),
        k256_canonical(s@),
    ensures
        k256_valid(r@),
        k256_repr(r@),
        kdlog(r@) == (kdlog(p@) * be_nat(s@)) % k256_order() as int,
{
    let x = ProjectivePoint::from_bytes(&CompressedPoint::clone_from_slice(p)).unwrap();
    let k = Scalar::from_repr(FieldBytes::clone_from_slice(s)).unwrap();
    let mut r = [0u8; 33];
    r.copy_from_slice(&(x * k).to_bytes());
    r
}

/// Point equality of `k256`: points are equal exactly when their discrete
/// logarithms are, and the `GroupEncoding` form is canonical.
#[verifier::external_body]
fn k256_point_eq(a: &[u8; 33], b: &[u8; 33]) -> (r: bool)
    requires
        k256_valid(a@),
        k256_repr(a@),
        k256_valid(b@),
        k256_repr(b@),
    ensures
        r == (kdlog(a@) == kdlog(b@)),
        r == (a@ == b@),
{
    let p = ProjectivePoint::from_bytes(&CompressedPoint::clone_from_slice(a)).unwrap();
    let q = ProjectivePoint::from_bytes(&CompressedPoint::clone_from_slice(b)).unwrap();
    p == q
}

/// `Group::is_identity`.
#[verifier::external_body]
fn k256_is_identity(a: &[u8; 33]) -> (r: bool)
    requires
        k256_valid(a@),
        k256_repr(a@),
    ensures
        r == (kdlog(a@) == 0),
{
    let p = ProjectivePoint::from_bytes(&CompressedPoint::clone_from_slice(a)).unwrap();
    bool::from(CurveGroup::is_identity(&p))
}

/// `EncodedPoint::from_bytes` then `AffinePoint::from_encoded_point`, as
/// `GroupEncoding` form: SEC1 identity, compressed, uncompressed and
/// compact strings are accepted where they encode a curve point, and a
/// compressed string with its `x` below the field modulus is the form of
/// the point it encodes.
#[verifier::external_body]
fn k256_decode_sec1(buffer: &[u8]) -> (r: Option<[u8; 33]>)
    ensures
        match r {
            Some(e) => k256_sec1_point(buffer@) == Some(e@) && k256_valid(e@) && k256_repr(e@) && (
            k256_compressed(buffer@) ==> e@ == buffer@),
            None => k256_sec1_point(buffer@) is None,
        },
{
    let encoded = EncodedPoint::from_bytes(buffer).ok()?;
    let affine: Option<AffinePoint> = AffinePoint::from_encoded_point(&encoded).into();
    let mut r = [0u8; 33];
    r.copy_from_slice(&ProjectivePoint::from(affine?).to_bytes());
    Some(r)
}

// --- the group -----------------------------------------------------------

/// A scalar of secp256k1: big-endian bytes below the order.
#[derive(PartialEq, Eq, Debug, Clone, Copy)]
pub struct K256Scalar {
    bytes: [u8; 32],
}

impl K256Scalar {
    #[verifier::type_invariant]
    spec fn inv(self) -> bool {
        k256_canonical(self.bytes@)
    }
}

/// A point of secp256k1: its `GroupEncoding` form.
#[derive(PartialEq, Eq, Debug, Clone, Copy)]
pub struct K256Point {
    enc: [u8; 33],
}

impl K256Point {
    #[verifier::type_invariant]
    spec fn inv(self) -> bool {
        k256_valid(self.enc@) && k256_repr(self.enc@)
    }
}

/// The secp256k1 group.
#[derive(PartialEq, Eq, Debug, Clone, Copy)]
pub struct K256Group(());

impl GroupScalar for K256Group {
    type Scalar = K256Scalar;

    const SCALAR_SIZE: usize = 32;

    open spec fn order() -> nat {
        k256_order()
    }

    closed spec fn scalar_val(s: K256Scalar) -> int {
        be_nat(s.bytes@) as int % k256_order() as int
    }

    closed spec fn scalar_bytes(s: K256Scalar) -> Seq<u8> {
        s.bytes@
    }

    open spec fn scalar_decodes(b: Seq<u8>) -> bool {
        k256_canonical(b)
    }

    open spec fn decoded_scalar_val(b: Seq<u8>) -> int {
        be_nat(b) as int % k256_order() as int
    }

    open spec fn u64_scalar_bytes(v: u64) -> Seq<u8> {
        le_bytes(v as nat, 32).reverse()
    }

    open spec fn challenge_len() -> nat {
        32
    }

    open spec fn spec_challenge(entries: Seq<TranscriptOp>, label: Seq<u8>) -> int {
        k256_seeded_scalar(merlin_challenge(entries, label, 32), 0).0 % k256_order() as int
    }

    proof fn lemma_challenge_range(entries: Seq<TranscriptOp>, label: Seq<u8>) {
        vstd::arithmetic::div_mod::lemma_mod_bound(k256_seeded_scalar(merlin_challenge(entries, label, 32), 0).0, k256_order() as int);
    }

    open spec fn seeded_draw(seed: Seq<u8>, pos: int) -> (int, int) {
        let d = k256_seeded_scalar(seed, pos);
        (d.0 % k256_order() as int, d.1)
    }

    proof fn lemma_order() {
    }

    proof fn lemma_scalar_bytes_determine(a: K256Scalar, b: K256Scalar) {
    }

    proof fn lemma_scalar_facts(s: K256Scalar) {
    }

    fn scalar_random(rng: &mut ChaCha20Rng) -> (r: K256Scalar) {
        K256Scalar { bytes: k256_scalar_random(rng) }
    }

    fn scalar_inv(scalar: K256Scalar) -> (r: K256Scalar) {
        proof {
            use_type_invariant(&scalar);
            vstd::arithmetic::div_mod::lemma_small_mod(be_nat(scalar.bytes@), k256_order());
        }
        let bytes = k256_scalar_invert(&scalar.bytes);
        proof {
            vstd::arithmetic::div_mod::lemma_small_mod(be_nat(bytes@), k256_order());
        }
        K256Scalar { bytes }
    }

    fn scalar_at(seed: &[u8; 32], pos: u128) -> (r: (K256Scalar, u128)) {
        let (bytes, next) = k256_scalar_at(*seed, pos);
        proof {
            vstd::arithmetic::div_mod::lemma_small_mod(be_nat(bytes@), k256_order());
        }
        (K256Scalar { bytes }, next)
    }

    fn scalar_from_random_bytes(source: RandomBytesProvider<'_>) -> (r: K256Scalar) {
        let mut seed = [0u8; 32];
        source.fill_bytes(&mut seed);
        let (bytes, _) = k256_scalar_at(seed, 0);
        K256Scalar { bytes }
    }

    fn scalar_to_bytes(buffer: &mut [u8], scalar: &K256Scalar) {
        proof {
            use_type_invariant(scalar);
        }
        let mut i: usize = 0;
        while i < 32
            invariant
                buffer@.len() == 32,
                0 <= i <= 32,
                forall|j: int| 0 <= j < i ==> buffer@[j] == scalar.bytes@[j],
            decreases 32 - i,
        {
            buffer[i] = scalar.bytes[i];
            i = i + 1;
        }
        assert(buffer@ =~= scalar.bytes@);
    }

    fn scalar_from_bytes(buffer: &[u8]) -> (r: Option<K256Scalar>) {
        if buffer.len() != 32 {
            return None;
        }
        let mut bytes = [0u8; 32];
        let mut i: usize = 0;
        while i < 32
            invariant
                buffer@.len() == 32,
                0 <= i <= 32,
                forall|j: int| 0 <= j < i ==> bytes@[j] == buffer@[j],
            decreases 32 - i,
        {
            bytes[i] = buffer[i];
            i = i + 1;
        }
        assert(bytes@ =~= buffer@);
        if k256_scalar_is_canonical(&bytes) {
            Some(K256Scalar { bytes })
        } else {
            None
        }
    }

    fn scalar_from_u64(v: u64) -> (r: K256Scalar) {
        let bytes = k256_scalar_from_u64(v);
        proof {
            lemma_be_roundtrip(bytes@);
            assert((v as nat) < k256_order());
        }
        K256Scalar { bytes }
    }

    fn scalar_add(a: &K256Scalar, b: &K256Scalar) -> (r: K256Scalar) {
        proof {
            use_type_invariant(a);
            use_type_invariant(b);
            vstd::arithmetic::div_mod::lemma_small_mod(be_nat(a.bytes@), k256_order());
            vstd::arithmetic::div_mod::lemma_small_mod(be_nat(b.bytes@), k256_order());
        }
        let bytes = k256_scalar_add(&a.bytes, &b.bytes);
        proof {
            vstd::arithmetic::div_mod::lemma_mod_bound((be_nat(a.bytes@) + be_nat(b.bytes@)) as int, k256_order() as int);
            vstd::arithmetic::div_mod::lemma_small_mod(be_nat(bytes@), k256_order());
        }
        K256Scalar { bytes }
    }

    fn scalar_sub(a: &K256Scalar, b: &K256Scalar) -> (r: K256Scalar) {
        proof {
            use_type_invariant(a);
            use_type_invariant(b);
            vstd::arithmetic::div_mod::lemma_small_mod(be_nat(a.bytes@), k256_order());
            vstd::arithmetic::div_mod::lemma_small_mod(be_nat(b.bytes@), k256_order());
        }
        let bytes = k256_scalar_sub(&a.bytes, &b.bytes);
        proof {
            vstd::arithmetic::div_mod::lemma_mod_bound(be_nat(a.bytes@) - be_nat(b.bytes@), k256_order() as int);
            vstd::arithmetic::div_mod::lemma_small_mod(be_nat(bytes@), k256_order());
        }
        K256Scalar { bytes }
    }

    fn scalar_mul(a: &K256Scalar, b: &K256Scalar) -> (r: K256Scalar) {
        proof {
            use_type_invariant(a);
            use_type_invariant(b);
            vstd::arithmetic::div_mod::lemma_small_mod(be_nat(a.bytes@), k256_order());
            vstd::arithmetic::div_mod::lemma_small_mod(be_nat(b.bytes@), k256_order());
        }
        let bytes = k256_scalar_mul(&a.bytes, &b.bytes);
        proof {
            vstd::arithmetic::div_mod::lemma_mod_bound((be_nat(a.bytes@) * be_nat(b.bytes@)) as int, k256_order() as int);
            vstd::arithmetic::div_mod::lemma_small_mod(be_nat(bytes@), k256_order());
        }
        K256Scalar { bytes }
    }

    fn scalar_eq(a: &K256Scalar, b: &K256Scalar) -> (r: bool) {
        proof {
            use_type_invariant(a);
            use_type_invariant(b);
            vstd::arithmetic::div_mod::lemma_small_mod(be_nat(a.bytes@), k256_order());
            vstd::arithmetic::div_mod::lemma_small_mod(be_nat(b.bytes@), k256_order());
        }
        let mut i: usize = 0;
        while i < 32
            invariant
                0 <= i <= 32,
                forall|j: int| 0 <= j < i ==> a.bytes@[j] == b.bytes@[j],
            decreases 32 - i,
        {
            if a.bytes[i] != b.bytes[i] {
                proof {
                    assert(a.bytes@[i as int] != b.bytes@[i as int]);
                    if be_nat(a.bytes@) == be_nat(b.bytes@) {
                        lemma_be_injective(a.bytes@, b.bytes@);
                    }
                    use_type_invariant(a);
                    use_type_invariant(b);
                    vstd::arithmetic::div_mod::lemma_small_mod(be_nat(a.bytes@), k256_order());
                    vstd::arithmetic::div_mod::lemma_small_mod(be_nat(b.bytes@), k256_order());
                }
                return false;
            }
            i = i + 1;
        }
        proof {
            assert(a.bytes@ =~= b.bytes@);
        }
        true
    }
}

impl GroupPoint for K256Group {
    type Point = K256Point;

    const POINT_SIZE: usize = 33;

    closed spec fn point_val(p: K256Point) -> int {
        kdlog(p.enc@)
    }

    closed spec fn point_bytes(p: K256Point) -> Seq<u8> {
        p.enc@
    }

    open spec fn point_decodes(b: Seq<u8>) -> bool {
        b == zero_bytes(33) || k256_sec1_point(b) is Some
    }

    open spec fn decoded_val(b: Seq<u8>) -> int {
        if b == zero_bytes(33) {
            0
        } else {
            match k256_sec1_point(b) {
                Some(e) => kdlog(e),
                None => 0,
            }
        }
    }

    open spec fn point_canonical(b: Seq<u8>) -> bool {
        b == zero_bytes(33) || k256_compressed(b)
    }

    proof fn lemma_point_size() {
    }

    proof fn lemma_point_bytes_determine(a: K256Point, b: K256Point) {
    }

    proof fn lemma_point_facts(p: K256Point) {
    }

    fn generator() -> (r: K256Point) {
        K256Point { enc: k256_generator() }
    }

    fn point_random(rng: &mut ChaCha20Rng) -> (r: K256Point) {
        K256Point { enc: k256_point_random(rng) }
    }

    fn identity() -> (r: K256Point) {
        K256Point { enc: k256_identity() }
    }

    fn is_id(point: &K256Point) -> (r: bool) {
        proof {
            use_type_invariant(point);
        }
        k256_is_identity(&point.enc)
    }

    fn point_inv(point: K256Point) -> (r: K256Point) {
        proof {
            use_type_invariant(&point);
        }
        K256Point { enc: k256_point_neg(&point.enc) }
    }

    fn point_to_bytes(buffer: &mut [u8], point: &K256Point) {
        proof {
            use_type_invariant(point);
        }
        let mut i: usize = 0;
        while i < 33
            invariant
                buffer@.len() == 33,
                0 <= i <= 33,
                forall|j: int| 0 <= j < i ==> buffer@[j] == point.enc@[j],
            decreases 33 - i,
        {
            buffer[i] = point.enc[i];
            i = i + 1;
        }
        assert(buffer@ =~= point.enc@);
    }

    fn point_from_bytes(buffer: &[u8]) -> (r: Option<K256Point>) {
        if is_zero_bytes(buffer, 33) {
            return Some(K256Point { enc: k256_identity() });
        }
        match k256_decode_sec1(buffer) {
            Some(enc) => Some(K256Point { enc }),
            None => None,
        }
    }

    fn point_add(a: &K256Point, b: &K256Point) -> (r: K256Point) {
        proof {
            use_type_invariant(a);
            use_type_invariant(b);
        }
        K256Point { enc: k256_point_add(&a.enc, &b.enc) }
    }

    fn point_sub(a: &K256Point, b: &K256Point) -> (r: K256Point) {
        proof {
            use_type_invariant(a);
            use_type_invariant(b);
        }
        K256Point { enc: k256_point_sub(&a.enc, &b.enc) }
    }

    fn point_mul(p: &K256Point, s: &K256Scalar) -> (r: K256Point) {
        proof {
            use_type_invariant(p);
            use_type_invariant(s);
            vstd::arithmetic::div_mod::lemma_small_mod(be_nat(s.bytes@), k256_order());
        }
        K256Point { enc: k256_point_mul(&p.enc, &s.bytes) }
    }

    fn point_eq(a: &K256Point, b: &K256Point) -> (r: bool) {
        proof {
            use_type_invariant(a);
            use_type_invariant(b);
        }
        let r = k256_point_eq(&a.enc, &b.enc);
        proof {
            if r {
                assert(a.enc =~= b.enc);
            }
        }
        r
    }
}

impl Group for K256Group {
}

} // verus!
