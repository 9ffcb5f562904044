//! The NIST P-384 group of the `p384` crate.
//!
//! Points are held by their `GroupEncoding` form: the 49-byte compressed
//! SEC1 encoding, and 49 zero bytes for the identity. Scalars are held by
//! their 48-byte big-endian encodings below the order. Every operation goes
//! through `p384`.
use vstd::prelude::*;
use p384::elliptic_curve::group::GroupEncoding;
use p384::elliptic_curve::sec1::FromEncodedPoint;
use p384::elliptic_curve::{Field, PrimeField};
use p384::elliptic_curve::Group as CurveGroup;
use p384::{AffinePoint, CompressedPoint, EncodedPoint, FieldBytes, ProjectivePoint, Scalar};
use rand_chacha::ChaCha20Rng;
use rand_core::SeedableRng;
use crate::bytes::{zero_bytes, is_zero_bytes, be_nat, le_bytes, lemma_be_injective, lemma_be_roundtrip};
use crate::randomness::RandomBytesProvider;
use crate::group::{GroupScalar, GroupPoint, Group};
use crate::transcript::{TranscriptOp, merlin_challenge};

verus! {

/// The order of the NIST P-384 group.
pub open spec fn p384_order() -> nat {
    0xFFFFFFFFFFFFFFFFFFFFFFFFFFFFFFFFFFFFFFFFFFFFFFFFC7634D81F4372DDF581A0DB248B0A77AECEC196ACCC52973nat
}

/// Whether 48 bytes are the big-endian encoding of a scalar below the order.
pub open spec fn p384_canonical(b: Seq<u8>) -> bool {
    b.len() == 48 && be_nat(b) < p384_order()
}

/// Whether `GroupEncoding::from_bytes` of `ProjectivePoint` accepts 49 bytes.
pub uninterp spec fn p384_valid(e: Seq<u8>) -> bool;

/// The discrete logarithm, base the generator, of the point whose
/// `GroupEncoding` form is `e`. No function computes it; the wrappers below
/// state the group operations of `p384` in its terms.
pub uninterp spec fn p384_dlog(e: Seq<u8>) -> int;

/// What `EncodedPoint::from_bytes` followed by
/// `AffinePoint::from_encoded_point` gives for a SEC1 byte string: the
/// `GroupEncoding` form of the point, or `None`.
pub uninterp spec fn p384_sec1_point(b: Seq<u8>) -> Option<Seq<u8>>;

/// The value of `Scalar::random` drawn from a ChaCha20 generator seeded with
/// `seed` and set to word position `pos`, and the word position the
/// generator is at after the draw; rejection sampling from a seeded stream
/// is deterministic.
pub uninterp spec fn p384_seeded_scalar(seed: Seq<u8>, pos: int) -> (int, int);

/// The discrete logarithm of a `GroupEncoding` form, as a residue.
pub open spec fn kdlog(e: Seq<u8>) -> int {
    p384_dlog(e) % p384_order() as int
}

/// The shape of what `GroupEncoding::to_bytes` gives: for the identity,
/// 49 zero bytes (the one-byte SEC1 identity padded with zeros);
/// otherwise the compressed SEC1 encoding of the point, which decodes to
/// the point.
pub open spec fn p384_repr(e: Seq<u8>) -> bool {
    &&& e.len() == 49
    &&& kdlog(e) == 0 ==> e == zero_bytes(49)
    &&& kdlog(e) != 0 ==> (e[0] == 2 || e[0] == 3) && p384_sec1_point(e) == Some(e)
}

/// A SEC1 string of the compressed form.
pub open spec fn p384_compressed(b: Seq<u8>) -> bool {
    b.len() == 49 && (b[0] == 2 || b[0] == 3)
}

// --- scalars -------------------------------------------------------------

/// `Scalar + Scalar`: the sum modulo the order.
#[verifier::external_body]
fn p384_scalar_add(a: &[u8; 48], b: &[u8; 48]) -> (r: [u8; 48])
    requires
        p384_canonical(a@),
        p384_canonical(b@),
    ensures
        be_nat(r@) == (be_nat(a@) + be_nat(b@)) % p384_order(),
{
    let x = Scalar::from_repr(FieldBytes::clone_from_slice(a)).unwrap();
    let y = Scalar::from_repr(FieldBytes::clone_from_slice(b)).unwrap();
    let mut r = [0u8; 48];
    r.copy_from_slice(&(x + y).to_repr());
    r
}

/// `Scalar - Scalar`: the difference modulo the order.
#[verifier::external_body]
fn p384_scalar_sub(a: &[u8; 48], b: &[u8; 48]) -> (r: [u8; 48])
    requires
        p384_canonical(a@),
        p384_canonical(b@),
    ensures
        be_nat(r@) as int == (be_nat(a@) - be_nat(b@)) % p384_order() as int,
{
    let x = Scalar::from_repr(FieldBytes::clone_from_slice(a)).unwrap();
    let y = Scalar::from_repr(FieldBytes::clone_from_slice(b)).unwrap();
    let mut r = [0u8; 48];
    r.copy_from_slice(&(x - y).to_repr());
    r
}

/// `Scalar * Scalar`: the product modulo the order.
#[verifier::external_body]
fn p384_scalar_mul(a: &[u8; 48], b: &[u8; 48]) -> (r: [u8; 48])
    requires
        p384_canonical(a@),
        p384_canonical(b@),
    ensures
        be_nat(r@) == (be_nat(a@) * be_nat(b@)) % p384_order(),
{
    let x = Scalar::from_repr(FieldBytes::clone_from_slice(a)).unwrap();
    let y = Scalar::from_repr(FieldBytes::clone_from_slice(b)).unwrap();
    let mut r = [0u8; 48];
    r.copy_from_slice(&(x * y).to_repr());
    r
}

/// `Scalar::invert`, which gives `None` for zero alone: the inverse modulo
/// the order of a nonzero scalar.
#[verifier::external_body]
fn p384_scalar_invert(a: &[u8; 48]) -> (r: [u8; 48])
    requires
        p384_canonical(a@),
        be_nat(a@) != 0,
    ensures
        p384_canonical(r@),
        (be_nat(r@) * be_nat(a@)) % p384_order() == 1,
{
    let x = Scalar::from_repr(FieldBytes::clone_from_slice(a)).unwrap();
    let mut r = [0u8; 48];
    r.copy_from_slice(&x.invert().unwrap().to_repr());
    r
}

/// `Scalar::from(u64)`: the value itself.
#[verifier::external_body]
fn p384_scalar_from_u64(v: u64) -> (r: [u8; 48])
    ensures
        be_nat(r@) == v,
{
    let mut r = [0u8; 48];
    r.copy_from_slice(&Scalar::from(v).to_repr());
    r
}

/// Whether `Scalar::from_repr` accepts the bytes: exactly when they denote
/// a number below the order.
#[verifier::external_body]
fn p384_scalar_is_canonical(b: &[u8; 48]) -> (r: bool)
    ensures
        r == p384_canonical(b@),
{
    bool::from(Scalar::from_repr(FieldBytes::clone_from_slice(b)).is_some())
}

/// `Scalar::random` on the generator: some scalar.
#[verifier::external_body]
fn p384_scalar_random(rng: &mut ChaCha20Rng) -> (r: [u8; 48])
    ensures
        p384_canonical(r@),
{
    let mut r = [0u8; 48];
    r.copy_from_slice(&Scalar::random(rng).to_repr());
    r
}

/// `Scalar::random` on a ChaCha20 generator made by `from_seed(seed)` and
/// set to word position `pos` by `set_word_pos`, with the position that
/// `get_word_pos` gives after the draw.
#[verifier::external_body]
fn p384_scalar_at(seed: [u8; 32], pos: u128) -> (r: ([u8; 48], u128))
    ensures
        p384_canonical(r.0@),
        be_nat(r.0@) == p384_seeded_scalar(seed@, pos as int).0,
        r.1 == p384_seeded_scalar(seed@, pos as int).1,
{
    let mut rng = ChaCha20Rng::from_seed(seed);
    rng.set_word_pos(pos);
    let mut r = [0u8; 48];
    r.copy_from_slice(&Scalar::random(&mut rng).to_repr());
    (r, rng.get_word_pos())
}

// --- points --------------------------------------------------------------

/// `ProjectivePoint::GENERATOR`, in `GroupEncoding` form.
#[verifier::external_body]
fn p384_generator() -> (r: [u8; 49])
    ensures
        p384_valid(r@),
        p384_repr(r@),
        p384_dlog(r@) % p384_order() as int == 1,
{
    let mut r = [0u8; 49];
    r.copy_from_slice(&ProjectivePoint::GENERATOR.to_bytes());
    r
}

/// `ProjectivePoint::IDENTITY`, in `GroupEncoding` form.
#[verifier::external_body]
fn p384_identity() -> (r: [u8; 49])
    ensures
        r@ == zero_bytes(49),
        p384_valid(r@),
        p384_repr(r@),
        kdlog(r@) == 0,
{
    let mut r = [0u8; 49];
    r.copy_from_slice(&ProjectivePoint::IDENTITY.to_bytes());
    r
}

/// `ProjectivePoint::random`: some point.
#[verifier::external_body]
fn p384_point_random(rng: &mut ChaCha20Rng) -> (r: [u8; 49])
    ensures
        p384_valid(r@),
        p384_repr(r@),
{
    let mut r = [0u8; 49];
    r.copy_from_slice(&ProjectivePoint::random(rng).to_bytes());
    r
}

/// Point addition.
#[verifier::external_body]
fn p384_point_add(a: &[u8; 49], b: &[u8; 49]) -> (r: [u8; 49])
    requires
        p384_valid(a@),
        p384_repr(a@),
        p384_valid(b@),
        p384_repr(b@),
    ensures
        p384_valid(r@),
        p384_repr(r@),
        kdlog(r@) == (kdlog(a@) + kdlog(b@)) % p384_order() as int,
{
    let p = ProjectivePoint::from_bytes(&CompressedPoint::clone_from_slice(a)).unwrap();
    let q = ProjectivePoint::from_bytes(&CompressedPoint::clone_from_slice(b)).unwrap();
    let mut r = [0u8; 49];
    r.copy_from_slice(&(p + q).to_bytes());
    r
}

/// Point subtraction.
#[verifier::external_body]
fn p384_point_sub(a: &[u8; 49], b: &[u8; 49]) -> (r: [u8; 49])
    requires
        p384_valid(a@),
        p384_repr(a@),
        p384_valid(b@),
        p384_repr(b@),
    ensures
        p384_valid(r@),
        p384_repr(r@),
        kdlog(r@) == (kdlog(a@) - kdlog(b@)) % p384_order() as int,
{
    let p = ProjectivePoint::from_bytes(&CompressedPoint::clone_from_slice(a)).unwrap();
    let q = ProjectivePoint::from_bytes(&CompressedPoint::clone_from_slice(b)).unwrap();
    let mut r = [0u8; 49];
    r.copy_from_slice(&(p - q).to_bytes());
    r
}

/// Point negation.
#[verifier::external_body]
fn p384_point_neg(a: &[u8; 49]) -> (r: [u8; 49])
    requires
        p384_valid(a@),
        p384_repr(a@),
    ensures
        p384_valid(r@),
        p384_repr(r@),
        kdlog(r@) == (-kdlog(a@)) % p384_order() as int,
{
    let p = ProjectivePoint::from_bytes(&CompressedPoint::clone_from_slice(a)).unwrap();
    let mut r = [0u8; 49];
    r.copy_from_slice(&(-p).to_bytes());
    r
}

/// Scalar multiplication `[s]P`.
#[verifier::external_body]
fn p384_point_mul(p: &[u8; 49], s: &[u8; 48]) -> (r: [u8; 49])
    requires
        p384_valid(p@),
        p384_repr(p@),
        p384_canonical(s@),
    ensures
        p384_valid(r@),
        p384_repr(r@),
        kdlog(r@) == (kdlog(p@) * be_nat(s@)) % p384_order() as int,
{
    let x = ProjectivePoint::from_bytes(&CompressedPoint::clone_from_slice(p)).unwrap();
    let k = Scalar::from_repr(FieldBytes::clone_from_slice(s)).unwrap();
    let mut r = [0u8; 49];
    r.copy_from_slice(&(x * k).to_bytes());
    r
}

/// Point equality of `p384`: points are equal exactly when their discrete
/// logarithms are, and the `GroupEncoding` form is canonical.
#[verifier::external_body]
fn p384_point_eq(a: &[u8; 49], b: &[u8; 49]) -> (r: bool)
    requires
        p384_valid(a@),
        p384_repr(a@),
        p384_valid(b@),
        p384_repr(b@),
    ensures
        r == (kdlog(a@) == kdlog(b@)),
        r == (a@ == b@),
{
    let p = ProjectivePoint::from_bytes(&CompressedPoint::clone_from_slice(a)).unwrap();
    let q = ProjectivePoint::from_bytes(&CompressedPoint::clone_from_slice(b)).unwrap();
    p == q
}

/// `Group::is_identity`.
#[verifier::external_body]
fn p384_is_identity(a: &[u8; 49]) -> (r: bool)
    requires
        p384_valid(a@),
        p384_repr(a@),
    ensures
        r == (kdlog(a@) == 0),
{
    let p = ProjectivePoint::from_bytes(&CompressedPoint::clone_from_slice(a)).unwrap();
    bool::from(CurveGroup::is_identity(&p))
}

/// `EncodedPoint::from_bytes` then `AffinePoint::from_encoded_point`, as
/// `GroupEncoding` form: SEC1 identity, compressed, uncompressed and
/// compact strings are accepted where they encode a curve point, and a
/// compressed string with its `x` below the field modulus is the form of
/// the point it encodes.
#[verifier::external_body]
fn p384_decode_sec1(buffer: &[u8]) -> (r: Option<[u8; 49]>)
    ensures
        match r {
            Some(e) => p384_sec1_point(buffer@) == Some(e@) && p384_valid(e@) && p384_repr(e@) && (
            p384_compressed(buffer@) ==> e@ == buffer@),
            None => p384_sec1_point(buffer@) is None,
        },
{
    let encoded = EncodedPoint::from_bytes(buffer).ok()?;
    let affine: Option<AffinePoint> = AffinePoint::from_encoded_point(&encoded).into();
    let mut r = [0u8; 49];
    r.copy_from_slice(&ProjectivePoint::from(affine?).to_bytes());
    Some(r)
}

// --- the group -----------------------------------------------------------

/// A scalar of NIST P-384: big-endian bytes below the order.
#[derive(PartialEq, Eq, Debug, Clone, Copy)]
pub struct P384Scalar {
    bytes: [u8; 48],
}

impl P384Scalar {
    #[verifier::type_invariant]
    spec fn inv(self) -> bool {
        p384_canonical(self.bytes@)
    }
}

/// A point of NIST P-384: its `GroupEncoding` form.
#[derive(PartialEq, Eq, Debug, Clone, Copy)]
pub struct P384Point {
    enc: [u8; 49],
}

impl P384Point {
    #[verifier::type_invariant]
    spec fn inv(self) -> bool {
        p384_valid(self.enc@) && p384_repr(self.enc@)
    }
}

/// The NIST P-384 group.
#[derive(PartialEq, Eq, Debug, Clone, Copy)]
pub struct P384Group(());

impl GroupScalar for P384Group {
    type Scalar = P384Scalar;

    const SCALAR_SIZE: usize = 48;

    open spec fn order() -> nat {
        p384_order()
    }

    closed spec fn scalar_val(s: P384Scalar) -> int {
        be_nat(s.bytes@) as int % p384_order() as int
    }

    closed spec fn scalar_bytes(s: P384Scalar) -> Seq<u8> {
        s.bytes@
    }

    open spec fn scalar_decodes(b: Seq<u8>) -> bool {
        p384_canonical(b)
    }

    open spec fn decoded_scalar_val(b: Seq<u8>) -> int {
        be_nat(b) as int % p384_order() as int
    }

    open spec fn u64_scalar_bytes(v: u64) -> Seq<u8> {
        le_bytes(v as nat, 48).reverse()
    }

    open spec fn challenge_len() -> nat {
        32
    }

    open spec fn spec_challenge(entries: Seq<TranscriptOp>, label: Seq<u8>) -> int {
        p384_seeded_scalar(merlin_challenge(entries, label, 32), 0).0 % p384_order() as int
    }

    proof fn lemma_challenge_range(entries: Seq<TranscriptOp>, label: Seq<u8>) {
        vstd::arithmetic::div_mod::lemma_mod_bound(p384_seeded_scalar(merlin_challenge(entries, label, 32), 0).0, p384_order() as int);
    }

    open spec fn seeded_draw(seed: Seq<u8>, pos: int) -> (int, int) {
        let d = p384_seeded_scalar(seed, pos);
        (d.0 % p384_order() as int, d.1)
    }

    proof fn lemma_order() {
    }

    proof fn lemma_scalar_bytes_determine(a: P384Scalar, b: P384Scalar) {
    }

    proof fn lemma_scalar_facts(s: P384Scalar) {
    }

    fn scalar_random(rng: &mut ChaCha20Rng) -> (r: P384Scalar) {
        P384Scalar { bytes: p384_scalar_random(rng) }
    }

    fn scalar_inv(scalar: P384Scalar) -> (r: P384Scalar) {
        proof {
            use_type_invariant(&scalar);
            vstd::arithmetic::div_mod::lemma_small_mod(be_nat(scalar.bytes@), p384_order());
        }
        let bytes = p384_scalar_invert(&scalar.bytes);
        proof {
            vstd::arithmetic::div_mod::lemma_small_mod(be_nat(bytes@), p384_order());
        }
        P384Scalar { bytes }
    }

    fn scalar_at(seed: &[u8; 32], pos: u128) -> (r: (P384Scalar, u128)) {
        let (bytes, next) = p384_scalar_at(*seed, pos);
        proof {
            vstd::arithmetic::div_mod::lemma_small_mod(be_nat(bytes@), p384_order());
        }
        (P384Scalar { bytes }, next)
    }

    fn scalar_from_random_bytes(source: RandomBytesProvider<'_>) -> (r: P384Scalar) {
        let mut seed = [0u8; 32];
        source.fill_bytes(&mut seed);
        let (bytes, _) = p384_scalar_at(seed, 0);
        P384Scalar { bytes }
    }

    fn scalar_to_bytes(buffer: &mut [u8], scalar: &P384Scalar) {
        proof {
            use_type_invariant(scalar);
        }
        let mut i: usize = 0;
        while i < 48
            invariant
                buffer@.len() == 48,
                0 <= i <= 48,
                forall|j: int| 0 <= j < i ==> buffer@[j] == scalar.bytes@[j],
            decreases 48 - i,
        {
            buffer[i] = scalar.bytes[i];
            i = i + 1;
        }
        assert(buffer@ =~= scalar.bytes@);
    }

    fn scalar_from_bytes(buffer: &[u8]) -> (r: Option<P384Scalar>) {
        if buffer.len() != 48 {
            return None;
        }
        let mut bytes = [0u8; 48];
        let mut i: usize = 0;
        while i < 48
            invariant
                buffer@.len() == 48,
                0 <= i <= 48,
                forall|j: int| 0 <= j < i ==> bytes@[j] == buffer@[j],
            decreases 48 - i,
        {
            bytes[i] = buffer[i];
            i = i + 1;
        }
        assert(bytes@ =~= buffer@);
        if p384_scalar_is_canonical(&bytes) {
            Some(P384Scalar { bytes })
        } else {
            None
        }
    }

    fn scalar_from_u64(v: u64) -> (r: P384Scalar) {
        let bytes = p384_scalar_from_u64(v);
        proof {
            lemma_be_roundtrip(bytes@);
            assert((v as nat) < p384_order());
        }
        P384Scalar { bytes }
    }

    fn scalar_add(a: &P384Scalar, b: &P384Scalar) -> (r: P384Scalar) {
        proof {
            use_type_invariant(a);
            use_type_invariant(b);
            vstd::arithmetic::div_mod::lemma_small_mod(be_nat(a.bytes@), p384_order());
            vstd::arithmetic::div_mod::lemma_small_mod(be_nat(b.bytes@), p384_order());
        }
        let bytes = p384_scalar_add(&a.bytes, &b.bytes);
        proof {
            vstd::arithmetic::div_mod::lemma_mod_bound((be_nat(a.bytes@) + be_nat(b.bytes@)) as int, p384_order() as int);
            vstd::arithmetic::div_mod::lemma_small_mod(be_nat(bytes@), p384_order());
        }
        P384Scalar { bytes }
    }

    fn scalar_sub(a: &P384Scalar, b: &P384Scalar) -> (r: P384Scalar) {
        proof {
            use_type_invariant(a);
            use_type_invariant(b);
            vstd::arithmetic::div_mod::lemma_small_mod(be_nat(a.bytes@), p384_order());
            vstd::arithmetic::div_mod::lemma_small_mod(be_nat(b.bytes@), p384_order());
        }
        let bytes = p384_scalar_sub(&a.bytes, &b.bytes);
        proof {
            vstd::arithmetic::div_mod::lemma_mod_bound(be_nat(a.bytes@) - be_nat(b.bytes@), p384_order() as int);
            vstd::arithmetic::div_mod::lemma_small_mod(be_nat(bytes@), p384_order());
        }
        P384Scalar { bytes }
    }

    fn scalar_mul(a: &P384Scalar, b: &P384Scalar) -> (r: P384Scalar) {
        proof {
            use_type_invariant(a);
            use_type_invariant(b);
            vstd::arithmetic::div_mod::lemma_small_mod(be_nat(a.bytes@), p384_order());
            vstd::arithmetic::div_mod::lemma_small_mod(be_nat(b.bytes@), p384_order());
        }
        let bytes = p384_scalar_mul(&a.bytes, &b.bytes);
        proof {
            vstd::arithmetic::div_mod::lemma_mod_bound((be_nat(a.bytes@) * be_nat(b.bytes@)) as int, p384_order() as int);
            vstd::arithmetic::div_mod::lemma_small_mod(be_nat(bytes@), p384_order());
        }
        P384Scalar { bytes }
    }

    fn scalar_eq(a: &P384Scalar, b: &P384Scalar) -> (r: bool) {
        proof {
            use_type_invariant(a);
            use_type_invariant(b);
            vstd::arithmetic::div_mod::lemma_small_mod(be_nat(a.bytes@), p384_order());
            vstd::arithmetic::div_mod::lemma_small_mod(be_nat(b.bytes@), p384_order());
        }
        let mut i: usize = 0;
        while i < 48
            invariant
                0 <= i <= 48,
                forall|j: int| 0 <= j < i ==> a.bytes@[j] == b.bytes@[j],
            decreases 48 - i,
        {
            if a.bytes[i] != b.bytes[i] {
                proof {
                    assert(a.bytes@[i as int] != b.bytes@[i as int]);
                    if be_nat(a.bytes@) == be_nat(b.bytes@) {
                        lemma_be_injective(a.bytes@, b.bytes@);
                    }
                    use_type_invariant(a);
                    use_type_invariant(b);
                    vstd::arithmetic::div_mod::lemma_small_mod(be_nat(a.bytes@), p384_order());
                    vstd::arithmetic::div_mod::lemma_small_mod(be_nat(b.bytes@), p384_order());
                }
                return false;
            }
            i = i + 1;
        }
        proof {
            assert(a.bytes@ =~= b.bytes@);
        }
        true
    }
}

impl GroupPoint for P384Group {
    type Point = P384Point;

    const POINT_SIZE: usize = 49;

    closed spec fn point_val(p: P384Point) -> int {
        kdlog(p.enc@)
    }

    closed spec fn point_bytes(p: P384Point) -> Seq<u8> {
        p.enc@
    }

    open spec fn point_decodes(b: Seq<u8>) -> bool {
        b == zero_bytes(49) || p384_sec1_point(b) is Some
    }

    open spec fn decoded_val(b: Seq<u8>) -> int {
        if b == zero_bytes(49) {
            0
        } else {
            match p384_sec1_point(b) {
                Some(e) => kdlog(e),
                None => 0,
            }
        }
    }

    open spec fn point_canonical(b: Seq<u8>) -> bool {
        b == zero_bytes(49) || p384_compressed(b)
    }

    proof fn lemma_point_size() {
    }

    proof fn lemma_point_bytes_determine(a: P384Point, b: P384Point) {
    }

    proof fn lemma_point_facts(p: P384Point) {
    }

    fn generator() -> (r: P384Point) {
        P384Point { enc: p384_generator() }
    }

    fn point_random(rng: &mut ChaCha20Rng) -> (r: P384Point) {
        P384Point { enc: p384_point_random(rng) }
    }

    fn identity() -> (r: P384Point) {
        P384Point { enc: p384_identity() }
    }

    fn is_id(point: &P384Point) -> (r: bool) {
        proof {
            use_type_invariant(point);
        }
        p384_is_identity(&point.enc)
    }

    fn point_inv(point: P384Point) -> (r: P384Point) {
        proof {
            use_type_invariant(&point);
        }
        P384Point { enc: p384_point_neg(&point.enc) }
    }

    fn point_to_bytes(buffer: &mut [u8], point: &P384Point) {
        proof {
            use_type_invariant(point);
        }
        let mut i: usize = 0;
        while i < 49
            invariant
                buffer@.len() == 49,
                0 <= i <= 49,
                forall|j: int| 0 <= j < i ==> buffer@[j] == point.enc@[j],
            decreases 49 - i,
        {
            buffer[i] = point.enc[i];
            i = i + 1;
        }
        assert(buffer@ =~= point.enc@);
    }

    fn point_from_bytes(buffer: &[u8]) -> (r: Option<P384Point>) {
        if is_zero_bytes(buffer, 49) {
            return Some(P384Point { enc: p384_identity() });
        }
        match p384_decode_sec1(buffer) {
            Some(enc) => Some(P384Point { enc }),
            None => None,
        }
    }

    fn point_add(a: &P384Point, b: &P384Point) -> (r: P384Point) {
        proof {
            use_type_invariant(a);
            use_type_invariant(b);
        }
        P384Point { enc: p384_point_add(&a.enc, &b.enc) }
    }

    fn point_sub(a: &P384Point, b: &P384Point) -> (r: P384Point) {
        proof {
            use_type_invariant(a);
            use_type_invariant(b);
        }
        P384Point { enc: p384_point_sub(&a.enc, &b.enc) }
    }

    fn point_mul(p: &P384Point, s: &P384Scalar) -> (r: P384Point) {
        proof {
            use_type_invariant(p);
            use_type_invariant(s);
            vstd::arithmetic::div_mod::lemma_small_mod(be_nat(s.bytes@), p384_order());
        }
        P384Point { enc: p384_point_mul(&p.enc, &s.bytes) }
    }

    fn point_eq(a: &P384Point, b: &P384Point) -> (r: bool) {
        proof {
            use_type_invariant(a);
            use_type_invariant(b);
        }
        let r = p384_point_eq(&a.enc, &b.enc);
        proof {
            if r {
                assert(a.enc =~= b.enc);
            }
        }
        r
    }
}

impl Group for P384Group {
}

} // verus!
