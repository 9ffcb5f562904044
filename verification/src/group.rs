//! Prime-order groups: the traits that every backend implements, stated over
//! discrete logarithms.
//!
//! A point is modelled by its discrete logarithm base the group's generator,
//! a scalar by its residue; both lie in `[0, order)`. The operations are
//! stated as arithmetic modulo the order.
use vstd::prelude::*;
use rand_chacha::ChaCha20Rng;
use crate::transcript::{TranscriptOp, transcript_entries, merlin_challenge};
use crate::randomness::RandomBytesProvider;
use crate::zq::{is_unit, lemma_mod_small};
use vstd::set_lib::{set_int_range, lemma_int_range, lemma_map_size, lemma_len_subset};

verus! {

#[verifier::external_type_specification]
#[verifier::external_body]
pub struct ExChaCha20Rng(rand_chacha::ChaCha20Rng);

/// `RngCore::fill_bytes` on a ChaCha generator: fills `dest` with bytes of
/// its stream; nothing is stated of their values.
#[verifier::external_body]
pub(crate) fn rng_fill_bytes(rng: &mut ChaCha20Rng, dest: &mut [u8])
    ensures
        final(dest)@.len() == old(dest)@.len(),
{
    rand_core::RngCore::fill_bytes(rng, dest)
}

/// The 64 bytes that `fill_bytes` writes from a ChaCha20 generator seeded
/// with `seed` and set to word position `pos`, and the word position the
/// generator is at afterwards; the stream is a function of seed and position.
pub uninterp spec fn chacha_stream_at(seed: Seq<u8>, pos: int) -> (Seq<u8>, int);

/// `fill_bytes` of 64 bytes on a ChaCha20 generator made by `from_seed(seed)`
/// and set to word position `pos` by `set_word_pos`, with the position that
/// `get_word_pos` gives after it.
#[verifier::external_body]
pub(crate) fn chacha_bytes_at(seed: [u8; 32], pos: u128) -> (r: ([u8; 64], u128))
    ensures
        r.0@ == chacha_stream_at(seed@, pos as int).0,
        r.1 == chacha_stream_at(seed@, pos as int).1,
{
    let mut rng = <ChaCha20Rng as rand_core::SeedableRng>::from_seed(seed);
    rng.set_word_pos(pos);
    let mut bytes = [0u8; 64];
    rand_core::RngCore::fill_bytes(&mut rng, &mut bytes);
    (bytes, rng.get_word_pos())
}

/// The generator that `ChaCha20Rng::from_seed` makes from `seed`: its state
/// is a function of the seed alone.
pub uninterp spec fn chacha_seeded(seed: Seq<u8>) -> ChaCha20Rng;

/// `SeedableRng::from_seed` for the ChaCha generator.
#[verifier::external_body]
pub(crate) fn chacha_from_seed(seed: [u8; 32]) -> (r: ChaCha20Rng)
    ensures
        r == chacha_seeded(seed@),
{
    <ChaCha20Rng as rand_core::SeedableRng>::from_seed(seed)
}

/// Scalars of a group: the residues modulo its order.
pub trait GroupScalar: Sized {
    type Scalar: Copy + PartialEq + Eq + core::fmt::Debug;

    /// Byte size of a serialized scalar.
    const SCALAR_SIZE: usize;

    /// The order of the group.
    spec fn order() -> nat;

    /// The residue that a scalar stands for, in `[0, order)`.
    spec fn scalar_val(s: Self::Scalar) -> int;

    /// The serialized form of a scalar.
    spec fn scalar_bytes(s: Self::Scalar) -> Seq<u8>;

    /// Whether `scalar_from_bytes` accepts a buffer.
    spec fn scalar_decodes(b: Seq<u8>) -> bool;

    /// The residue of the scalar that an accepted buffer encodes.
    spec fn decoded_scalar_val(b: Seq<u8>) -> int;

    /// The serialized form of the scalar that `scalar_from_u64` gives for `v`.
    spec fn u64_scalar_bytes(v: u64) -> Seq<u8>;

    /// The length of the challenge that `scalar_from_random_bytes` draws.
    spec fn challenge_len() -> nat;

    /// The residue of the scalar that `scalar_from_random_bytes` derives from
    /// a transcript with entries `entries` under `label`.
    spec fn spec_challenge(entries: Seq<TranscriptOp>, label: Seq<u8>) -> int;

    /// A challenge is a residue.
    proof fn lemma_challenge_range(entries: Seq<TranscriptOp>, label: Seq<u8>)
        ensures
            0 <= Self::spec_challenge(entries, label) < Self::order(),
    ;

    proof fn lemma_order()
        ensures
            Self::order() > 1,
            Self::order() > u64::MAX,
            Self::SCALAR_SIZE <= 1024,
    ;

    /// Scalars with one serialized form have one residue.
    proof fn lemma_scalar_bytes_determine(a: Self::Scalar, b: Self::Scalar)
        ensures
            Self::scalar_bytes(a) == Self::scalar_bytes(b) ==> Self::scalar_val(a) == Self::scalar_val(b),
    ;

    proof fn lemma_scalar_facts(s: Self::Scalar)
        ensures
            Self::order() > 1,
            0 <= Self::scalar_val(s) < Self::order(),
            Self::scalar_bytes(s).len() == Self::SCALAR_SIZE,
            Self::SCALAR_SIZE <= 1024,
    ;

    /// The residue of the scalar that `scalar_random` draws from a ChaCha20
    /// generator seeded with `seed` and set to word position `pos`, and the
    /// word position the generator is at after the draw.
    spec fn seeded_draw(seed: Seq<u8>, pos: int) -> (int, int);

    /// Generate a random scalar.
    fn scalar_random(rng: &mut ChaCha20Rng) -> Self::Scalar;

    /// The scalar that `scalar_random` draws from a ChaCha20 generator seeded
    /// with `seed` and set to word position `pos`, with the position after.
    fn scalar_at(seed: &[u8; 32], pos: u128) -> (r: (Self::Scalar, u128))
        ensures
            Self::scalar_val(r.0) == Self::seeded_draw(seed@, pos as int).0,
            r.1 == Self::seeded_draw(seed@, pos as int).1,
    ;

    /// Modular inverse of a nonzero scalar.
    fn scalar_inv(scalar: Self::Scalar) -> (r: Self::Scalar)
        requires
            Self::scalar_val(scalar) != 0,
        ensures
            (Self::scalar_val(r) * Self::scalar_val(scalar)) % Self::order() as int == 1,
    ;

    /// Derive a scalar from the random bytes of `source`, used for
    /// challenges in zero-knowledge proofs.
    fn scalar_from_random_bytes(source: RandomBytesProvider<'_>) -> (r: Self::Scalar)
        ensures
            Self::scalar_val(r) == Self::spec_challenge(transcript_entries(*old(source.transcript)), source.label@),
            transcript_entries(*final(source.transcript)) == transcript_entries(*old(source.transcript)).push(
                TranscriptOp::Challenge(source.label@, Self::challenge_len()),
            ),
    ;

    /// A ChaCha20 generator seeded with 32 random bytes of `source`.
    fn rng_from_random_bytes(source: RandomBytesProvider<'_>) -> (r: ChaCha20Rng)
        ensures
            r == chacha_seeded(merlin_challenge(transcript_entries(*old(source.transcript)), source.label@, 32)),
            transcript_entries(*final(source.transcript)) == transcript_entries(*old(source.transcript)).push(
                TranscriptOp::Challenge(source.label@, 32),
            ),
    {
        let mut rng_seed = [0u8; 32];
        source.fill_bytes(&mut rng_seed);
        chacha_from_seed(rng_seed)
    }

    /// Serialize the scalar into `buffer`, which has length `SCALAR_SIZE`.
    fn scalar_to_bytes(buffer: &mut [u8], scalar: &Self::Scalar)
        requires
            old(buffer)@.len() == Self::SCALAR_SIZE,
        ensures
            final(buffer)@ == Self::scalar_bytes(*scalar),
            Self::scalar_decodes(final(buffer)@),
    ;

    /// Deserialize a scalar; `None` where the buffer is no serialized scalar.
    fn scalar_from_bytes(buffer: &[u8]) -> (r: Option<Self::Scalar>)
        ensures
            r is Some <==> Self::scalar_decodes(buffer@),
            r matches Some(s) ==> Self::scalar_bytes(s) == buffer@ && Self::scalar_val(s) == Self::decoded_scalar_val(
                buffer@,
            ),
    ;

    fn scalar_from_u64(v: u64) -> (r: Self::Scalar)
        ensures
            Self::scalar_val(r) == v as int % Self::order() as int,
            Self::scalar_bytes(r) == Self::u64_scalar_bytes(v),
    ;

    fn scalar_add(a: &Self::Scalar, b: &Self::Scalar) -> (r: Self::Scalar)
        ensures
            Self::scalar_val(r) == (Self::scalar_val(*a) + Self::scalar_val(*b)) % Self::order() as int,
    ;

    fn scalar_sub(a: &Self::Scalar, b: &Self::Scalar) -> (r: Self::Scalar)
        ensures
            Self::scalar_val(r) == (Self::scalar_val(*a) - Self::scalar_val(*b)) % Self::order() as int,
    ;

    fn scalar_mul(a: &Self::Scalar, b: &Self::Scalar) -> (r: Self::Scalar)
        ensures
            Self::scalar_val(r) == (Self::scalar_val(*a) * Self::scalar_val(*b)) % Self::order() as int,
    ;

    fn scalar_eq(a: &Self::Scalar, b: &Self::Scalar) -> (r: bool)
        ensures
            r == (Self::scalar_val(*a) == Self::scalar_val(*b)),
    ;
}

/// Points of a group: modelled by their discrete logarithms.
pub trait GroupPoint: GroupScalar {
    type Point: Copy + PartialEq + Eq + core::fmt::Debug;

    /// Byte size of a serialized point.
    const POINT_SIZE: usize;

    /// The discrete logarithm of a point, base the generator, in `[0, order)`.
    spec fn point_val(p: Self::Point) -> int;

    /// The serialized form of a point.
    spec fn point_bytes(p: Self::Point) -> Seq<u8>;

    /// Whether `point_from_bytes` accepts a buffer.
    spec fn point_decodes(b: Seq<u8>) -> bool;

    /// The discrete logarithm of the point that an accepted buffer encodes.
    spec fn decoded_val(b: Seq<u8>) -> int;

    /// Whether an accepted buffer is the serialized form of the point it
    /// encodes (a backend may accept other encodings of a point too).
    spec fn point_canonical(b: Seq<u8>) -> bool;

    proof fn lemma_point_size()
        ensures
            Self::POINT_SIZE <= 1024,
    ;

    /// Points with one serialized form have one discrete logarithm.
    proof fn lemma_point_bytes_determine(a: Self::Point, b: Self::Point)
        ensures
            Self::point_bytes(a) == Self::point_bytes(b) ==> Self::point_val(a) == Self::point_val(b),
    ;

    proof fn lemma_point_facts(p: Self::Point)
        ensures
            0 <= Self::point_val(p) < Self::order(),
            Self::point_bytes(p).len() == Self::POINT_SIZE,
            Self::POINT_SIZE <= 1024,
    ;

    /// The generator of the group.
    fn generator() -> (r: Self::Point)
        ensures
            Self::point_val(r) == 1,
    ;

    /// Generate a random point.
    fn point_random(rng: &mut ChaCha20Rng) -> Self::Point;

    /// The identity of the group.
    fn identity() -> (r: Self::Point)
        ensures
            Self::point_val(r) == 0,
    ;

    /// Whether a point is the identity.
    fn is_id(point: &Self::Point) -> (r: bool)
        ensures
            r == (Self::point_val(*point) == 0),
    ;

    /// Group inverse.
    fn point_inv(point: Self::Point) -> (r: Self::Point)
        ensures
            Self::point_val(r) == (-Self::point_val(point)) % Self::order() as int,
    ;

    /// Serialize a point into `buffer`, which has length `POINT_SIZE`. The
    /// serialized form of a point other than the identity is accepted,
    /// canonical, and decodes to the point.
    fn point_to_bytes(buffer: &mut [u8], point: &Self::Point)
        requires
            old(buffer)@.len() == Self::POINT_SIZE,
        ensures
            final(buffer)@ == Self::point_bytes(*point),
            Self::point_decodes(final(buffer)@),
            Self::point_canonical(final(buffer)@),
            Self::decoded_val(final(buffer)@) == Self::point_val(*point),
    ;

    /// Deserialize a point; `None` where the buffer encodes no point.
    fn point_from_bytes(buffer: &[u8]) -> (r: Option<Self::Point>)
        ensures
            r is Some <==> Self::point_decodes(buffer@),
            r matches Some(p) ==> Self::point_val(p) == Self::decoded_val(buffer@) && (Self::point_canonical(
                buffer@,
            ) ==> Self::point_bytes(p) == buffer@),
    ;

    fn point_add(a: &Self::Point, b: &Self::Point) -> (r: Self::Point)
        ensures
            Self::point_val(r) == (Self::point_val(*a) + Self::point_val(*b)) % Self::order() as int,
    ;

    fn point_sub(a: &Self::Point, b: &Self::Point) -> (r: Self::Point)
        ensures
            Self::point_val(r) == (Self::point_val(*a) - Self::point_val(*b)) % Self::order() as int,
    ;

    /// Scalar multiplication `[s]P`.
    fn point_mul(p: &Self::Point, s: &Self::Scalar) -> (r: Self::Point)
        ensures
            Self::point_val(r) == (Self::point_val(*p) * Self::scalar_val(*s)) % Self::order() as int,
    ;

    fn point_eq(a: &Self::Point, b: &Self::Point) -> (r: bool)
        ensures
            r == (Self::point_val(*a) == Self::point_val(*b)),
            r ==> *a == *b,
    ;
}

/// `sum_{i < n} scalars[i] * points[i]` over discrete logarithms.
pub open spec fn msm_val<G: GroupPoint>(scalars: Seq<G::Scalar>, points: Seq<G::Point>, n: int) -> int
    decreases n,
{
    if n <= 0 {
        0
    } else {
        msm_val::<G>(scalars, points, n - 1) + G::scalar_val(scalars[n - 1]) * G::point_val(
            points[n - 1],
        )
    }
}

/// The residues of a sequence of scalars.
pub open spec fn scalars_val<G: GroupScalar>(s: Seq<G::Scalar>) -> Seq<int> {
    s.map_values(|x: G::Scalar| G::scalar_val(x))
}

/// The discrete logarithms of a sequence of points.
pub open spec fn points_val<G: GroupPoint>(p: Seq<G::Point>) -> Seq<int> {
    p.map_values(|x: G::Point| G::point_val(x))
}

/// A multi-scalar multiplication is the dot product of the residues with the
/// discrete logarithms.
pub proof fn lemma_msm_is_dot<G: GroupPoint>(scalars: Seq<G::Scalar>, points: Seq<G::Point>, n: int)
    requires
        n <= scalars.len(),
        n <= points.len(),
    ensures
        msm_val::<G>(scalars, points, n) == crate::zq::dot(scalars_val::<G>(scalars), points_val::<G>(points), n),
    decreases n,
{
    if n > 0 {
        lemma_msm_is_dot::<G>(scalars, points, n - 1);
    }
}

/// A prime-order group.
pub trait Group: GroupPoint + Copy + PartialEq + core::fmt::Debug + 'static {
    /// Multi-scalar multiplication `sum [scalars[i]] points[i]`, not constant
    /// time.
    fn vartime_multi_mul(scalars: &[Self::Scalar], points: &[Self::Point]) -> (r: Self::Point)
        requires
            scalars@.len() == points@.len(),
        ensures
            Self::point_val(r) == msm_val::<Self>(scalars@, points@, scalars@.len() as int)
                % Self::order() as int,
    {
        Self::constime_multi_mul(scalars, points)
    }

    /// Multi-scalar multiplication `sum [scalars[i]] points[i]` over the
    /// shorter of the two lists.
    fn constime_multi_mul(scalars: &[Self::Scalar], points: &[Self::Point]) -> (r: Self::Point)
        ensures
            Self::point_val(r) == msm_val::<Self>(
                scalars@,
                points@,
                if scalars@.len() <= points@.len() { scalars@.len() as int } else { points@.len() as int },
            ) % Self::order() as int,
    {
        let n = if scalars.len() <= points.len() { scalars.len() } else { points.len() };
        let mut acc = Self::identity();
        let mut i: usize = 0;
        proof {
            Self::lemma_order();
            assert(msm_val::<Self>(scalars@, points@, 0) == 0);
            vstd::arithmetic::div_mod::lemma_small_mod(0, Self::order());
        }
        while i < n
            invariant
                i <= n,
                n <= scalars@.len(),
                n <= points@.len(),
                Self::point_val(acc) == msm_val::<Self>(scalars@, points@, i as int) % Self::order() as int,
            decreases n - i,
        {
            let term = Self::point_mul(&points[i], &scalars[i]);
            let ghost old_acc = Self::point_val(acc);
            acc = Self::point_add(&acc, &term);
            proof {
                Self::lemma_order();
                let q = Self::order() as int;
                let m = msm_val::<Self>(scalars@, points@, i as int);
                let sv = Self::scalar_val(scalars@[i as int]);
                let pv = Self::point_val(points@[i as int]);
                assert(pv * sv == sv * pv) by (nonlinear_arith);
                crate::zq::lemma_add_mod_both(m, sv * pv, q);
            }
            i = i + 1;
        }
        acc
    }
}


/// `b` reads back as a point with discrete logarithm `v`: accepted,
/// canonical and decoding to `v`.
pub open spec fn reads_back<G: GroupPoint>(b: Seq<u8>, v: int) -> bool {
    G::point_decodes(b) && G::point_canonical(b) && G::decoded_val(b) == v
}

/// The serialized form of a point, in a fresh vector.
pub fn point_to_vec<G: GroupPoint>(p: &G::Point) -> (r: Vec<u8>)
    ensures
        r@ == G::point_bytes(*p),
        reads_back::<G>(r@, G::point_val(*p)),
{
    proof {
        G::lemma_point_facts(*p);
    }
    let mut v = vec![0u8; G::POINT_SIZE];
    G::point_to_bytes(v.as_mut_slice(), p);
    v
}

/// The serialized form of a scalar, in a fresh vector.
pub fn scalar_to_vec<G: GroupScalar>(s: &G::Scalar) -> (r: Vec<u8>)
    ensures
        r@ == G::scalar_bytes(*s),
        G::scalar_decodes(r@),
{
    proof {
        G::lemma_scalar_facts(*s);
    }
    let mut v = vec![0u8; G::SCALAR_SIZE];
    G::scalar_to_bytes(v.as_mut_slice(), s);
    v
}

/// A fresh random scalar that is never zero, and so has an inverse: the
/// drawn scalar, or 1 in its place where the draw is zero.
pub fn nonzero_scalar<G: Group>(rng: &mut ChaCha20Rng) -> (r: G::Scalar)
    ensures
        0 < G::scalar_val(r) < G::order(),
        is_unit(G::scalar_val(r), G::order() as int),
{
    proof {
        G::lemma_order();
    }
    let drawn = G::scalar_random(rng);
    let zero = G::scalar_from_u64(0);
    let s = if G::scalar_eq(&drawn, &zero) {
        G::scalar_from_u64(1)
    } else {
        drawn
    };
    proof {
        lemma_mod_small(0, G::order() as int);
        lemma_mod_small(1, G::order() as int);
        G::lemma_scalar_facts(s);
    }
    let inverse = G::scalar_inv(s);
    proof {
        let i = G::scalar_val(inverse);
        assert(((i * G::scalar_val(s)) % (G::order() as int)) == 1);
    }
    s
}

/// Whether one of `points` has the discrete logarithm `v`.
pub open spec fn holds_val<G: GroupPoint>(points: Seq<G::Point>, v: int) -> bool {
    exists|j: int| 0 <= j < points.len() && #[trigger] G::point_val(points[j]) == v
}

/// Pigeonhole: `m` consecutive residues `v, v + 1, ...` that all occur among
/// the discrete logarithms of `points` number at most `points.len()`.
proof fn lemma_consecutive_vals_fit<G: GroupPoint>(points: Seq<G::Point>, v: int, m: int, q: int)
    requires
        0 <= m <= q,
        forall|j: int| 0 <= j < m ==> holds_val::<G>(points, #[trigger] ((v + j) % q)),
    ensures
        m <= points.len(),
{
    let vals = points.map_values(|p: G::Point| G::point_val(p));
    let f = |j: int| (v + j) % q;
    let dom = set_int_range(0, m);
    lemma_int_range(0, m);
    assert forall|a: int, b: int| dom.contains(a) && dom.contains(b) && #[trigger] f(a) == #[trigger] f(b) implies a == b by {
        vstd::arithmetic::div_mod::lemma_fundamental_div_mod(v + a, q);
        vstd::arithmetic::div_mod::lemma_fundamental_div_mod(v + b, q);
        let ka = (v + a) / q;
        let kb = (v + b) / q;
        assert(a - b == q * (ka - kb)) by (nonlinear_arith)
            requires
                v + a == q * ka + (v + a) % q,
                v + b == q * kb + (v + b) % q,
                (v + a) % q == (v + b) % q,
        ;
        if ka != kb {
            assert(q * (ka - kb) >= q || q * (ka - kb) <= -q) by (nonlinear_arith)
                requires
                    ka != kb,
                    q > 0,
            ;
        }
    }
    lemma_map_size(dom, dom.map(f), f);
    assert forall|x: int| dom.map(f).contains(x) implies vals.to_set().contains(x) by {
        let j = choose|j: int| dom.contains(j) && f(j) == x;
        assert(holds_val::<G>(points, (v + j) % q));
        let k = choose|k: int| 0 <= k < points.len() && #[trigger] G::point_val(points[k]) == (v + j) % q;
        assert(vals[k] == x);
    }
    vals.lemma_cardinality_of_set();
    lemma_len_subset(dom.map(f), vals.to_set());
}

/// Whether one of `points` equals `p` as a group element.
fn holds_point<G: Group>(points: &Vec<G::Point>, p: &G::Point) -> (r: bool)
    ensures
        r == holds_val::<G>(points@, G::point_val(*p)),
{
    let mut j: usize = 0;
    while j < points.len()
        invariant
            j <= points@.len(),
            forall|k: int| 0 <= k < j ==> G::point_val(points@[k]) != G::point_val(*p),
        decreases points@.len() - j,
    {
        if G::point_eq(&points[j], p) {
            assert(G::point_val(points@[j as int]) == G::point_val(*p));
            return true;
        }
        j = j + 1;
    }
    false
}

/// A fresh random point whose discrete logarithm differs from those of
/// `taken`: the drawn point, or, where it is taken, the first of
/// `p + G`, `p + 2G`, ... that is not.
pub fn point_not_in<G: Group>(taken: &Vec<G::Point>, rng: &mut ChaCha20Rng) -> (r: G::Point)
    ensures
        !holds_val::<G>(taken@, G::point_val(r)),
{
    proof {
        G::lemma_order();
    }
    let ghost q = G::order() as int;
    let g = G::generator();
    let mut p = G::point_random(rng);
    let ghost v = G::point_val(p);
    proof {
        G::lemma_point_facts(p);
        lemma_mod_small(v, q);
    }
    let n = taken.len();
    let mut k: usize = 0;
    while holds_point::<G>(taken, &p)
        invariant
            n == taken@.len(),
            q == G::order() as int,
            q > u64::MAX,
            G::point_val(g) == 1,
            k <= taken@.len(),
            G::point_val(p) == (v + k) % q,
            forall|j: int| 0 <= j < k ==> holds_val::<G>(taken@, #[trigger] ((v + j) % q)),
        decreases taken@.len() - k,
    {
        proof {
            assert forall|j: int| 0 <= j < k + 1 implies holds_val::<G>(taken@, #[trigger] ((v + j) % q)) by {
            }
            lemma_consecutive_vals_fit::<G>(taken@, v, k + 1, q);
        }
        let next = G::point_add(&p, &g);
        proof {
            crate::zq::lemma_add_mod_both(v + k, 1, q);
            lemma_mod_small(1, q);
        }
        p = next;
        k = k + 1;
    }
    p
}

} // verus!
