//! M-ElGamal ciphertexts over prime-order groups.
use vstd::prelude::*;
use rand_chacha::ChaCha20Rng;
use crate::error::Error;
use crate::group::{Group, point_to_vec, msm_val, reads_back};
use crate::bytes::extend_bytes;
use crate::zq::{lemma_add_mod_both, lemma_sub_mod_both, lemma_mod_small, lemma_mod_mod, add3, sub3, scale3, neg3, is_unit};
use crate::elgamal::keys::{ElGamalParams, PublicKey, SecretScalar};

verus! {

/// The encryption `([r]G1, [r]G2, [r]H + M)`, over discrete logarithms, of
/// a message with discrete logarithm `m` under randomness `r`.
pub open spec fn enc_val<G: Group>(params: (int, int), pk: int, m: int, r: int) -> (int, int, int) {
    let q = G::order() as int;
    ((params.0 * r) % q, (params.1 * r) % q, (pk * r + m) % q)
}

/// Ciphertext for M-ElGamal encryption: `([r]G1, [r]G2, [r]H + M)`.
#[derive(Clone, Copy, Debug, PartialEq)]
pub struct Ciphertext<G: Group> {
    /// `[r]G1`
    pub random_point: G::Point,
    /// `[r]G2`
    pub random_point2: G::Point,
    /// `[r]H + M`
    pub blinded_point: G::Point,
}

impl<G: Group> View for Ciphertext<G> {
    type V = (int, int, int);

    open spec fn view(&self) -> (int, int, int) {
        (G::point_val(self.random_point), G::point_val(self.random_point2), G::point_val(self.blinded_point))
    }
}

/// The entry that a discrete-log table holds last for the discrete logarithm
/// `x`, if any.
pub open spec fn table_lookup(entries: Seq<(int, u64)>, x: int) -> Option<u64>
    decreases entries.len(),
{
    if entries.len() == 0 {
        None
    } else if entries.last().0 == x {
        Some(entries.last().1)
    } else {
        table_lookup(entries.drop_last(), x)
    }
}

/// What `DiscreteLogTable::get` answers for a point with discrete logarithm `x`.
pub open spec fn table_get(entries: Seq<(int, u64)>, x: int) -> Option<u64> {
    if x == 0 {
        Some(0)
    } else {
        table_lookup(entries, x)
    }
}

/// `sum_{i < n} (i + 1) * cts[i]` componentwise, before reduction.
pub open spec fn ranked_vals<G: Group>(cts: Seq<Ciphertext<G>>, n: int) -> (int, int, int)
    decreases n,
{
    if n <= 0 {
        (0, 0, 0)
    } else {
        let p = ranked_vals::<G>(cts, n - 1);
        let w = n % G::order() as int;
        let c = cts[n - 1]@;
        (p.0 + c.0 * w, p.1 + c.1 * w, p.2 + c.2 * w)
    }
}

pub open spec fn mod3(a: (int, int, int), q: int) -> (int, int, int) {
    (a.0 % q, a.1 % q, a.2 % q)
}

pub open spec fn firsts<G: Group>(cts: Seq<Ciphertext<G>>) -> Seq<G::Point> {
    cts.map_values(|c: Ciphertext<G>| c.random_point)
}

pub open spec fn seconds<G: Group>(cts: Seq<Ciphertext<G>>) -> Seq<G::Point> {
    cts.map_values(|c: Ciphertext<G>| c.random_point2)
}

pub open spec fn thirds<G: Group>(cts: Seq<Ciphertext<G>>) -> Seq<G::Point> {
    cts.map_values(|c: Ciphertext<G>| c.blinded_point)
}

impl<G: Group> Ciphertext<G> {
    /// The serialized form `[r]G1 || [r]G2 || [r]H + M`.
    pub open spec fn bytes_spec(self) -> Seq<u8> {
        G::point_bytes(self.random_point) + G::point_bytes(self.random_point2) + G::point_bytes(
            self.blinded_point,
        )
    }

    /// Whether randomness `r` gives the first two components under `params`.
    pub open spec fn opened_by(self, params: (int, int), r: int) -> bool {
        &&& self@.0 == (params.0 * r) % G::order() as int
        &&& self@.1 == (params.1 * r) % G::order() as int
    }

    /// What `exp_decrypt` returns, as a predicate on its result.
    pub open spec fn exp_decrypt_post(
        self,
        pk: int,
        params: (int, int),
        table: Seq<(int, u64)>,
        r: int,
        res: Result<G::Scalar, Error>,
    ) -> bool {
        let q = G::order() as int;
        let diff = (self@.2 - pk * r) % q;
        &&& !self.opened_by(params, r) ==> res == Err::<G::Scalar, Error>(Error::RandomPointMismatch)
        &&& self.opened_by(params, r) && table_get(table, diff) is None ==> res == Err::<G::Scalar, Error>(
            Error::ElementNotFound,
        )
        &&& self.opened_by(params, r) && table_get(table, diff) is Some ==> (res matches Ok(s)
            && G::scalar_val(s) == table_get(table, diff).unwrap() as int % q && G::scalar_bytes(s)
            == G::u64_scalar_bytes(table_get(table, diff).unwrap()))
    }

    /// The encryption of `value` under `public_key` with the given randomness.
    pub(crate) fn from_randomness(
        public_key: &PublicKey<G>,
        params: &ElGamalParams<G>,
        value: &G::Point,
        randomness: &G::Scalar,
    ) -> (r: Self)
        ensures
            r@ == enc_val::<G>(params@, public_key@, G::point_val(*value), G::scalar_val(*randomness)),
    {
        let random_point = G::point_mul(&params.g1, randomness);
        let random_point2 = G::point_mul(&params.g2, randomness);
        let masked = G::point_mul(&public_key.h, randomness);
        let blinded_point = G::point_add(&masked, value);
        proof {
            G::lemma_order();
            G::lemma_point_facts(*value);
            lemma_mod_small(G::point_val(*value), G::order() as int);
            lemma_add_mod_both(public_key@ * G::scalar_val(*randomness), G::point_val(*value), G::order() as int);
        }
        Ciphertext { random_point, random_point2, blinded_point }
    }

    /// Encrypt a group point with fresh randomness.
    pub fn new(public_key: &PublicKey<G>, params: &ElGamalParams<G>, value: G::Point, rng: &mut ChaCha20Rng) -> (r: Self)
        ensures
            exists|t: int|
                0 < t < G::order() && is_unit(t, G::order() as int) && #[trigger] enc_val::<G>(
                    params@,
                    public_key@,
                    G::point_val(value),
                    t,
                ) == r@,
    {
        let r = SecretScalar::<G>::new(rng);
        let c = Self::from_randomness(public_key, params, &value, r.expose());
        assert(enc_val::<G>(params@, public_key@, G::point_val(value), r@) == c@);
        c
    }

    /// Encrypt a scalar `value` as the point `[value] generator`.
    pub fn exp_new(public_key: &PublicKey<G>, params: &ElGamalParams<G>, value: G::Scalar, rng: &mut ChaCha20Rng) -> (r: Self)
        ensures
            exists|t: int|
                0 < t < G::order() && is_unit(t, G::order() as int) && #[trigger] enc_val::<G>(
                    params@,
                    public_key@,
                    G::scalar_val(value),
                    t,
                ) == r@,
    {
        let r = SecretScalar::<G>::new(rng);
        let m = G::point_mul(&G::generator(), &value);
        proof {
            G::lemma_scalar_facts(value);
            lemma_mod_small(G::scalar_val(value), G::order() as int);
        }
        let c = Self::from_randomness(public_key, params, &m, r.expose());
        assert(enc_val::<G>(params@, public_key@, G::scalar_val(value), r@) == c@);
        c
    }

    /// Homomorphic subtraction of a plaintext point.
    pub fn hom_sub(&self, rhs: &G::Point) -> (r: Ciphertext<G>)
        ensures
            r@ == (self@.0, self@.1, (self@.2 - G::point_val(*rhs)) % G::order() as int),
    {
        Ciphertext {
            random_point: self.random_point,
            random_point2: self.random_point2,
            blinded_point: G::point_sub(&self.blinded_point, rhs),
        }
    }

    /// The ciphertext whose components are all the identity.
    pub fn zero() -> (r: Self)
        ensures
            r@ == (0int, 0int, 0int),
    {
        Ciphertext { random_point: G::identity(), random_point2: G::identity(), blinded_point: G::identity() }
    }

    pub fn random_point(&self) -> (r: &G::Point)
        ensures
            *r == self.random_point,
    {
        &self.random_point
    }

    pub fn random_point2(&self) -> (r: &G::Point)
        ensures
            *r == self.random_point2,
    {
        &self.random_point2
    }

    pub fn blinded_point(&self) -> (r: &G::Point)
        ensures
            *r == self.blinded_point,
    {
        &self.blinded_point
    }

    /// Serialize as `[r]G1 || [r]G2 || [r]H + M`.
    pub fn to_bytes(&self) -> (r: Vec<u8>)
        ensures
            r@ == self.bytes_spec(),
            r@.len() == 3 * G::POINT_SIZE,
            reads_back::<G>(r@.subrange(0, G::POINT_SIZE as int), self@.0),
            reads_back::<G>(r@.subrange(G::POINT_SIZE as int, 2 * G::POINT_SIZE), self@.1),
            reads_back::<G>(r@.subrange(2 * G::POINT_SIZE, 3 * G::POINT_SIZE), self@.2),
    {
        proof {
            G::lemma_point_facts(self.random_point);
            G::lemma_point_facts(self.random_point2);
            G::lemma_point_facts(self.blinded_point);
        }
        let mut bytes = point_to_vec::<G>(&self.random_point);
        let b2 = point_to_vec::<G>(&self.random_point2);
        let b3 = point_to_vec::<G>(&self.blinded_point);
        let ghost b1 = bytes@;
        extend_bytes(&mut bytes, b2.as_slice());
        extend_bytes(&mut bytes, b3.as_slice());
        proof {
            let n = G::POINT_SIZE as int;
            assert(bytes@.subrange(0, n) =~= b1);
            assert(bytes@.subrange(n, 2 * n) =~= b2@);
            assert(bytes@.subrange(2 * n, 3 * n) =~= b3@);
        }
        bytes
    }

    /// Deserialize from `[r]G1 || [r]G2 || [r]H + M`; `None` on a wrong
    /// length or where a third encodes no point.
    pub fn from_bytes(bytes: &[u8]) -> (r: Option<Self>)
        ensures
            r is Some <==> (bytes@.len() == 3 * G::POINT_SIZE && G::point_decodes(
                bytes@.subrange(0, G::POINT_SIZE as int),
            ) && G::point_decodes(bytes@.subrange(G::POINT_SIZE as int, 2 * G::POINT_SIZE))
                && G::point_decodes(bytes@.subrange(2 * G::POINT_SIZE, 3 * G::POINT_SIZE))),
            r matches Some(c) ==> c@ == (
                G::decoded_val(bytes@.subrange(0, G::POINT_SIZE as int)),
                G::decoded_val(bytes@.subrange(G::POINT_SIZE as int, 2 * G::POINT_SIZE)),
                G::decoded_val(bytes@.subrange(2 * G::POINT_SIZE, 3 * G::POINT_SIZE)),
            ) && (G::point_canonical(bytes@.subrange(0, G::POINT_SIZE as int)) && G::point_canonical(
                bytes@.subrange(G::POINT_SIZE as int, 2 * G::POINT_SIZE),
            ) && G::point_canonical(bytes@.subrange(2 * G::POINT_SIZE, 3 * G::POINT_SIZE)) ==> c.bytes_spec()
                == bytes@),
    {
        proof {
            G::lemma_point_size();
        }
        let n = G::POINT_SIZE;
        if bytes.len() != 3 * n {
            return None;
        }
        let p1 = G::point_from_bytes(vstd::slice::slice_subrange(bytes, 0, n));
        let p2 = G::point_from_bytes(vstd::slice::slice_subrange(bytes, n, 2 * n));
        let p3 = G::point_from_bytes(vstd::slice::slice_subrange(bytes, 2 * n, 3 * n));
        match (p1, p2, p3) {
            (Some(a), Some(b), Some(c)) => {
                let ct = Ciphertext { random_point: a, random_point2: b, blinded_point: c };
                proof {
                    if G::point_canonical(bytes@.subrange(0, G::POINT_SIZE as int)) && G::point_canonical(
                        bytes@.subrange(G::POINT_SIZE as int, 2 * G::POINT_SIZE),
                    ) && G::point_canonical(bytes@.subrange(2 * G::POINT_SIZE, 3 * G::POINT_SIZE)) {
                        assert(ct.bytes_spec() =~= bytes@);
                    }
                }
                Some(ct)
            },
            _ => None,
        }
    }

    /// Weighted sum `sum_i [i+1]ct[i]`.
    pub fn ranked_sum(ciphertexts: &[Self]) -> (r: Self)
        ensures
            r@ == mod3(ranked_vals::<G>(ciphertexts@, ciphertexts@.len() as int), G::order() as int),
    {
        let mut out = Ciphertext::zero();
        let mut index: usize = 0;
        proof {
            G::lemma_order();
            lemma_mod_small(0, G::order() as int);
        }
        while index < ciphertexts.len()
            invariant
                0 <= index <= ciphertexts@.len(),
                out@ == mod3(ranked_vals::<G>(ciphertexts@, index as int), G::order() as int),
            decreases ciphertexts@.len() - index,
        {
            let w = G::scalar_from_u64((index + 1) as u64);
            let term = ciphertexts[index].mul_scalar(&w);
            let ghost prev = ranked_vals::<G>(ciphertexts@, index as int);
            out = out.add_ct(term);
            proof {
                G::lemma_order();
                let q = G::order() as int;
                let c = ciphertexts@[index as int]@;
                let wv = (index + 1) as int % q;
                lemma_add_mod_both(prev.0, c.0 * wv, q);
                lemma_add_mod_both(prev.1, c.1 * wv, q);
                lemma_add_mod_both(prev.2, c.2 * wv, q);
            }
            index = index + 1;
        }
        out
    }

    /// Decrypt given the randomness used in encryption: `RandomPointMismatch`
    /// unless `[r]G1` and `[r]G2` match the first two components, else
    /// `C - [r]H`.
    pub fn decrypt(self, public_key: &PublicKey<G>, params: &ElGamalParams<G>, random_scalar: &G::Scalar) -> (r: Result<G::Point, Error>)
        ensures
            r is Err <==> !self.opened_by(params@, G::scalar_val(*random_scalar)),
            r matches Err(e) ==> e == Error::RandomPointMismatch,
            r matches Ok(p) ==> G::point_val(p) == (self@.2 - public_key@ * G::scalar_val(*random_scalar))
                % G::order() as int,
    {
        if !G::point_eq(&G::point_mul(&params.g1, random_scalar), &self.random_point) {
            return Err(Error::RandomPointMismatch);
        }
        if !G::point_eq(&G::point_mul(&params.g2, random_scalar), &self.random_point2) {
            return Err(Error::RandomPointMismatch);
        }
        let masked = G::point_mul(&public_key.h, random_scalar);
        proof {
            G::lemma_order();
            lemma_sub_mod_both(self@.2, public_key@ * G::scalar_val(*random_scalar), G::order() as int);
        }
        Ok(G::point_sub(&self.blinded_point, &masked))
    }

    /// Exponential decryption: recover `value` with `M = [value] generator`
    /// through the lookup `table`.
    pub fn exp_decrypt(
        self,
        public_key: &PublicKey<G>,
        params: &ElGamalParams<G>,
        table: &DiscreteLogTable<G>,
        random_scalar: &G::Scalar,
    ) -> (r: Result<G::Scalar, Error>)
        ensures
            self.exp_decrypt_post(public_key@, params@, table@, G::scalar_val(*random_scalar), r),
    {
        if !G::point_eq(&G::point_mul(&params.g1, random_scalar), &self.random_point) {
            return Err(Error::RandomPointMismatch);
        }
        if !G::point_eq(&G::point_mul(&params.g2, random_scalar), &self.random_point2) {
            return Err(Error::RandomPointMismatch);
        }
        let masked = G::point_mul(&public_key.h, random_scalar);
        proof {
            G::lemma_order();
            lemma_sub_mod_both(self@.2, public_key@ * G::scalar_val(*random_scalar), G::order() as int);
        }
        let diff = G::point_sub(&self.blinded_point, &masked);
        match table.get(&diff) {
            Some(value) => Ok(G::scalar_from_u64(value)),
            None => Err(Error::ElementNotFound),
        }
    }

    /// Re-encrypt: add an encryption of the identity with fresh randomness.
    pub fn re_encrypt(self, public_key: &PublicKey<G>, params: &ElGamalParams<G>, rng: &mut ChaCha20Rng) -> (r: ExtendedCiphertext<G>)
        ensures
            r.inner@ == add3(enc_val::<G>(params@, public_key@, 0, r.rand()), self@, G::order() as int),
    {
        ExtendedCiphertext::id_new(public_key, params, rng).add_ct(self)
    }

    /// Multi-scalar multiplication over each component:
    /// `sum_i [scalars[i]] cts[i]`.
    pub(crate) fn var_msm(cts: &[Ciphertext<G>], scalars: &[G::Scalar]) -> (r: Self)
        requires
            cts@.len() == scalars@.len(),
        ensures
            r@ == (
                msm_val::<G>(scalars@, firsts::<G>(cts@), cts@.len() as int) % G::order() as int,
                msm_val::<G>(scalars@, seconds::<G>(cts@), cts@.len() as int) % G::order() as int,
                msm_val::<G>(scalars@, thirds::<G>(cts@), cts@.len() as int) % G::order() as int,
            ),
    {
        let mut r1: Vec<G::Point> = Vec::new();
        let mut r2: Vec<G::Point> = Vec::new();
        let mut bp: Vec<G::Point> = Vec::new();
        let mut i: usize = 0;
        while i < cts.len()
            invariant
                0 <= i <= cts@.len(),
                r1@ == firsts::<G>(cts@).subrange(0, i as int),
                r2@ == seconds::<G>(cts@).subrange(0, i as int),
                bp@ == thirds::<G>(cts@).subrange(0, i as int),
            decreases cts@.len() - i,
        {
            r1.push(cts[i].random_point);
            r2.push(cts[i].random_point2);
            bp.push(cts[i].blinded_point);
            i = i + 1;
            assert(r1@ =~= firsts::<G>(cts@).subrange(0, i as int));
            assert(r2@ =~= seconds::<G>(cts@).subrange(0, i as int));
            assert(bp@ =~= thirds::<G>(cts@).subrange(0, i as int));
        }
        assert(r1@ =~= firsts::<G>(cts@));
        assert(r2@ =~= seconds::<G>(cts@));
        assert(bp@ =~= thirds::<G>(cts@));
        Ciphertext {
            random_point: G::vartime_multi_mul(scalars, r1.as_slice()),
            random_point2: G::vartime_multi_mul(scalars, r2.as_slice()),
            blinded_point: G::vartime_multi_mul(scalars, bp.as_slice()),
        }
    }

    /// Wrap into an `ExtendedCiphertext` recording `t` as its randomness.
    pub fn to_extended(self, t: G::Scalar) -> (r: ExtendedCiphertext<G>)
        ensures
            r.inner == self,
            r.rand() == G::scalar_val(t),
    {
        ExtendedCiphertext { inner: self, random_scalar: SecretScalar::wrap(t) }
    }

    /// Componentwise sum.
    pub fn add_ct(self, rhs: Self) -> (r: Self)
        ensures
            r@ == add3(self@, rhs@, G::order() as int),
    {
        Ciphertext {
            random_point: G::point_add(&self.random_point, &rhs.random_point),
            random_point2: G::point_add(&self.random_point2, &rhs.random_point2),
            blinded_point: G::point_add(&self.blinded_point, &rhs.blinded_point),
        }
    }

    /// Componentwise sum with an extended ciphertext, keeping its randomness.
    pub fn add_extended(self, rhs: &ExtendedCiphertext<G>) -> (r: ExtendedCiphertext<G>)
        ensures
            r.inner@ == add3(self@, rhs.inner@, G::order() as int),
            r.rand() == rhs.rand(),
    {
        let s = *rhs.expose();
        ExtendedCiphertext { inner: self.add_ct(rhs.inner), random_scalar: SecretScalar::wrap(s) }
    }

    /// `self += rhs`, componentwise.
    pub fn add_assign(&mut self, rhs: Self)
        ensures
            final(self)@ == add3(old(self)@, rhs@, G::order() as int),
    {
        *self = self.add_ct(rhs);
    }

    /// `self -= rhs`, componentwise.
    pub fn sub_assign(&mut self, rhs: Self)
        ensures
            final(self)@ == sub3(old(self)@, rhs@, G::order() as int),
    {
        *self = self.sub_ct(rhs);
    }

    /// Componentwise difference.
    pub fn sub_ct(self, rhs: Self) -> (r: Self)
        ensures
            r@ == sub3(self@, rhs@, G::order() as int),
    {
        Ciphertext {
            random_point: G::point_sub(&self.random_point, &rhs.random_point),
            random_point2: G::point_sub(&self.random_point2, &rhs.random_point2),
            blinded_point: G::point_sub(&self.blinded_point, &rhs.blinded_point),
        }
    }

    /// Componentwise scalar multiplication.
    pub fn mul_scalar(self, rhs: &G::Scalar) -> (r: Self)
        ensures
            r@ == scale3(self@, G::scalar_val(*rhs), G::order() as int),
    {
        Ciphertext {
            random_point: G::point_mul(&self.random_point, rhs),
            random_point2: G::point_mul(&self.random_point2, rhs),
            blinded_point: G::point_mul(&self.blinded_point, rhs),
        }
    }

    /// Componentwise multiplication by an integer.
    pub fn mul_u64(self, rhs: u64) -> (r: Self)
        ensures
            r@ == scale3(self@, rhs as int % G::order() as int, G::order() as int),
    {
        let s = G::scalar_from_u64(rhs);
        self.mul_scalar(&s)
    }

    /// Componentwise negation.
    pub fn neg_ct(self) -> (r: Self)
        ensures
            r@ == neg3(self@, G::order() as int),
    {
        Ciphertext {
            random_point: G::point_inv(self.random_point),
            random_point2: G::point_inv(self.random_point2),
            blinded_point: G::point_inv(self.blinded_point),
        }
    }

    /// Whether two ciphertexts are equal as triples of group elements.
    pub fn ct_eq(&self, other: &Self) -> (r: bool)
        ensures
            r == (self@ == other@),
    {
        G::point_eq(&self.random_point, &other.random_point) && G::point_eq(&self.random_point2, &other.random_point2)
            && G::point_eq(&self.blinded_point, &other.blinded_point)
    }
}

/// The entries that `DiscreteLogTable::new` builds from `values`: one per
/// nonzero value, with the discrete logarithm of `[v] generator`.
pub open spec fn table_entries<G: Group>(values: Seq<u64>) -> Seq<(int, u64)>
    decreases values.len(),
{
    if values.len() == 0 {
        Seq::empty()
    } else {
        let rest = table_entries::<G>(values.drop_last());
        let v = values.last();
        if v == 0 {
            rest
        } else {
            rest.push((v as int % G::order() as int, v))
        }
    }
}

/// Discrete-log lookup table for `[x] generator`.
#[derive(Debug, Clone, PartialEq)]
pub struct DiscreteLogTable<G: Group> {
    inner: Vec<(G::Point, u64)>,
}

impl<G: Group> View for DiscreteLogTable<G> {
    type V = Seq<(int, u64)>;

    closed spec fn view(&self) -> Seq<(int, u64)> {
        self.inner@.map_values(|e: (G::Point, u64)| (G::point_val(e.0), e.1))
    }
}

impl<G: Group> DiscreteLogTable<G> {
    /// Build a lookup table over the generator for the nonzero `values`.
    pub fn new(values: Vec<u64>) -> (r: Self)
        ensures
            r@ == table_entries::<G>(values@),
    {
        let mut inner: Vec<(G::Point, u64)> = Vec::new();
        let mut i: usize = 0;
        let g = G::generator();
        while i < values.len()
            invariant
                0 <= i <= values@.len(),
                G::point_val(g) == 1,
                inner@.map_values(|e: (G::Point, u64)| (G::point_val(e.0), e.1)) == table_entries::<G>(
                    values@.subrange(0, i as int),
                ),
            decreases values@.len() - i,
        {
            let v = values[i];
            let ghost before = inner@;
            if v != 0 {
                let point = G::point_mul(&g, &G::scalar_from_u64(v));
                inner.push((point, v));
                proof {
                    G::lemma_order();
                    lemma_mod_mod(v as int, G::order() as int);
                }
            }
            proof {
                let s = values@.subrange(0, i + 1);
                assert(s.drop_last() =~= values@.subrange(0, i as int));
                assert(inner@.map_values(|e: (G::Point, u64)| (G::point_val(e.0), e.1)) =~= table_entries::<G>(s));
            }
            i = i + 1;
        }
        assert(values@.subrange(0, values@.len() as int) =~= values@);
        DiscreteLogTable { inner }
    }

    /// `x` such that `decrypted_element = [x] generator`: 0 for the identity,
    /// else the value that the table holds last for the point, or `None`.
    pub fn get(&self, decrypted_element: &G::Point) -> (r: Option<u64>)
        ensures
            r == table_get(self@, G::point_val(*decrypted_element)),
    {
        if G::is_id(decrypted_element) {
            return Some(0);
        }
        let mut i = self.inner.len();
        assert(self@.subrange(0, i as int) =~= self@);
        while i > 0
            invariant
                0 <= i <= self.inner@.len(),
                G::point_val(*decrypted_element) != 0,
                table_lookup(self@, G::point_val(*decrypted_element)) == table_lookup(
                    self@.subrange(0, i as int),
                    G::point_val(*decrypted_element),
                ),
            decreases i,
        {
            let (point, v) = self.inner[i - 1];
            proof {
                assert(self@.subrange(0, i as int).drop_last() =~= self@.subrange(0, i - 1));
            }
            if G::point_eq(&point, decrypted_element) {
                return Some(v);
            }
            i = i - 1;
        }
        None
    }
}

/// A ciphertext with the randomness it was encrypted with.
#[derive(Debug)]
pub struct ExtendedCiphertext<G: Group> {
    pub inner: Ciphertext<G>,
    pub random_scalar: SecretScalar<G>,
}

impl<G: Group> ExtendedCiphertext<G> {
    /// The randomness, as a residue.
    pub open spec fn rand(self) -> int {
        self.random_scalar@
    }

    /// Encrypt a point and keep the randomness.
    pub fn new(public_key: &PublicKey<G>, params: &ElGamalParams<G>, value: G::Point, rng: &mut ChaCha20Rng) -> (r: Self)
        ensures
            0 < r.rand() < G::order(),
            is_unit(r.rand(), G::order() as int),
            r.inner@ == enc_val::<G>(params@, public_key@, G::point_val(value), r.rand()),
    {
        let r = SecretScalar::<G>::new(rng);
        let inner = Ciphertext::from_randomness(public_key, params, &value, r.expose());
        ExtendedCiphertext { inner, random_scalar: r }
    }

    /// Encrypt the identity and keep the randomness.
    pub fn id_new(public_key: &PublicKey<G>, params: &ElGamalParams<G>, rng: &mut ChaCha20Rng) -> (r: Self)
        ensures
            0 < r.rand() < G::order(),
            is_unit(r.rand(), G::order() as int),
            r.inner@ == enc_val::<G>(params@, public_key@, 0, r.rand()),
    {
        let r = SecretScalar::<G>::new(rng);
        let id = G::identity();
        let inner = Ciphertext::from_randomness(public_key, params, &id, r.expose());
        ExtendedCiphertext { inner, random_scalar: r }
    }

    /// Encrypt the identity with the given randomness.
    pub fn id_new_from_randomness(public_key: &PublicKey<G>, params: &ElGamalParams<G>, randomness: &G::Scalar) -> (r: Self)
        ensures
            r.rand() == G::scalar_val(*randomness),
            r.inner@ == enc_val::<G>(params@, public_key@, 0, r.rand()),
    {
        let id = G::identity();
        let inner = Ciphertext::from_randomness(public_key, params, &id, randomness);
        ExtendedCiphertext { inner, random_scalar: SecretScalar::wrap(*randomness) }
    }

    /// Encrypt a scalar `value` as `[value] generator` and keep the randomness.
    pub fn exp_new(value: &G::Scalar, public_key: &PublicKey<G>, params: &ElGamalParams<G>, rng: &mut ChaCha20Rng) -> (r: Self)
        ensures
            0 < r.rand() < G::order(),
            is_unit(r.rand(), G::order() as int),
            r.inner@ == enc_val::<G>(params@, public_key@, G::scalar_val(*value), r.rand()),
    {
        let r = SecretScalar::<G>::new(rng);
        let m = G::point_mul(&G::generator(), value);
        proof {
            G::lemma_scalar_facts(*value);
            lemma_mod_small(G::scalar_val(*value), G::order() as int);
        }
        let inner = Ciphertext::from_randomness(public_key, params, &m, r.expose());
        ExtendedCiphertext { inner, random_scalar: r }
    }

    /// The additive identity, with randomness 0.
    pub fn zero() -> (r: Self)
        ensures
            r.inner@ == (0int, 0int, 0int),
            r.rand() == 0,
    {
        let z = SecretScalar::<G>::from_u64(0);
        proof {
            G::lemma_order();
            lemma_mod_small(0, G::order() as int);
        }
        ExtendedCiphertext { inner: Ciphertext::zero(), random_scalar: z }
    }

    /// Whether this is an encryption of the identity under `public_key`:
    /// `C - [r]H` is the identity.
    pub fn is_zero(&self, public_key: &PublicKey<G>) -> (r: bool)
        ensures
            r == ((self.inner@.2 - public_key@ * self.rand()) % G::order() as int == 0),
    {
        let masked = G::point_mul(&public_key.h, self.random_scalar.expose());
        proof {
            G::lemma_order();
            lemma_sub_mod_both(self.inner@.2, public_key@ * self.rand(), G::order() as int);
        }
        let d = G::point_sub(&self.inner.blinded_point, &masked);
        G::point_eq(&d, &G::identity())
    }

    /// The randomness.
    pub fn expose(&self) -> (r: &G::Scalar)
        ensures
            G::scalar_val(*r) == self.rand(),
    {
        self.random_scalar.expose()
    }

    pub fn to_inner(&self) -> (r: Ciphertext<G>)
        ensures
            r == self.inner,
    {
        self.inner
    }

    pub fn into_tuple(self) -> (r: (Ciphertext<G>, SecretScalar<G>))
        ensures
            r.0 == self.inner,
            r.1@ == self.rand(),
    {
        (self.inner, self.random_scalar)
    }

    /// Weighted sum `sum_i [i+1] ct[i]`, with the randomness weighted alike.
    pub fn ranked_sum(ciphertexts: &[Self]) -> (r: Self)
        ensures
            r.inner@ == mod3(ranked_vals::<G>(ciphertexts@.map_values(|c: Self| c.inner), ciphertexts@.len() as int), G::order() as int),
            r.rand() == ranked_rand::<G>(ciphertexts@, ciphertexts@.len() as int) % G::order() as int,
    {
        let ghost inners = ciphertexts@.map_values(|c: Self| c.inner);
        let mut inner = Ciphertext::zero();
        let mut random_scalar = G::scalar_from_u64(0);
        let mut index: usize = 0;
        proof {
            G::lemma_order();
            lemma_mod_small(0, G::order() as int);
        }
        while index < ciphertexts.len()
            invariant
                0 <= index <= ciphertexts@.len(),
                inners == ciphertexts@.map_values(|c: Self| c.inner),
                inner@ == mod3(ranked_vals::<G>(inners, index as int), G::order() as int),
                G::scalar_val(random_scalar) == ranked_rand::<G>(ciphertexts@, index as int) % G::order() as int,
            decreases ciphertexts@.len() - index,
        {
            let w = G::scalar_from_u64((index + 1) as u64);
            let term = ciphertexts[index].inner.mul_scalar(&w);
            let ghost prev = ranked_vals::<G>(inners, index as int);
            let ghost prev_r = ranked_rand::<G>(ciphertexts@, index as int);
            inner = inner.add_ct(term);
            let wr = G::scalar_mul(&w, ciphertexts[index].expose());
            random_scalar = G::scalar_add(&random_scalar, &wr);
            proof {
                G::lemma_order();
                let q = G::order() as int;
                let c = inners[index as int]@;
                let wv = (index + 1) as int % q;
                let rv = ciphertexts@[index as int].rand();
                lemma_add_mod_both(prev.0, c.0 * wv, q);
                lemma_add_mod_both(prev.1, c.1 * wv, q);
                lemma_add_mod_both(prev.2, c.2 * wv, q);
                lemma_add_mod_both(prev_r, wv * rv, q);
            }
            index = index + 1;
        }
        ExtendedCiphertext { inner, random_scalar: SecretScalar::wrap(random_scalar) }
    }

    /// Componentwise sum, with the randomness added.
    pub fn add_ext(self, rhs: Self) -> (r: Self)
        ensures
            r.inner@ == add3(self.inner@, rhs.inner@, G::order() as int),
            r.rand() == (self.rand() + rhs.rand()) % G::order() as int,
    {
        let s = *rhs.random_scalar.expose();
        ExtendedCiphertext { inner: self.inner.add_ct(rhs.inner), random_scalar: self.random_scalar.add_scalar(&s) }
    }

    /// Componentwise sum with a ciphertext, keeping this randomness.
    pub fn add_ct(self, rhs: Ciphertext<G>) -> (r: Self)
        ensures
            r.inner@ == add3(self.inner@, rhs@, G::order() as int),
            r.rand() == self.rand(),
    {
        ExtendedCiphertext { inner: self.inner.add_ct(rhs), random_scalar: self.random_scalar }
    }

    /// `self += rhs`, with the randomness added.
    pub fn add_assign(&mut self, rhs: Self)
        ensures
            final(self).inner@ == add3(old(self).inner@, rhs.inner@, G::order() as int),
            final(self).rand() == (old(self).rand() + rhs.rand()) % G::order() as int,
    {
        self.inner = self.inner.add_ct(rhs.inner);
        self.random_scalar.add_assign_scalar(rhs.random_scalar.expose());
    }

    /// Componentwise difference, with the randomness subtracted.
    pub fn sub_ext(self, rhs: Self) -> (r: Self)
        ensures
            r.inner@ == sub3(self.inner@, rhs.inner@, G::order() as int),
            r.rand() == (self.rand() - rhs.rand()) % G::order() as int,
    {
        let s = *rhs.random_scalar.expose();
        ExtendedCiphertext { inner: self.inner.sub_ct(rhs.inner), random_scalar: self.random_scalar.sub_scalar(&s) }
    }
}

/// `sum_{i < n} (i + 1) * r_i` over the randomness of extended ciphertexts.
pub open spec fn ranked_rand<G: Group>(cts: Seq<ExtendedCiphertext<G>>, n: int) -> int
    decreases n,
{
    if n <= 0 {
        0
    } else {
        ranked_rand::<G>(cts, n - 1) + (n % G::order() as int) * cts[n - 1].rand()
    }
}

} // verus!
