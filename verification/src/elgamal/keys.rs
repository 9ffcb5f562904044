//! M-ElGamal keys and parameters.
use vstd::prelude::*;
use rand_chacha::ChaCha20Rng;
use crate::error::Error;
use crate::group::{Group, point_to_vec, reads_back, nonzero_scalar, point_not_in, holds_val};
use crate::bytes::extend_bytes;
use crate::zq::{lemma_add_mod_both, lemma_sub_mod_both, is_unit};
use crate::elgamal::ciphertext::{Ciphertext, DiscreteLogTable, ExtendedCiphertext};
use crate::proofs::SigmaProtocol;
use crate::proofs::ver_decr::{DecOk, DecOkProtocol, DecOkPublicBorrowed};
use crate::transcript::transcript_entries;
use merlin::Transcript;

verus! {

/// Secret wrapper around a group scalar.
#[derive(Debug)]
pub struct SecretScalar<G: Group>(pub(crate) G::Scalar);

impl<G: Group> View for SecretScalar<G> {
    type V = int;

    closed spec fn view(&self) -> int {
        G::scalar_val(self.0)
    }
}

impl<G: Group> SecretScalar<G> {
    pub(crate) proof fn lemma_view(s: SecretScalar<G>)
        ensures
            s@ == G::scalar_val(s.0),
            0 <= s@ < G::order(),
    {
        G::lemma_scalar_facts(s.0);
    }

    /// A fresh random secret scalar, never zero, so that it has an inverse.
    pub fn new(rng: &mut ChaCha20Rng) -> (r: Self)
        ensures
            0 < r@ < G::order(),
            is_unit(r@, G::order() as int),
    {
        SecretScalar(nonzero_scalar::<G>(rng))
    }

    /// The wrapped scalar.
    pub fn expose(&self) -> (r: &G::Scalar)
        ensures
            G::scalar_val(*r) == self@,
    {
        &self.0
    }

    /// The secret scalar with value `v`.
    pub fn from_u64(v: u64) -> (r: Self)
        ensures
            r@ == v as int % G::order() as int,
    {
        SecretScalar(G::scalar_from_u64(v))
    }

    /// Wrap a scalar.
    pub(crate) fn wrap(s: G::Scalar) -> (r: Self)
        ensures
            r@ == G::scalar_val(s),
    {
        SecretScalar(s)
    }

    /// `self + rhs`, consuming both.
    pub fn add(self, rhs: Self) -> (r: Self)
        ensures
            r@ == (self@ + rhs@) % G::order() as int,
    {
        SecretScalar(G::scalar_add(&self.0, &rhs.0))
    }

    /// `self - rhs`, consuming both.
    pub fn sub(self, rhs: Self) -> (r: Self)
        ensures
            r@ == (self@ - rhs@) % G::order() as int,
    {
        SecretScalar(G::scalar_sub(&self.0, &rhs.0))
    }

    /// `self += rhs`.
    pub fn add_assign(&mut self, rhs: Self)
        ensures
            final(self)@ == (old(self)@ + rhs@) % G::order() as int,
    {
        self.0 = G::scalar_add(&self.0, &rhs.0);
    }

    /// `self -= rhs`.
    pub fn sub_assign(&mut self, rhs: Self)
        ensures
            final(self)@ == (old(self)@ - rhs@) % G::order() as int,
    {
        self.0 = G::scalar_sub(&self.0, &rhs.0);
    }

    /// `self * k`.
    pub fn mul(self, k: &G::Scalar) -> (r: Self)
        ensures
            r@ == (self@ * G::scalar_val(*k)) % G::order() as int,
    {
        SecretScalar(G::scalar_mul(&self.0, k))
    }

    /// `self * rhs`, borrowing both.
    pub fn mul_secret(&self, rhs: &SecretScalar<G>) -> (r: SecretScalar<G>)
        ensures
            r@ == (self@ * rhs@) % G::order() as int,
    {
        let zero = G::scalar_from_u64(0);
        let out = G::scalar_add(&zero, self.expose());
        proof {
            G::lemma_order();
            G::lemma_scalar_facts(self.0);
            crate::zq::lemma_mod_small(0, G::order() as int);
            crate::zq::lemma_mod_small(self@, G::order() as int);
        }
        SecretScalar(G::scalar_mul(&out, rhs.expose()))
    }

    /// `self + rhs` for a public scalar `rhs`.
    pub fn add_scalar(self, rhs: &G::Scalar) -> (r: Self)
        ensures
            r@ == (self@ + G::scalar_val(*rhs)) % G::order() as int,
    {
        SecretScalar(G::scalar_add(&self.0, rhs))
    }

    /// `self - rhs` for a public scalar `rhs`.
    pub fn sub_scalar(self, rhs: &G::Scalar) -> (r: Self)
        ensures
            r@ == (self@ - G::scalar_val(*rhs)) % G::order() as int,
    {
        SecretScalar(G::scalar_sub(&self.0, rhs))
    }

    /// `self += rhs` for a public scalar `rhs`.
    pub fn add_assign_scalar(&mut self, rhs: &G::Scalar)
        ensures
            final(self)@ == (old(self)@ + G::scalar_val(*rhs)) % G::order() as int,
    {
        self.0 = G::scalar_add(&self.0, rhs);
    }

    /// `self -= rhs` for a public scalar `rhs`.
    pub fn sub_assign_scalar(&mut self, rhs: &G::Scalar)
        ensures
            final(self)@ == (old(self)@ - G::scalar_val(*rhs)) % G::order() as int,
    {
        self.0 = G::scalar_sub(&self.0, rhs);
    }
}

/// M-ElGamal parameters: two independent base points `g1` and `g2`.
#[derive(Clone, Debug, PartialEq)]
pub struct ElGamalParams<G: Group> {
    pub g1: G::Point,
    pub g2: G::Point,
}

impl<G: Group> View for ElGamalParams<G> {
    type V = (int, int);

    open spec fn view(&self) -> (int, int) {
        (G::point_val(self.g1), G::point_val(self.g2))
    }
}

/// `[s1]G1 + [s2]G2` over discrete logarithms.
pub open spec fn pk_val<G: Group>(params: (int, int), s1: int, s2: int) -> int {
    (params.0 * s1 + params.1 * s2) % G::order() as int
}

/// M-ElGamal secret key `(sk1, sk2)`.
#[derive(Debug)]
pub struct SecretKey<G: Group>(SecretScalar<G>, SecretScalar<G>);

impl<G: Group> View for SecretKey<G> {
    type V = (int, int);

    closed spec fn view(&self) -> (int, int) {
        (self.0@, self.1@)
    }
}

/// What `SecretKey::decrypt` computes: `C - ([sk1]R1 + [sk2]R2)` over
/// discrete logarithms.
pub open spec fn dec_val<G: Group>(sk: (int, int), ct: (int, int, int)) -> int {
    let q = G::order() as int;
    (ct.2 - (ct.0 * sk.0 + ct.1 * sk.1)) % q
}

impl<G: Group> SecretKey<G> {
    /// A fresh secret key.
    pub fn new(rng: &mut ChaCha20Rng) -> (r: Self)
        ensures
            0 <= r@.0 < G::order(),
            0 <= r@.1 < G::order(),
    {
        let a = SecretScalar::new(rng);
        let b = SecretScalar::new(rng);
        SecretKey(a, b)
    }

    /// The underlying scalars (read-only).
    pub fn expose_scalars(&self) -> (r: (&G::Scalar, &G::Scalar))
        ensures
            G::scalar_val(*r.0) == self@.0,
            G::scalar_val(*r.1) == self@.1,
    {
        (self.0.expose(), self.1.expose())
    }

    /// Deserialize from two concatenated scalars; `None` on a wrong length or
    /// where a half is no scalar.
    pub fn from_bytes(bytes: &[u8]) -> (r: Option<Self>)
        ensures
            r is Some <==> (bytes@.len() == 2 * G::SCALAR_SIZE && G::scalar_decodes(
                bytes@.subrange(0, G::SCALAR_SIZE as int),
            ) && G::scalar_decodes(bytes@.subrange(G::SCALAR_SIZE as int, bytes@.len() as int))),
            r matches Some(k) ==> k@ == (
                G::decoded_scalar_val(bytes@.subrange(0, G::SCALAR_SIZE as int)),
                G::decoded_scalar_val(bytes@.subrange(G::SCALAR_SIZE as int, bytes@.len() as int)),
            ),
    {
        proof {
            G::lemma_order();
        }
        if bytes.len() != 2 * G::SCALAR_SIZE {
            return None;
        }
        let first = G::scalar_from_bytes(vstd::slice::slice_subrange(bytes, 0, G::SCALAR_SIZE));
        let second = G::scalar_from_bytes(vstd::slice::slice_subrange(bytes, G::SCALAR_SIZE, bytes.len()));
        match (first, second) {
            (Some(a), Some(b)) => Some(SecretKey(SecretScalar(a), SecretScalar(b))),
            _ => None,
        }
    }

    /// Decrypt a ciphertext to a group point: `C - ([sk1]R1 + [sk2]R2)`.
    pub fn decrypt(&self, ciphertext: &Ciphertext<G>) -> (r: G::Point)
        ensures
            G::point_val(r) == dec_val::<G>(self@, ciphertext@),
    {
        let a = G::point_mul(&ciphertext.random_point, self.0.expose());
        let b = G::point_mul(&ciphertext.random_point2, self.1.expose());
        let s = G::point_add(&a, &b);
        proof {
            G::lemma_order();
            let q = G::order() as int;
            let x = ciphertext@.0 * self@.0;
            let y = ciphertext@.1 * self@.1;
            lemma_add_mod_both(x, y, q);
            lemma_sub_mod_both(ciphertext@.2, x + y, q);
        }
        G::point_sub(&ciphertext.blinded_point, &s)
    }

    /// Decrypt `ciphertext` and prove, on `transcript`, that the decryption
    /// is correct for the public key of this secret key under `params`.
    pub fn ver_decrypt(
        &self,
        params: &ElGamalParams<G>,
        ciphertext: &Ciphertext<G>,
        transcript: &mut Transcript,
        rng: &mut ChaCha20Rng,
    ) -> (r: DecOk<G>)
        ensures
            exists|pk: PublicKey<G>, m: G::Point|
                pk@ == pk_val::<G>(params@, self@.0, self@.1) && G::point_val(m) == dec_val::<G>(self@, ciphertext@)
                    && #[trigger] DecOkProtocol::<G>::produced(
                    DecOkPublicBorrowed { params, pk: &pk, ct: ciphertext, plaintext: &m },
                    self@,
                    r,
                    DecOkProtocol::<G>::challenge(
                        transcript_entries(*old(transcript)),
                        DecOkPublicBorrowed { params, pk: &pk, ct: ciphertext, plaintext: &m },
                        r,
                    ),
                ),
    {
        let plaintext = self.decrypt(ciphertext);
        let binding = self.to_public(params);
        let public = DecOkPublicBorrowed::new(params, &binding, ciphertext, &plaintext);
        let proof = DecOkProtocol::prove(public, self, transcript, rng);
        proof {
            assert(DecOkProtocol::<G>::produced(
                DecOkPublicBorrowed { params, pk: &binding, ct: ciphertext, plaintext: &plaintext },
                self@,
                proof,
                DecOkProtocol::<G>::challenge(
                    transcript_entries(*old(transcript)),
                    DecOkPublicBorrowed { params, pk: &binding, ct: ciphertext, plaintext: &plaintext },
                    proof,
                ),
            ));
        }
        proof
    }

    /// The public key of this secret key under `params`.
    pub fn to_public(&self, params: &ElGamalParams<G>) -> (r: PublicKey<G>)
        ensures
            r@ == pk_val::<G>(params@, self@.0, self@.1),
    {
        PublicKey::new_from_params(self, params)
    }
}

impl<G: Group> ElGamalParams<G> {
    /// Sample two random points, distinct from each other: where the second
    /// draw repeats the first, the next of `g2 + G`, `g2 + 2G`, ... is taken.
    pub fn new(rng: &mut ChaCha20Rng) -> (r: Self)
        ensures
            G::point_val(r.g1) != G::point_val(r.g2),
    {
        let g1 = G::point_random(rng);
        let first = vec![g1];
        let g2 = point_not_in::<G>(&first, rng);
        proof {
            if G::point_val(g1) == G::point_val(g2) {
                assert(G::point_val(first@[0]) == G::point_val(g2));
            }
        }
        ElGamalParams { g1, g2 }
    }

    /// The serialized form `G1 || G2`.
    pub open spec fn bytes_spec(self) -> Seq<u8> {
        G::point_bytes(self.g1) + G::point_bytes(self.g2)
    }

    /// Serialize `(G1, G2)` as `G1 || G2`.
    pub fn to_bytes(&self) -> (r: Vec<u8>)
        ensures
            r@ == self.bytes_spec(),
            r@.len() == 2 * G::POINT_SIZE,
            reads_back::<G>(r@.subrange(0, G::POINT_SIZE as int), self@.0),
            reads_back::<G>(r@.subrange(G::POINT_SIZE as int, 2 * G::POINT_SIZE), self@.1),
    {
        proof {
            G::lemma_point_facts(self.g1);
            G::lemma_point_facts(self.g2);
        }
        let mut buffer = point_to_vec::<G>(&self.g1);
        let second = point_to_vec::<G>(&self.g2);
        let ghost first = buffer@;
        extend_bytes(&mut buffer, second.as_slice());
        proof {
            assert(buffer@.subrange(0, G::POINT_SIZE as int) =~= first);
            assert(buffer@.subrange(G::POINT_SIZE as int, 2 * G::POINT_SIZE) =~= second@);
        }
        buffer
    }

    /// Deserialize `(G1, G2)` from `G1 || G2`: `InvalidByteSize` on a wrong
    /// length, `InvalidPoint` where a half encodes no point, `IdentityKey`
    /// where a base is the identity.
    pub fn from_bytes(bytes: &[u8]) -> (r: Result<Self, Error>)
        ensures
            bytes@.len() != 2 * G::POINT_SIZE ==> r == Err::<Self, Error>(Error::InvalidByteSize),
            bytes@.len() == 2 * G::POINT_SIZE ==> {
                let b1 = bytes@.subrange(0, G::POINT_SIZE as int);
                let b2 = bytes@.subrange(G::POINT_SIZE as int, bytes@.len() as int);
                &&& (!G::point_decodes(b1) || !G::point_decodes(b2)) ==> r == Err::<Self, Error>(
                    Error::InvalidPoint,
                )
                &&& (G::point_decodes(b1) && G::point_decodes(b2) && (G::decoded_val(b1) == 0
                    || G::decoded_val(b2) == 0)) ==> r == Err::<Self, Error>(Error::IdentityKey)
                &&& (G::point_decodes(b1) && G::point_decodes(b2) && G::decoded_val(b1) != 0
                    && G::decoded_val(b2) != 0) ==> (r matches Ok(p) && p@ == (G::decoded_val(b1), G::decoded_val(b2))
                    && (G::point_canonical(b1) && G::point_canonical(b2) ==> p.bytes_spec() == bytes@))
            },
    {
        proof {
            G::lemma_point_size();
        }
        if bytes.len() != 2 * G::POINT_SIZE {
            return Err(Error::InvalidByteSize);
        }
        let g1 = match G::point_from_bytes(vstd::slice::slice_subrange(bytes, 0, G::POINT_SIZE)) {
            Some(p) => p,
            None => { return Err(Error::InvalidPoint); },
        };
        let g2 = match G::point_from_bytes(vstd::slice::slice_subrange(bytes, G::POINT_SIZE, bytes.len())) {
            Some(p) => p,
            None => { return Err(Error::InvalidPoint); },
        };
        if G::is_id(&g1) || G::is_id(&g2) {
            Err(Error::IdentityKey)
        } else {
            let r = ElGamalParams { g1, g2 };
            proof {
                let b1 = bytes@.subrange(0, G::POINT_SIZE as int);
                let b2 = bytes@.subrange(G::POINT_SIZE as int, bytes@.len() as int);
                if G::point_canonical(b1) && G::point_canonical(b2) {
                    assert(r.bytes_spec() =~= bytes@);
                }
            }
            Ok(r)
        }
    }
}

/// M-ElGamal public key `H = [sk1]G1 + [sk2]G2`.
#[derive(Clone, Debug, PartialEq)]
pub struct PublicKey<G: Group> {
    pub h: G::Point,
}

impl<G: Group> View for PublicKey<G> {
    type V = int;

    open spec fn view(&self) -> int {
        G::point_val(self.h)
    }
}

impl<G: Group> PublicKey<G> {
    /// Generate parameters and the public key of `sk` under them.
    pub fn new(sk: &SecretKey<G>, rng: &mut ChaCha20Rng) -> (r: (ElGamalParams<G>, Self))
        ensures
            r.1@ == pk_val::<G>(r.0@, sk@.0, sk@.1),
    {
        let params = ElGamalParams::new(rng);
        let pk = PublicKey::new_from_params(sk, &params);
        (params, pk)
    }

    /// The public key of `sk` under an existing parameter set.
    pub fn new_from_params(sk: &SecretKey<G>, params: &ElGamalParams<G>) -> (r: Self)
        ensures
            r@ == pk_val::<G>(params@, sk@.0, sk@.1),
    {
        let (s1, s2) = sk.expose_scalars();
        let a = G::point_mul(&params.g1, s1);
        let b = G::point_mul(&params.g2, s2);
        proof {
            G::lemma_order();
            lemma_add_mod_both(params@.0 * sk@.0, params@.1 * sk@.1, G::order() as int);
        }
        PublicKey { h: G::point_add(&a, &b) }
    }

    /// Encrypt a point with fresh randomness.
    pub fn encrypt(&self, value: G::Point, params: &ElGamalParams<G>, rng: &mut ChaCha20Rng) -> (r: ExtendedCiphertext<G>)
        ensures
            r.inner@ == crate::elgamal::ciphertext::enc_val::<G>(params@, self@, G::point_val(value), r.rand()),
    {
        ExtendedCiphertext::new(self, params, value, rng)
    }

    /// Encrypt the identity with the given randomness.
    pub fn encrypt_id(&self, params: &ElGamalParams<G>, randomness: &G::Scalar) -> (r: ExtendedCiphertext<G>)
        ensures
            r.rand() == G::scalar_val(*randomness),
            r.inner@ == crate::elgamal::ciphertext::enc_val::<G>(params@, self@, 0, r.rand()),
    {
        ExtendedCiphertext::id_new_from_randomness(self, params, randomness)
    }

    /// Decrypt given the encryption randomness: `RandomPointMismatch` unless
    /// the randomness opens the ciphertext, else the plaintext point.
    pub fn dec_with_rnd(&self, params: &ElGamalParams<G>, ct: Ciphertext<G>, random_scalar: &G::Scalar) -> (r: Result<G::Point, Error>)
        ensures
            r is Err <==> !ct.opened_by(params@, G::scalar_val(*random_scalar)),
            r matches Err(e) ==> e == Error::RandomPointMismatch,
            r matches Ok(p) ==> G::point_val(p) == (ct@.2 - self@ * G::scalar_val(*random_scalar)) % G::order() as int,
    {
        ct.decrypt(self, params, random_scalar)
    }

    /// Exponential decryption given the encryption randomness:
    /// `RandomPointMismatch` unless the randomness opens the ciphertext, else
    /// the table's entry for the plaintext point, or `ElementNotFound`.
    pub fn exp_dec_with_rnd(
        &self,
        params: &ElGamalParams<G>,
        table: &DiscreteLogTable<G>,
        ct: &Ciphertext<G>,
        random_scalar: &G::Scalar,
    ) -> (r: Result<G::Scalar, Error>)
        ensures
            ct.exp_decrypt_post(self@, params@, table@, G::scalar_val(*random_scalar), r),
    {
        ct.exp_decrypt(self, params, table, random_scalar)
    }

    /// The serialized public key point.
    pub fn to_bytes(&self) -> (r: Vec<u8>)
        ensures
            r@ == G::point_bytes(self.h),
            reads_back::<G>(r@, self@),
    {
        point_to_vec::<G>(&self.h)
    }

    /// Deserialize a public key: `InvalidByteSize` on a wrong length,
    /// `InvalidPoint` where the bytes encode no point, `IdentityKey` for the
    /// identity.
    pub fn from_bytes(bytes: &[u8]) -> (r: Result<Self, Error>)
        ensures
            bytes@.len() != G::POINT_SIZE ==> r == Err::<Self, Error>(Error::InvalidByteSize),
            bytes@.len() == G::POINT_SIZE && !G::point_decodes(bytes@) ==> r == Err::<Self, Error>(Error::InvalidPoint),
            bytes@.len() == G::POINT_SIZE && G::point_decodes(bytes@) && G::decoded_val(bytes@) == 0
                ==> r == Err::<Self, Error>(Error::IdentityKey),
            bytes@.len() == G::POINT_SIZE && G::point_decodes(bytes@) && G::decoded_val(bytes@) != 0
                ==> (r matches Ok(k) && k@ == G::decoded_val(bytes@) && (G::point_canonical(bytes@) ==> G::point_bytes(
                k.h,
            ) == bytes@)),
    {
        if bytes.len() != G::POINT_SIZE {
            return Err(Error::InvalidByteSize);
        }
        let h = match G::point_from_bytes(bytes) {
            Some(p) => p,
            None => { return Err(Error::InvalidPoint); },
        };
        if G::is_id(&h) {
            Err(Error::IdentityKey)
        } else {
            Ok(PublicKey { h })
        }
    }

    /// The public key as a ciphertext-shaped triple `(G1, G2, H)`.
    pub fn to_ciphertext(&self, params: &ElGamalParams<G>) -> (r: Ciphertext<G>)
        ensures
            r@ == (params@.0, params@.1, self@),
            r.random_point == params.g1,
            r.random_point2 == params.g2,
            r.blinded_point == self.h,
    {
        Ciphertext { random_point: params.g1, random_point2: params.g2, blinded_point: self.h }
    }

    /// `[k]H`.
    pub fn mul_scalar(&self, k: &G::Scalar) -> (r: PublicKey<G>)
        ensures
            r@ == (self@ * G::scalar_val(*k)) % G::order() as int,
    {
        PublicKey { h: G::point_mul(&self.h, k) }
    }

    /// `[k]H` for an integer `k`.
    pub fn mul_u64(&self, k: u64) -> (r: PublicKey<G>)
        ensures
            r@ == (self@ * (k as int % G::order() as int)) % G::order() as int,
    {
        self.mul_scalar(&G::scalar_from_u64(k))
    }
}

/// A secret key with its public key.
pub struct KeyPair<G: Group> {
    sk: SecretKey<G>,
    pk: PublicKey<G>,
}

impl<G: Group> KeyPair<G> {
    /// The secret key of the pair.
    pub closed spec fn sk_view(self) -> (int, int) {
        self.sk@
    }

    /// The public key of the pair.
    pub closed spec fn pk_view(self) -> int {
        self.pk@
    }

    /// A fresh key pair for the given parameters.
    pub fn new_from_params(params: &ElGamalParams<G>, rng: &mut ChaCha20Rng) -> (r: Self)
        ensures
            r.pk_view() == pk_val::<G>(params@, r.sk_view().0, r.sk_view().1),
    {
        let sk = SecretKey::<G>::new(rng);
        let pk = PublicKey::<G>::new_from_params(&sk, params);
        KeyPair { sk, pk }
    }

    pub fn public(&self) -> (r: &PublicKey<G>)
        ensures
            r@ == self.pk_view(),
    {
        &self.pk
    }

    pub fn secret(&self) -> (r: &SecretKey<G>)
        ensures
            r@ == self.sk_view(),
    {
        &self.sk
    }

    pub fn into_tuple(self) -> (r: (SecretKey<G>, PublicKey<G>))
        ensures
            r.0@ == self.sk_view(),
            r.1@ == self.pk_view(),
    {
        (self.sk, self.pk)
    }
}

} // verus!
