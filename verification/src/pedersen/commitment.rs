//! Pedersen commitments `C = [r]H + sum_i [m_i]G_i`.
use vstd::prelude::*;
use rand_chacha::ChaCha20Rng;
use crate::error::Error;
use crate::group::{Group, scalars_val, points_val, msm_val, lemma_msm_is_dot, point_to_vec, reads_back, point_not_in, holds_val};
use crate::zq::{dot, lemma_dot_cons, lemma_dot_prefix};
use crate::elgamal::keys::SecretScalar;

verus! {

/// `[r]H + sum_i [m_i]G_i` over discrete logarithms, for a blinding base `h`,
/// generators `gens` and messages `msgs` given by their values.
pub open spec fn commit_val<G: Group>(h: int, gens: Seq<int>, msgs: Seq<int>, r: int) -> int {
    (h * r + dot(msgs, gens, msgs.len() as int)) % G::order() as int
}

/// What `Pedersen::verify` answers for a commitment with discrete logarithm
/// `c`: `LengthMismatch` for more messages than `list_len`, else whether
/// `(msgs, r)` opens it.
pub open spec fn verify_result<G: Group>(
    c: int,
    h: int,
    gens: Seq<int>,
    list_len: nat,
    msgs: Seq<int>,
    r: int,
) -> Result<(), Error> {
    if msgs.len() > list_len {
        Err(Error::LengthMismatch)
    } else if c == commit_val::<G>(h, gens, msgs, r) {
        Ok(())
    } else {
        Err(Error::PedersenCommitmentMismatch)
    }
}

/// Public parameters for Pedersen commitments.
#[derive(Clone, Debug, PartialEq)]
pub struct Parameters<G: Group> {
    /// The blinding base `H`.
    pub point: G::Point,
    /// The generators `G_1, ..., G_n`.
    pub generators: Vec<G::Point>,
    pub list_len: usize,
}

impl<G: Group> Parameters<G> {
    /// The discrete logarithm of the blinding base.
    pub open spec fn h_val(self) -> int {
        G::point_val(self.point)
    }

    /// The discrete logarithms of the generators.
    pub open spec fn gens_val(self) -> Seq<int> {
        points_val::<G>(self.generators@)
    }

    /// Whether a list of `n` messages that passes the length check has its
    /// generators.
    pub open spec fn covers(self, n: nat) -> bool {
        n <= self.list_len ==> n <= self.generators@.len()
    }

    /// Whether the generators are pairwise distinct and distinct from the
    /// blinding base.
    pub open spec fn bases_distinct(self) -> bool {
        &&& forall|i: int, j: int|
            0 <= i < j < self.generators@.len() ==> G::point_val(#[trigger] self.generators@[i]) != G::point_val(
                #[trigger] self.generators@[j],
            )
        &&& forall|i: int| 0 <= i < self.generators@.len() ==> G::point_val(#[trigger] self.generators@[i]) != self.h_val()
    }

    /// Sample fresh parameters with `list_len` generators and one blinding
    /// base point, all distinct: where a draw repeats an earlier base, the
    /// next of `p + G`, `p + 2G`, ... that does not is taken.
    pub fn new(list_len: usize, rng: &mut ChaCha20Rng) -> (r: Self)
        ensures
            r.list_len == list_len,
            r.generators@.len() == list_len,
            r.bases_distinct(),
    {
        let mut generators: Vec<G::Point> = Vec::new();
        let mut i: usize = 0;
        while i < list_len
            invariant
                i <= list_len,
                generators@.len() == i,
                forall|a: int, b: int|
                    0 <= a < b < generators@.len() ==> G::point_val(#[trigger] generators@[a]) != G::point_val(
                        #[trigger] generators@[b],
                    ),
            decreases list_len - i,
        {
            let p = point_not_in::<G>(&generators, rng);
            let ghost before = generators@;
            generators.push(p);
            proof {
                assert forall|a: int, b: int|
                    0 <= a < b < generators@.len() implies G::point_val(#[trigger] generators@[a]) != G::point_val(
                        #[trigger] generators@[b],
                    ) by {
                    if b == before.len() {
                        assert(generators@[a] == before[a]);
                        if G::point_val(before[a]) == G::point_val(p) {
                            assert(holds_val::<G>(before, G::point_val(p)));
                        }
                    } else {
                        assert(generators@[a] == before[a] && generators@[b] == before[b]);
                    }
                }
            }
            i = i + 1;
        }
        let point = point_not_in::<G>(&generators, rng);
        let r = Parameters { point, generators, list_len };
        proof {
            assert forall|a: int| 0 <= a < r.generators@.len() implies G::point_val(#[trigger] r.generators@[a]) != r.h_val() by {
                if G::point_val(r.generators@[a]) == G::point_val(point) {
                    assert(holds_val::<G>(r.generators@, G::point_val(point)));
                }
            }
        }
        r
    }

    /// The inputs of the multi-scalar multiplication of a commitment:
    /// `(r, m_1, ..., m_n)` and `(H, G_1, ..., G_n)`.
    fn commit_inputs(&self, messages: &[G::Scalar], randomness: &G::Scalar) -> (r: (Vec<G::Scalar>, Vec<G::Point>))
        requires
            messages@.len() <= self.generators@.len(),
        ensures
            r.0@.len() == r.1@.len(),
            msm_val::<G>(r.0@, r.1@, r.0@.len() as int) == self.h_val() * G::scalar_val(*randomness) + dot(
                scalars_val::<G>(messages@),
                self.gens_val(),
                messages@.len() as int,
            ),
    {
        let n = messages.len();
        let mut scalars: Vec<G::Scalar> = Vec::new();
        let mut points: Vec<G::Point> = Vec::new();
        scalars.push(*randomness);
        points.push(self.point);
        let mut i: usize = 0;
        while i < n
            invariant
                i <= n,
                n == messages@.len(),
                n <= self.generators@.len(),
                scalars@ == seq![*randomness] + messages@.subrange(0, i as int),
                points@ == seq![self.point] + self.generators@.subrange(0, i as int),
            decreases n - i,
        {
            scalars.push(messages[i]);
            points.push(self.generators[i]);
            proof {
                assert(messages@.subrange(0, i + 1) =~= messages@.subrange(0, i as int).push(messages@[i as int]));
                assert(self.generators@.subrange(0, i + 1) =~= self.generators@.subrange(0, i as int).push(
                    self.generators@[i as int],
                ));
            }
            i = i + 1;
        }
        proof {
            let ms = messages@;
            let gs = self.generators@.subrange(0, n as int);
            assert(ms.subrange(0, n as int) =~= ms);
            lemma_msm_is_dot::<G>(scalars@, points@, n + 1);
            let rv = G::scalar_val(*randomness);
            let hv = self.h_val();
            assert(scalars_val::<G>(scalars@) =~= seq![rv] + scalars_val::<G>(ms));
            assert(points_val::<G>(points@) =~= seq![hv] + points_val::<G>(gs));
            lemma_dot_cons(rv, hv, scalars_val::<G>(ms), points_val::<G>(gs), n as int);
            lemma_dot_prefix(scalars_val::<G>(ms), points_val::<G>(gs), scalars_val::<G>(ms), self.gens_val(), n as int);
            assert(rv * hv == hv * rv) by (nonlinear_arith);
        }
        (scalars, points)
    }
}

/// A Pedersen commitment: `C = [r]H + sum_i [m_i]G_i`.
#[derive(Clone, Copy, Debug, PartialEq)]
pub struct Pedersen<G: Group> {
    pub commitment: G::Point,
}

impl<G: Group> View for Pedersen<G> {
    type V = int;

    open spec fn view(&self) -> int {
        G::point_val(self.commitment)
    }
}

impl<G: Group> Pedersen<G> {
    /// Commit to `messages` with fresh randomness, not in constant time;
    /// `LengthMismatch` for more messages than the parameters allow.
    pub fn var_commit(params: &Parameters<G>, messages: &[G::Scalar], rng: &mut ChaCha20Rng) -> (r: Result<Self, Error>)
        requires
            params.covers(messages@.len()),
        ensures
            r is Err <==> messages@.len() > params.list_len,
            r matches Err(e) ==> e == Error::LengthMismatch,
            r matches Ok(c) ==> exists|t: int|
                0 <= t < G::order() && c@ == #[trigger] commit_val::<G>(
                    params.h_val(),
                    params.gens_val(),
                    scalars_val::<G>(messages@),
                    t,
                ),
    {
        if messages.len() > params.list_len {
            return Err(Error::LengthMismatch);
        }
        let r = SecretScalar::<G>::new(rng);
        Ok(Self::var_commit_with_randomness(params, messages, r.expose()))
    }

    /// Commit to `messages` with fresh randomness, in constant time;
    /// `LengthMismatch` for more messages than the parameters allow.
    pub fn const_commit(params: &Parameters<G>, messages: &[G::Scalar], rng: &mut ChaCha20Rng) -> (r: Result<Self, Error>)
        requires
            params.covers(messages@.len()),
        ensures
            r is Err <==> messages@.len() > params.list_len,
            r matches Err(e) ==> e == Error::LengthMismatch,
            r matches Ok(c) ==> exists|t: int|
                0 <= t < G::order() && c@ == #[trigger] commit_val::<G>(
                    params.h_val(),
                    params.gens_val(),
                    scalars_val::<G>(messages@),
                    t,
                ),
    {
        if messages.len() > params.list_len {
            return Err(Error::LengthMismatch);
        }
        let r = SecretScalar::<G>::new(rng);
        Ok(Self::const_commit_with_randomness(params, messages, r.expose()))
    }

    /// `[randomness]H + sum_i [m_i]G_i`, not in constant time.
    pub fn var_commit_with_randomness(params: &Parameters<G>, messages: &[G::Scalar], randomness: &G::Scalar) -> (r: Self)
        requires
            messages@.len() <= params.list_len,
            messages@.len() <= params.generators@.len(),
        ensures
            r@ == commit_val::<G>(
                params.h_val(),
                params.gens_val(),
                scalars_val::<G>(messages@),
                G::scalar_val(*randomness),
            ),
    {
        let (scalars, points) = params.commit_inputs(messages, randomness);
        let commitment = G::vartime_multi_mul(scalars.as_slice(), points.as_slice());
        Pedersen { commitment }
    }

    /// `[randomness]H + sum_i [m_i]G_i`, in constant time.
    pub fn const_commit_with_randomness(params: &Parameters<G>, messages: &[G::Scalar], randomness: &G::Scalar) -> (r: Self)
        requires
            messages@.len() <= params.list_len,
            messages@.len() <= params.generators@.len(),
        ensures
            r@ == commit_val::<G>(
                params.h_val(),
                params.gens_val(),
                scalars_val::<G>(messages@),
                G::scalar_val(*randomness),
            ),
    {
        let (scalars, points) = params.commit_inputs(messages, randomness);
        let commitment = G::constime_multi_mul(scalars.as_slice(), points.as_slice());
        Pedersen { commitment }
    }

    /// Verify that `(messages, randomness)` open this commitment under
    /// `params`.
    pub fn verify(&self, params: &Parameters<G>, messages: &[G::Scalar], randomness: &G::Scalar) -> (r: Result<(), Error>)
        requires
            params.covers(messages@.len()),
        ensures
            r == verify_result::<G>(
                self@,
                params.h_val(),
                params.gens_val(),
                params.list_len as nat,
                scalars_val::<G>(messages@),
                G::scalar_val(*randomness),
            ),
    {
        if messages.len() > params.list_len {
            return Err(Error::LengthMismatch);
        }
        let recomputed = Pedersen::const_commit_with_randomness(params, messages, randomness).commitment;
        if G::point_eq(&self.commitment, &recomputed) {
            Ok(())
        } else {
            Err(Error::PedersenCommitmentMismatch)
        }
    }

    /// The commitment together with its randomness.
    pub fn to_extended(self, randomness: G::Scalar) -> (r: ExtendedPedersen<G>)
        ensures
            r.inner == self,
            r.randomness@ == G::scalar_val(randomness),
    {
        ExtendedPedersen { inner: self, randomness: SecretScalar::wrap(randomness) }
    }

    /// The serialized commitment point.
    pub fn to_bytes(&self) -> (r: Vec<u8>)
        ensures
            r@ == G::point_bytes(self.commitment),
            reads_back::<G>(r@, self@),
    {
        point_to_vec::<G>(&self.commitment)
    }

    /// Deserialize from the first `POINT_SIZE` bytes; `None` where they
    /// encode no point or the identity.
    pub fn from_bytes(bytes: &[u8]) -> (r: Option<Self>)
        requires
            bytes@.len() >= G::POINT_SIZE,
        ensures
            ({
                let b = bytes@.subrange(0, G::POINT_SIZE as int);
                &&& r is Some <==> G::point_decodes(b) && G::decoded_val(b) != 0
                &&& r matches Some(c) ==> c@ == G::decoded_val(b) && (G::point_canonical(b) ==> G::point_bytes(
                    c.commitment,
                ) == b)
            }),
    {
        let head = vstd::slice::slice_subrange(bytes, 0, G::POINT_SIZE);
        let p = match G::point_from_bytes(head) {
            Some(p) => p,
            None => { return None; },
        };
        if G::is_id(&p) {
            None
        } else {
            Some(Pedersen { commitment: p })
        }
    }

    /// `self + rhs`.
    pub fn add(self, rhs: Self) -> (r: Self)
        ensures
            r@ == (self@ + rhs@) % G::order() as int,
    {
        Pedersen { commitment: G::point_add(&self.commitment, &rhs.commitment) }
    }

    /// `self += rhs`.
    pub fn add_assign(&mut self, rhs: Self)
        ensures
            final(self)@ == (old(self)@ + rhs@) % G::order() as int,
    {
        self.commitment = G::point_add(&self.commitment, &rhs.commitment);
    }

    /// `self - rhs`.
    pub fn sub(self, rhs: Self) -> (r: Self)
        ensures
            r@ == (self@ - rhs@) % G::order() as int,
    {
        Pedersen { commitment: G::point_sub(&self.commitment, &rhs.commitment) }
    }

    /// `self -= rhs`.
    pub fn sub_assign(&mut self, rhs: Self)
        ensures
            final(self)@ == (old(self)@ - rhs@) % G::order() as int,
    {
        self.commitment = G::point_sub(&self.commitment, &rhs.commitment);
    }

    /// `[k]self`.
    pub fn mul(self, k: &G::Scalar) -> (r: Self)
        ensures
            r@ == (self@ * G::scalar_val(*k)) % G::order() as int,
    {
        Pedersen { commitment: G::point_mul(&self.commitment, k) }
    }
}

/// A Pedersen commitment together with its blinding scalar.
#[derive(Debug)]
pub struct ExtendedPedersen<G: Group> {
    pub inner: Pedersen<G>,
    pub randomness: SecretScalar<G>,
}

impl<G: Group> ExtendedPedersen<G> {
    /// The commitment and its randomness.
    pub fn open(self) -> (r: (Pedersen<G>, G::Scalar))
        ensures
            r.0 == self.inner,
            G::scalar_val(r.1) == self.randomness@,
    {
        let s = *self.randomness.expose();
        (self.inner, s)
    }

    /// Commit to `messages` with fresh randomness, not in constant time;
    /// `LengthMismatch` for more messages than the parameters allow.
    pub fn var_commit(params: &Parameters<G>, messages: &[G::Scalar], rng: &mut ChaCha20Rng) -> (r: Result<Self, Error>)
        requires
            params.covers(messages@.len()),
        ensures
            r is Err <==> messages@.len() > params.list_len,
            r matches Err(e) ==> e == Error::LengthMismatch,
            r matches Ok(c) ==> c.inner@ == commit_val::<G>(
                params.h_val(),
                params.gens_val(),
                scalars_val::<G>(messages@),
                c.randomness@,
            ),
    {
        if messages.len() > params.list_len {
            return Err(Error::LengthMismatch);
        }
        let randomness = SecretScalar::<G>::new(rng);
        let inner = Pedersen::var_commit_with_randomness(params, messages, randomness.expose());
        Ok(ExtendedPedersen { inner, randomness })
    }

    /// The commitment to `messages` under `randomness`, with it.
    pub fn var_commit_with_randomness(params: &Parameters<G>, messages: &[G::Scalar], randomness: &G::Scalar) -> (r: Self)
        requires
            messages@.len() <= params.list_len,
            messages@.len() <= params.generators@.len(),
        ensures
            r.randomness@ == G::scalar_val(*randomness),
            r.inner@ == commit_val::<G>(
                params.h_val(),
                params.gens_val(),
                scalars_val::<G>(messages@),
                G::scalar_val(*randomness),
            ),
    {
        let inner = Pedersen::var_commit_with_randomness(params, messages, randomness);
        ExtendedPedersen { inner, randomness: SecretScalar::wrap(*randomness) }
    }

    /// Commit to `messages` with fresh randomness, in constant time;
    /// `LengthMismatch` for more messages than the parameters allow.
    pub fn const_commit(params: &Parameters<G>, messages: &[G::Scalar], rng: &mut ChaCha20Rng) -> (r: Result<Self, Error>)
        requires
            params.covers(messages@.len()),
        ensures
            r is Err <==> messages@.len() > params.list_len,
            r matches Err(e) ==> e == Error::LengthMismatch,
            r matches Ok(c) ==> c.inner@ == commit_val::<G>(
                params.h_val(),
                params.gens_val(),
                scalars_val::<G>(messages@),
                c.randomness@,
            ),
    {
        if messages.len() > params.list_len {
            return Err(Error::LengthMismatch);
        }
        let randomness = SecretScalar::<G>::new(rng);
        let inner = Pedersen::const_commit_with_randomness(params, messages, randomness.expose());
        Ok(ExtendedPedersen { inner, randomness })
    }

    /// The commitment without its randomness.
    pub fn to_pedersen(&self) -> (r: Pedersen<G>)
        ensures
            r == self.inner,
    {
        self.inner
    }

    /// Componentwise sum of commitments and of randomness.
    pub fn add(self, rhs: Self) -> (r: Self)
        ensures
            r.inner@ == (self.inner@ + rhs.inner@) % G::order() as int,
            r.randomness@ == (self.randomness@ + rhs.randomness@) % G::order() as int,
    {
        ExtendedPedersen { inner: self.inner.add(rhs.inner), randomness: self.randomness.add(rhs.randomness) }
    }

    /// `self += rhs`.
    pub fn add_assign(&mut self, rhs: Self)
        ensures
            final(self).inner@ == (old(self).inner@ + rhs.inner@) % G::order() as int,
            final(self).randomness@ == (old(self).randomness@ + rhs.randomness@) % G::order() as int,
    {
        self.inner.add_assign(rhs.inner);
        self.randomness.add_assign_scalar(rhs.randomness.expose());
    }

    /// Componentwise difference of commitments and of randomness.
    pub fn sub(self, rhs: Self) -> (r: Self)
        ensures
            r.inner@ == (self.inner@ - rhs.inner@) % G::order() as int,
            r.randomness@ == (self.randomness@ - rhs.randomness@) % G::order() as int,
    {
        let inner = self.inner.sub(rhs.inner);
        ExtendedPedersen { inner, randomness: self.randomness.sub_scalar(rhs.randomness.expose()) }
    }

    /// Scale commitment and randomness by `k`.
    pub fn mul(self, k: &G::Scalar) -> (r: Self)
        ensures
            r.inner@ == (self.inner@ * G::scalar_val(*k)) % G::order() as int,
            r.randomness@ == (self.randomness@ * G::scalar_val(*k)) % G::order() as int,
    {
        ExtendedPedersen { inner: self.inner.mul(k), randomness: self.randomness.mul(k) }
    }
}

} // verus!
