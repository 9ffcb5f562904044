//! Shuffle of known content, and the shuffle proof built on it.
//!
//! The inner argument (`KnownContentShuffle`) proves that a Pedersen
//! commitment `C'` opens to a permutation of a public list of scalars `m`.
//! After the challenge `x` the prover commits to masks `d`, to
//! `v_delta[i] = -delta[i] d[i+1]` and to
//! `v_a[i] = delta[i+1] - (pi[i+1] - x) delta[i] - a[i] d[i+1]`, where
//! `pi[i] = m[perm[i]]` and `a[i] = prod_{j <= i} (pi[j] - x)`. After the
//! challenge `e` it answers `f[i] = e pi[i] + d[i]` and
//! `f_delta[i] = e v_a[i] + v_delta[i]` with the matching randomness. The
//! verifier checks both Pedersen equalities and folds the responses:
//! `ff_0 = f_0 - e x`, `ff_i = (ff_{i-1} (f_i - e x) + f_delta[i-1]) / e`,
//! accepting when `ff_{n-1} = e prod_i (m_i - x)`.
//!
//! The outer shuffle reduces a permutation of ciphertexts to that argument:
//! it commits to the permutation and to masks, draws `t` from the transcript,
//! publishes `f_i = t_{perm(i)} - d_i` and proves that
//! `C' = [lambda]c + c_d + com(f; 0)` opens to a permutation of
//! `m'_i = i lambda + t_i`.
use vstd::prelude::*;
use merlin::Transcript;
use rand_chacha::ChaCha20Rng;
use crate::error::Error;
use crate::group::{Group, scalars_val, points_val, lemma_msm_is_dot};
use crate::zq::{dot, scale3, add3, sub3, lemma_mod_small};
use crate::pedersen::commitment::{Parameters, Pedersen, ExtendedPedersen, commit_val};
use crate::elgamal::ciphertext::{Ciphertext, ExtendedCiphertext, enc_val, firsts, seconds, thirds};
use crate::elgamal::keys::{ElGamalParams, PublicKey};
use crate::transcript::{TranscriptOp, transcript_entries, merlin_challenge};
use crate::proofs::{TranscriptForGroup, msg_op, scalar_op, challenge_op, copy_slice, draw_scalars, draw_seeded, seeded_scalars};
use crate::proofs::labels::{
    LABEL_COMMITMENT, LABEL_X, LABEL_C_D, LABEL_C_DELTA, LABEL_C_A, LABEL_E, LABEL_COMMIT, LABEL_COMMIT_D, LABEL_F,
    LABEL_LAMBDA, LABEL_C_PRIME, LABEL_CHALLENGE,
};

verus! {

/// The permuted values `messages[perm[i]]`.
pub open spec fn permuted<G: Group>(messages: Seq<G::Scalar>, perm: Seq<usize>) -> Seq<int> {
    Seq::new(perm.len(), |i: int| G::scalar_val(messages[perm[i] as int]))
}

/// A result with its success value dropped.
pub open spec fn unit_result<T>(r: Result<T, Error>) -> Result<(), Error> {
    match r {
        Ok(_) => Ok(()),
        Err(e) => Err(e),
    }
}

/// The values `vals[perm[i]]`.
pub open spec fn permuted_vals(vals: Seq<int>, perm: Seq<usize>) -> Seq<int> {
    Seq::new(perm.len(), |i: int| vals[perm[i] as int])
}

/// The running product `prod_{j <= i} (s[j] - x)`, reduced as it is
/// computed.
pub open spec fn kcs_prefix(s: Seq<int>, x: int, q: int, i: int) -> int
    decreases i,
{
    if i <= 0 {
        (s[0] - x) % q
    } else {
        (kcs_prefix(s, x, q, i - 1) * ((s[i] - x) % q)) % q
    }
}

/// `v_delta[i] = -delta[i] d[i+1]`.
pub open spec fn kcs_v_delta(d: Seq<int>, delta: Seq<int>, q: int) -> Seq<int> {
    Seq::new((d.len() - 1) as nat, |i: int| (0 - (delta[i] * d[i + 1]) % q) % q)
}

/// `v_a[i] = delta[i+1] - (pi[i+1] - x) delta[i] - a[i] d[i+1]`.
pub open spec fn kcs_v_a(pi: Seq<int>, x: int, d: Seq<int>, delta: Seq<int>, q: int) -> Seq<int> {
    Seq::new(
        (d.len() - 1) as nat,
        |i: int|
            ((delta[i + 1] - (((pi[i + 1] - x) % q) * delta[i]) % q) % q - (kcs_prefix(pi, x, q, i) * d[i + 1]) % q) % q,
    )
}

/// `f[i] = e pi[i] + d[i]`.
pub open spec fn kcs_f(pi: Seq<int>, d: Seq<int>, e: int, q: int) -> Seq<int> {
    Seq::new(d.len(), |i: int| ((e * pi[i]) % q + d[i]) % q)
}

/// `f_delta[i] = e v_a[i] - delta[i] d[i+1]`.
pub open spec fn kcs_f_delta(pi: Seq<int>, x: int, d: Seq<int>, delta: Seq<int>, e: int, q: int) -> Seq<int> {
    Seq::new((d.len() - 1) as nat, |i: int| ((e * kcs_v_a(pi, x, d, delta, q)[i]) % q - (delta[i] * d[i + 1]) % q) % q)
}

/// One folding step `(ff (f_i - e x) + f_delta_{i-1}) / e`, with `ie` the
/// inverse of `e`.
pub open spec fn fold_step(ff: int, fi: int, di: int, e: int, x: int, ie: int, q: int) -> int {
    ((((ff * ((fi - (e * x) % q) % q)) % q + di) % q) * ie) % q
}

/// The verifier's fold of the responses up to index `i`.
pub open spec fn kcs_fold(f: Seq<int>, fd: Seq<int>, e: int, x: int, ie: int, q: int, i: int) -> int
    decreases i,
{
    if i <= 0 {
        (f[0] - (e * x) % q) % q
    } else {
        fold_step(kcs_fold(f, fd, e, x, ie, q, i - 1), f[i], fd[i - 1], e, x, ie, q)
    }
}

/// Whether `ie` is what scalar inversion gives for `e`: its inverse, or zero
/// for zero.
pub open spec fn is_inverse(e: int, ie: int, q: int) -> bool {
    &&& 0 <= ie < q
    &&& e % q == 0 ==> ie == 0
    &&& e % q != 0 ==> (ie * e) % q == 1
}

/// The inverse of a scalar, and zero for zero.
fn inverse_or_zero<G: Group>(e: &G::Scalar) -> (r: G::Scalar)
    ensures
        is_inverse(G::scalar_val(*e), G::scalar_val(r), G::order() as int),
{
    proof {
        G::lemma_scalar_facts(*e);
        lemma_mod_small(G::scalar_val(*e), G::order() as int);
    }
    let zero = G::scalar_from_u64(0);
    proof {
        lemma_mod_small(0, G::order() as int);
    }
    let r = if G::scalar_eq(e, &zero) {
        zero
    } else {
        G::scalar_inv(*e)
    };
    proof {
        G::lemma_scalar_facts(r);
    }
    r
}

/// Proof that a Pedersen commitment opens to a permutation of a known list
/// of scalars.
#[derive(Clone, Debug)]
pub struct KnownContentShuffle<G: Group> {
    /// `C'`, the commitment to the permuted list.
    pub commitment: Pedersen<G>,
    pub c_d: Pedersen<G>,
    pub c_delta: Pedersen<G>,
    pub c_a: Pedersen<G>,
    pub f: Vec<G::Scalar>,
    pub z: G::Scalar,
    pub f_delta: Vec<G::Scalar>,
    pub z_delta: G::Scalar,
}

impl<G: Group> KnownContentShuffle<G> {
    /// The transcript entries before the challenge `x`.
    pub open spec fn ops_x(self) -> Seq<TranscriptOp> {
        seq![msg_op(LABEL_COMMITMENT@, G::point_bytes(self.commitment.commitment))]
    }

    /// The transcript entries before the challenge `e`.
    pub open spec fn ops_e(self) -> Seq<TranscriptOp> {
        self.ops_x().push(challenge_op::<G>(LABEL_X@)) + seq![
            msg_op(LABEL_C_D@, G::point_bytes(self.c_d.commitment)),
            msg_op(LABEL_C_DELTA@, G::point_bytes(self.c_delta.commitment)),
            msg_op(LABEL_C_A@, G::point_bytes(self.c_a.commitment)),
        ]
    }

    /// The challenge `x` on a transcript that held `prefix`.
    pub open spec fn challenge_x(self, prefix: Seq<TranscriptOp>) -> int {
        G::spec_challenge(prefix + self.ops_x(), LABEL_X@)
    }

    /// The challenge `e` on a transcript that held `prefix`.
    pub open spec fn challenge_e(self, prefix: Seq<TranscriptOp>) -> int {
        G::spec_challenge(prefix + self.ops_e(), LABEL_E@)
    }

    /// The transcript once the proof is made or checked.
    pub open spec fn transcript_after(self, prefix: Seq<TranscriptOp>) -> Seq<TranscriptOp> {
        (prefix + self.ops_e()).push(challenge_op::<G>(LABEL_E@))
    }

    /// Whether this is what the prover makes for `C'` (with randomness
    /// `r_c`) and the permuted list `pi`, under challenges `x` and `e`, from
    /// masks `d`, `delta` and commitment randomness `rd`, `rdelta`, `ra`.
    pub open spec fn made_with(
        self,
        h: int,
        gens: Seq<int>,
        c_prime: Pedersen<G>,
        r_c: int,
        pi: Seq<int>,
        x: int,
        e: int,
        d: Seq<int>,
        delta: Seq<int>,
        rd: int,
        rdelta: int,
        ra: int,
    ) -> bool {
        let q = G::order() as int;
        let n = pi.len();
        &&& self.commitment == c_prime
        &&& d.len() == n
        &&& delta.len() == n
        &&& delta[0] == d[0]
        &&& delta[n - 1] == 0
        &&& self.c_d@ == commit_val::<G>(h, gens, d, rd)
        &&& self.c_delta@ == commit_val::<G>(h, gens, kcs_v_delta(d, delta, q), rdelta)
        &&& self.c_a@ == commit_val::<G>(h, gens, kcs_v_a(pi, x, d, delta, q), ra)
        &&& scalars_val::<G>(self.f@) == kcs_f(pi, d, e, q)
        &&& scalars_val::<G>(self.f_delta@) == kcs_f_delta(pi, x, d, delta, e, q)
        &&& G::scalar_val(self.z) == ((e * r_c) % q + rd) % q
        &&& G::scalar_val(self.z_delta) == ((e * ra) % q + rdelta) % q
    }

    /// What `verify` answers for `messages` (given by their values) under
    /// challenges `x` and `e`, with `ie` the inverse of `e`.
    pub open spec fn verify_result(
        self,
        h: int,
        gens: Seq<int>,
        list_len: nat,
        msgs: Seq<int>,
        x: int,
        e: int,
        ie: int,
    ) -> Result<(), Error> {
        let q = G::order() as int;
        let n = list_len as int;
        if msgs.len() != list_len {
            Err(Error::LengthMismatch)
        } else if self.f@.len() > list_len || self.f_delta@.len() > list_len {
            Err(Error::LengthMismatch)
        } else if ((self.commitment@ * e) % q + self.c_d@) % q != commit_val::<G>(
            h,
            gens,
            scalars_val::<G>(self.f@),
            G::scalar_val(self.z),
        ) {
            Err(Error::CommitmentMismatch)
        } else if ((self.c_a@ * e) % q + self.c_delta@) % q != commit_val::<G>(
            h,
            gens,
            scalars_val::<G>(self.f_delta@),
            G::scalar_val(self.z_delta),
        ) {
            Err(Error::CommitmentMismatch)
        } else if self.f@.len() != list_len || list_len == 0 || self.f_delta@.len() != list_len - 1 {
            Err(Error::LengthMismatch)
        } else if kcs_fold(scalars_val::<G>(self.f@), scalars_val::<G>(self.f_delta@), e, x, ie, q, n - 1) != (
        kcs_prefix(msgs, x, q, n - 1) * e) % q {
            Err(Error::CommitmentMismatch)
        } else {
            Ok(())
        }
    }

    /// Prove that `commitment` opens to `messages` permuted by `perm`.
    pub fn new(
        params: &Parameters<G>,
        commitment: &ExtendedPedersen<G>,
        perm: &[usize],
        messages: &[G::Scalar],
        transcript: &mut Transcript,
        rng: &mut ChaCha20Rng,
    ) -> (r: Self)
        requires
            perm@.len() == params.list_len,
            perm@.len() > 1,
            params.list_len <= params.generators@.len(),
            forall|i: int| 0 <= i < perm@.len() ==> #[trigger] perm@[i] < messages@.len(),
        ensures
            transcript_entries(*final(transcript)) == r.transcript_after(transcript_entries(*old(transcript))),
            exists|d: Seq<int>, delta: Seq<int>, rd: int, rdelta: int, ra: int|
                #[trigger] r.made_with(
                    params.h_val(),
                    params.gens_val(),
                    commitment.inner,
                    commitment.randomness@,
                    permuted::<G>(messages@, perm@),
                    r.challenge_x(transcript_entries(*old(transcript))),
                    r.challenge_e(transcript_entries(*old(transcript))),
                    d,
                    delta,
                    rd,
                    rdelta,
                    ra,
                ),
    {
        let ghost prefix = transcript_entries(*transcript);
        let ghost pi = permuted::<G>(messages@, perm@);
        proof {
            G::lemma_order();
            G::lemma_point_facts(commitment.inner.commitment);
        }
        let ghost q = G::order() as int;
        let cbytes = commitment.to_pedersen().to_bytes();
        transcript.append_bytes(&LABEL_COMMITMENT, cbytes.as_slice());
        let x = transcript.challenge_scalar::<G>(&LABEL_X);
        let ghost xv = G::scalar_val(x);
        let n = params.list_len;
        let d0 = G::scalar_random(rng);
        let mut d: Vec<G::Scalar> = Vec::new();
        let mut delta: Vec<G::Scalar> = Vec::new();
        let mut a: Vec<G::Scalar> = Vec::new();
        d.push(d0);
        delta.push(d0);
        a.push(G::scalar_sub(&messages[perm[0]], &x));
        let mut i: usize = 1;
        while i < n - 1
            invariant
                1 <= i <= n - 1,
                n == perm@.len(),
                n > 1,
                xv == G::scalar_val(x),
                q == G::order() as int,
                pi == permuted::<G>(messages@, perm@),
                forall|j: int| 0 <= j < perm@.len() ==> #[trigger] perm@[j] < messages@.len(),
                d@.len() == i,
                delta@.len() == i,
                a@.len() == i,
                delta@[0] == d@[0],
                forall|j: int| 0 <= j < i ==> #[trigger] G::scalar_val(a@[j]) == kcs_prefix(pi, xv, q, j),
            decreases n - 1 - i,
        {
            d.push(G::scalar_random(rng));
            delta.push(G::scalar_random(rng));
            let step = G::scalar_sub(&messages[perm[i]], &x);
            let next = G::scalar_mul(&a[i - 1], &step);
            a.push(next);
            proof {
                assert(G::scalar_val(a@[i - 1]) == kcs_prefix(pi, xv, q, i - 1));
                assert(G::scalar_val(a@[i as int]) == kcs_prefix(pi, xv, q, i as int));
            }
            i = i + 1;
        }
        d.push(G::scalar_random(rng));
        delta.push(G::scalar_from_u64(0));
        let step = G::scalar_sub(&messages[perm[n - 1]], &x);
        let last = G::scalar_mul(&a[n - 2], &step);
        a.push(last);
        proof {
            lemma_mod_small(0, q);
            assert(G::scalar_val(a@[n - 2]) == kcs_prefix(pi, xv, q, n - 2));
            assert(G::scalar_val(a@[n - 1]) == kcs_prefix(pi, xv, q, n - 1));
        }
        let ghost dv = scalars_val::<G>(d@);
        let ghost deltav = scalars_val::<G>(delta@);
        // commitment to the masks
        let c_d_ex = match ExtendedPedersen::var_commit(params, d.as_slice(), rng) {
            Ok(c) => c,
            Err(_) => vstd::pervasive::unreached(),
        };
        let c_d = c_d_ex.to_pedersen();
        proof {
            G::lemma_point_facts(c_d.commitment);
        }
        let cd_bytes = c_d.to_bytes();
        transcript.append_bytes(&LABEL_C_D, cd_bytes.as_slice());
        // commitment to v_delta
        let mut v_delta: Vec<G::Scalar> = Vec::new();
        let zero = G::scalar_from_u64(0);
        let mut j: usize = 0;
        while j < n - 1
            invariant
                j <= n - 1,
                n == d@.len(),
                n == delta@.len(),
                n > 1,
                q == G::order() as int,
                G::scalar_val(zero) == 0,
                dv == scalars_val::<G>(d@),
                deltav == scalars_val::<G>(delta@),
                v_delta@.len() == j,
                forall|k: int| 0 <= k < j ==> #[trigger] G::scalar_val(v_delta@[k]) == kcs_v_delta(dv, deltav, q)[k],
            decreases n - 1 - j,
        {
            let prod = G::scalar_mul(&delta[j], &d[j + 1]);
            v_delta.push(G::scalar_sub(&zero, &prod));
            j = j + 1;
        }
        proof {
            assert(scalars_val::<G>(v_delta@) =~= kcs_v_delta(dv, deltav, q));
        }
        let c_delta_ex = match ExtendedPedersen::var_commit(params, v_delta.as_slice(), rng) {
            Ok(c) => c,
            Err(_) => vstd::pervasive::unreached(),
        };
        let c_delta = c_delta_ex.to_pedersen();
        proof {
            G::lemma_point_facts(c_delta.commitment);
        }
        let cdelta_bytes = c_delta.to_bytes();
        transcript.append_bytes(&LABEL_C_DELTA, cdelta_bytes.as_slice());
        // commitment to v_a
        let mut v_a: Vec<G::Scalar> = Vec::new();
        let mut j: usize = 0;
        while j < n - 1
            invariant
                j <= n - 1,
                n == d@.len(),
                n == delta@.len(),
                n == a@.len(),
                n == perm@.len(),
                n > 1,
                q == G::order() as int,
                xv == G::scalar_val(x),
                pi == permuted::<G>(messages@, perm@),
                forall|k: int| 0 <= k < perm@.len() ==> #[trigger] perm@[k] < messages@.len(),
                forall|k: int| 0 <= k < n ==> #[trigger] G::scalar_val(a@[k]) == kcs_prefix(pi, xv, q, k),
                dv == scalars_val::<G>(d@),
                deltav == scalars_val::<G>(delta@),
                v_a@.len() == j,
                forall|k: int| 0 <= k < j ==> #[trigger] G::scalar_val(v_a@[k]) == kcs_v_a(pi, xv, dv, deltav, q)[k],
            decreases n - 1 - j,
        {
            let mx = G::scalar_sub(&messages[perm[j + 1]], &x);
            let t1 = G::scalar_sub(&delta[j + 1], &G::scalar_mul(&mx, &delta[j]));
            let t2 = G::scalar_mul(&a[j], &d[j + 1]);
            v_a.push(G::scalar_sub(&t1, &t2));
            proof {
                assert(G::scalar_val(a@[j as int]) == kcs_prefix(pi, xv, q, j as int));
            }
            j = j + 1;
        }
        proof {
            assert(scalars_val::<G>(v_a@) =~= kcs_v_a(pi, xv, dv, deltav, q));
        }
        let c_a_ex = match ExtendedPedersen::var_commit(params, v_a.as_slice(), rng) {
            Ok(c) => c,
            Err(_) => vstd::pervasive::unreached(),
        };
        let c_a = c_a_ex.to_pedersen();
        proof {
            G::lemma_point_facts(c_a.commitment);
        }
        let ca_bytes = c_a.to_bytes();
        transcript.append_bytes(&LABEL_C_A, ca_bytes.as_slice());
        // second challenge
        let ghost before_e = transcript_entries(*transcript);
        let e = transcript.challenge_scalar::<G>(&LABEL_E);
        let ghost ev = G::scalar_val(e);
        // responses
        let mut f: Vec<G::Scalar> = Vec::new();
        let mut j: usize = 0;
        while j < n
            invariant
                j <= n,
                n == d@.len(),
                n == perm@.len(),
                q == G::order() as int,
                ev == G::scalar_val(e),
                pi == permuted::<G>(messages@, perm@),
                forall|k: int| 0 <= k < perm@.len() ==> #[trigger] perm@[k] < messages@.len(),
                dv == scalars_val::<G>(d@),
                f@.len() == j,
                forall|k: int| 0 <= k < j ==> #[trigger] G::scalar_val(f@[k]) == kcs_f(pi, dv, ev, q)[k],
            decreases n - j,
        {
            f.push(G::scalar_add(&G::scalar_mul(&e, &messages[perm[j]]), &d[j]));
            j = j + 1;
        }
        let mut f_delta: Vec<G::Scalar> = Vec::new();
        let mut j: usize = 0;
        while j < n - 1
            invariant
                j <= n - 1,
                n == d@.len(),
                n == delta@.len(),
                n == a@.len(),
                n == perm@.len(),
                n > 1,
                q == G::order() as int,
                xv == G::scalar_val(x),
                ev == G::scalar_val(e),
                pi == permuted::<G>(messages@, perm@),
                forall|k: int| 0 <= k < perm@.len() ==> #[trigger] perm@[k] < messages@.len(),
                forall|k: int| 0 <= k < n ==> #[trigger] G::scalar_val(a@[k]) == kcs_prefix(pi, xv, q, k),
                dv == scalars_val::<G>(d@),
                deltav == scalars_val::<G>(delta@),
                f_delta@.len() == j,
                forall|k: int|
                    0 <= k < j ==> #[trigger] G::scalar_val(f_delta@[k]) == kcs_f_delta(pi, xv, dv, deltav, ev, q)[k],
            decreases n - 1 - j,
        {
            let mx = G::scalar_sub(&messages[perm[j + 1]], &x);
            let t1 = G::scalar_sub(&delta[j + 1], &G::scalar_mul(&mx, &delta[j]));
            let t2 = G::scalar_mul(&a[j], &d[j + 1]);
            let va = G::scalar_sub(&t1, &t2);
            f_delta.push(G::scalar_sub(&G::scalar_mul(&e, &va), &G::scalar_mul(&delta[j], &d[j + 1])));
            proof {
                assert(G::scalar_val(a@[j as int]) == kcs_prefix(pi, xv, q, j as int));
            }
            j = j + 1;
        }
        let z = G::scalar_add(&G::scalar_mul(&e, commitment.randomness.expose()), c_d_ex.randomness.expose());
        let z_delta = G::scalar_add(&G::scalar_mul(&e, c_a_ex.randomness.expose()), c_delta_ex.randomness.expose());
        let r = KnownContentShuffle {
            commitment: commitment.to_pedersen(),
            c_d,
            c_delta,
            c_a,
            f,
            z,
            f_delta,
            z_delta,
        };
        proof {
            assert(scalars_val::<G>(r.f@) =~= kcs_f(pi, dv, ev, q));
            assert(scalars_val::<G>(r.f_delta@) =~= kcs_f_delta(pi, xv, dv, deltav, ev, q));
            assert(prefix + r.ops_x() == prefix.push(msg_op(LABEL_COMMITMENT@, G::point_bytes(r.commitment.commitment))));
            assert(xv == r.challenge_x(prefix));
            assert(before_e =~= prefix + r.ops_e());
            assert(ev == r.challenge_e(prefix));
            assert(transcript_entries(*transcript) =~= r.transcript_after(prefix));
            assert(r.made_with(
                params.h_val(),
                params.gens_val(),
                commitment.inner,
                commitment.randomness@,
                pi,
                xv,
                ev,
                dv,
                deltav,
                c_d_ex.randomness@,
                c_delta_ex.randomness@,
                c_a_ex.randomness@,
            ));
        }
        r
    }

    /// Check the proof against the known list `messages`.
    pub fn verify(&self, params: &Parameters<G>, messages: &[G::Scalar], transcript: &mut Transcript) -> (r: Result<(), Error>)
        requires
            params.list_len <= params.generators@.len(),
        ensures
            messages@.len() != params.list_len ==> r == Err::<(), Error>(Error::LengthMismatch) && *final(transcript)
                == *old(transcript),
            messages@.len() == params.list_len ==> transcript_entries(*final(transcript)) == self.transcript_after(
                transcript_entries(*old(transcript)),
            ) && exists|ie: int|
                is_inverse(self.challenge_e(transcript_entries(*old(transcript))), ie, G::order() as int) && r
                    == #[trigger] self.verify_result(
                    params.h_val(),
                    params.gens_val(),
                    params.list_len as nat,
                    scalars_val::<G>(messages@),
                    self.challenge_x(transcript_entries(*old(transcript))),
                    self.challenge_e(transcript_entries(*old(transcript))),
                    ie,
                ),
    {
        if messages.len() != params.list_len {
            return Err(Error::LengthMismatch);
        }
        let ghost prefix = transcript_entries(*transcript);
        proof {
            G::lemma_order();
            G::lemma_point_facts(self.commitment.commitment);
            G::lemma_point_facts(self.c_d.commitment);
            G::lemma_point_facts(self.c_delta.commitment);
            G::lemma_point_facts(self.c_a.commitment);
        }
        let ghost q = G::order() as int;
        let cbytes = self.commitment.to_bytes();
        transcript.append_bytes(&LABEL_COMMITMENT, cbytes.as_slice());
        let x = transcript.challenge_scalar::<G>(&LABEL_X);
        let cd_bytes = self.c_d.to_bytes();
        transcript.append_bytes(&LABEL_C_D, cd_bytes.as_slice());
        let cdelta_bytes = self.c_delta.to_bytes();
        transcript.append_bytes(&LABEL_C_DELTA, cdelta_bytes.as_slice());
        let ca_bytes = self.c_a.to_bytes();
        transcript.append_bytes(&LABEL_C_A, ca_bytes.as_slice());
        let ghost before_e = transcript_entries(*transcript);
        let e = transcript.challenge_scalar::<G>(&LABEL_E);
        let inv_e = inverse_or_zero::<G>(&e);
        let ghost xv = G::scalar_val(x);
        let ghost ev = G::scalar_val(e);
        let ghost ie = G::scalar_val(inv_e);
        proof {
            assert(prefix + self.ops_x() == prefix.push(msg_op(LABEL_COMMITMENT@, G::point_bytes(self.commitment.commitment))));
            assert(xv == self.challenge_x(prefix));
            assert(transcript_entries(*transcript) =~= self.transcript_after(prefix));
            assert(before_e =~= prefix + self.ops_e());
            assert(ev == self.challenge_e(prefix));
        }
        let ghost spec_r = self.verify_result(
            params.h_val(),
            params.gens_val(),
            params.list_len as nat,
            scalars_val::<G>(messages@),
            xv,
            ev,
            ie,
        );
        if self.f.len() > params.list_len || self.f_delta.len() > params.list_len {
            return Err(Error::LengthMismatch);
        }
        // two Pedersen equalities
        let lhs = self.commitment.mul(&e).add(self.c_d);
        let rhs = Pedersen::var_commit_with_randomness(params, self.f.as_slice(), &self.z);
        if !G::point_eq(&lhs.commitment, &rhs.commitment) {
            assert(spec_r == Err::<(), Error>(Error::CommitmentMismatch));
            return Err(Error::CommitmentMismatch);
        }
        let lhs = self.c_a.mul(&e).add(self.c_delta);
        let rhs = Pedersen::var_commit_with_randomness(params, self.f_delta.as_slice(), &self.z_delta);
        if !G::point_eq(&lhs.commitment, &rhs.commitment) {
            assert(spec_r == Err::<(), Error>(Error::CommitmentMismatch));
            return Err(Error::CommitmentMismatch);
        }
        // folding check over the messages
        let n = params.list_len;
        if self.f.len() != n || n == 0 || self.f_delta.len() != n - 1 {
            return Err(Error::LengthMismatch);
        }
        let ghost fv = scalars_val::<G>(self.f@);
        let ghost fdv = scalars_val::<G>(self.f_delta@);
        let ghost mv = scalars_val::<G>(messages@);
        let ex = G::scalar_mul(&e, &x);
        let mut ff = G::scalar_sub(&self.f[0], &ex);
        let mut check = G::scalar_sub(&messages[0], &x);
        let mut i: usize = 1;
        while i < n
            invariant
                1 <= i <= n,
                n == self.f@.len(),
                n == messages@.len(),
                n - 1 == self.f_delta@.len(),
                q == G::order() as int,
                xv == G::scalar_val(x),
                ev == G::scalar_val(e),
                ie == G::scalar_val(inv_e),
                G::scalar_val(ex) == (ev * xv) % q,
                fv == scalars_val::<G>(self.f@),
                fdv == scalars_val::<G>(self.f_delta@),
                mv == scalars_val::<G>(messages@),
                G::scalar_val(ff) == kcs_fold(fv, fdv, ev, xv, ie, q, i - 1),
                G::scalar_val(check) == kcs_prefix(mv, xv, q, i - 1),
            decreases n - i,
        {
            let step = G::scalar_add(&G::scalar_mul(&ff, &G::scalar_sub(&self.f[i], &ex)), &self.f_delta[i - 1]);
            ff = G::scalar_mul(&step, &inv_e);
            check = G::scalar_mul(&check, &G::scalar_sub(&messages[i], &x));
            i = i + 1;
        }
        if !G::scalar_eq(&ff, &G::scalar_mul(&check, &e)) {
            return Err(Error::CommitmentMismatch);
        }
        Ok(())
    }
}


// --- the outer shuffle -----------------------------------------------------

/// The values `m'_i = i lambda + t_i` that the outer shuffle reduces to.
pub open spec fn shuffle_messages(t: Seq<int>, lambda: int, q: int) -> Seq<int> {
    Seq::new(t.len(), |i: int| (((i % q) * lambda) % q + t[i]) % q)
}

/// The values of a list of permutation indices, as scalars.
pub open spec fn perm_vals(perm: Seq<usize>, q: int) -> Seq<int> {
    Seq::new(perm.len(), |i: int| perm[i] as int % q)
}

/// The transcript entries of a list of scalars under `f`.
pub open spec fn f_ops<G: Group>(f: Seq<G::Scalar>) -> Seq<TranscriptOp> {
    f.map_values(|s: G::Scalar| scalar_op::<G>(LABEL_F@, s))
}

/// `sum_i [coeffs[i]] cts[i]` componentwise, over discrete logarithms.
pub open spec fn lin3<G: Group>(coeffs: Seq<int>, cts: Seq<Ciphertext<G>>) -> (int, int, int) {
    let q = G::order() as int;
    let n = cts.len() as int;
    (
        dot(coeffs, points_val::<G>(firsts::<G>(cts)), n) % q,
        dot(coeffs, points_val::<G>(seconds::<G>(cts)), n) % q,
        dot(coeffs, points_val::<G>(thirds::<G>(cts)), n) % q,
    )
}

/// `sum_i [scalars[i]] cts[i]`, through `Ciphertext::var_msm`.
fn ct_msm<G: Group>(cts: &[Ciphertext<G>], scalars: &[G::Scalar]) -> (r: Ciphertext<G>)
    requires
        cts@.len() == scalars@.len(),
    ensures
        r@ == lin3::<G>(scalars_val::<G>(scalars@), cts@),
{
    let r = Ciphertext::var_msm(cts, scalars);
    proof {
        let n = cts@.len() as int;
        lemma_msm_is_dot::<G>(scalars@, firsts::<G>(cts@), n);
        lemma_msm_is_dot::<G>(scalars@, seconds::<G>(cts@), n);
        lemma_msm_is_dot::<G>(scalars@, thirds::<G>(cts@), n);
    }
    r
}

/// Prover side of the outer shuffle proof: commitments to the permutation
/// and to fresh masks.
#[derive(Debug)]
pub struct ShuffleBuilder<G: Group> {
    commit: ExtendedPedersen<G>,
    commit_d: ExtendedPedersen<G>,
    messages_d: Vec<G::Scalar>,
}

impl<G: Group> ShuffleBuilder<G> {
    /// The commitment `c` to the permutation indices.
    pub closed spec fn perm_commitment(self) -> Pedersen<G> {
        self.commit.inner
    }

    /// The randomness of `c`.
    pub closed spec fn perm_randomness(self) -> int {
        self.commit.randomness@
    }

    /// The commitment `c_d` to the masks.
    pub closed spec fn mask_commitment(self) -> Pedersen<G> {
        self.commit_d.inner
    }

    /// The randomness of `c_d`.
    pub closed spec fn mask_randomness(self) -> int {
        self.commit_d.randomness@
    }

    /// The masks `d`.
    pub closed spec fn masks(self) -> Seq<G::Scalar> {
        self.messages_d@
    }

    /// Commit to the permutation indices and to `list_len` fresh masks.
    pub fn new(params: &Parameters<G>, perm: &[usize], rng: &mut ChaCha20Rng) -> (r: Self)
        requires
            perm@.len() <= params.list_len,
            params.list_len <= params.generators@.len(),
        ensures
            r.perm_commitment()@ == commit_val::<G>(
                params.h_val(),
                params.gens_val(),
                perm_vals(perm@, G::order() as int),
                r.perm_randomness(),
            ),
            r.masks().len() == params.list_len,
            r.mask_commitment()@ == commit_val::<G>(
                params.h_val(),
                params.gens_val(),
                scalars_val::<G>(r.masks()),
                r.mask_randomness(),
            ),
    {
        let mut perm_scalars: Vec<G::Scalar> = Vec::new();
        let mut i: usize = 0;
        while i < perm.len()
            invariant
                i <= perm@.len(),
                perm_scalars@.len() == i,
                forall|j: int| 0 <= j < i ==> #[trigger] G::scalar_val(perm_scalars@[j]) == perm@[j] as int % G::order() as int,
            decreases perm@.len() - i,
        {
            perm_scalars.push(G::scalar_from_u64(perm[i] as u64));
            i = i + 1;
        }
        proof {
            assert(scalars_val::<G>(perm_scalars@) =~= perm_vals(perm@, G::order() as int));
        }
        let commit = match ExtendedPedersen::var_commit(params, perm_scalars.as_slice(), rng) {
            Ok(c) => c,
            Err(_) => vstd::pervasive::unreached(),
        };
        let messages_d = draw_scalars::<G>(rng, params.list_len);
        let commit_d = match ExtendedPedersen::var_commit(params, messages_d.as_slice(), rng) {
            Ok(c) => c,
            Err(_) => vstd::pervasive::unreached(),
        };
        ShuffleBuilder { commit, commit_d, messages_d }
    }

    /// The ElGamal accumulator `E_d = sum_i [d_i] shuffled[i] + Enc(0)`, with
    /// fresh randomness for the encryption of the identity.
    pub fn get_e_d(
        &self,
        pk: &PublicKey<G>,
        el_params: &ElGamalParams<G>,
        shuffled: &[Ciphertext<G>],
        rng: &mut ChaCha20Rng,
    ) -> (r: ExtendedCiphertext<G>)
        requires
            shuffled@.len() == self.masks().len(),
        ensures
            r.inner@ == add3(
                lin3::<G>(scalars_val::<G>(self.masks()), shuffled@),
                enc_val::<G>(el_params@, pk@, 0, r.rand()),
                G::order() as int,
            ),
    {
        let identity_encryption = ExtendedCiphertext::id_new(pk, el_params, rng);
        let msm = ct_msm(shuffled, self.messages_d.as_slice());
        msm.add_extended(&identity_encryption)
    }

    /// Append `c` and `c_d` to the transcript.
    pub fn update_transcript1(&self, transcript: &mut Transcript)
        ensures
            transcript_entries(*final(transcript)) == transcript_entries(*old(transcript)).push(
                msg_op(LABEL_COMMIT@, G::point_bytes(self.perm_commitment().commitment)),
            ).push(msg_op(LABEL_COMMIT_D@, G::point_bytes(self.mask_commitment().commitment))),
    {
        proof {
            G::lemma_point_facts(self.commit.inner.commitment);
            G::lemma_point_facts(self.commit_d.inner.commitment);
        }
        let b1 = self.commit.inner.to_bytes();
        transcript.append_bytes(&LABEL_COMMIT, b1.as_slice());
        let b2 = self.commit_d.inner.to_bytes();
        transcript.append_bytes(&LABEL_COMMIT_D, b2.as_slice());
    }

    /// Append the `f` list, each scalar under `f`.
    pub fn update_transcript2(&self, transcript: &mut Transcript, f_list: &[G::Scalar])
        ensures
            transcript_entries(*final(transcript)) == transcript_entries(*old(transcript)) + f_ops::<G>(f_list@),
    {
        let ghost start = transcript_entries(*transcript);
        proof {
            G::lemma_order();
        }
        let mut i: usize = 0;
        while i < f_list.len()
            invariant
                i <= f_list@.len(),
                transcript_entries(*transcript) == start + f_ops::<G>(f_list@).subrange(0, i as int),
            decreases f_list@.len() - i,
        {
            transcript.append_scalar::<G>(&LABEL_F, &f_list[i]);
            i = i + 1;
            assert(f_ops::<G>(f_list@).subrange(0, i as int) =~= f_ops::<G>(f_list@).subrange(0, i - 1).push(
                f_ops::<G>(f_list@)[i - 1],
            ));
        }
        assert(f_ops::<G>(f_list@).subrange(0, f_list@.len() as int) =~= f_ops::<G>(f_list@));
    }

    /// `f_i = t_{perm(i)} - d_i` for the drawn `t`.
    pub fn f_list(&self, perm: &[usize], t_list: &[G::Scalar]) -> (r: Vec<G::Scalar>)
        requires
            forall|i: int| 0 <= i < perm@.len() ==> #[trigger] perm@[i] < t_list@.len(),
            perm@.len() <= self.masks().len(),
        ensures
            scalars_val::<G>(r@) == Seq::new(
                perm@.len(),
                |i: int|
                    (G::scalar_val(t_list@[perm@[i] as int]) - G::scalar_val(self.masks()[i])) % G::order() as int,
            ),
    {
        let mut f: Vec<G::Scalar> = Vec::new();
        let mut i: usize = 0;
        while i < perm.len()
            invariant
                i <= perm@.len(),
                perm@.len() <= self.messages_d@.len(),
                forall|j: int| 0 <= j < perm@.len() ==> #[trigger] perm@[j] < t_list@.len(),
                f@.len() == i,
                forall|j: int|
                    0 <= j < i ==> #[trigger] G::scalar_val(f@[j]) == (G::scalar_val(t_list@[perm@[j] as int])
                        - G::scalar_val(self.messages_d@[j])) % G::order() as int,
            decreases perm@.len() - i,
        {
            f.push(G::scalar_sub(&t_list[perm[i]], &self.messages_d[i]));
            i = i + 1;
        }
        proof {
            assert(scalars_val::<G>(f@) =~= Seq::new(
                perm@.len(),
                |i: int|
                    (G::scalar_val(t_list@[perm@[i] as int]) - G::scalar_val(self.masks()[i])) % G::order() as int,
            ));
        }
        f
    }

    /// Draw `t` from the transcript's `c` generator and compute
    /// `f_i = t_{perm(i)} - d_i`.
    pub fn compute_t(&self, perm: &[usize], transcript: &mut Transcript) -> (r: (Vec<G::Scalar>, Vec<G::Scalar>))
        requires
            forall|i: int| 0 <= i < perm@.len() ==> #[trigger] perm@[i] < perm@.len(),
            perm@.len() <= self.masks().len(),
        ensures
            transcript_entries(*final(transcript)) == transcript_entries(*old(transcript)).push(
                TranscriptOp::Challenge(LABEL_CHALLENGE@, 32),
            ),
            r.1@.len() == perm@.len(),
            scalars_val::<G>(r.1@) == seeded_scalars::<G>(
                merlin_challenge(transcript_entries(*old(transcript)), LABEL_CHALLENGE@, 32),
                0,
                perm@.len() as nat,
            ),
            scalars_val::<G>(r.0@) == Seq::new(
                perm@.len(),
                |i: int| (G::scalar_val(r.1@[perm@[i] as int]) - G::scalar_val(self.masks()[i])) % G::order() as int,
            ),
    {
        let seed = transcript.challenge_seed(&LABEL_CHALLENGE);
        let t_list = draw_seeded::<G>(&seed, perm.len());
        let f_list = self.f_list(perm, t_list.as_slice());
        (f_list, t_list)
    }

    /// Complete the proof: derive `lambda`, publish
    /// `C' = [lambda]c + c_d + com(f; 0)` and prove that it opens to a
    /// permutation of `m'_i = i lambda + t_i`.
    pub fn complete(
        self,
        params: &Parameters<G>,
        f_list: &[G::Scalar],
        t_list: &[G::Scalar],
        perm: &[usize],
        transcript: &mut Transcript,
        rng: &mut ChaCha20Rng,
    ) -> (r: Shuffle<G>)
        requires
            f_list@.len() <= params.list_len,
            params.list_len <= params.generators@.len(),
            perm@.len() == params.list_len,
            perm@.len() > 1,
            forall|i: int| 0 <= i < perm@.len() ==> #[trigger] perm@[i] < t_list@.len(),
        ensures
            r.c == self.perm_commitment(),
            r.c_d == self.mask_commitment(),
            r.f@ == f_list@,
            ({
                let q = G::order() as int;
                let e0 = transcript_entries(*old(transcript));
                let lambda = G::spec_challenge(e0, LABEL_LAMBDA@);
                let e1 = e0.push(challenge_op::<G>(LABEL_LAMBDA@)).push(
                    msg_op(LABEL_C_PRIME@, G::point_bytes(r.kcs.commitment.commitment)),
                );
                let msgs = shuffle_messages(scalars_val::<G>(t_list@), lambda, q);
                let r_c = (((self.perm_randomness() * lambda) % q + self.mask_randomness()) % q + 0) % q;
                &&& r.kcs.commitment@ == r.reduced_commitment(params.h_val(), params.gens_val(), lambda)
                &&& transcript_entries(*final(transcript)) == r.kcs.transcript_after(e1)
                &&& exists|d: Seq<int>, delta: Seq<int>, rd: int, rdelta: int, ra: int|
                    #[trigger] r.kcs.made_with(
                        params.h_val(),
                        params.gens_val(),
                        r.kcs.commitment,
                        r_c,
                        permuted_vals(msgs, perm@),
                        r.kcs.challenge_x(e1),
                        r.kcs.challenge_e(e1),
                        d,
                        delta,
                        rd,
                        rdelta,
                        ra,
                    )
            }),
    {
        let ghost e0 = transcript_entries(*transcript);
        let lambda = transcript.challenge_scalar::<G>(&LABEL_LAMBDA);
        let ghost lv = G::scalar_val(lambda);
        proof {
            G::lemma_order();
        }
        let ghost q = G::order() as int;
        let c = self.commit.to_pedersen();
        let c_d = self.commit_d.to_pedersen();
        let ghost rc = self.commit.randomness@;
        let ghost rdm = self.commit_d.randomness@;
        let pre = self.commit.mul(&lambda).add(self.commit_d);
        let zero = G::scalar_from_u64(0);
        proof {
            lemma_mod_small(0, q);
        }
        let commit_f = ExtendedPedersen::var_commit_with_randomness(params, f_list, &zero);
        let opening = pre.add(commit_f);
        let c_prime = opening.to_pedersen();
        proof {
            G::lemma_point_facts(c_prime.commitment);
        }
        let cp_bytes = c_prime.to_bytes();
        transcript.append_bytes(&LABEL_C_PRIME, cp_bytes.as_slice());
        let ghost e1 = transcript_entries(*transcript);
        let mut messages: Vec<G::Scalar> = Vec::new();
        let mut i: usize = 0;
        while i < t_list.len()
            invariant
                i <= t_list@.len(),
                lv == G::scalar_val(lambda),
                q == G::order() as int,
                messages@.len() == i,
                forall|j: int|
                    0 <= j < i ==> #[trigger] G::scalar_val(messages@[j]) == shuffle_messages(
                        scalars_val::<G>(t_list@),
                        lv,
                        q,
                    )[j],
            decreases t_list@.len() - i,
        {
            let w = G::scalar_from_u64(i as u64);
            messages.push(G::scalar_add(&G::scalar_mul(&w, &lambda), &t_list[i]));
            i = i + 1;
        }
        let kcs = KnownContentShuffle::new(params, &opening, perm, messages.as_slice(), transcript, rng);
        let f = copy_slice(f_list);
        let r = Shuffle { c, c_d, f, kcs };
        proof {
            let msgs = shuffle_messages(scalars_val::<G>(t_list@), lv, q);
            assert(permuted::<G>(messages@, perm@) =~= permuted_vals(msgs, perm@));
            assert(r.kcs.commitment == opening.inner);
            assert(r.kcs.commitment@ == r.reduced_commitment(params.h_val(), params.gens_val(), lv));
            assert(e1 == e0.push(challenge_op::<G>(LABEL_LAMBDA@)).push(
                msg_op(LABEL_C_PRIME@, G::point_bytes(r.kcs.commitment.commitment)),
            ));
            assert(opening.randomness@ == (((rc * lv) % q + rdm) % q + 0) % q);
            let (d, delta, rd, rdelta, ra) = choose|d: Seq<int>, delta: Seq<int>, rd: int, rdelta: int, ra: int|
                #[trigger] r.kcs.made_with(
                    params.h_val(),
                    params.gens_val(),
                    opening.inner,
                    opening.randomness@,
                    permuted::<G>(messages@, perm@),
                    r.kcs.challenge_x(e1),
                    r.kcs.challenge_e(e1),
                    d,
                    delta,
                    rd,
                    rdelta,
                    ra,
                );
            assert(r.kcs.made_with(
                params.h_val(),
                params.gens_val(),
                r.kcs.commitment,
                (((rc * lv) % q + rdm) % q + 0) % q,
                permuted_vals(msgs, perm@),
                r.kcs.challenge_x(e1),
                r.kcs.challenge_e(e1),
                d,
                delta,
                rd,
                rdelta,
                ra,
            ));
            assert(transcript_entries(*transcript) == r.kcs.transcript_after(e1));
            assert(rc == self.perm_randomness());
            assert(rdm == self.mask_randomness());
        }
        r
    }
}

/// The outer shuffle proof.
#[derive(Clone, Debug)]
pub struct Shuffle<G: Group> {
    /// The commitment to the permutation indices.
    pub c: Pedersen<G>,
    /// The commitment to the masks.
    pub c_d: Pedersen<G>,
    /// `f_i = t_{perm(i)} - d_i`.
    pub f: Vec<G::Scalar>,
    /// The inner argument over `C'` and `m'`.
    pub kcs: KnownContentShuffle<G>,
}

/// The accumulated check of `check_re_encryption` over the first `i`
/// entries: `e_d - sum_j [t_j] originals[j] + sum_j [f_j] shuffled[j]`.
pub open spec fn reenc_acc<G: Group>(
    e_d: (int, int, int),
    t: Seq<int>,
    f: Seq<int>,
    originals: Seq<Ciphertext<G>>,
    shuffled: Seq<Ciphertext<G>>,
    i: int,
) -> (int, int, int)
    decreases i,
{
    let q = G::order() as int;
    if i <= 0 {
        e_d
    } else {
        let prev = reenc_acc::<G>(e_d, t, f, originals, shuffled, i - 1);
        add3(sub3(prev, scale3(originals[i - 1]@, t[i - 1], q), q), scale3(shuffled[i - 1]@, f[i - 1], q), q)
    }
}

impl<G: Group> Shuffle<G> {
    /// `C' = [lambda]c + c_d + com(f; 0)` over discrete logarithms.
    pub open spec fn reduced_commitment(self, h: int, gens: Seq<int>, lambda: int) -> int {
        let q = G::order() as int;
        (((self.c@ * lambda) % q + self.c_d@) % q + commit_val::<G>(h, gens, scalars_val::<G>(self.f@), 0)) % q
    }

    /// The `t` that the verifier draws on a transcript that held `prefix`:
    /// `list_len` scalars from the ChaCha20 generator seeded with the
    /// challenge bytes under `c`, taken once `c` and `c_d` are absorbed.
    pub open spec fn drawn_t(self, prefix: Seq<TranscriptOp>, list_len: nat) -> Seq<int> {
        let absorbed = prefix.push(msg_op(LABEL_COMMIT@, G::point_bytes(self.c.commitment))).push(
            msg_op(LABEL_COMMIT_D@, G::point_bytes(self.c_d.commitment)),
        );
        seeded_scalars::<G>(merlin_challenge(absorbed, LABEL_CHALLENGE@, 32), 0, list_len)
    }

    /// The transcript entries before `t` is drawn.
    pub open spec fn opening_ops(self) -> Seq<TranscriptOp> {
        seq![
            msg_op(LABEL_COMMIT@, G::point_bytes(self.c.commitment)),
            msg_op(LABEL_COMMIT_D@, G::point_bytes(self.c_d.commitment)),
            TranscriptOp::Challenge(LABEL_CHALLENGE@, 32),
        ]
    }

    /// What the verifier answers, and the transcript it leaves, once `t`
    /// (given by its values) is drawn on a transcript that held `prefix`.
    pub open spec fn verified_with(
        self,
        h: int,
        gens: Seq<int>,
        list_len: nat,
        prefix: Seq<TranscriptOp>,
        tv: Seq<int>,
        res: Result<(), Error>,
        after: Seq<TranscriptOp>,
    ) -> bool {
        let q = G::order() as int;
        let e0 = prefix + f_ops::<G>(self.f@);
        let lambda = G::spec_challenge(e0, LABEL_LAMBDA@);
        let e1 = e0.push(challenge_op::<G>(LABEL_LAMBDA@));
        let e2 = e1.push(msg_op(LABEL_C_PRIME@, G::point_bytes(self.kcs.commitment.commitment)));
        let msgs = shuffle_messages(tv, lambda, q);
        if self.f@.len() > list_len {
            res == Err::<(), Error>(Error::LengthMismatch) && after == e1
        } else if self.kcs.commitment@ != self.reduced_commitment(h, gens, lambda) {
            res == Err::<(), Error>(Error::CommitmentMismatch) && after == e1
        } else if msgs.len() != list_len {
            res == Err::<(), Error>(Error::LengthMismatch) && after == e2
        } else {
            &&& after == self.kcs.transcript_after(e2)
            &&& exists|ie: int|
                is_inverse(self.kcs.challenge_e(e2), ie, q) && res == #[trigger] self.kcs.verify_result(
                    h,
                    gens,
                    list_len,
                    msgs,
                    self.kcs.challenge_x(e2),
                    self.kcs.challenge_e(e2),
                    ie,
                )
        }
    }

    /// The ElGamal accumulator `E_d = sum_i [-f_i] shuffled[i] + Enc(0; r_d)`.
    pub fn get_e_d(
        &self,
        pk: &PublicKey<G>,
        el_params: &ElGamalParams<G>,
        shuffled: &[Ciphertext<G>],
        randomness_d: &G::Scalar,
    ) -> (r: Ciphertext<G>)
        requires
            shuffled@.len() == self.f@.len(),
        ensures
            r@ == add3(
                lin3::<G>(
                    Seq::new(self.f@.len(), |i: int| (0 - G::scalar_val(self.f@[i])) % G::order() as int),
                    shuffled@,
                ),
                enc_val::<G>(el_params@, pk@, 0, G::scalar_val(*randomness_d)),
                G::order() as int,
            ),
    {
        let id = G::identity();
        let identity_encryption = Ciphertext::from_randomness(pk, el_params, &id, randomness_d);
        let zero = G::scalar_from_u64(0);
        proof {
            G::lemma_order();
            lemma_mod_small(0, G::order() as int);
        }
        let mut neg_f: Vec<G::Scalar> = Vec::new();
        let mut i: usize = 0;
        while i < self.f.len()
            invariant
                i <= self.f@.len(),
                G::scalar_val(zero) == 0,
                neg_f@.len() == i,
                forall|j: int|
                    0 <= j < i ==> #[trigger] G::scalar_val(neg_f@[j]) == (0 - G::scalar_val(self.f@[j])) % G::order() as int,
            decreases self.f@.len() - i,
        {
            neg_f.push(G::scalar_sub(&zero, &self.f[i]));
            i = i + 1;
        }
        proof {
            assert(scalars_val::<G>(neg_f@) =~= Seq::new(
                self.f@.len(),
                |i: int| (0 - G::scalar_val(self.f@[i])) % G::order() as int,
            ));
        }
        let msm = ct_msm(shuffled, neg_f.as_slice());
        msm.add_ct(identity_encryption)
    }

    /// Check that the shuffled re-encryption agrees with the proof:
    /// `e_d - sum_i [t_i] originals[i] + sum_i [f_i] shuffled[i] == Enc(0; z)`.
    pub fn check_re_encryption(
        &self,
        pk: &PublicKey<G>,
        params: &ElGamalParams<G>,
        e_d: &Ciphertext<G>,
        z: &G::Scalar,
        t: &[G::Scalar],
        originals: &[Ciphertext<G>],
        shuffled: &[Ciphertext<G>],
    ) -> (r: Result<(), Error>)
        requires
            t@.len() >= originals@.len(),
            shuffled@.len() >= originals@.len(),
            self.f@.len() >= originals@.len(),
        ensures
            r is Ok <==> reenc_acc::<G>(
                e_d@,
                scalars_val::<G>(t@),
                scalars_val::<G>(self.f@),
                originals@,
                shuffled@,
                originals@.len() as int,
            ) == enc_val::<G>(params@, pk@, 0, G::scalar_val(*z)),
            r matches Err(e) ==> e == Error::CommitmentMismatch,
    {
        let mut lhs = *e_d;
        let mut i: usize = 0;
        while i < originals.len()
            invariant
                i <= originals@.len(),
                t@.len() >= originals@.len(),
                shuffled@.len() >= originals@.len(),
                self.f@.len() >= originals@.len(),
                lhs@ == reenc_acc::<G>(
                    e_d@,
                    scalars_val::<G>(t@),
                    scalars_val::<G>(self.f@),
                    originals@,
                    shuffled@,
                    i as int,
                ),
            decreases originals@.len() - i,
        {
            lhs = lhs.sub_ct(originals[i].mul_scalar(&t[i]));
            lhs = lhs.add_ct(shuffled[i].mul_scalar(&self.f[i]));
            i = i + 1;
        }
        let rhs = pk.encrypt_id(params, z).inner;
        if !lhs.ct_eq(&rhs) {
            return Err(Error::CommitmentMismatch);
        }
        Ok(())
    }

    /// The part of verification after `t` is drawn: absorb `f`, derive
    /// `lambda`, check `C'`, absorb it and verify the inner argument on
    /// `m'_i = i lambda + t_i`.
    pub fn verify_with_t(&self, params: &Parameters<G>, t_list: &[G::Scalar], transcript: &mut Transcript) -> (r: Result<(), Error>)
        requires
            params.list_len <= params.generators@.len(),
        ensures
            self.verified_with(
                params.h_val(),
                params.gens_val(),
                params.list_len as nat,
                transcript_entries(*old(transcript)),
                scalars_val::<G>(t_list@),
                r,
                transcript_entries(*final(transcript)),
            ),
    {
        let ghost prefix = transcript_entries(*transcript);
        proof {
            G::lemma_order();
        }
        let ghost q = G::order() as int;
        let mut i: usize = 0;
        while i < self.f.len()
            invariant
                i <= self.f@.len(),
                transcript_entries(*transcript) == prefix + f_ops::<G>(self.f@).subrange(0, i as int),
            decreases self.f@.len() - i,
        {
            transcript.append_scalar::<G>(&LABEL_F, &self.f[i]);
            i = i + 1;
            assert(f_ops::<G>(self.f@).subrange(0, i as int) =~= f_ops::<G>(self.f@).subrange(0, i - 1).push(
                f_ops::<G>(self.f@)[i - 1],
            ));
        }
        assert(f_ops::<G>(self.f@).subrange(0, self.f@.len() as int) =~= f_ops::<G>(self.f@));
        let lambda = transcript.challenge_scalar::<G>(&LABEL_LAMBDA);
        let ghost lv = G::scalar_val(lambda);
        if self.f.len() > params.list_len {
            return Err(Error::LengthMismatch);
        }
        let zero = G::scalar_from_u64(0);
        proof {
            lemma_mod_small(0, q);
        }
        let kcs_c = self.c.mul(&lambda).add(self.c_d).add(
            Pedersen::var_commit_with_randomness(params, self.f.as_slice(), &zero),
        );
        if !G::point_eq(&self.kcs.commitment.commitment, &kcs_c.commitment) {
            return Err(Error::CommitmentMismatch);
        }
        proof {
            G::lemma_point_facts(kcs_c.commitment);
        }
        let cp_bytes = kcs_c.to_bytes();
        transcript.append_bytes(&LABEL_C_PRIME, cp_bytes.as_slice());
        let mut messages: Vec<G::Scalar> = Vec::new();
        let mut j: usize = 0;
        while j < t_list.len()
            invariant
                j <= t_list@.len(),
                lv == G::scalar_val(lambda),
                q == G::order() as int,
                messages@.len() == j,
                forall|k: int|
                    0 <= k < j ==> #[trigger] G::scalar_val(messages@[k]) == shuffle_messages(
                        scalars_val::<G>(t_list@),
                        lv,
                        q,
                    )[k],
            decreases t_list@.len() - j,
        {
            let w = G::scalar_from_u64(j as u64);
            messages.push(G::scalar_add(&G::scalar_mul(&w, &lambda), &t_list[j]));
            j = j + 1;
        }
        proof {
            assert(scalars_val::<G>(messages@) =~= shuffle_messages(scalars_val::<G>(t_list@), lv, q));
        }
        self.kcs.verify(params, messages.as_slice(), transcript)
    }

    /// Verify the proof; on success, return the `t` drawn from the
    /// transcript, for the re-encryption check.
    pub fn verify(&self, params: &Parameters<G>, transcript: &mut Transcript) -> (r: Result<Vec<G::Scalar>, Error>)
        requires
            params.list_len <= params.generators@.len(),
        ensures
            self.verified_with(
                params.h_val(),
                params.gens_val(),
                params.list_len as nat,
                transcript_entries(*old(transcript)) + self.opening_ops(),
                self.drawn_t(transcript_entries(*old(transcript)), params.list_len as nat),
                unit_result(r),
                transcript_entries(*final(transcript)),
            ),
            r matches Ok(v) ==> scalars_val::<G>(v@) == self.drawn_t(
                transcript_entries(*old(transcript)),
                params.list_len as nat,
            ),
    {
        let ghost prefix = transcript_entries(*transcript);
        proof {
            G::lemma_point_facts(self.c.commitment);
            G::lemma_point_facts(self.c_d.commitment);
        }
        let b1 = self.c.to_bytes();
        transcript.append_bytes(&LABEL_COMMIT, b1.as_slice());
        let b2 = self.c_d.to_bytes();
        transcript.append_bytes(&LABEL_COMMIT_D, b2.as_slice());
        let ghost absorbed = transcript_entries(*transcript);
        let seed = transcript.challenge_seed(&LABEL_CHALLENGE);
        let t_list = draw_seeded::<G>(&seed, params.list_len);
        proof {
            assert(absorbed == prefix.push(msg_op(LABEL_COMMIT@, G::point_bytes(self.c.commitment))).push(
                msg_op(LABEL_COMMIT_D@, G::point_bytes(self.c_d.commitment)),
            ));
            assert(transcript_entries(*transcript) =~= prefix + self.opening_ops());
        }
        match self.verify_with_t(params, t_list.as_slice(), transcript) {
            Ok(()) => Ok(t_list),
            Err(e) => Err(e),
        }
    }
}

} // verus!
