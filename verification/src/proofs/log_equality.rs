//! Logarithm-equality proof between two ElGamal ciphertexts.
//!
//! For `C1 = Enc([m]G3; s1)` and `C2 = Enc([m]O; s2)` the prover shows that
//! both plaintexts have the same discrete logarithm `m` over `G3` and `O`.
//! It commits to `I = [t](G1, G2, H + (G3 - O))`, derives the challenge `c`
//! and answers `z1 = c (s1 - s2) + t`, `z2 = c m + t`; the verifier checks
//! `[z1](G1, G2, H) + (0, 0, [z2](G3 - O)) == I + [c](C1 - C2)`.
use vstd::prelude::*;
use core::marker::PhantomData;
use merlin::Transcript;
use rand_chacha::ChaCha20Rng;
use crate::error::Error;
use crate::group::Group;
use crate::zq::{
    scale3, add3, sub3, shift3, lemma_add_mod_both, lemma_sub_mod_both, lemma_mul_mod_both, lemma_response,
    lemma_response_pair, lemma_sub_scaled,
};
use crate::elgamal::ciphertext::{Ciphertext, enc_val};
use crate::elgamal::keys::{ElGamalParams, PublicKey, SecretScalar};
use crate::transcript::{TranscriptOp, transcript_entries, transcript_new};
use crate::proofs::{SigmaProtocol, TranscriptForGroup, point_op, ct_op, challenge_op, start_op, fresh_ops};
use crate::proofs::labels::{
    LOGEQ_DOMAIN, LABEL_H, LABEL_G1, LABEL_G2, LABEL_C1, LABEL_C2, LABEL_G3, LABEL_O, LABEL_I, LABEL_CHALLENGE,
    LABEL_EMPTY,
};

verus! {

/// Borrowed public inputs of the protocol.
#[derive(Debug, Clone, Copy)]
pub struct LogEqPublicBorrowed<'a, G: Group> {
    pub pk: &'a PublicKey<G>,
    pub params: &'a ElGamalParams<G>,
    pub c1: &'a Ciphertext<G>,
    pub c2: &'a Ciphertext<G>,
    pub g3: &'a G::Point,
    pub o: &'a G::Point,
}

impl<'a, G: Group> LogEqPublicBorrowed<'a, G> {
    pub fn new(
        pk: &'a PublicKey<G>,
        params: &'a ElGamalParams<G>,
        c1: &'a Ciphertext<G>,
        c2: &'a Ciphertext<G>,
        g3: &'a G::Point,
        o: &'a G::Point,
    ) -> (r: Self)
        ensures
            r.pk == pk,
            r.params == params,
            r.c1 == c1,
            r.c2 == c2,
            r.g3 == g3,
            r.o == o,
    {
        LogEqPublicBorrowed { pk, params, c1, c2, g3, o }
    }

    /// The basis `(G1, G2, H)` over discrete logarithms.
    pub open spec fn basis(self) -> (int, int, int) {
        (self.params@.0, self.params@.1, self.pk@)
    }

    /// The discrete logarithm of `G3 - O`.
    pub open spec fn shift_val(self) -> int {
        (G::point_val(*self.g3) - G::point_val(*self.o)) % G::order() as int
    }

    /// The transcript entries of the public statement, in order.
    pub open spec fn public_ops(self) -> Seq<TranscriptOp> {
        seq![
            point_op::<G>(LABEL_H@, self.pk.h),
            point_op::<G>(LABEL_G1@, self.params.g1),
            point_op::<G>(LABEL_G2@, self.params.g2),
            ct_op::<G>(LABEL_C1@, *self.c1),
            ct_op::<G>(LABEL_C2@, *self.c2),
            point_op::<G>(LABEL_G3@, *self.g3),
            point_op::<G>(LABEL_O@, *self.o),
        ]
    }
}

/// The witness: the exponent `m` and the randomness difference `s1 - s2`.
#[derive(Debug)]
pub struct LogEqWitness<G: Group> {
    pub m: G::Scalar,
    pub delta_r: SecretScalar<G>,
}

impl<G: Group> LogEqWitness<G> {
    pub fn new(m: G::Scalar, delta_r: SecretScalar<G>) -> (r: Self)
        ensures
            r.m == m,
            r.delta_r@ == delta_r@,
    {
        LogEqWitness { m, delta_r }
    }

    /// The witness from both encryption randomnesses: `delta = r1 - r2`.
    pub fn from_r1_r2(m: G::Scalar, r1: SecretScalar<G>, r2: SecretScalar<G>) -> (r: Self)
        ensures
            r.m == m,
            r.delta_r@ == (r1@ - r2@) % G::order() as int,
    {
        let d = r1.sub(r2);
        LogEqWitness { m, delta_r: d }
    }
}

/// Log-equality proof.
#[derive(Debug, Clone, PartialEq)]
pub struct LogEq<G: Group> {
    /// `I = [t](G1, G2, H + (G3 - O))`.
    pub commitment: Ciphertext<G>,
    /// `z1 = c (s1 - s2) + t`.
    pub response_delta: G::Scalar,
    /// `z2 = c m + t`.
    pub response_m: G::Scalar,
}

impl<G: Group> LogEq<G> {
    /// The transcript entries of the proof's commitment.
    pub open spec fn proof_ops(self) -> Seq<TranscriptOp> {
        seq![ct_op::<G>(LABEL_I@, self.commitment)]
    }

    /// Prove with a fresh transcript.
    pub fn prove(public: LogEqPublicBorrowed<'_, G>, witness: &LogEqWitness<G>, rng: &mut ChaCha20Rng) -> (r: Self)
        ensures
            LogEqProtocol::<G>::produced(
                public,
                witness.delta_r@,
                G::scalar_val(witness.m),
                r,
                LogEqProtocol::<G>::challenge(fresh_ops(), public, r),
            ),
    {
        let mut tr = transcript_new(&LABEL_EMPTY);
        assert(LABEL_EMPTY@ == Seq::<u8>::empty());
        LogEqProtocol::<G>::prove(public, witness, &mut tr, rng)
    }

    /// Verify with a fresh transcript.
    pub fn verify(&self, public: LogEqPublicBorrowed<'_, G>) -> (r: Result<(), Error>)
        ensures
            r == LogEqProtocol::<G>::verify_result(public, *self, LogEqProtocol::<G>::challenge(fresh_ops(), public, *self)),
    {
        let mut tr = transcript_new(&LABEL_EMPTY);
        assert(LABEL_EMPTY@ == Seq::<u8>::empty());
        LogEqProtocol::<G>::verify(public, self, &mut tr)
    }
}

/// Prover ephemeral state.
#[derive(Debug)]
pub struct LogEqState<G: Group> {
    t: SecretScalar<G>,
    commitment: Option<Ciphertext<G>>,
}

impl<G: Group> LogEqState<G> {
    pub closed spec fn nonce(self) -> int {
        self.t@
    }

    pub closed spec fn committed(self) -> Option<Ciphertext<G>> {
        self.commitment
    }
}

/// The log-equality protocol.
pub struct LogEqProtocol<G: Group>(PhantomData<G>);

/// The verifier's relation
/// `[z1](G1, G2, H) + (0, 0, [z2](G3 - O)) == I + [c](C1 - C2)`, where `d` is
/// the discrete logarithm of `G3 - O`.
pub open spec fn logeq_holds<G: Group>(
    basis: (int, int, int),
    d: int,
    c1: (int, int, int),
    c2: (int, int, int),
    commitment: (int, int, int),
    z1: int,
    z2: int,
    c: int,
) -> bool {
    let q = G::order() as int;
    shift3(scale3(basis, z1, q), (d * z2) % q, q) == add3(commitment, scale3(sub3(c1, c2, q), c, q), q)
}

impl<G: Group> LogEqProtocol<G> {
    pub open spec fn transcript_ops(prefix: Seq<TranscriptOp>, public: LogEqPublicBorrowed<G>, proof: LogEq<G>) -> Seq<TranscriptOp> {
        prefix.push(start_op(LOGEQ_DOMAIN@)) + public.public_ops() + proof.proof_ops()
    }

    pub open spec fn challenge(prefix: Seq<TranscriptOp>, public: LogEqPublicBorrowed<G>, proof: LogEq<G>) -> int {
        G::spec_challenge(Self::transcript_ops(prefix, public, proof), LABEL_CHALLENGE@)
    }

    /// What the verifier answers under challenge `c`.
    pub open spec fn verify_result(public: LogEqPublicBorrowed<G>, proof: LogEq<G>, c: int) -> Result<(), Error> {
        if logeq_holds::<G>(
            public.basis(),
            public.shift_val(),
            public.c1@,
            public.c2@,
            proof.commitment@,
            G::scalar_val(proof.response_delta),
            G::scalar_val(proof.response_m),
            c,
        ) {
            Ok(())
        } else {
            Err(Error::CommitmentMismatch)
        }
    }

    /// Whether `proof` is what the prover answers with witness
    /// `(delta, m)` under challenge `c`, for some nonce.
    pub open spec fn produced(public: LogEqPublicBorrowed<G>, delta: int, m: int, proof: LogEq<G>, c: int) -> bool {
        let q = G::order() as int;
        exists|t: int|
            0 <= t < q && proof.commitment@ == #[trigger] scale3(shift3(public.basis(), public.shift_val(), q), t, q)
                && G::scalar_val(proof.response_delta) == (c * delta + t) % q && G::scalar_val(proof.response_m) == (c
                * m + t) % q
    }
}

impl<'a, G: Group> SigmaProtocol<'a> for LogEqProtocol<G> {
    type Public = LogEqPublicBorrowed<'a, G>;

    type Witness = LogEqWitness<G>;

    type Proof = LogEq<G>;

    type State = LogEqState<G>;

    open spec fn domain() -> Seq<u8> {
        LOGEQ_DOMAIN@
    }

    fn domain_label() -> (r: &'static [u8]) {
        &LOGEQ_DOMAIN
    }

    open spec fn public_entries(public: LogEqPublicBorrowed<'a, G>) -> Seq<TranscriptOp> {
        public.public_ops()
    }

    open spec fn proof_shaped(proof: LogEq<G>) -> bool {
        true
    }

    open spec fn proof_entries(proof: LogEq<G>) -> Seq<TranscriptOp> {
        proof.proof_ops()
    }

    open spec fn relation(public: LogEqPublicBorrowed<'a, G>, proof: LogEq<G>, entries: Seq<TranscriptOp>) -> Result<(), Error> {
        Self::verify_result(public, proof, G::spec_challenge(entries, LABEL_CHALLENGE@))
    }

    open spec fn relation_entries(proof: LogEq<G>, entries: Seq<TranscriptOp>) -> Seq<TranscriptOp> {
        entries.push(challenge_op::<G>(LABEL_CHALLENGE@))
    }

    open spec fn prove_pre(public: LogEqPublicBorrowed<'a, G>, witness: LogEqWitness<G>) -> bool {
        true
    }

    open spec fn fresh(public: LogEqPublicBorrowed<'a, G>, state: LogEqState<G>) -> bool {
        &&& state.committed() is None
        &&& 0 <= state.nonce() < G::order()
    }

    open spec fn commit_pre(public: LogEqPublicBorrowed<'a, G>, state: LogEqState<G>, witness: LogEqWitness<G>) -> bool {
        true
    }

    open spec fn commit_step(
        public: LogEqPublicBorrowed<'a, G>,
        before: LogEqState<G>,
        after: LogEqState<G>,
        witness: LogEqWitness<G>,
        entries_before: Seq<TranscriptOp>,
        entries_after: Seq<TranscriptOp>,
    ) -> bool {
        &&& after.nonce() == before.nonce()
        &&& after.committed() matches Some(i) && i@ == scale3(
            shift3(public.basis(), public.shift_val(), G::order() as int),
            before.nonce(),
            G::order() as int,
        ) && entries_after == entries_before.push(ct_op::<G>(LABEL_I@, i))
    }

    open spec fn complete_pre(state: LogEqState<G>, witness: LogEqWitness<G>) -> bool {
        state.committed() is Some
    }

    open spec fn complete_step(
        state: LogEqState<G>,
        witness: LogEqWitness<G>,
        entries_before: Seq<TranscriptOp>,
        proof: LogEq<G>,
        entries_after: Seq<TranscriptOp>,
    ) -> bool {
        &&& Some(proof.commitment) == state.committed()
        &&& ({
            let c = G::spec_challenge(entries_before, LABEL_CHALLENGE@);
            let q = G::order() as int;
            &&& G::scalar_val(proof.response_delta) == (c * witness.delta_r@ + state.nonce()) % q
            &&& G::scalar_val(proof.response_m) == (c * G::scalar_val(witness.m) + state.nonce()) % q
        })
        &&& entries_after == entries_before.push(challenge_op::<G>(LABEL_CHALLENGE@))
    }

    open spec fn produced_on(public: LogEqPublicBorrowed<'a, G>, witness: LogEqWitness<G>, proof: LogEq<G>, prefix: Seq<TranscriptOp>) -> bool {
        Self::produced(
            public,
            witness.delta_r@,
            G::scalar_val(witness.m),
            proof,
            Self::challenge(prefix, public, proof),
        )
    }

    proof fn lemma_prover_flow(
        public: LogEqPublicBorrowed<'a, G>,
        witness: LogEqWitness<G>,
        s0: LogEqState<G>,
        s1: LogEqState<G>,
        prefix: Seq<TranscriptOp>,
        e2: Seq<TranscriptOp>,
        proof: LogEq<G>,
        e3: Seq<TranscriptOp>,
    ) {
        let e1 = prefix.push(start_op(Self::domain())) + Self::public_entries(public);
        assert(Self::prove_pre(public, witness));
        assert(Self::fresh(public, s0));
        assert(Self::commit_pre(public, s0, witness));
        if Self::commit_step(public, s0, s1, witness, e1, e2) {
            assert(Self::complete_pre(s1, witness));
            if Self::complete_step(s1, witness, e2, proof, e3) {
                assert(e2 == Self::transcript_ops(prefix, public, proof));
                assert(Self::produced_on(public, witness, proof, prefix));
                assert(Self::proof_shaped(proof));
                assert(e3 == Self::relation_entries(proof, e1 + Self::proof_entries(proof)));
            }
        }
    }

    /// Absorb the public statement.
    fn absorb_public(p: LogEqPublicBorrowed<'a, G>, tr: &mut Transcript)
        ensures
            transcript_entries(*final(tr)) == transcript_entries(*old(tr)) + Self::public_entries(p),
            transcript_entries(*final(tr)) == transcript_entries(*old(tr)) + p.public_ops(),
    {
        tr.append_point::<G>(&LABEL_H, &p.pk.h);
        tr.append_point::<G>(&LABEL_G1, &p.params.g1);
        tr.append_point::<G>(&LABEL_G2, &p.params.g2);
        tr.append_ciphertext::<G>(&LABEL_C1, p.c1);
        tr.append_ciphertext::<G>(&LABEL_C2, p.c2);
        tr.append_point::<G>(&LABEL_G3, p.g3);
        tr.append_point::<G>(&LABEL_O, p.o);
    }

    /// Draw the nonce.
    fn init(public: LogEqPublicBorrowed<'a, G>, rng: &mut ChaCha20Rng) -> (r: LogEqState<G>)
        ensures
            Self::fresh(public, r),
            r.committed() is None,
            0 <= r.nonce() < G::order(),
    {
        LogEqState { t: SecretScalar::new(rng), commitment: None }
    }

    /// Commit to `I = [t](G1, G2, H + (G3 - O))` and absorb it.
    fn commit(public: LogEqPublicBorrowed<'a, G>, st: &mut LogEqState<G>, witness: &LogEqWitness<G>, tr: &mut Transcript)
        ensures
            Self::commit_step(public, *old(st), *final(st), *witness, transcript_entries(*old(tr)), transcript_entries(*final(tr))),
            final(st).nonce() == old(st).nonce(),
            final(st).committed() matches Some(i) && i@ == scale3(
                shift3(public.basis(), public.shift_val(), G::order() as int),
                old(st).nonce(),
                G::order() as int,
            ) && transcript_entries(*final(tr)) == transcript_entries(*old(tr)).push(ct_op::<G>(LABEL_I@, i)),
    {
        proof {
            assert(Self::commit_pre(public, *st, *witness));
        }
        let mut base = public.pk.to_ciphertext(public.params);
        let shift = G::point_sub(public.g3, public.o);
        base.blinded_point = G::point_add(&base.blinded_point, &shift);
        proof {
            G::lemma_order();
            lemma_add_mod_both(public.pk@, G::point_val(*public.g3) - G::point_val(*public.o), G::order() as int);
            lemma_add_mod_both(public.pk@, public.shift_val(), G::order() as int);
        }
        let i = base.mul_scalar(st.t.expose());
        tr.append_ciphertext::<G>(&LABEL_I, &i);
        st.commitment = Some(i);
    }

    /// Derive the challenge and answer `z1 = c delta + t`, `z2 = c m + t`.
    fn complete(st: LogEqState<G>, w: &LogEqWitness<G>, tr: &mut Transcript) -> (r: LogEq<G>)
        ensures
            Self::complete_step(st, *w, transcript_entries(*old(tr)), r, transcript_entries(*final(tr))),
            Some(r.commitment) == st.committed(),
            ({
                let c = G::spec_challenge(transcript_entries(*old(tr)), LABEL_CHALLENGE@);
                let q = G::order() as int;
                &&& G::scalar_val(r.response_delta) == (c * w.delta_r@ + st.nonce()) % q
                &&& G::scalar_val(r.response_m) == (c * G::scalar_val(w.m) + st.nonce()) % q
            }),
            transcript_entries(*final(tr)) == transcript_entries(*old(tr)).push(challenge_op::<G>(LABEL_CHALLENGE@)),
    {
        proof {
            assert(Self::complete_pre(st, *w));
        }
        let c = tr.challenge_scalar::<G>(&LABEL_CHALLENGE);
        let z1 = G::scalar_add(&G::scalar_mul(&c, w.delta_r.expose()), st.t.expose());
        let z2 = G::scalar_add(&G::scalar_mul(&c, &w.m), st.t.expose());
        proof {
            G::lemma_order();
            lemma_add_mod_both(G::scalar_val(c) * w.delta_r@, st.nonce(), G::order() as int);
            lemma_add_mod_both(G::scalar_val(c) * G::scalar_val(w.m), st.nonce(), G::order() as int);
        }
        let commitment = match st.commitment {
            Some(i) => i,
            None => Ciphertext::zero(),
        };
        LogEq { commitment, response_delta: z1, response_m: z2 }
    }

    /// Absorb the proof's commitment.
    fn update_transcript(proof: &LogEq<G>, tr: &mut Transcript) -> (r: Result<(), Error>)
        ensures
            transcript_entries(*final(tr)) == transcript_entries(*old(tr)) + Self::proof_entries(*proof),
            r is Ok,
            transcript_entries(*final(tr)) == transcript_entries(*old(tr)) + proof.proof_ops(),
    {
        proof {
            assert(Self::proof_shaped(*proof));
        }
        tr.append_ciphertext::<G>(&LABEL_I, &proof.commitment);
        Ok(())
    }

    /// Derive the challenge and check the relation.
    fn verify_relation(public: LogEqPublicBorrowed<'a, G>, proof: &LogEq<G>, tr: &mut Transcript) -> (r: Result<(), Error>)
        ensures
            r == Self::relation(public, *proof, transcript_entries(*old(tr))) && transcript_entries(*final(tr)) == Self::relation_entries(*proof, transcript_entries(*old(tr))),
            r == Self::verify_result(public, *proof, G::spec_challenge(transcript_entries(*old(tr)), LABEL_CHALLENGE@)),
            transcript_entries(*final(tr)) == transcript_entries(*old(tr)).push(challenge_op::<G>(LABEL_CHALLENGE@)),
    {
        proof {
            assert(Self::proof_shaped(*proof));
        }
        let c = tr.challenge_scalar::<G>(&LABEL_CHALLENGE);
        let mut lhs = public.pk.to_ciphertext(public.params).mul_scalar(&proof.response_delta);
        let shift = G::point_mul(&G::point_sub(public.g3, public.o), &proof.response_m);
        lhs.blinded_point = G::point_add(&lhs.blinded_point, &shift);
        let rhs = proof.commitment.add_ct(public.c1.sub_ct(*public.c2).mul_scalar(&c));
        if lhs.ct_eq(&rhs) {
            Ok(())
        } else {
            Err(Error::CommitmentMismatch)
        }
    }
}

/// Completeness: for `C1 = Enc([m]G3; s1)` and `C2 = Enc([m]O; s2)`, a proof
/// that the prover makes with witness `(s1 - s2, m)` is accepted under the
/// same challenge.
pub proof fn lemma_logeq_complete<G: Group>(public: LogEqPublicBorrowed<G>, s1: int, s2: int, m: int, proof: LogEq<G>, c: int)
    requires
        LogEqProtocol::<G>::produced(public, (s1 - s2) % G::order() as int, m, proof, c),
        public.c1@ == enc_val::<G>(public.params@, public.pk@, G::point_val(*public.g3) * m, s1),
        public.c2@ == enc_val::<G>(public.params@, public.pk@, G::point_val(*public.o) * m, s2),
    ensures
        LogEqProtocol::<G>::verify_result(public, proof, c) == Ok::<(), Error>(()),
{
    G::lemma_order();
    let q = G::order() as int;
    let b = public.basis();
    let d = public.shift_val();
    let w = (s1 - s2) % q;
    let g3 = G::point_val(*public.g3);
    let o = G::point_val(*public.o);
    let t = choose|t: int|
        0 <= t < q && proof.commitment@ == #[trigger] scale3(shift3(public.basis(), public.shift_val(), q), t, q)
            && G::scalar_val(proof.response_delta) == (c * w + t) % q && G::scalar_val(proof.response_m) == (c * m + t)
            % q;
    // the first two components are Schnorr checks over G1 and G2 with witness w
    lemma_sub_scaled(b.0, s1, s2, q);
    lemma_sub_scaled(b.1, s1, s2, q);
    lemma_response(b.0, w, t, c, q);
    lemma_response(b.1, w, t, c, q);
    // the third: C1 - C2 carries [w]H + [m](G3 - O)
    let x = b.2 * s1 + g3 * m;
    let y = b.2 * s2 + o * m;
    lemma_sub_mod_both(x, y, q);
    lemma_mul_mod_both(b.2, s1 - s2, q);
    lemma_mul_mod_both(g3 - o, m, q);
    lemma_add_mod_both(b.2 * (s1 - s2), (g3 - o) * m, q);
    lemma_add_mod_both(b.2 * w, d * m, q);
    assert(x - y == b.2 * (s1 - s2) + (g3 - o) * m) by (nonlinear_arith)
        requires
            x == b.2 * s1 + g3 * m,
            y == b.2 * s2 + o * m,
    ;
    assert(((x % q) - (y % q)) % q == (b.2 * w + d * m) % q);
    // and the commitment's third component is [t](H + (G3 - O))
    lemma_mul_mod_both(b.2 + d, t, q);
    lemma_add_mod_both(b.2 * t, d * t, q);
    assert((b.2 + d) * t == b.2 * t + d * t) by (nonlinear_arith);
    lemma_response_pair(b.2, d, w, m, t, t, c, q);
}

/// A proof made by `LogEq::prove` for ciphertexts of `[m]G3` and `[m]O`
/// made with randomness `s1` and `s2`, with `delta_r = s1 - s2`, is accepted
/// by `LogEq::verify`.
pub proof fn lemma_logeq_prove_verify<G: Group>(
    public: LogEqPublicBorrowed<G>,
    witness: LogEqWitness<G>,
    s1: int,
    s2: int,
    rng: &mut ChaCha20Rng,
    proof: LogEq<G>,
    res: Result<(), Error>,
)
    requires
        witness.delta_r@ == (s1 - s2) % G::order() as int,
        public.c1@ == enc_val::<G>(public.params@, public.pk@, G::point_val(*public.g3) * G::scalar_val(witness.m), s1),
        public.c2@ == enc_val::<G>(public.params@, public.pk@, G::point_val(*public.o) * G::scalar_val(witness.m), s2),
        call_ensures(LogEq::<G>::prove, (public, &witness, rng), proof),
        call_ensures(LogEq::<G>::verify, (&proof, public), res),
    ensures
        res == Ok::<(), Error>(()),
{
    lemma_logeq_complete(
        public,
        s1,
        s2,
        G::scalar_val(witness.m),
        proof,
        LogEqProtocol::<G>::challenge(fresh_ops(), public, proof),
    );
}

} // verus!
