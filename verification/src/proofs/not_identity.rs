//! Proof that an ElGamal ciphertext does not encrypt the identity.
//!
//! For `C = Enc(M; r)` the prover draws nonces `t, t1, t2` and commits to
//! `I1 = [t1]PK`, `I2 = [t r]PK`, `I3 = [t2]C` and `I4 = [t](-C)` over the
//! basis `PK = (G1, G2, H)`. It derives two challenges `c1, c2` and answers
//! `z1 = c1 t r + t1`, `z2 = t2 - c2 t`. The verifier checks
//! `[z1]PK == I1 + [c1]I2`, `[z2]C == I3 + [c2]I4`, and that `I2 + I4`,
//! which is `(0, 0, [-t]M)` for an honest prover, has identity first
//! components and a non-identity last one.
use vstd::prelude::*;
use core::marker::PhantomData;
use merlin::Transcript;
use rand_chacha::ChaCha20Rng;
use crate::error::Error;
use crate::group::Group;
use crate::zq::{
    scale3, add3, neg3, lemma_add_mod_both, lemma_sub_mod_both, lemma_mul_mod_both, lemma_mod_small, lemma_response,
    lemma_neg_scaled, lemma_cancel,
};
use crate::elgamal::ciphertext::{Ciphertext, enc_val};
use crate::elgamal::keys::{ElGamalParams, PublicKey, SecretScalar};
use crate::transcript::{TranscriptOp, transcript_entries, transcript_new};
use crate::proofs::{SigmaProtocol, TranscriptForGroup, point_op, ct_op, challenge_op, start_op, fresh_ops};
use crate::proofs::labels::{
    NOTID_DOMAIN, LABEL_H, LABEL_G1, LABEL_G2, LABEL_C, LABEL_T1_PK, LABEL_TR_PK, LABEL_T2_C, LABEL_NEG_T_C,
    LABEL_CHALLENGE1, LABEL_CHALLENGE2, LABEL_EMPTY,
};

verus! {

/// Borrowed public inputs of the protocol.
#[derive(Debug, Copy, Clone)]
pub struct NotIdPublicBorrowed<'a, G: Group> {
    pub pk: &'a PublicKey<G>,
    pub params: &'a ElGamalParams<G>,
    pub ct: &'a Ciphertext<G>,
}

impl<'a, G: Group> NotIdPublicBorrowed<'a, G> {
    pub fn new(pk: &'a PublicKey<G>, params: &'a ElGamalParams<G>, ct: &'a Ciphertext<G>) -> (r: Self)
        ensures
            r.pk == pk,
            r.params == params,
            r.ct == ct,
    {
        NotIdPublicBorrowed { pk, params, ct }
    }

    /// The basis `(G1, G2, H)` over discrete logarithms.
    pub open spec fn basis(self) -> (int, int, int) {
        (self.params@.0, self.params@.1, self.pk@)
    }

    /// The transcript entries of the public statement, in order.
    pub open spec fn public_ops(self) -> Seq<TranscriptOp> {
        seq![
            point_op::<G>(LABEL_H@, self.pk.h),
            point_op::<G>(LABEL_G1@, self.params.g1),
            point_op::<G>(LABEL_G2@, self.params.g2),
            ct_op::<G>(LABEL_C@, *self.ct),
        ]
    }
}

/// Non-identity proof.
#[derive(Debug, Clone, PartialEq)]
pub struct NotId<G: Group> {
    /// Commitments over the basis: `[I1, I2]`.
    pub commitments_pk: Vec<Ciphertext<G>>,
    /// Commitments over the ciphertext: `[I3, I4]`.
    pub commitments_ct: Vec<Ciphertext<G>>,
    /// Responses `[z1, z2]`.
    pub responses: Vec<G::Scalar>,
}

impl<G: Group> NotId<G> {
    /// Whether every list holds the two entries that verification reads.
    pub open spec fn well_shaped(self) -> bool {
        &&& self.commitments_pk@.len() >= 2
        &&& self.commitments_ct@.len() >= 2
        &&& self.responses@.len() >= 2
    }

    /// The transcript entries of the proof's commitments.
    pub open spec fn proof_ops(self) -> Seq<TranscriptOp> {
        seq![
            ct_op::<G>(LABEL_T1_PK@, self.commitments_pk@[0]),
            ct_op::<G>(LABEL_TR_PK@, self.commitments_pk@[1]),
            ct_op::<G>(LABEL_T2_C@, self.commitments_ct@[0]),
            ct_op::<G>(LABEL_NEG_T_C@, self.commitments_ct@[1]),
        ]
    }

    /// Prove with a fresh transcript.
    pub fn prove(public: NotIdPublicBorrowed<'_, G>, witness: &SecretScalar<G>, rng: &mut ChaCha20Rng) -> (r: Self)
        ensures
            r.well_shaped(),
            NotIdProtocol::<G>::produced(
                public,
                witness@,
                r,
                NotIdProtocol::<G>::challenge1(fresh_ops(), public, r),
                NotIdProtocol::<G>::challenge2(fresh_ops(), public, r),
            ),
    {
        let mut tr = transcript_new(&LABEL_EMPTY);
        assert(LABEL_EMPTY@ == Seq::<u8>::empty());
        NotIdProtocol::<G>::prove(public, witness, &mut tr, rng)
    }

    /// Verify with a fresh transcript.
    pub fn verify(&self, public: NotIdPublicBorrowed<'_, G>) -> (r: Result<(), Error>)
        requires
            self.well_shaped(),
        ensures
            r == NotIdProtocol::<G>::verify_result(
                public,
                *self,
                NotIdProtocol::<G>::challenge1(fresh_ops(), public, *self),
                NotIdProtocol::<G>::challenge2(fresh_ops(), public, *self),
            ),
    {
        let mut tr = transcript_new(&LABEL_EMPTY);
        assert(LABEL_EMPTY@ == Seq::<u8>::empty());
        NotIdProtocol::<G>::verify(public, self, &mut tr)
    }
}

/// Prover ephemeral state.
#[derive(Debug)]
pub struct NotIdState<G: Group> {
    t: SecretScalar<G>,
    t1: SecretScalar<G>,
    t2: SecretScalar<G>,
    i1: Option<Ciphertext<G>>,
    i2: Option<Ciphertext<G>>,
    i3: Option<Ciphertext<G>>,
    i4: Option<Ciphertext<G>>,
}

impl<G: Group> NotIdState<G> {
    pub closed spec fn nonces(self) -> (int, int, int) {
        (self.t@, self.t1@, self.t2@)
    }

    /// The four commitments, once `commit` has run.
    pub closed spec fn committed(self) -> Option<(Ciphertext<G>, Ciphertext<G>, Ciphertext<G>, Ciphertext<G>)> {
        match (self.i1, self.i2, self.i3, self.i4) {
            (Some(a), Some(b), Some(c), Some(d)) => Some((a, b, c, d)),
            _ => None,
        }
    }
}

/// The non-identity protocol.
pub struct NotIdProtocol<G: Group>(PhantomData<G>);

impl<G: Group> NotIdProtocol<G> {
    pub open spec fn transcript_ops(prefix: Seq<TranscriptOp>, public: NotIdPublicBorrowed<G>, proof: NotId<G>) -> Seq<TranscriptOp> {
        prefix.push(start_op(NOTID_DOMAIN@)) + public.public_ops() + proof.proof_ops()
    }

    /// The first challenge derived on a transcript that held `prefix`.
    pub open spec fn challenge1(prefix: Seq<TranscriptOp>, public: NotIdPublicBorrowed<G>, proof: NotId<G>) -> int {
        G::spec_challenge(Self::transcript_ops(prefix, public, proof), LABEL_CHALLENGE1@)
    }

    /// The second challenge, derived right after the first.
    pub open spec fn challenge2(prefix: Seq<TranscriptOp>, public: NotIdPublicBorrowed<G>, proof: NotId<G>) -> int {
        G::spec_challenge(
            Self::transcript_ops(prefix, public, proof).push(challenge_op::<G>(LABEL_CHALLENGE1@)),
            LABEL_CHALLENGE2@,
        )
    }

    /// What the verifier answers under challenges `c1` and `c2`.
    pub open spec fn verify_result(public: NotIdPublicBorrowed<G>, proof: NotId<G>, c1: int, c2: int) -> Result<(), Error> {
        let q = G::order() as int;
        let i1 = proof.commitments_pk@[0]@;
        let i2 = proof.commitments_pk@[1]@;
        let i3 = proof.commitments_ct@[0]@;
        let i4 = proof.commitments_ct@[1]@;
        let z1 = G::scalar_val(proof.responses@[0]);
        let z2 = G::scalar_val(proof.responses@[1]);
        let s = add3(i2, i4, q);
        if scale3(public.basis(), z1, q) == add3(i1, scale3(i2, c1, q), q) && scale3(public.ct@, z2, q) == add3(
            i3,
            scale3(i4, c2, q),
            q,
        ) && s.0 == 0 && s.1 == 0 && s.2 != 0 {
            Ok(())
        } else {
            Err(Error::CommitmentMismatch)
        }
    }

    /// Whether `proof` is what the prover answers with witness `r` under
    /// challenges `c1, c2` with nonces `(t, t1, t2)`.
    pub open spec fn produced_with(
        public: NotIdPublicBorrowed<G>,
        r: int,
        proof: NotId<G>,
        c1: int,
        c2: int,
        t: int,
        t1: int,
        t2: int,
    ) -> bool {
        let q = G::order() as int;
        &&& proof.well_shaped()
        &&& proof.commitments_pk@[0]@ == scale3(public.basis(), t1, q)
        &&& proof.commitments_pk@[1]@ == scale3(public.basis(), (r * t) % q, q)
        &&& proof.commitments_ct@[0]@ == scale3(public.ct@, t2, q)
        &&& proof.commitments_ct@[1]@ == scale3(neg3(public.ct@, q), t, q)
        &&& G::scalar_val(proof.responses@[0]) == (c1 * (r * t) + t1) % q
        &&& G::scalar_val(proof.responses@[1]) == (t2 - c2 * t) % q
    }

    /// Whether `proof` is what the prover answers with witness `r` under
    /// challenges `c1, c2`, for some nonces.
    pub open spec fn produced(public: NotIdPublicBorrowed<G>, r: int, proof: NotId<G>, c1: int, c2: int) -> bool {
        let q = G::order() as int;
        exists|t: int, t1: int, t2: int|
            0 <= t < q && 0 <= t1 < q && 0 <= t2 < q && #[trigger] Self::produced_with(public, r, proof, c1, c2, t, t1, t2)
    }
}

impl<'a, G: Group> SigmaProtocol<'a> for NotIdProtocol<G> {
    type Public = NotIdPublicBorrowed<'a, G>;

    type Witness = SecretScalar<G>;

    type Proof = NotId<G>;

    type State = NotIdState<G>;

    open spec fn domain() -> Seq<u8> {
        NOTID_DOMAIN@
    }

    fn domain_label() -> (r: &'static [u8]) {
        &NOTID_DOMAIN
    }

    open spec fn public_entries(public: NotIdPublicBorrowed<'a, G>) -> Seq<TranscriptOp> {
        public.public_ops()
    }

    open spec fn proof_shaped(proof: NotId<G>) -> bool {
        proof.well_shaped()
    }

    open spec fn proof_entries(proof: NotId<G>) -> Seq<TranscriptOp> {
        proof.proof_ops()
    }

    open spec fn relation(public: NotIdPublicBorrowed<'a, G>, proof: NotId<G>, entries: Seq<TranscriptOp>) -> Result<(), Error> {
        Self::verify_result(
            public,
            proof,
            G::spec_challenge(entries, LABEL_CHALLENGE1@),
            G::spec_challenge(
                entries.push(challenge_op::<G>(LABEL_CHALLENGE1@)),
                LABEL_CHALLENGE2@,
            ),
        )
    }

    open spec fn relation_entries(proof: NotId<G>, entries: Seq<TranscriptOp>) -> Seq<TranscriptOp> {
        entries.push(
            challenge_op::<G>(LABEL_CHALLENGE1@),
        ).push(challenge_op::<G>(LABEL_CHALLENGE2@))
    }

    open spec fn prove_pre(public: NotIdPublicBorrowed<'a, G>, witness: SecretScalar<G>) -> bool {
        true
    }

    open spec fn fresh(public: NotIdPublicBorrowed<'a, G>, state: NotIdState<G>) -> bool {
        &&& state.committed() is None
        &&& 0 <= state.nonces().0 < G::order()
        &&& 0 <= state.nonces().1 < G::order()
        &&& 0 <= state.nonces().2 < G::order()
    }

    open spec fn commit_pre(public: NotIdPublicBorrowed<'a, G>, state: NotIdState<G>, witness: SecretScalar<G>) -> bool {
        true
    }

    open spec fn commit_step(
        public: NotIdPublicBorrowed<'a, G>,
        before: NotIdState<G>,
        after: NotIdState<G>,
        witness: SecretScalar<G>,
        entries_before: Seq<TranscriptOp>,
        entries_after: Seq<TranscriptOp>,
    ) -> bool {
        &&& after.nonces() == before.nonces()
        &&& ({
            let q = G::order() as int;
            let (t, t1, t2) = before.nonces();
            after.committed() matches Some((i1, i2, i3, i4)) && i1@ == scale3(public.basis(), t1, q) && i2@
                == scale3(public.basis(), (witness@ * t) % q, q) && i3@ == scale3(public.ct@, t2, q) && i4@
                == scale3(neg3(public.ct@, q), t, q) && entries_after == entries_before.push(ct_op::<G>(LABEL_T1_PK@, i1)).push(ct_op::<G>(LABEL_TR_PK@, i2)).push(
                ct_op::<G>(LABEL_T2_C@, i3),
            ).push(ct_op::<G>(LABEL_NEG_T_C@, i4))
        })
    }

    open spec fn complete_pre(state: NotIdState<G>, witness: SecretScalar<G>) -> bool {
        state.committed() is Some
    }

    open spec fn complete_step(
        state: NotIdState<G>,
        witness: SecretScalar<G>,
        entries_before: Seq<TranscriptOp>,
        proof: NotId<G>,
        entries_after: Seq<TranscriptOp>,
    ) -> bool {
        &&& proof.well_shaped()
        &&& state.committed() == Some(
            (proof.commitments_pk@[0], proof.commitments_pk@[1], proof.commitments_ct@[0], proof.commitments_ct@[1]),
        )
        &&& ({
            let c1 = G::spec_challenge(entries_before, LABEL_CHALLENGE1@);
            let c2 = G::spec_challenge(
                entries_before.push(challenge_op::<G>(LABEL_CHALLENGE1@)),
                LABEL_CHALLENGE2@,
            );
            let q = G::order() as int;
            let (t, t1, t2) = state.nonces();
            &&& G::scalar_val(proof.responses@[0]) == (c1 * (witness@ * t) + t1) % q
            &&& G::scalar_val(proof.responses@[1]) == (t2 - c2 * t) % q
        })
        &&& entries_after == entries_before.push(
            challenge_op::<G>(LABEL_CHALLENGE1@),
        ).push(challenge_op::<G>(LABEL_CHALLENGE2@))
    }

    open spec fn produced_on(public: NotIdPublicBorrowed<'a, G>, witness: SecretScalar<G>, proof: NotId<G>, prefix: Seq<TranscriptOp>) -> bool {
        &&& proof.well_shaped()
        &&& Self::produced(
            public,
            witness@,
            proof,
            Self::challenge1(prefix, public, proof),
            Self::challenge2(prefix, public, proof),
        )
    }

    proof fn lemma_prover_flow(
        public: NotIdPublicBorrowed<'a, G>,
        witness: SecretScalar<G>,
        s0: NotIdState<G>,
        s1: NotIdState<G>,
        prefix: Seq<TranscriptOp>,
        e2: Seq<TranscriptOp>,
        proof: NotId<G>,
        e3: Seq<TranscriptOp>,
    ) {
        let e1 = prefix.push(start_op(Self::domain())) + Self::public_entries(public);
        assert(Self::prove_pre(public, witness));
        assert(Self::fresh(public, s0));
        assert(Self::commit_pre(public, s0, witness));
        if Self::commit_step(public, s0, s1, witness, e1, e2) {
            assert(Self::complete_pre(s1, witness));
            if Self::complete_step(s1, witness, e2, proof, e3) {
                let (t, t1, t2) = s1.nonces();
                assert(e2 == Self::transcript_ops(prefix, public, proof));
                assert(Self::produced_with(
                    public,
                    witness@,
                    proof,
                    Self::challenge1(prefix, public, proof),
                    Self::challenge2(prefix, public, proof),
                    t,
                    t1,
                    t2,
                ));
                assert(Self::produced_on(public, witness, proof, prefix));
                assert(Self::proof_shaped(proof));
                assert(e3 == Self::relation_entries(proof, e1 + Self::proof_entries(proof)));
            }
        }
    }

    /// Absorb the public statement.
    fn absorb_public(public: NotIdPublicBorrowed<'a, G>, tr: &mut Transcript)
        ensures
            transcript_entries(*final(tr)) == transcript_entries(*old(tr)) + Self::public_entries(public),
            transcript_entries(*final(tr)) == transcript_entries(*old(tr)) + public.public_ops(),
    {
        tr.append_point::<G>(&LABEL_H, &public.pk.h);
        tr.append_point::<G>(&LABEL_G1, &public.params.g1);
        tr.append_point::<G>(&LABEL_G2, &public.params.g2);
        tr.append_ciphertext::<G>(&LABEL_C, public.ct);
    }

    /// Draw the nonces `t, t1, t2`.
    fn init(public: NotIdPublicBorrowed<'a, G>, rng: &mut ChaCha20Rng) -> (r: NotIdState<G>)
        ensures
            Self::fresh(public, r),
            r.committed() is None,
            0 <= r.nonces().0 < G::order(),
            0 <= r.nonces().1 < G::order(),
            0 <= r.nonces().2 < G::order(),
    {
        let t = SecretScalar::new(rng);
        let t1 = SecretScalar::new(rng);
        let t2 = SecretScalar::new(rng);
        NotIdState { t, t1, t2, i1: None, i2: None, i3: None, i4: None }
    }

    /// Compute the four commitments and absorb them.
    fn commit(public: NotIdPublicBorrowed<'a, G>, st: &mut NotIdState<G>, witness: &SecretScalar<G>, tr: &mut Transcript)
        ensures
            Self::commit_step(public, *old(st), *final(st), *witness, transcript_entries(*old(tr)), transcript_entries(*final(tr))),
            final(st).nonces() == old(st).nonces(),
            ({
                let q = G::order() as int;
                let (t, t1, t2) = old(st).nonces();
                final(st).committed() matches Some((i1, i2, i3, i4)) && i1@ == scale3(public.basis(), t1, q) && i2@
                    == scale3(public.basis(), (witness@ * t) % q, q) && i3@ == scale3(public.ct@, t2, q) && i4@
                    == scale3(neg3(public.ct@, q), t, q) && transcript_entries(*final(tr)) == transcript_entries(
                    *old(tr),
                ).push(ct_op::<G>(LABEL_T1_PK@, i1)).push(ct_op::<G>(LABEL_TR_PK@, i2)).push(
                    ct_op::<G>(LABEL_T2_C@, i3),
                ).push(ct_op::<G>(LABEL_NEG_T_C@, i4))
            }),
    {
        proof {
            assert(Self::commit_pre(public, *st, *witness));
        }
        let base = public.pk.to_ciphertext(public.params);
        let i1 = base.mul_scalar(st.t1.expose());
        tr.append_ciphertext::<G>(&LABEL_T1_PK, &i1);
        let tr_scalar = witness.mul_secret(&st.t);
        let i2 = base.mul_scalar(tr_scalar.expose());
        tr.append_ciphertext::<G>(&LABEL_TR_PK, &i2);
        let i3 = public.ct.mul_scalar(st.t2.expose());
        tr.append_ciphertext::<G>(&LABEL_T2_C, &i3);
        let i4 = public.ct.neg_ct().mul_scalar(st.t.expose());
        tr.append_ciphertext::<G>(&LABEL_NEG_T_C, &i4);
        st.i1 = Some(i1);
        st.i2 = Some(i2);
        st.i3 = Some(i3);
        st.i4 = Some(i4);
    }

    /// Derive both challenges and answer `z1 = c1 t r + t1`, `z2 = t2 - c2 t`.
    fn complete(st: NotIdState<G>, wit: &SecretScalar<G>, tr: &mut Transcript) -> (r: NotId<G>)
        ensures
            Self::complete_step(st, *wit, transcript_entries(*old(tr)), r, transcript_entries(*final(tr))),
            r.well_shaped(),
            st.committed() == Some(
                (r.commitments_pk@[0], r.commitments_pk@[1], r.commitments_ct@[0], r.commitments_ct@[1]),
            ),
            ({
                let c1 = G::spec_challenge(transcript_entries(*old(tr)), LABEL_CHALLENGE1@);
                let c2 = G::spec_challenge(
                    transcript_entries(*old(tr)).push(challenge_op::<G>(LABEL_CHALLENGE1@)),
                    LABEL_CHALLENGE2@,
                );
                let q = G::order() as int;
                let (t, t1, t2) = st.nonces();
                &&& G::scalar_val(r.responses@[0]) == (c1 * (wit@ * t) + t1) % q
                &&& G::scalar_val(r.responses@[1]) == (t2 - c2 * t) % q
            }),
            transcript_entries(*final(tr)) == transcript_entries(*old(tr)).push(
                challenge_op::<G>(LABEL_CHALLENGE1@),
            ).push(challenge_op::<G>(LABEL_CHALLENGE2@)),
    {
        proof {
            assert(Self::complete_pre(st, *wit));
        }
        let c1 = tr.challenge_scalar::<G>(&LABEL_CHALLENGE1);
        let c2 = tr.challenge_scalar::<G>(&LABEL_CHALLENGE2);
        let c1t = G::scalar_mul(&c1, st.t.expose());
        let z1 = G::scalar_add(&G::scalar_mul(&c1t, wit.expose()), st.t1.expose());
        let zero = G::scalar_from_u64(0);
        let z2 = G::scalar_sub(&G::scalar_add(&zero, st.t2.expose()), &G::scalar_mul(&c2, st.t.expose()));
        proof {
            G::lemma_order();
            let q = G::order() as int;
            let (t, t1, t2) = st.nonces();
            let a = G::scalar_val(c1);
            let b = G::scalar_val(c2);
            let w = wit@;
            SecretScalar::lemma_view(st.t2);
            lemma_mod_small(0, q);
            lemma_mod_small(t2, q);
            lemma_mul_mod_both(a * t, w, q);
            lemma_add_mod_both((a * t) * w, t1, q);
            assert((a * t) * w == a * (w * t)) by (nonlinear_arith);
            lemma_sub_mod_both(t2, b * t, q);
        }
        match (st.i1, st.i2, st.i3, st.i4) {
            (Some(i1), Some(i2), Some(i3), Some(i4)) => {
                NotId { commitments_pk: vec![i1, i2], commitments_ct: vec![i3, i4], responses: vec![z1, z2] }
            },
            _ => {
                let z = Ciphertext::zero();
                NotId { commitments_pk: vec![z, z], commitments_ct: vec![z, z], responses: vec![z1, z2] }
            },
        }
    }

    /// Absorb the proof's commitments.
    fn update_transcript(proof: &NotId<G>, tr: &mut Transcript) -> (r: Result<(), Error>)
        ensures
            transcript_entries(*final(tr)) == transcript_entries(*old(tr)) + Self::proof_entries(*proof),
            r is Ok,
            transcript_entries(*final(tr)) == transcript_entries(*old(tr)) + proof.proof_ops(),
    {
        proof {
            assert(Self::proof_shaped(*proof));
        }
        tr.append_ciphertext::<G>(&LABEL_T1_PK, &proof.commitments_pk[0]);
        tr.append_ciphertext::<G>(&LABEL_TR_PK, &proof.commitments_pk[1]);
        tr.append_ciphertext::<G>(&LABEL_T2_C, &proof.commitments_ct[0]);
        tr.append_ciphertext::<G>(&LABEL_NEG_T_C, &proof.commitments_ct[1]);
        Ok(())
    }

    /// Derive both challenges and check the relations.
    fn verify_relation(public: NotIdPublicBorrowed<'a, G>, proof: &NotId<G>, tr: &mut Transcript) -> (r: Result<(), Error>)
        ensures
            r == Self::relation(public, *proof, transcript_entries(*old(tr))) && transcript_entries(*final(tr)) == Self::relation_entries(*proof, transcript_entries(*old(tr))),
            r == Self::verify_result(
                public,
                *proof,
                G::spec_challenge(transcript_entries(*old(tr)), LABEL_CHALLENGE1@),
                G::spec_challenge(
                    transcript_entries(*old(tr)).push(challenge_op::<G>(LABEL_CHALLENGE1@)),
                    LABEL_CHALLENGE2@,
                ),
            ),
            transcript_entries(*final(tr)) == transcript_entries(*old(tr)).push(
                challenge_op::<G>(LABEL_CHALLENGE1@),
            ).push(challenge_op::<G>(LABEL_CHALLENGE2@)),
    {
        proof {
            assert(Self::proof_shaped(*proof));
        }
        let c1 = tr.challenge_scalar::<G>(&LABEL_CHALLENGE1);
        let c2 = tr.challenge_scalar::<G>(&LABEL_CHALLENGE2);
        let base = public.pk.to_ciphertext(public.params);
        let lhs1 = base.mul_scalar(&proof.responses[0]);
        let rhs1 = proof.commitments_pk[0].add_ct(proof.commitments_pk[1].mul_scalar(&c1));
        if !lhs1.ct_eq(&rhs1) {
            return Err(Error::CommitmentMismatch);
        }
        let lhs2 = public.ct.mul_scalar(&proof.responses[1]);
        let rhs2 = proof.commitments_ct[0].add_ct(proof.commitments_ct[1].mul_scalar(&c2));
        if !lhs2.ct_eq(&rhs2) {
            return Err(Error::CommitmentMismatch);
        }
        let s = proof.commitments_pk[1].add_ct(proof.commitments_ct[1]);
        let zero = G::identity();
        if !G::point_eq(&s.random_point, &zero) || !G::point_eq(&s.random_point2, &zero) || G::point_eq(
            &s.blinded_point,
            &zero,
        ) {
            return Err(Error::CommitmentMismatch);
        }
        Ok(())
    }
}

/// Completeness, exactly: for `C = Enc(M; r)`, a proof that the prover makes
/// with witness `r` and nonces `(t, t1, t2)` passes both linear checks, and
/// is accepted if and only if `[t]M` is not the identity, that is, unless
/// `M` is the identity or the nonce `t` is zero.
pub proof fn lemma_notid_complete<G: Group>(
    public: NotIdPublicBorrowed<G>,
    r: int,
    m: int,
    proof: NotId<G>,
    c1: int,
    c2: int,
    t: int,
    t1: int,
    t2: int,
)
    requires
        NotIdProtocol::<G>::produced_with(public, r, proof, c1, c2, t, t1, t2),
        public.ct@ == enc_val::<G>(public.params@, public.pk@, m, r),
    ensures
        NotIdProtocol::<G>::verify_result(public, proof, c1, c2) is Ok <==> (t * m) % G::order() as int != 0,
{
    G::lemma_order();
    let q = G::order() as int;
    let b = public.basis();
    let x = public.ct@;
    // first check: a Schnorr check over the basis with witness r t
    let w = r * t;
    lemma_mul_mod_both(b.0, w, q);
    lemma_mul_mod_both(b.1, w, q);
    lemma_mul_mod_both(b.2, w, q);
    lemma_response(b.0, w, t1, c1, q);
    lemma_response(b.1, w, t1, c1, q);
    lemma_response(b.2, w, t1, c1, q);
    // second check: a Schnorr check over the ciphertext with witness -t
    assert(c2 * (-t) + t2 == t2 - c2 * t) by (nonlinear_arith);
    lemma_response(x.0, -t, t2, c2, q);
    lemma_response(x.1, -t, t2, c2, q);
    lemma_response(x.2, -t, t2, c2, q);
    lemma_neg_scaled(x.0, t, q);
    lemma_neg_scaled(x.1, t, q);
    lemma_neg_scaled(x.2, t, q);
    // I2 + I4 = [t r]PK + [t](-C) = (0, 0, [-t]M)
    lemma_cancel(b.0, r, t, 0, q);
    lemma_cancel(b.1, r, t, 0, q);
    lemma_cancel(b.2, r, t, m, q);
    assert(b.0 * r + 0 == b.0 * r && b.1 * r + 0 == b.1 * r);
    assert(t * 0 == 0);
    lemma_mod_small(0, q);
    // -(t m) is zero modulo q exactly when t m is
    lemma_sub_mod_both(0, t * m, q);
    vstd::arithmetic::div_mod::lemma_mod_bound(t * m, q);
    if (t * m) % q != 0 {
        lemma_mod_small(q - (t * m) % q, q);
        crate::zq::lemma_mod_plus_multiple(-((t * m) % q), 1, q);
    }
}

} // verus!
