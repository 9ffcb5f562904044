//! Proof of correct decryption.
//!
//! For a ciphertext `C = (R1, R2, B)`, a public key `H = [x1]G1 + [x2]G2`
//! and a claimed plaintext `M`, the key holder shows that
//! `M = B - ([x1]R1 + [x2]R2)`. It commits to `K = [t1]G1 + [t2]G2` and
//! `T = [t1]R1 + [t2]R2`, derives the challenge `c` and answers
//! `z_i = c x_i + t_i`; the verifier checks `[z1]G1 + [z2]G2 == K + [c]H`
//! and `[z1]R1 + [z2]R2 == T + [c](B - M)`.
use vstd::prelude::*;
use core::marker::PhantomData;
use merlin::Transcript;
use rand_chacha::ChaCha20Rng;
use crate::error::Error;
use crate::group::Group;
use crate::zq::{lemma_add_mod_both, lemma_sub_mod_both, lemma_response_pair};
use crate::elgamal::ciphertext::Ciphertext;
use crate::elgamal::keys::{ElGamalParams, PublicKey, SecretKey, SecretScalar, pk_val, dec_val};
use crate::transcript::{TranscriptOp, transcript_entries, transcript_new};
use crate::proofs::{SigmaProtocol, TranscriptForGroup, point_op, ct_op, challenge_op, start_op, fresh_ops};
use crate::proofs::labels::{
    DEC_DOMAIN, LABEL_G1, LABEL_G2, LABEL_H, LABEL_C, LABEL_M, LABEL_K, LABEL_T, LABEL_CHALLENGE, LABEL_EMPTY,
};

verus! {

/// Borrowed public inputs of the protocol.
#[derive(Debug, Copy, Clone)]
pub struct DecOkPublicBorrowed<'a, G: Group> {
    pub params: &'a ElGamalParams<G>,
    pub pk: &'a PublicKey<G>,
    pub ct: &'a Ciphertext<G>,
    pub plaintext: &'a G::Point,
}

impl<'a, G: Group> DecOkPublicBorrowed<'a, G> {
    pub fn new(
        params: &'a ElGamalParams<G>,
        pk: &'a PublicKey<G>,
        ct: &'a Ciphertext<G>,
        plaintext: &'a G::Point,
    ) -> (r: Self)
        ensures
            r.params == params,
            r.pk == pk,
            r.ct == ct,
            r.plaintext == plaintext,
    {
        DecOkPublicBorrowed { params, pk, ct, plaintext }
    }

    /// The transcript entries of the public statement, in order.
    pub open spec fn public_ops(self) -> Seq<TranscriptOp> {
        seq![
            point_op::<G>(LABEL_G1@, self.params.g1),
            point_op::<G>(LABEL_G2@, self.params.g2),
            point_op::<G>(LABEL_H@, self.pk.h),
            ct_op::<G>(LABEL_C@, *self.ct),
            point_op::<G>(LABEL_M@, *self.plaintext),
        ]
    }
}

/// Correct-decryption proof.
#[derive(Debug, Clone, PartialEq)]
pub struct DecOk<G: Group> {
    /// `K = [t1]G1 + [t2]G2`.
    pub commit_pk: G::Point,
    /// `T = [t1]R1 + [t2]R2`.
    pub commit_ct: G::Point,
    pub z1: G::Scalar,
    pub z2: G::Scalar,
}

impl<G: Group> DecOk<G> {
    /// The transcript entries of the proof's commitments.
    pub open spec fn proof_ops(self) -> Seq<TranscriptOp> {
        seq![point_op::<G>(LABEL_K@, self.commit_pk), point_op::<G>(LABEL_T@, self.commit_ct)]
    }

    /// Prove with a fresh transcript.
    pub fn prove(public: DecOkPublicBorrowed<'_, G>, witness: &SecretKey<G>, rng: &mut ChaCha20Rng) -> (r: Self)
        ensures
            DecOkProtocol::<G>::produced(public, witness@, r, DecOkProtocol::<G>::challenge(fresh_ops(), public, r)),
    {
        let mut tr = transcript_new(&LABEL_EMPTY);
        assert(LABEL_EMPTY@ == Seq::<u8>::empty());
        DecOkProtocol::<G>::prove(public, witness, &mut tr, rng)
    }

    /// Verify with a fresh transcript.
    pub fn verify(&self, public: DecOkPublicBorrowed<'_, G>) -> (r: Result<(), Error>)
        ensures
            r == DecOkProtocol::<G>::verify_result(public, *self, DecOkProtocol::<G>::challenge(fresh_ops(), public, *self)),
    {
        let mut tr = transcript_new(&LABEL_EMPTY);
        assert(LABEL_EMPTY@ == Seq::<u8>::empty());
        DecOkProtocol::<G>::verify(public, self, &mut tr)
    }
}

/// Prover ephemeral state.
#[derive(Debug)]
pub struct DecOkState<G: Group> {
    t1: SecretScalar<G>,
    t2: SecretScalar<G>,
    commit_pk: Option<G::Point>,
    commit_ct: Option<G::Point>,
}

impl<G: Group> DecOkState<G> {
    pub closed spec fn nonce1(self) -> int {
        self.t1@
    }

    pub closed spec fn nonce2(self) -> int {
        self.t2@
    }

    pub closed spec fn committed(self) -> Option<(G::Point, G::Point)> {
        match (self.commit_pk, self.commit_ct) {
            (Some(k), Some(t)) => Some((k, t)),
            _ => None,
        }
    }
}

/// The correct-decryption protocol.
pub struct DecOkProtocol<G: Group>(PhantomData<G>);

/// `[a]X + [b]Y` over discrete logarithms.
pub open spec fn lin2<G: Group>(x: int, a: int, y: int, b: int) -> int {
    let q = G::order() as int;
    ((x * a) % q + (y * b) % q) % q
}

impl<G: Group> DecOkProtocol<G> {
    pub open spec fn transcript_ops(prefix: Seq<TranscriptOp>, public: DecOkPublicBorrowed<G>, proof: DecOk<G>) -> Seq<TranscriptOp> {
        prefix.push(start_op(DEC_DOMAIN@)) + public.public_ops() + proof.proof_ops()
    }

    pub open spec fn challenge(prefix: Seq<TranscriptOp>, public: DecOkPublicBorrowed<G>, proof: DecOk<G>) -> int {
        G::spec_challenge(Self::transcript_ops(prefix, public, proof), LABEL_CHALLENGE@)
    }

    /// The check `[z1]G1 + [z2]G2 == K + [c]H`.
    pub open spec fn key_check(public: DecOkPublicBorrowed<G>, proof: DecOk<G>, c: int) -> bool {
        let q = G::order() as int;
        lin2::<G>(public.params@.0, G::scalar_val(proof.z1), public.params@.1, G::scalar_val(proof.z2)) == (
        G::point_val(proof.commit_pk) + (public.pk@ * c) % q) % q
    }

    /// The check `[z1]R1 + [z2]R2 == T + [c](B - M)`.
    pub open spec fn ct_check(public: DecOkPublicBorrowed<G>, proof: DecOk<G>, c: int) -> bool {
        let q = G::order() as int;
        lin2::<G>(public.ct@.0, G::scalar_val(proof.z1), public.ct@.1, G::scalar_val(proof.z2)) == (
        G::point_val(proof.commit_ct) + (((public.ct@.2 - G::point_val(*public.plaintext)) % q) * c) % q) % q
    }

    /// What the verifier answers under challenge `c`.
    pub open spec fn verify_result(public: DecOkPublicBorrowed<G>, proof: DecOk<G>, c: int) -> Result<(), Error> {
        if Self::key_check(public, proof, c) && Self::ct_check(public, proof, c) {
            Ok(())
        } else {
            Err(Error::CommitmentMismatch)
        }
    }

    /// Whether `proof` is what the prover answers with secret key `sk` under
    /// challenge `c`, for some nonces.
    pub open spec fn produced(public: DecOkPublicBorrowed<G>, sk: (int, int), proof: DecOk<G>, c: int) -> bool {
        let q = G::order() as int;
        exists|t1: int, t2: int|
            0 <= t1 < q && 0 <= t2 < q && G::point_val(proof.commit_pk) == #[trigger] lin2::<G>(
                public.params@.0,
                t1,
                public.params@.1,
                t2,
            ) && G::point_val(proof.commit_ct) == lin2::<G>(public.ct@.0, t1, public.ct@.1, t2) && G::scalar_val(
                proof.z1,
            ) == (c * sk.0 + t1) % q && G::scalar_val(proof.z2) == (c * sk.1 + t2) % q
    }
}

impl<'a, G: Group> SigmaProtocol<'a> for DecOkProtocol<G> {
    type Public = DecOkPublicBorrowed<'a, G>;

    type Witness = SecretKey<G>;

    type Proof = DecOk<G>;

    type State = DecOkState<G>;

    open spec fn domain() -> Seq<u8> {
        DEC_DOMAIN@
    }

    fn domain_label() -> (r: &'static [u8]) {
        &DEC_DOMAIN
    }

    open spec fn public_entries(public: DecOkPublicBorrowed<'a, G>) -> Seq<TranscriptOp> {
        public.public_ops()
    }

    open spec fn proof_shaped(proof: DecOk<G>) -> bool {
        true
    }

    open spec fn proof_entries(proof: DecOk<G>) -> Seq<TranscriptOp> {
        proof.proof_ops()
    }

    open spec fn relation(public: DecOkPublicBorrowed<'a, G>, proof: DecOk<G>, entries: Seq<TranscriptOp>) -> Result<(), Error> {
        Self::verify_result(public, proof, G::spec_challenge(entries, LABEL_CHALLENGE@))
    }

    open spec fn relation_entries(proof: DecOk<G>, entries: Seq<TranscriptOp>) -> Seq<TranscriptOp> {
        entries.push(challenge_op::<G>(LABEL_CHALLENGE@))
    }

    open spec fn prove_pre(public: DecOkPublicBorrowed<'a, G>, witness: SecretKey<G>) -> bool {
        true
    }

    open spec fn fresh(public: DecOkPublicBorrowed<'a, G>, state: DecOkState<G>) -> bool {
        &&& state.committed() is None
        &&& 0 <= state.nonce1() < G::order()
        &&& 0 <= state.nonce2() < G::order()
    }

    open spec fn commit_pre(public: DecOkPublicBorrowed<'a, G>, state: DecOkState<G>, witness: SecretKey<G>) -> bool {
        true
    }

    open spec fn commit_step(
        public: DecOkPublicBorrowed<'a, G>,
        before: DecOkState<G>,
        after: DecOkState<G>,
        witness: SecretKey<G>,
        entries_before: Seq<TranscriptOp>,
        entries_after: Seq<TranscriptOp>,
    ) -> bool {
        &&& after.nonce1() == before.nonce1()
        &&& after.nonce2() == before.nonce2()
        &&& after.committed() matches Some((k, t)) && G::point_val(k) == lin2::<G>(
            public.params@.0,
            before.nonce1(),
            public.params@.1,
            before.nonce2(),
        ) && G::point_val(t) == lin2::<G>(public.ct@.0, before.nonce1(), public.ct@.1, before.nonce2())
            && entries_after == entries_before.push(point_op::<G>(LABEL_K@, k)).push(
            point_op::<G>(LABEL_T@, t),
        )
    }

    open spec fn complete_pre(state: DecOkState<G>, witness: SecretKey<G>) -> bool {
        state.committed() is Some
    }

    open spec fn complete_step(
        state: DecOkState<G>,
        witness: SecretKey<G>,
        entries_before: Seq<TranscriptOp>,
        proof: DecOk<G>,
        entries_after: Seq<TranscriptOp>,
    ) -> bool {
        &&& state.committed() == Some((proof.commit_pk, proof.commit_ct))
        &&& ({
            let c = G::spec_challenge(entries_before, LABEL_CHALLENGE@);
            let q = G::order() as int;
            &&& G::scalar_val(proof.z1) == (c * witness@.0 + state.nonce1()) % q
            &&& G::scalar_val(proof.z2) == (c * witness@.1 + state.nonce2()) % q
        })
        &&& entries_after == entries_before.push(challenge_op::<G>(LABEL_CHALLENGE@))
    }

    open spec fn produced_on(public: DecOkPublicBorrowed<'a, G>, witness: SecretKey<G>, proof: DecOk<G>, prefix: Seq<TranscriptOp>) -> bool {
        Self::produced(public, witness@, proof, Self::challenge(prefix, public, proof))
    }

    proof fn lemma_prover_flow(
        public: DecOkPublicBorrowed<'a, G>,
        witness: SecretKey<G>,
        s0: DecOkState<G>,
        s1: DecOkState<G>,
        prefix: Seq<TranscriptOp>,
        e2: Seq<TranscriptOp>,
        proof: DecOk<G>,
        e3: Seq<TranscriptOp>,
    ) {
        let e1 = prefix.push(start_op(Self::domain())) + Self::public_entries(public);
        assert(Self::prove_pre(public, witness));
        assert(Self::fresh(public, s0));
        assert(Self::commit_pre(public, s0, witness));
        if Self::commit_step(public, s0, s1, witness, e1, e2) {
            assert(Self::complete_pre(s1, witness));
            if Self::complete_step(s1, witness, e2, proof, e3) {
                assert(e2 == Self::transcript_ops(prefix, public, proof));
                assert(Self::produced_on(public, witness, proof, prefix));
                assert(Self::proof_shaped(proof));
                assert(e3 == Self::relation_entries(proof, e1 + Self::proof_entries(proof)));
            }
        }
    }

    /// Absorb the public statement.
    fn absorb_public(public: DecOkPublicBorrowed<'a, G>, tr: &mut Transcript)
        ensures
            transcript_entries(*final(tr)) == transcript_entries(*old(tr)) + Self::public_entries(public),
            transcript_entries(*final(tr)) == transcript_entries(*old(tr)) + public.public_ops(),
    {
        tr.append_point::<G>(&LABEL_G1, &public.params.g1);
        tr.append_point::<G>(&LABEL_G2, &public.params.g2);
        tr.append_point::<G>(&LABEL_H, &public.pk.h);
        tr.append_ciphertext::<G>(&LABEL_C, public.ct);
        tr.append_point::<G>(&LABEL_M, public.plaintext);
    }

    /// Draw the nonces.
    fn init(public: DecOkPublicBorrowed<'a, G>, rng: &mut ChaCha20Rng) -> (r: DecOkState<G>)
        ensures
            Self::fresh(public, r),
            r.committed() is None,
            0 <= r.nonce1() < G::order(),
            0 <= r.nonce2() < G::order(),
    {
        let t1 = SecretScalar::new(rng);
        let t2 = SecretScalar::new(rng);
        DecOkState { t1, t2, commit_pk: None, commit_ct: None }
    }

    /// Commit to `K = [t1]G1 + [t2]G2` and `T = [t1]R1 + [t2]R2` and absorb
    /// them.
    fn commit(public: DecOkPublicBorrowed<'a, G>, st: &mut DecOkState<G>, witness: &SecretKey<G>, tr: &mut Transcript)
        ensures
            Self::commit_step(public, *old(st), *final(st), *witness, transcript_entries(*old(tr)), transcript_entries(*final(tr))),
            final(st).nonce1() == old(st).nonce1(),
            final(st).nonce2() == old(st).nonce2(),
            final(st).committed() matches Some((k, t)) && G::point_val(k) == lin2::<G>(
                public.params@.0,
                old(st).nonce1(),
                public.params@.1,
                old(st).nonce2(),
            ) && G::point_val(t) == lin2::<G>(public.ct@.0, old(st).nonce1(), public.ct@.1, old(st).nonce2())
                && transcript_entries(*final(tr)) == transcript_entries(*old(tr)).push(point_op::<G>(LABEL_K@, k)).push(
                point_op::<G>(LABEL_T@, t),
            ),
    {
        proof {
            assert(Self::commit_pre(public, *st, *witness));
        }
        let k = G::point_add(&G::point_mul(&public.params.g1, st.t1.expose()), &G::point_mul(&public.params.g2, st.t2.expose()));
        tr.append_point::<G>(&LABEL_K, &k);
        let t = G::point_add(
            &G::point_mul(&public.ct.random_point, st.t1.expose()),
            &G::point_mul(&public.ct.random_point2, st.t2.expose()),
        );
        tr.append_point::<G>(&LABEL_T, &t);
        st.commit_pk = Some(k);
        st.commit_ct = Some(t);
    }

    /// Derive the challenge and answer `z_i = c x_i + t_i`.
    fn complete(st: DecOkState<G>, sk: &SecretKey<G>, tr: &mut Transcript) -> (r: DecOk<G>)
        ensures
            Self::complete_step(st, *sk, transcript_entries(*old(tr)), r, transcript_entries(*final(tr))),
            st.committed() == Some((r.commit_pk, r.commit_ct)),
            ({
                let c = G::spec_challenge(transcript_entries(*old(tr)), LABEL_CHALLENGE@);
                let q = G::order() as int;
                &&& G::scalar_val(r.z1) == (c * sk@.0 + st.nonce1()) % q
                &&& G::scalar_val(r.z2) == (c * sk@.1 + st.nonce2()) % q
            }),
            transcript_entries(*final(tr)) == transcript_entries(*old(tr)).push(challenge_op::<G>(LABEL_CHALLENGE@)),
    {
        proof {
            assert(Self::complete_pre(st, *sk));
        }
        let c = tr.challenge_scalar::<G>(&LABEL_CHALLENGE);
        let (x1, x2) = sk.expose_scalars();
        let z1 = G::scalar_add(&G::scalar_mul(&c, x1), st.t1.expose());
        let z2 = G::scalar_add(&G::scalar_mul(&c, x2), st.t2.expose());
        proof {
            G::lemma_order();
            lemma_add_mod_both(G::scalar_val(c) * sk@.0, st.nonce1(), G::order() as int);
            lemma_add_mod_both(G::scalar_val(c) * sk@.1, st.nonce2(), G::order() as int);
        }
        match (st.commit_pk, st.commit_ct) {
            (Some(commit_pk), Some(commit_ct)) => DecOk { commit_pk, commit_ct, z1, z2 },
            _ => DecOk { commit_pk: G::identity(), commit_ct: G::identity(), z1, z2 },
        }
    }

    /// Absorb the proof's commitments.
    fn update_transcript(proof: &DecOk<G>, tr: &mut Transcript) -> (r: Result<(), Error>)
        ensures
            transcript_entries(*final(tr)) == transcript_entries(*old(tr)) + Self::proof_entries(*proof),
            r is Ok,
            transcript_entries(*final(tr)) == transcript_entries(*old(tr)) + proof.proof_ops(),
    {
        proof {
            assert(Self::proof_shaped(*proof));
        }
        tr.append_point::<G>(&LABEL_K, &proof.commit_pk);
        tr.append_point::<G>(&LABEL_T, &proof.commit_ct);
        Ok(())
    }

    /// Derive the challenge and check both relations.
    fn verify_relation(public: DecOkPublicBorrowed<'a, G>, proof: &DecOk<G>, tr: &mut Transcript) -> (r: Result<(), Error>)
        ensures
            r == Self::relation(public, *proof, transcript_entries(*old(tr))) && transcript_entries(*final(tr)) == Self::relation_entries(*proof, transcript_entries(*old(tr))),
            r == Self::verify_result(public, *proof, G::spec_challenge(transcript_entries(*old(tr)), LABEL_CHALLENGE@)),
            transcript_entries(*final(tr)) == transcript_entries(*old(tr)).push(challenge_op::<G>(LABEL_CHALLENGE@)),
    {
        proof {
            assert(Self::proof_shaped(*proof));
        }
        let c = tr.challenge_scalar::<G>(&LABEL_CHALLENGE);
        let lhs1 = G::point_add(&G::point_mul(&public.params.g1, &proof.z1), &G::point_mul(&public.params.g2, &proof.z2));
        let rhs1 = G::point_add(&proof.commit_pk, &G::point_mul(&public.pk.h, &c));
        if !G::point_eq(&lhs1, &rhs1) {
            return Err(Error::CommitmentMismatch);
        }
        let lhs2 = G::point_add(
            &G::point_mul(&public.ct.random_point, &proof.z1),
            &G::point_mul(&public.ct.random_point2, &proof.z2),
        );
        let rhs2 = G::point_add(&proof.commit_ct, &G::point_mul(&G::point_sub(&public.ct.blinded_point, public.plaintext), &c));
        if !G::point_eq(&lhs2, &rhs2) {
            return Err(Error::CommitmentMismatch);
        }
        Ok(())
    }
}

/// Completeness: when `H` is the public key of `sk` and `M` is the
/// decryption of `C` under `sk`, a proof that the prover makes with `sk` is
/// accepted under the same challenge.
pub proof fn lemma_dec_complete<G: Group>(public: DecOkPublicBorrowed<G>, sk: (int, int), proof: DecOk<G>, c: int)
    requires
        DecOkProtocol::<G>::produced(public, sk, proof, c),
        public.pk@ == pk_val::<G>(public.params@, sk.0, sk.1),
        G::point_val(*public.plaintext) == dec_val::<G>(sk, public.ct@),
    ensures
        DecOkProtocol::<G>::verify_result(public, proof, c) == Ok::<(), Error>(()),
{
    G::lemma_order();
    let q = G::order() as int;
    let (g1, g2) = public.params@;
    let (r1, r2, b) = public.ct@;
    let (t1, t2) = choose|t1: int, t2: int|
        0 <= t1 < q && 0 <= t2 < q && G::point_val(proof.commit_pk) == #[trigger] lin2::<G>(
            public.params@.0,
            t1,
            public.params@.1,
            t2,
        ) && G::point_val(proof.commit_ct) == lin2::<G>(public.ct@.0, t1, public.ct@.1, t2) && G::scalar_val(proof.z1)
            == (c * sk.0 + t1) % q && G::scalar_val(proof.z2) == (c * sk.1 + t2) % q;
    lemma_response_pair(g1, g2, sk.0, sk.1, t1, t2, c, q);
    lemma_response_pair(r1, r2, sk.0, sk.1, t1, t2, c, q);
    let x = r1 * sk.0 + r2 * sk.1;
    lemma_sub_mod_both(b, b - x, q);
    assert(b - (b - x) == x);
}

/// A proof made by `DecOk::prove` with the secret key of the public key,
/// for the plaintext that the key decrypts, is accepted by `DecOk::verify`.
pub proof fn lemma_dec_prove_verify<G: Group>(
    public: DecOkPublicBorrowed<G>,
    witness: SecretKey<G>,
    rng: &mut ChaCha20Rng,
    proof: DecOk<G>,
    res: Result<(), Error>,
)
    requires
        public.pk@ == pk_val::<G>(public.params@, witness@.0, witness@.1),
        G::point_val(*public.plaintext) == dec_val::<G>(witness@, public.ct@),
        call_ensures(DecOk::<G>::prove, (public, &witness, rng), proof),
        call_ensures(DecOk::<G>::verify, (&proof, public), res),
    ensures
        res == Ok::<(), Error>(()),
{
    lemma_dec_complete(public, witness@, proof, DecOkProtocol::<G>::challenge(fresh_ops(), public, proof));
}

} // verus!
