//! Proof of knowledge of the plaintext of an ElGamal ciphertext.
//!
//! For `C = Enc([m]generator; r)` the prover commits to
//! `I = [t_r](G1, G2, H) + (0, 0, [t_m]generator)`, derives the challenge `c`
//! and answers `z_r = c r + t_r`, `z_m = c m + t_m`; the verifier checks
//! `[z_r](G1, G2, H) + (0, 0, [z_m]generator) == I + [c]C`.
use vstd::prelude::*;
use core::marker::PhantomData;
use merlin::Transcript;
use rand_chacha::ChaCha20Rng;
use crate::error::Error;
use crate::group::Group;
use crate::zq::{scale3, add3, shift3, lemma_add_mod_both, lemma_mod_small, lemma_response, lemma_response_pair};
use crate::elgamal::ciphertext::{Ciphertext, enc_val};
use crate::elgamal::keys::{ElGamalParams, PublicKey, SecretScalar};
use crate::transcript::{TranscriptOp, transcript_entries, transcript_new};
use crate::proofs::{SigmaProtocol, TranscriptForGroup, point_op, ct_op, challenge_op, start_op, fresh_ops};
use crate::proofs::labels::{
    PLAINTEXT_DOMAIN, LABEL_H, LABEL_G1, LABEL_G2, LABEL_CIPHERTEXT, LABEL_COMMITMENT, LABEL_CHALLENGE, LABEL_EMPTY,
};

verus! {

/// Borrowed public inputs of the protocol.
#[derive(Debug, Clone, Copy)]
pub struct PlaintextPublicBorrowed<'a, G: Group> {
    pub pk: &'a PublicKey<G>,
    pub params: &'a ElGamalParams<G>,
    pub ct: &'a Ciphertext<G>,
}

impl<'a, G: Group> PlaintextPublicBorrowed<'a, G> {
    /// The basis `(G1, G2, H)` over discrete logarithms.
    pub open spec fn basis(self) -> (int, int, int) {
        (self.params@.0, self.params@.1, self.pk@)
    }

    /// The transcript entries of the public statement, in order.
    pub open spec fn public_ops(self) -> Seq<TranscriptOp> {
        seq![
            point_op::<G>(LABEL_H@, self.pk.h),
            point_op::<G>(LABEL_G1@, self.params.g1),
            point_op::<G>(LABEL_G2@, self.params.g2),
            ct_op::<G>(LABEL_CIPHERTEXT@, *self.ct),
        ]
    }
}

/// The witness: the encryption randomness `r` and the plaintext exponent `m`.
#[derive(Debug)]
pub struct PlaintextWitness<G: Group> {
    pub r: SecretScalar<G>,
    pub m: SecretScalar<G>,
}

impl<G: Group> PlaintextWitness<G> {
    pub fn new(r: SecretScalar<G>, m: SecretScalar<G>) -> (res: Self)
        ensures
            res.r@ == r@,
            res.m@ == m@,
    {
        PlaintextWitness { r, m }
    }
}

/// Prover ephemeral state.
#[derive(Debug)]
pub struct PlaintextState<G: Group> {
    t_r: SecretScalar<G>,
    t_m: SecretScalar<G>,
    commitment: Option<Ciphertext<G>>,
}

impl<G: Group> PlaintextState<G> {
    /// The nonce for the randomness.
    pub closed spec fn nonce_r(self) -> int {
        self.t_r@
    }

    /// The nonce for the plaintext.
    pub closed spec fn nonce_m(self) -> int {
        self.t_m@
    }

    /// The commitment, once `commit` has run.
    pub closed spec fn committed(self) -> Option<Ciphertext<G>> {
        self.commitment
    }
}

/// Plaintext-knowledge proof.
#[derive(Debug, Clone, PartialEq)]
pub struct Plaintext<G: Group> {
    /// `I = [t_r](G1, G2, H) + (0, 0, [t_m]generator)`.
    pub commitment: Ciphertext<G>,
    /// `z_r = c r + t_r`.
    pub z_r: G::Scalar,
    /// `z_m = c m + t_m`.
    pub z_m: G::Scalar,
}

impl<G: Group> Plaintext<G> {
    /// The transcript entries of the proof's commitment.
    pub open spec fn proof_ops(self) -> Seq<TranscriptOp> {
        seq![ct_op::<G>(LABEL_COMMITMENT@, self.commitment)]
    }

    /// Prove with a fresh transcript.
    pub fn prove(public: PlaintextPublicBorrowed<'_, G>, witness: &PlaintextWitness<G>, rng: &mut ChaCha20Rng) -> (r: Self)
        ensures
            PlaintextProtocol::<G>::produced(
                public,
                witness.r@,
                witness.m@,
                r,
                PlaintextProtocol::<G>::challenge(fresh_ops(), public, r),
            ),
    {
        let mut tr = transcript_new(&LABEL_EMPTY);
        assert(LABEL_EMPTY@ == Seq::<u8>::empty());
        PlaintextProtocol::<G>::prove(public, witness, &mut tr, rng)
    }

    /// Verify with a fresh transcript.
    pub fn verify(&self, public: PlaintextPublicBorrowed<'_, G>) -> (r: Result<(), Error>)
        ensures
            r == PlaintextProtocol::<G>::verify_result(public, *self, PlaintextProtocol::<G>::challenge(fresh_ops(), public, *self)),
    {
        let mut tr = transcript_new(&LABEL_EMPTY);
        assert(LABEL_EMPTY@ == Seq::<u8>::empty());
        PlaintextProtocol::<G>::verify(public, self, &mut tr)
    }
}

/// The plaintext-knowledge protocol.
pub struct PlaintextProtocol<G: Group>(PhantomData<G>);

/// The verifier's relation
/// `[z_r](G1, G2, H) + (0, 0, [z_m]generator) == I + [c]C` over discrete
/// logarithms.
pub open spec fn plaintext_holds<G: Group>(
    basis: (int, int, int),
    ct: (int, int, int),
    commitment: (int, int, int),
    z_r: int,
    z_m: int,
    c: int,
) -> bool {
    let q = G::order() as int;
    shift3(scale3(basis, z_r, q), z_m, q) == add3(commitment, scale3(ct, c, q), q)
}

impl<G: Group> PlaintextProtocol<G> {
    /// The entries of a transcript that held `prefix` once the proof's
    /// public statement and commitment are absorbed.
    pub open spec fn transcript_ops(prefix: Seq<TranscriptOp>, public: PlaintextPublicBorrowed<G>, proof: Plaintext<G>) -> Seq<TranscriptOp> {
        prefix.push(start_op(PLAINTEXT_DOMAIN@)) + public.public_ops() + proof.proof_ops()
    }

    /// The challenge derived on a transcript that held `prefix`.
    pub open spec fn challenge(prefix: Seq<TranscriptOp>, public: PlaintextPublicBorrowed<G>, proof: Plaintext<G>) -> int {
        G::spec_challenge(Self::transcript_ops(prefix, public, proof), LABEL_CHALLENGE@)
    }

    /// What the verifier answers under challenge `c`.
    pub open spec fn verify_result(public: PlaintextPublicBorrowed<G>, proof: Plaintext<G>, c: int) -> Result<(), Error> {
        if plaintext_holds::<G>(
            public.basis(),
            public.ct@,
            proof.commitment@,
            G::scalar_val(proof.z_r),
            G::scalar_val(proof.z_m),
            c,
        ) {
            Ok(())
        } else {
            Err(Error::CommitmentMismatch)
        }
    }

    /// Whether `proof` is what the prover answers with witness `(r, m)` under
    /// challenge `c`, for some nonces.
    pub open spec fn produced(public: PlaintextPublicBorrowed<G>, r: int, m: int, proof: Plaintext<G>, c: int) -> bool {
        let q = G::order() as int;
        exists|t_r: int, t_m: int|
            0 <= t_r < q && 0 <= t_m < q && proof.commitment@ == #[trigger] shift3(scale3(public.basis(), t_r, q), t_m, q)
                && G::scalar_val(proof.z_r) == (c * r + t_r) % q && G::scalar_val(proof.z_m) == (c * m + t_m) % q
    }
}

impl<'a, G: Group> SigmaProtocol<'a> for PlaintextProtocol<G> {
    type Public = PlaintextPublicBorrowed<'a, G>;

    type Witness = PlaintextWitness<G>;

    type Proof = Plaintext<G>;

    type State = PlaintextState<G>;

    open spec fn domain() -> Seq<u8> {
        PLAINTEXT_DOMAIN@
    }

    fn domain_label() -> (r: &'static [u8]) {
        &PLAINTEXT_DOMAIN
    }

    open spec fn public_entries(public: PlaintextPublicBorrowed<'a, G>) -> Seq<TranscriptOp> {
        public.public_ops()
    }

    open spec fn proof_shaped(proof: Plaintext<G>) -> bool {
        true
    }

    open spec fn proof_entries(proof: Plaintext<G>) -> Seq<TranscriptOp> {
        proof.proof_ops()
    }

    open spec fn relation(public: PlaintextPublicBorrowed<'a, G>, proof: Plaintext<G>, entries: Seq<TranscriptOp>) -> Result<(), Error> {
        Self::verify_result(public, proof, G::spec_challenge(entries, LABEL_CHALLENGE@))
    }

    open spec fn relation_entries(proof: Plaintext<G>, entries: Seq<TranscriptOp>) -> Seq<TranscriptOp> {
        entries.push(challenge_op::<G>(LABEL_CHALLENGE@))
    }

    open spec fn prove_pre(public: PlaintextPublicBorrowed<'a, G>, witness: PlaintextWitness<G>) -> bool {
        true
    }

    open spec fn fresh(public: PlaintextPublicBorrowed<'a, G>, state: PlaintextState<G>) -> bool {
        &&& state.committed() is None
        &&& 0 <= state.nonce_r() < G::order()
        &&& 0 <= state.nonce_m() < G::order()
    }

    open spec fn commit_pre(public: PlaintextPublicBorrowed<'a, G>, state: PlaintextState<G>, witness: PlaintextWitness<G>) -> bool {
        true
    }

    open spec fn commit_step(
        public: PlaintextPublicBorrowed<'a, G>,
        before: PlaintextState<G>,
        after: PlaintextState<G>,
        witness: PlaintextWitness<G>,
        entries_before: Seq<TranscriptOp>,
        entries_after: Seq<TranscriptOp>,
    ) -> bool {
        &&& after.nonce_r() == before.nonce_r()
        &&& after.nonce_m() == before.nonce_m()
        &&& after.committed() matches Some(i) && i@ == shift3(
            scale3(public.basis(), before.nonce_r(), G::order() as int),
            before.nonce_m(),
            G::order() as int,
        ) && entries_after == entries_before.push(ct_op::<G>(LABEL_COMMITMENT@, i))
    }

    open spec fn complete_pre(state: PlaintextState<G>, witness: PlaintextWitness<G>) -> bool {
        state.committed() is Some
    }

    open spec fn complete_step(
        state: PlaintextState<G>,
        witness: PlaintextWitness<G>,
        entries_before: Seq<TranscriptOp>,
        proof: Plaintext<G>,
        entries_after: Seq<TranscriptOp>,
    ) -> bool {
        &&& Some(proof.commitment) == state.committed()
        &&& ({
            let c = G::spec_challenge(entries_before, LABEL_CHALLENGE@);
            let q = G::order() as int;
            &&& G::scalar_val(proof.z_r) == (c * witness.r@ + state.nonce_r()) % q
            &&& G::scalar_val(proof.z_m) == (c * witness.m@ + state.nonce_m()) % q
        })
        &&& entries_after == entries_before.push(challenge_op::<G>(LABEL_CHALLENGE@))
    }

    open spec fn produced_on(public: PlaintextPublicBorrowed<'a, G>, witness: PlaintextWitness<G>, proof: Plaintext<G>, prefix: Seq<TranscriptOp>) -> bool {
        Self::produced(public, witness.r@, witness.m@, proof, Self::challenge(prefix, public, proof))
    }

    proof fn lemma_prover_flow(
        public: PlaintextPublicBorrowed<'a, G>,
        witness: PlaintextWitness<G>,
        s0: PlaintextState<G>,
        s1: PlaintextState<G>,
        prefix: Seq<TranscriptOp>,
        e2: Seq<TranscriptOp>,
        proof: Plaintext<G>,
        e3: Seq<TranscriptOp>,
    ) {
        let e1 = prefix.push(start_op(Self::domain())) + Self::public_entries(public);
        assert(Self::prove_pre(public, witness));
        assert(Self::fresh(public, s0));
        assert(Self::commit_pre(public, s0, witness));
        if Self::commit_step(public, s0, s1, witness, e1, e2) {
            assert(Self::complete_pre(s1, witness));
            if Self::complete_step(s1, witness, e2, proof, e3) {
                let q = G::order() as int;
                assert(e2 == Self::transcript_ops(prefix, public, proof));
                assert(proof.commitment@ == shift3(scale3(public.basis(), s1.nonce_r(), q), s1.nonce_m(), q));
                assert(Self::produced_on(public, witness, proof, prefix));
                assert(Self::proof_shaped(proof));
                assert(e3 == Self::relation_entries(proof, e1 + Self::proof_entries(proof)));
            }
        }
    }

    /// Absorb the public statement.
    fn absorb_public(public: PlaintextPublicBorrowed<'a, G>, tr: &mut Transcript)
        ensures
            transcript_entries(*final(tr)) == transcript_entries(*old(tr)) + Self::public_entries(public),
            transcript_entries(*final(tr)) == transcript_entries(*old(tr)) + public.public_ops(),
    {
        tr.append_point::<G>(&LABEL_H, &public.pk.h);
        tr.append_point::<G>(&LABEL_G1, &public.params.g1);
        tr.append_point::<G>(&LABEL_G2, &public.params.g2);
        tr.append_ciphertext::<G>(&LABEL_CIPHERTEXT, public.ct);
    }

    /// Draw the nonces.
    fn init(public: PlaintextPublicBorrowed<'a, G>, rng: &mut ChaCha20Rng) -> (r: PlaintextState<G>)
        ensures
            Self::fresh(public, r),
            r.committed() is None,
            0 <= r.nonce_r() < G::order(),
            0 <= r.nonce_m() < G::order(),
    {
        let t_r = SecretScalar::new(rng);
        let t_m = SecretScalar::new(rng);
        PlaintextState { t_r, t_m, commitment: None }
    }

    /// Commit to `I = [t_r](G1, G2, H) + (0, 0, [t_m]generator)` and absorb it.
    fn commit(
        public: PlaintextPublicBorrowed<'a, G>,
        state: &mut PlaintextState<G>,
        witness: &PlaintextWitness<G>,
        tr: &mut Transcript,
    )
        ensures
            Self::commit_step(public, *old(state), *final(state), *witness, transcript_entries(*old(tr)), transcript_entries(*final(tr))),
            final(state).nonce_r() == old(state).nonce_r(),
            final(state).nonce_m() == old(state).nonce_m(),
            final(state).committed() matches Some(i) && i@ == shift3(
                scale3(public.basis(), old(state).nonce_r(), G::order() as int),
                old(state).nonce_m(),
                G::order() as int,
            ) && transcript_entries(*final(tr)) == transcript_entries(*old(tr)).push(ct_op::<G>(LABEL_COMMITMENT@, i)),
    {
        proof {
            assert(Self::commit_pre(public, *state, *witness));
        }
        let mut i = public.pk.to_ciphertext(public.params).mul_scalar(state.t_r.expose());
        let gm = G::point_mul(&G::generator(), state.t_m.expose());
        proof {
            SecretScalar::lemma_view(state.t_m);
            lemma_mod_small(state.t_m@, G::order() as int);
        }
        i.blinded_point = G::point_add(&i.blinded_point, &gm);
        tr.append_ciphertext::<G>(&LABEL_COMMITMENT, &i);
        state.commitment = Some(i);
    }

    /// Derive the challenge and answer `z_r = c r + t_r`, `z_m = c m + t_m`.
    fn complete(state: PlaintextState<G>, witness: &PlaintextWitness<G>, tr: &mut Transcript) -> (r: Plaintext<G>)
        ensures
            Self::complete_step(state, *witness, transcript_entries(*old(tr)), r, transcript_entries(*final(tr))),
            Some(r.commitment) == state.committed(),
            ({
                let c = G::spec_challenge(transcript_entries(*old(tr)), LABEL_CHALLENGE@);
                let q = G::order() as int;
                &&& G::scalar_val(r.z_r) == (c * witness.r@ + state.nonce_r()) % q
                &&& G::scalar_val(r.z_m) == (c * witness.m@ + state.nonce_m()) % q
            }),
            transcript_entries(*final(tr)) == transcript_entries(*old(tr)).push(challenge_op::<G>(LABEL_CHALLENGE@)),
    {
        proof {
            assert(Self::complete_pre(state, *witness));
        }
        let c = tr.challenge_scalar::<G>(&LABEL_CHALLENGE);
        let z_r = G::scalar_add(&G::scalar_mul(&c, witness.r.expose()), state.t_r.expose());
        let z_m = G::scalar_add(&G::scalar_mul(&c, witness.m.expose()), state.t_m.expose());
        proof {
            G::lemma_order();
            lemma_add_mod_both(G::scalar_val(c) * witness.r@, state.nonce_r(), G::order() as int);
            lemma_add_mod_both(G::scalar_val(c) * witness.m@, state.nonce_m(), G::order() as int);
        }
        let commitment = match state.commitment {
            Some(i) => i,
            None => Ciphertext::zero(),
        };
        Plaintext { commitment, z_r, z_m }
    }

    /// Absorb the proof's commitment.
    fn update_transcript(proof: &Plaintext<G>, tr: &mut Transcript) -> (r: Result<(), Error>)
        ensures
            transcript_entries(*final(tr)) == transcript_entries(*old(tr)) + Self::proof_entries(*proof),
            r is Ok,
            transcript_entries(*final(tr)) == transcript_entries(*old(tr)) + proof.proof_ops(),
    {
        proof {
            assert(Self::proof_shaped(*proof));
        }
        tr.append_ciphertext::<G>(&LABEL_COMMITMENT, &proof.commitment);
        Ok(())
    }

    /// Derive the challenge and check the relation.
    fn verify_relation(public: PlaintextPublicBorrowed<'a, G>, proof: &Plaintext<G>, tr: &mut Transcript) -> (r: Result<(), Error>)
        ensures
            r == Self::relation(public, *proof, transcript_entries(*old(tr))) && transcript_entries(*final(tr)) == Self::relation_entries(*proof, transcript_entries(*old(tr))),
            r == Self::verify_result(public, *proof, G::spec_challenge(transcript_entries(*old(tr)), LABEL_CHALLENGE@)),
            transcript_entries(*final(tr)) == transcript_entries(*old(tr)).push(challenge_op::<G>(LABEL_CHALLENGE@)),
    {
        proof {
            assert(Self::proof_shaped(*proof));
        }
        let c = tr.challenge_scalar::<G>(&LABEL_CHALLENGE);
        let mut lhs = public.pk.to_ciphertext(public.params).mul_scalar(&proof.z_r);
        let gz = G::point_mul(&G::generator(), &proof.z_m);
        proof {
            G::lemma_scalar_facts(proof.z_m);
            lemma_mod_small(G::scalar_val(proof.z_m), G::order() as int);
        }
        lhs.blinded_point = G::point_add(&lhs.blinded_point, &gz);
        let rhs = proof.commitment.add_ct(public.ct.mul_scalar(&c));
        if lhs.ct_eq(&rhs) {
            Ok(())
        } else {
            Err(Error::CommitmentMismatch)
        }
    }
}

/// Completeness: a proof that the prover makes for `C = Enc([m]generator; r)`
/// with witness `(r, m)` is accepted under the same challenge.
pub proof fn lemma_plaintext_complete<G: Group>(public: PlaintextPublicBorrowed<G>, r: int, m: int, proof: Plaintext<G>, c: int)
    requires
        PlaintextProtocol::<G>::produced(public, r, m, proof, c),
        public.ct@ == enc_val::<G>(public.params@, public.pk@, m, r),
    ensures
        PlaintextProtocol::<G>::verify_result(public, proof, c) == Ok::<(), Error>(()),
{
    G::lemma_order();
    let q = G::order() as int;
    let b = public.basis();
    let (t_r, t_m) = choose|t_r: int, t_m: int|
        0 <= t_r < q && 0 <= t_m < q && proof.commitment@ == #[trigger] shift3(scale3(public.basis(), t_r, q), t_m, q)
            && G::scalar_val(proof.z_r) == (c * r + t_r) % q && G::scalar_val(proof.z_m) == (c * m + t_m) % q;
    lemma_response(b.0, r, t_r, c, q);
    lemma_response(b.1, r, t_r, c, q);
    lemma_response_pair(b.2, 1, r, m, t_r, t_m, c, q);
    G::lemma_scalar_facts(proof.z_m);
    lemma_mod_small(t_m, q);
    lemma_mod_small(G::scalar_val(proof.z_m), q);
    assert(1 * t_m == t_m && 1 * m == m && 1 * ((c * m + t_m) % q) == (c * m + t_m) % q);
}

/// A proof made by `Plaintext::prove` with the randomness and the message
/// of a ciphertext is accepted by `Plaintext::verify`.
pub proof fn lemma_plaintext_prove_verify<G: Group>(
    public: PlaintextPublicBorrowed<G>,
    witness: PlaintextWitness<G>,
    rng: &mut ChaCha20Rng,
    proof: Plaintext<G>,
    res: Result<(), Error>,
)
    requires
        public.ct@ == enc_val::<G>(public.params@, public.pk@, witness.m@, witness.r@),
        call_ensures(Plaintext::<G>::prove, (public, &witness, rng), proof),
        call_ensures(Plaintext::<G>::verify, (&proof, public), res),
    ensures
        res == Ok::<(), Error>(()),
{
    lemma_plaintext_complete(
        public,
        witness.r@,
        witness.m@,
        proof,
        PlaintextProtocol::<G>::challenge(fresh_ops(), public, proof),
    );
}

} // verus!
