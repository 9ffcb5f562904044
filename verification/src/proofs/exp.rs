//! Proof of knowledge of the exponent of an ElGamal plaintext over a public
//! base.
//!
//! For `C = Enc([pt]B; r)` the prover commits to
//! `I = [t_1](G1, G2, H) + (0, 0, [t_2]B)`, derives the challenge `c` and
//! answers `z_1 = c r + t_1`, `z_2 = c pt + t_2`; the verifier checks
//! `[z_1](G1, G2, H) + (0, 0, [z_2]B) == I + [c]C`.
use vstd::prelude::*;
use core::marker::PhantomData;
use merlin::Transcript;
use rand_chacha::ChaCha20Rng;
use crate::error::Error;
use crate::group::Group;
use crate::zq::{scale3, add3, shift3, lemma_add_mod_both, lemma_response, lemma_response_pair};
use crate::elgamal::ciphertext::{Ciphertext, enc_val};
use crate::elgamal::keys::{ElGamalParams, PublicKey, SecretScalar};
use crate::transcript::{TranscriptOp, transcript_entries, transcript_new};
use crate::proofs::{SigmaProtocol, TranscriptForGroup, msg_op, point_op, ct_op, challenge_op, start_op, fresh_ops};
use crate::proofs::labels::{EXP_DOMAIN, LABEL_BASE, LABEL_PK, LABEL_CIPHERTEXT, LABEL_COMMITMENT, LABEL_CHALLENGE, LABEL_EMPTY};

verus! {

/// Borrowed public inputs of the protocol.
#[derive(Clone, Copy, Debug)]
pub struct ExpPublicBorrowed<'a, G: Group> {
    pub public_key: &'a PublicKey<G>,
    pub params: &'a ElGamalParams<G>,
    pub ciphertext: &'a Ciphertext<G>,
    pub base: &'a G::Point,
}

impl<'a, G: Group> ExpPublicBorrowed<'a, G> {
    pub fn new(
        public_key: &'a PublicKey<G>,
        params: &'a ElGamalParams<G>,
        ciphertext: &'a Ciphertext<G>,
        base: &'a G::Point,
    ) -> (r: Self)
        ensures
            r.public_key == public_key,
            r.params == params,
            r.ciphertext == ciphertext,
            r.base == base,
    {
        ExpPublicBorrowed { public_key, params, ciphertext, base }
    }

    /// The basis `(G1, G2, H)` over discrete logarithms.
    pub open spec fn basis(self) -> (int, int, int) {
        (self.params@.0, self.params@.1, self.public_key@)
    }

    /// The discrete logarithm of the base.
    pub open spec fn base_val(self) -> int {
        G::point_val(*self.base)
    }

    /// The transcript entries of the public statement, in order.
    pub open spec fn public_ops(self) -> Seq<TranscriptOp> {
        seq![
            point_op::<G>(LABEL_BASE@, *self.base),
            msg_op(LABEL_PK@, G::point_bytes(self.public_key.h)),
            ct_op::<G>(LABEL_CIPHERTEXT@, *self.ciphertext),
        ]
    }
}

/// The witness: the encryption randomness and the exponent of the plaintext.
#[derive(Debug)]
pub struct ExpWitness<G: Group> {
    pub random_scalar: SecretScalar<G>,
    pub pt: SecretScalar<G>,
}

impl<G: Group> ExpWitness<G> {
    pub fn new(random_scalar: SecretScalar<G>, pt: SecretScalar<G>) -> (r: Self)
        ensures
            r.random_scalar@ == random_scalar@,
            r.pt@ == pt@,
    {
        ExpWitness { random_scalar, pt }
    }
}

/// Prover ephemeral state: both nonces and the commitment made from them.
#[derive(Debug)]
pub struct ExpState<G: Group> {
    randomness1: SecretScalar<G>,
    randomness2: SecretScalar<G>,
    commitment: Ciphertext<G>,
}

impl<G: Group> ExpState<G> {
    pub closed spec fn nonce1(self) -> int {
        self.randomness1@
    }

    pub closed spec fn nonce2(self) -> int {
        self.randomness2@
    }

    pub closed spec fn committed(self) -> Ciphertext<G> {
        self.commitment
    }
}

/// Exponent-knowledge proof.
#[derive(Debug, Clone, PartialEq)]
pub struct ExpProof<G: Group> {
    /// `I = [t_1](G1, G2, H) + (0, 0, [t_2]B)`.
    pub commitment: Ciphertext<G>,
    /// `z_1 = c r + t_1`.
    pub response1: G::Scalar,
    /// `z_2 = c pt + t_2`.
    pub response2: G::Scalar,
}

impl<G: Group> ExpProof<G> {
    /// The transcript entries of the proof's commitment.
    pub open spec fn proof_ops(self) -> Seq<TranscriptOp> {
        seq![ct_op::<G>(LABEL_COMMITMENT@, self.commitment)]
    }

    /// Prove with a fresh transcript.
    pub fn prove(public: ExpPublicBorrowed<'_, G>, witness: &ExpWitness<G>, rng: &mut ChaCha20Rng) -> (r: Self)
        ensures
            ExpProtocol::<G>::produced(
                public,
                witness.random_scalar@,
                witness.pt@,
                r,
                ExpProtocol::<G>::challenge(fresh_ops(), public, r),
            ),
    {
        let mut tr = transcript_new(&LABEL_EMPTY);
        assert(LABEL_EMPTY@ == Seq::<u8>::empty());
        ExpProtocol::<G>::prove(public, witness, &mut tr, rng)
    }

    /// Verify with a fresh transcript.
    pub fn verify(&self, public: ExpPublicBorrowed<'_, G>) -> (r: Result<(), Error>)
        ensures
            r == ExpProtocol::<G>::verify_result(public, *self, ExpProtocol::<G>::challenge(fresh_ops(), public, *self)),
    {
        let mut tr = transcript_new(&LABEL_EMPTY);
        assert(LABEL_EMPTY@ == Seq::<u8>::empty());
        ExpProtocol::<G>::verify(public, self, &mut tr)
    }
}

/// The exponent-knowledge protocol.
pub struct ExpProtocol<G: Group>(PhantomData<G>);

/// The verifier's relation `[z_1](G1, G2, H) + (0, 0, [z_2]B) == I + [c]C`
/// over discrete logarithms.
pub open spec fn exp_holds<G: Group>(
    basis: (int, int, int),
    base: int,
    ct: (int, int, int),
    commitment: (int, int, int),
    z1: int,
    z2: int,
    c: int,
) -> bool {
    let q = G::order() as int;
    shift3(scale3(basis, z1, q), (base * z2) % q, q) == add3(commitment, scale3(ct, c, q), q)
}

impl<G: Group> ExpProtocol<G> {
    /// The entries of a transcript that held `prefix` once the proof's
    /// public statement and commitment are absorbed.
    pub open spec fn transcript_ops(prefix: Seq<TranscriptOp>, public: ExpPublicBorrowed<G>, proof: ExpProof<G>) -> Seq<TranscriptOp> {
        prefix.push(start_op(EXP_DOMAIN@)) + public.public_ops() + proof.proof_ops()
    }

    /// The challenge derived on a transcript that held `prefix`.
    pub open spec fn challenge(prefix: Seq<TranscriptOp>, public: ExpPublicBorrowed<G>, proof: ExpProof<G>) -> int {
        G::spec_challenge(Self::transcript_ops(prefix, public, proof), LABEL_CHALLENGE@)
    }

    /// What the verifier answers under challenge `c`.
    pub open spec fn verify_result(public: ExpPublicBorrowed<G>, proof: ExpProof<G>, c: int) -> Result<(), Error> {
        if exp_holds::<G>(
            public.basis(),
            public.base_val(),
            public.ciphertext@,
            proof.commitment@,
            G::scalar_val(proof.response1),
            G::scalar_val(proof.response2),
            c,
        ) {
            Ok(())
        } else {
            Err(Error::CommitmentMismatch)
        }
    }

    /// Whether `proof` is what the prover answers with witness `(r, pt)`
    /// under challenge `c`, for some nonces.
    pub open spec fn produced(public: ExpPublicBorrowed<G>, r: int, pt: int, proof: ExpProof<G>, c: int) -> bool {
        let q = G::order() as int;
        exists|t1: int, t2: int|
            0 <= t1 < q && 0 <= t2 < q && proof.commitment@ == #[trigger] shift3(
                scale3(public.basis(), t1, q),
                (public.base_val() * t2) % q,
                q,
            ) && G::scalar_val(proof.response1) == (c * r + t1) % q && G::scalar_val(proof.response2) == (c * pt + t2)
                % q
    }
}

impl<'a, G: Group> SigmaProtocol<'a> for ExpProtocol<G> {
    type Public = ExpPublicBorrowed<'a, G>;

    type Witness = ExpWitness<G>;

    type Proof = ExpProof<G>;

    type State = ExpState<G>;

    open spec fn domain() -> Seq<u8> {
        EXP_DOMAIN@
    }

    fn domain_label() -> (r: &'static [u8]) {
        &EXP_DOMAIN
    }

    open spec fn public_entries(public: ExpPublicBorrowed<'a, G>) -> Seq<TranscriptOp> {
        public.public_ops()
    }

    open spec fn proof_shaped(proof: ExpProof<G>) -> bool {
        true
    }

    open spec fn proof_entries(proof: ExpProof<G>) -> Seq<TranscriptOp> {
        proof.proof_ops()
    }

    open spec fn relation(public: ExpPublicBorrowed<'a, G>, proof: ExpProof<G>, entries: Seq<TranscriptOp>) -> Result<(), Error> {
        Self::verify_result(public, proof, G::spec_challenge(entries, LABEL_CHALLENGE@))
    }

    open spec fn relation_entries(proof: ExpProof<G>, entries: Seq<TranscriptOp>) -> Seq<TranscriptOp> {
        entries.push(
            challenge_op::<G>(LABEL_CHALLENGE@),
        )
    }

    open spec fn prove_pre(public: ExpPublicBorrowed<'a, G>, witness: ExpWitness<G>) -> bool {
        true
    }

    open spec fn fresh(public: ExpPublicBorrowed<'a, G>, state: ExpState<G>) -> bool {
        &&& 0 <= state.nonce1() < G::order()
        &&& 0 <= state.nonce2() < G::order()
        &&& state.committed()@ == shift3(
            scale3(public.basis(), state.nonce1(), G::order() as int),
            (public.base_val() * state.nonce2()) % G::order() as int,
            G::order() as int,
        )
    }

    open spec fn commit_pre(public: ExpPublicBorrowed<'a, G>, state: ExpState<G>, witness: ExpWitness<G>) -> bool {
        true
    }

    open spec fn commit_step(
        public: ExpPublicBorrowed<'a, G>,
        before: ExpState<G>,
        after: ExpState<G>,
        witness: ExpWitness<G>,
        entries_before: Seq<TranscriptOp>,
        entries_after: Seq<TranscriptOp>,
    ) -> bool {
        &&& after == before
        &&& entries_after == entries_before.push(
            ct_op::<G>(LABEL_COMMITMENT@, before.committed()),
        )
    }

    open spec fn complete_pre(state: ExpState<G>, witness: ExpWitness<G>) -> bool {
        true
    }

    open spec fn complete_step(
        state: ExpState<G>,
        witness: ExpWitness<G>,
        entries_before: Seq<TranscriptOp>,
        proof: ExpProof<G>,
        entries_after: Seq<TranscriptOp>,
    ) -> bool {
        &&& proof.commitment == state.committed()
        &&& ({
            let c = G::spec_challenge(entries_before, LABEL_CHALLENGE@);
            let q = G::order() as int;
            &&& G::scalar_val(proof.response1) == (c * witness.random_scalar@ + state.nonce1()) % q
            &&& G::scalar_val(proof.response2) == (c * witness.pt@ + state.nonce2()) % q
        })
        &&& entries_after == entries_before.push(
            challenge_op::<G>(LABEL_CHALLENGE@),
        )
    }

    open spec fn produced_on(public: ExpPublicBorrowed<'a, G>, witness: ExpWitness<G>, proof: ExpProof<G>, prefix: Seq<TranscriptOp>) -> bool {
        Self::produced(
            public,
            witness.random_scalar@,
            witness.pt@,
            proof,
            Self::challenge(prefix, public, proof),
        )
    }

    proof fn lemma_prover_flow(
        public: ExpPublicBorrowed<'a, G>,
        witness: ExpWitness<G>,
        s0: ExpState<G>,
        s1: ExpState<G>,
        prefix: Seq<TranscriptOp>,
        e2: Seq<TranscriptOp>,
        proof: ExpProof<G>,
        e3: Seq<TranscriptOp>,
    ) {
        let e1 = prefix.push(start_op(Self::domain())) + Self::public_entries(public);
        assert(Self::prove_pre(public, witness));
        assert(Self::fresh(public, s0));
        assert(Self::commit_pre(public, s0, witness));
        if Self::commit_step(public, s0, s1, witness, e1, e2) {
            assert(Self::complete_pre(s1, witness));
            if Self::complete_step(s1, witness, e2, proof, e3) {
                assert(e2 == Self::transcript_ops(prefix, public, proof));
                assert(Self::produced_on(public, witness, proof, prefix));
                assert(Self::proof_shaped(proof));
                assert(e3 == Self::relation_entries(proof, e1 + Self::proof_entries(proof)));
            }
        }
    }

    /// Absorb the public statement.
    fn absorb_public(public: ExpPublicBorrowed<'a, G>, transcript: &mut Transcript)
        ensures
            transcript_entries(*final(transcript)) == transcript_entries(*old(transcript)) + Self::public_entries(public),
            transcript_entries(*final(transcript)) == transcript_entries(*old(transcript)) + public.public_ops(),
    {
        transcript.append_point::<G>(&LABEL_BASE, public.base);
        let pk_bytes = public.public_key.to_bytes();
        proof {
            G::lemma_point_facts(public.public_key.h);
        }
        transcript.append_bytes(&LABEL_PK, pk_bytes.as_slice());
        transcript.append_ciphertext::<G>(&LABEL_CIPHERTEXT, public.ciphertext);
    }

    /// Draw the nonces and make the commitment.
    fn init(public: ExpPublicBorrowed<'a, G>, rng: &mut ChaCha20Rng) -> (r: ExpState<G>)
        ensures
            Self::fresh(public, r),
            0 <= r.nonce1() < G::order(),
            0 <= r.nonce2() < G::order(),
            r.committed()@ == shift3(
                scale3(public.basis(), r.nonce1(), G::order() as int),
                (public.base_val() * r.nonce2()) % G::order() as int,
                G::order() as int,
            ),
    {
        let randomness1 = SecretScalar::new(rng);
        let randomness2 = SecretScalar::new(rng);
        let mut commitment = public.public_key.to_ciphertext(public.params).mul_scalar(randomness1.expose());
        let shift = G::point_mul(public.base, randomness2.expose());
        commitment.blinded_point = G::point_add(&commitment.blinded_point, &shift);
        ExpState { randomness1, randomness2, commitment }
    }

    /// Absorb the commitment.
    fn commit(public: ExpPublicBorrowed<'a, G>, state: &mut ExpState<G>, witness: &ExpWitness<G>, transcript: &mut Transcript)
        ensures
            Self::commit_step(public, *old(state), *final(state), *witness, transcript_entries(*old(transcript)), transcript_entries(*final(transcript))),
            *final(state) == *old(state),
            transcript_entries(*final(transcript)) == transcript_entries(*old(transcript)).push(
                ct_op::<G>(LABEL_COMMITMENT@, old(state).committed()),
            ),
    {
        proof {
            assert(Self::commit_pre(public, *state, *witness));
        }
        transcript.append_ciphertext::<G>(&LABEL_COMMITMENT, &state.commitment);
    }

    /// Derive the challenge and answer `z_1 = c r + t_1`, `z_2 = c pt + t_2`.
    fn complete(state: ExpState<G>, witness: &ExpWitness<G>, transcript: &mut Transcript) -> (r: ExpProof<G>)
        ensures
            Self::complete_step(state, *witness, transcript_entries(*old(transcript)), r, transcript_entries(*final(transcript))),
            r.commitment == state.committed(),
            ({
                let c = G::spec_challenge(transcript_entries(*old(transcript)), LABEL_CHALLENGE@);
                let q = G::order() as int;
                &&& G::scalar_val(r.response1) == (c * witness.random_scalar@ + state.nonce1()) % q
                &&& G::scalar_val(r.response2) == (c * witness.pt@ + state.nonce2()) % q
            }),
            transcript_entries(*final(transcript)) == transcript_entries(*old(transcript)).push(
                challenge_op::<G>(LABEL_CHALLENGE@),
            ),
    {
        proof {
            assert(Self::complete_pre(state, *witness));
        }
        let c = transcript.challenge_scalar::<G>(&LABEL_CHALLENGE);
        let response1 = G::scalar_add(&G::scalar_mul(&c, witness.random_scalar.expose()), state.randomness1.expose());
        let response2 = G::scalar_add(&G::scalar_mul(&c, witness.pt.expose()), state.randomness2.expose());
        proof {
            G::lemma_order();
            lemma_add_mod_both(G::scalar_val(c) * witness.random_scalar@, state.nonce1(), G::order() as int);
            lemma_add_mod_both(G::scalar_val(c) * witness.pt@, state.nonce2(), G::order() as int);
        }
        ExpProof { commitment: state.commitment, response1, response2 }
    }

    /// Absorb the proof's commitment.
    fn update_transcript(proof: &ExpProof<G>, transcript: &mut Transcript) -> (r: Result<(), Error>)
        ensures
            transcript_entries(*final(transcript)) == transcript_entries(*old(transcript)) + Self::proof_entries(*proof),
            r is Ok,
            transcript_entries(*final(transcript)) == transcript_entries(*old(transcript)) + proof.proof_ops(),
    {
        proof {
            assert(Self::proof_shaped(*proof));
        }
        transcript.append_ciphertext::<G>(&LABEL_COMMITMENT, &proof.commitment);
        Ok(())
    }

    /// Derive the challenge and check the relation.
    fn verify_relation(public: ExpPublicBorrowed<'a, G>, proof: &ExpProof<G>, transcript: &mut Transcript) -> (r: Result<(), Error>)
        ensures
            r == Self::relation(public, *proof, transcript_entries(*old(transcript))) && transcript_entries(*final(transcript)) == Self::relation_entries(*proof, transcript_entries(*old(transcript))),
            r == Self::verify_result(public, *proof, G::spec_challenge(transcript_entries(*old(transcript)), LABEL_CHALLENGE@)),
            transcript_entries(*final(transcript)) == transcript_entries(*old(transcript)).push(
                challenge_op::<G>(LABEL_CHALLENGE@),
            ),
    {
        proof {
            assert(Self::proof_shaped(*proof));
        }
        let c = transcript.challenge_scalar::<G>(&LABEL_CHALLENGE);
        let mut lhs = public.public_key.to_ciphertext(public.params).mul_scalar(&proof.response1);
        let shift = G::point_mul(public.base, &proof.response2);
        lhs.blinded_point = G::point_add(&lhs.blinded_point, &shift);
        let rhs = proof.commitment.add_ct(public.ciphertext.mul_scalar(&c));
        if lhs.ct_eq(&rhs) {
            Ok(())
        } else {
            Err(Error::CommitmentMismatch)
        }
    }
}

/// Completeness: a proof that the prover makes for `C = Enc([pt]B; r)` with
/// witness `(r, pt)` is accepted under the same challenge.
pub proof fn lemma_exp_complete<G: Group>(public: ExpPublicBorrowed<G>, r: int, pt: int, proof: ExpProof<G>, c: int)
    requires
        ExpProtocol::<G>::produced(public, r, pt, proof, c),
        public.ciphertext@ == enc_val::<G>(public.params@, public.public_key@, public.base_val() * pt, r),
    ensures
        ExpProtocol::<G>::verify_result(public, proof, c) == Ok::<(), Error>(()),
{
    G::lemma_order();
    let q = G::order() as int;
    let b = public.basis();
    let (t1, t2) = choose|t1: int, t2: int|
        0 <= t1 < q && 0 <= t2 < q && proof.commitment@ == #[trigger] shift3(
            scale3(public.basis(), t1, q),
            (public.base_val() * t2) % q,
            q,
        ) && G::scalar_val(proof.response1) == (c * r + t1) % q && G::scalar_val(proof.response2) == (c * pt + t2) % q;
    lemma_response(b.0, r, t1, c, q);
    lemma_response(b.1, r, t1, c, q);
    lemma_response_pair(b.2, public.base_val(), r, pt, t1, t2, c, q);
}

/// A proof made by `ExpProof::prove` with the randomness and the exponent
/// of an exponential ciphertext is accepted by `ExpProof::verify`.
pub proof fn lemma_exp_prove_verify<G: Group>(
    public: ExpPublicBorrowed<G>,
    witness: ExpWitness<G>,
    rng: &mut ChaCha20Rng,
    proof: ExpProof<G>,
    res: Result<(), Error>,
)
    requires
        public.ciphertext@ == enc_val::<G>(
            public.params@,
            public.public_key@,
            public.base_val() * witness.pt@,
            witness.random_scalar@,
        ),
        call_ensures(ExpProof::<G>::prove, (public, &witness, rng), proof),
        call_ensures(ExpProof::<G>::verify, (&proof, public), res),
    ensures
        res == Ok::<(), Error>(()),
{
    lemma_exp_complete(
        public,
        witness.random_scalar@,
        witness.pt@,
        proof,
        ExpProtocol::<G>::challenge(fresh_ops(), public, proof),
    );
}

} // verus!
