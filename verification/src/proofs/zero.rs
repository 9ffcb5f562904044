//! Zero-plaintext proof for ElGamal ciphertexts.
//!
//! Given parameters `(G1, G2)` and a public key `H`, prove that a ciphertext
//! `C` encrypts the identity, without revealing its randomness `r`.
//! The prover commits to `I = [t](G1, G2, H)`, derives the challenge `c` and
//! answers `z = t + c r`; the verifier checks `[z](G1, G2, H) == I + [c]C`.
use vstd::prelude::*;
use core::marker::PhantomData;
use merlin::Transcript;
use rand_chacha::ChaCha20Rng;
use crate::error::Error;
use crate::group::Group;
use crate::zq::{scale3, add3, lemma_add_mod_both, lemma_response};
use crate::elgamal::ciphertext::{Ciphertext, enc_val};
use crate::elgamal::keys::{ElGamalParams, PublicKey, SecretScalar};
use crate::transcript::{TranscriptOp, transcript_entries, transcript_new};
use crate::proofs::{SigmaProtocol, TranscriptForGroup, point_op, ct_op, challenge_op, start_op, fresh_ops};
use crate::proofs::labels::{ZERO_DOMAIN, LABEL_H, LABEL_G1, LABEL_G2, LABEL_CT, LABEL_T_PK, LABEL_CHALLENGE, LABEL_EMPTY};

verus! {

/// Borrowed public inputs of the protocol.
#[derive(Debug, Clone, Copy)]
pub struct ZeroPublicBorrowed<'a, G: Group> {
    /// ElGamal public key.
    pub pk: &'a PublicKey<G>,
    /// ElGamal bases `G1` and `G2`.
    pub params: &'a ElGamalParams<G>,
    /// Ciphertext proved to encrypt the identity.
    pub ct: &'a Ciphertext<G>,
}

impl<'a, G: Group> ZeroPublicBorrowed<'a, G> {
    pub fn new(pk: &'a PublicKey<G>, params: &'a ElGamalParams<G>, ct: &'a Ciphertext<G>) -> (r: Self)
        ensures
            r.pk == pk,
            r.params == params,
            r.ct == ct,
    {
        ZeroPublicBorrowed { pk, params, ct }
    }

    /// The basis `(G1, G2, H)` over discrete logarithms.
    pub open spec fn basis(self) -> (int, int, int) {
        (self.params@.0, self.params@.1, self.pk@)
    }

    /// The transcript entries of the public statement, in order.
    pub open spec fn public_ops(self) -> Seq<TranscriptOp> {
        seq![
            point_op::<G>(LABEL_H@, self.pk.h),
            point_op::<G>(LABEL_G1@, self.params.g1),
            point_op::<G>(LABEL_G2@, self.params.g2),
            ct_op::<G>(LABEL_CT@, *self.ct),
        ]
    }
}

/// Zero-plaintext proof.
#[derive(Debug, Clone, Copy, PartialEq)]
pub struct Zero<G: Group> {
    /// Commitment `I = [t](G1, G2, H)`.
    pub commitment: Ciphertext<G>,
    /// Response `z = t + c r`.
    pub response: G::Scalar,
}

impl<G: Group> Zero<G> {
    /// The transcript entries of the proof's commitment.
    pub open spec fn proof_ops(self) -> Seq<TranscriptOp> {
        seq![ct_op::<G>(LABEL_T_PK@, self.commitment)]
    }

    /// Prove with a fresh transcript.
    pub fn prove(public: ZeroPublicBorrowed<'_, G>, witness: &SecretScalar<G>, rng: &mut ChaCha20Rng) -> (r: Self)
        ensures
            ZeroProtocol::<G>::produced(
                public,
                witness@,
                r,
                ZeroProtocol::<G>::challenge(fresh_ops(), public, r),
            ),
    {
        let mut tr = transcript_new(&LABEL_EMPTY);
        assert(LABEL_EMPTY@ == Seq::<u8>::empty());
        ZeroProtocol::<G>::prove(public, witness, &mut tr, rng)
    }

    /// Verify with a fresh transcript.
    pub fn verify(&self, public: ZeroPublicBorrowed<'_, G>) -> (r: Result<(), Error>)
        ensures
            r == ZeroProtocol::<G>::verify_result(public, *self, ZeroProtocol::<G>::challenge(fresh_ops(), public, *self)),
    {
        let mut tr = transcript_new(&LABEL_EMPTY);
        assert(LABEL_EMPTY@ == Seq::<u8>::empty());
        ZeroProtocol::<G>::verify(public, self, &mut tr)
    }
}

/// Prover ephemeral state: the nonce `t` and the commitment once made.
#[derive(Debug)]
pub struct ZeroState<G: Group> {
    t: SecretScalar<G>,
    commitment: Option<Ciphertext<G>>,
}

impl<G: Group> ZeroState<G> {
    /// The nonce `t`.
    pub closed spec fn nonce(self) -> int {
        self.t@
    }

    /// The commitment, once `commit` has run.
    pub closed spec fn committed(self) -> Option<Ciphertext<G>> {
        self.commitment
    }
}

/// The zero-plaintext protocol.
pub struct ZeroProtocol<G: Group>(PhantomData<G>);

/// The verifier's relation `[z](G1, G2, H) == I + [c]C` over discrete
/// logarithms.
pub open spec fn zero_holds<G: Group>(basis: (int, int, int), ct: (int, int, int), commitment: (int, int, int), z: int, c: int) -> bool {
    let q = G::order() as int;
    scale3(basis, z, q) == add3(commitment, scale3(ct, c, q), q)
}

impl<G: Group> ZeroProtocol<G> {
    /// The entries of a transcript that held `prefix` once the proof's
    /// public statement and commitment are absorbed.
    pub open spec fn transcript_ops(prefix: Seq<TranscriptOp>, public: ZeroPublicBorrowed<G>, proof: Zero<G>) -> Seq<TranscriptOp> {
        prefix.push(start_op(ZERO_DOMAIN@)) + public.public_ops() + proof.proof_ops()
    }

    /// The challenge derived on a transcript that held `prefix`.
    pub open spec fn challenge(prefix: Seq<TranscriptOp>, public: ZeroPublicBorrowed<G>, proof: Zero<G>) -> int {
        G::spec_challenge(Self::transcript_ops(prefix, public, proof), LABEL_CHALLENGE@)
    }

    /// What the verifier answers under challenge `c`.
    pub open spec fn verify_result(public: ZeroPublicBorrowed<G>, proof: Zero<G>, c: int) -> Result<(), Error> {
        if zero_holds::<G>(public.basis(), public.ct@, proof.commitment@, G::scalar_val(proof.response), c) {
            Ok(())
        } else {
            Err(Error::CommitmentMismatch)
        }
    }

    /// Whether `proof` is what the prover answers with witness `w` under
    /// challenge `c`, for some nonce.
    pub open spec fn produced(public: ZeroPublicBorrowed<G>, w: int, proof: Zero<G>, c: int) -> bool {
        let q = G::order() as int;
        exists|t: int|
            0 <= t < q && proof.commitment@ == #[trigger] scale3(public.basis(), t, q) && G::scalar_val(proof.response)
                == (c * w + t) % q
    }
}

impl<'a, G: Group> SigmaProtocol<'a> for ZeroProtocol<G> {
    type Public = ZeroPublicBorrowed<'a, G>;

    type Witness = SecretScalar<G>;

    type Proof = Zero<G>;

    type State = ZeroState<G>;

    open spec fn domain() -> Seq<u8> {
        ZERO_DOMAIN@
    }

    fn domain_label() -> (r: &'static [u8]) {
        &ZERO_DOMAIN
    }

    open spec fn public_entries(public: ZeroPublicBorrowed<'a, G>) -> Seq<TranscriptOp> {
        public.public_ops()
    }

    open spec fn proof_shaped(proof: Zero<G>) -> bool {
        true
    }

    open spec fn proof_entries(proof: Zero<G>) -> Seq<TranscriptOp> {
        proof.proof_ops()
    }

    open spec fn relation(public: ZeroPublicBorrowed<'a, G>, proof: Zero<G>, entries: Seq<TranscriptOp>) -> Result<(), Error> {
        Self::verify_result(public, proof, G::spec_challenge(entries, LABEL_CHALLENGE@))
    }

    open spec fn relation_entries(proof: Zero<G>, entries: Seq<TranscriptOp>) -> Seq<TranscriptOp> {
        entries.push(challenge_op::<G>(LABEL_CHALLENGE@))
    }

    open spec fn prove_pre(public: ZeroPublicBorrowed<'a, G>, witness: SecretScalar<G>) -> bool {
        true
    }

    open spec fn fresh(public: ZeroPublicBorrowed<'a, G>, state: ZeroState<G>) -> bool {
        state.committed() is None && 0 <= state.nonce() < G::order()
    }

    open spec fn commit_pre(public: ZeroPublicBorrowed<'a, G>, state: ZeroState<G>, witness: SecretScalar<G>) -> bool {
        true
    }

    open spec fn commit_step(
        public: ZeroPublicBorrowed<'a, G>,
        before: ZeroState<G>,
        after: ZeroState<G>,
        witness: SecretScalar<G>,
        entries_before: Seq<TranscriptOp>,
        entries_after: Seq<TranscriptOp>,
    ) -> bool {
        &&& after.nonce() == before.nonce()
        &&& after.committed() matches Some(i) && i@ == scale3(public.basis(), before.nonce(), G::order() as int)
            && entries_after == entries_before.push(ct_op::<G>(LABEL_T_PK@, i))
    }

    open spec fn complete_pre(state: ZeroState<G>, witness: SecretScalar<G>) -> bool {
        state.committed() is Some
    }

    open spec fn complete_step(
        state: ZeroState<G>,
        witness: SecretScalar<G>,
        entries_before: Seq<TranscriptOp>,
        proof: Zero<G>,
        entries_after: Seq<TranscriptOp>,
    ) -> bool {
        &&& Some(proof.commitment) == state.committed()
        &&& G::scalar_val(proof.response) == (G::spec_challenge(entries_before, LABEL_CHALLENGE@) * witness@
            + state.nonce()) % G::order() as int
        &&& entries_after == entries_before.push(challenge_op::<G>(LABEL_CHALLENGE@))
    }

    open spec fn produced_on(public: ZeroPublicBorrowed<'a, G>, witness: SecretScalar<G>, proof: Zero<G>, prefix: Seq<TranscriptOp>) -> bool {
        Self::produced(public, witness@, proof, Self::challenge(prefix, public, proof))
    }

    proof fn lemma_prover_flow(
        public: ZeroPublicBorrowed<'a, G>,
        witness: SecretScalar<G>,
        s0: ZeroState<G>,
        s1: ZeroState<G>,
        prefix: Seq<TranscriptOp>,
        e2: Seq<TranscriptOp>,
        proof: Zero<G>,
        e3: Seq<TranscriptOp>,
    ) {
        let e1 = prefix.push(start_op(Self::domain())) + Self::public_entries(public);
        assert(Self::prove_pre(public, witness));
        assert(Self::fresh(public, s0));
        assert(Self::commit_pre(public, s0, witness));
        if Self::commit_step(public, s0, s1, witness, e1, e2) {
            assert(Self::complete_pre(s1, witness));
            if Self::complete_step(s1, witness, e2, proof, e3) {
                assert(e2 == Self::transcript_ops(prefix, public, proof));
                assert(proof.commitment@ == scale3(public.basis(), s0.nonce(), G::order() as int));
                assert(Self::produced_on(public, witness, proof, prefix));
                assert(Self::proof_shaped(proof));
                assert(e3 == Self::relation_entries(proof, e1 + Self::proof_entries(proof)));
            }
        }
    }

    /// Absorb the public statement.
    fn absorb_public(public: ZeroPublicBorrowed<'a, G>, tr: &mut Transcript)
        ensures
            transcript_entries(*final(tr)) == transcript_entries(*old(tr)) + Self::public_entries(public),
            transcript_entries(*final(tr)) == transcript_entries(*old(tr)) + public.public_ops(),
    {
        tr.append_point::<G>(&LABEL_H, &public.pk.h);
        tr.append_point::<G>(&LABEL_G1, &public.params.g1);
        tr.append_point::<G>(&LABEL_G2, &public.params.g2);
        tr.append_ciphertext::<G>(&LABEL_CT, public.ct);
    }

    /// Draw the nonce.
    fn init(public: ZeroPublicBorrowed<'a, G>, rng: &mut ChaCha20Rng) -> (r: ZeroState<G>)
        ensures
            Self::fresh(public, r),
            r.committed() is None,
            0 <= r.nonce() < G::order(),
    {
        ZeroState { t: SecretScalar::new(rng), commitment: None }
    }

    /// Commit to `I = [t](G1, G2, H)` and absorb it.
    fn commit(public: ZeroPublicBorrowed<'a, G>, st: &mut ZeroState<G>, witness: &SecretScalar<G>, tr: &mut Transcript)
        ensures
            Self::commit_step(public, *old(st), *final(st), *witness, transcript_entries(*old(tr)), transcript_entries(*final(tr))),
            final(st).nonce() == old(st).nonce(),
            final(st).committed() matches Some(i) && i@ == scale3(public.basis(), old(st).nonce(), G::order() as int)
                && transcript_entries(*final(tr)) == transcript_entries(*old(tr)).push(ct_op::<G>(LABEL_T_PK@, i)),
    {
        proof {
            assert(Self::commit_pre(public, *st, *witness));
        }
        let base = public.pk.to_ciphertext(public.params);
        let i = base.mul_scalar(st.t.expose());
        tr.append_ciphertext::<G>(&LABEL_T_PK, &i);
        st.commitment = Some(i);
    }

    /// Derive the challenge and answer `z = c r + t`.
    fn complete(st: ZeroState<G>, witness: &SecretScalar<G>, tr: &mut Transcript) -> (r: Zero<G>)
        ensures
            Self::complete_step(st, *witness, transcript_entries(*old(tr)), r, transcript_entries(*final(tr))),
            Some(r.commitment) == st.committed(),
            G::scalar_val(r.response) == (G::spec_challenge(transcript_entries(*old(tr)), LABEL_CHALLENGE@) * witness@
                + st.nonce()) % G::order() as int,
            transcript_entries(*final(tr)) == transcript_entries(*old(tr)).push(challenge_op::<G>(LABEL_CHALLENGE@)),
    {
        proof {
            assert(Self::complete_pre(st, *witness));
        }
        let c = tr.challenge_scalar::<G>(&LABEL_CHALLENGE);
        let cw = G::scalar_mul(&c, witness.expose());
        let z = G::scalar_add(&cw, st.t.expose());
        proof {
            G::lemma_order();
            lemma_add_mod_both(G::scalar_val(c) * witness@, st.nonce(), G::order() as int);
        }
        let commitment = match st.commitment {
            Some(i) => i,
            None => Ciphertext::zero(),
        };
        Zero { commitment, response: z }
    }

    /// Absorb the proof's commitment.
    fn update_transcript(proof: &Zero<G>, tr: &mut Transcript) -> (r: Result<(), Error>)
        ensures
            transcript_entries(*final(tr)) == transcript_entries(*old(tr)) + Self::proof_entries(*proof),
            r is Ok,
            transcript_entries(*final(tr)) == transcript_entries(*old(tr)) + proof.proof_ops(),
    {
        proof {
            assert(Self::proof_shaped(*proof));
        }
        tr.append_ciphertext::<G>(&LABEL_T_PK, &proof.commitment);
        Ok(())
    }

    /// Derive the challenge and check `[z](G1, G2, H) == I + [c]C`.
    fn verify_relation(public: ZeroPublicBorrowed<'a, G>, proof: &Zero<G>, tr: &mut Transcript) -> (r: Result<(), Error>)
        ensures
            r == Self::relation(public, *proof, transcript_entries(*old(tr))) && transcript_entries(*final(tr)) == Self::relation_entries(*proof, transcript_entries(*old(tr))),
            r == Self::verify_result(public, *proof, G::spec_challenge(transcript_entries(*old(tr)), LABEL_CHALLENGE@)),
            transcript_entries(*final(tr)) == transcript_entries(*old(tr)).push(challenge_op::<G>(LABEL_CHALLENGE@)),
    {
        proof {
            assert(Self::proof_shaped(*proof));
        }
        let c = tr.challenge_scalar::<G>(&LABEL_CHALLENGE);
        let lhs = public.pk.to_ciphertext(public.params).mul_scalar(&proof.response);
        let rhs = proof.commitment.add_ct(public.ct.mul_scalar(&c));
        if lhs.ct_eq(&rhs) {
            Ok(())
        } else {
            Err(Error::CommitmentMismatch)
        }
    }
}

/// Completeness: a proof that the prover makes for a ciphertext that
/// encrypts the identity under its witness `w` is accepted under the same
/// challenge.
pub proof fn lemma_zero_complete<G: Group>(public: ZeroPublicBorrowed<G>, w: int, proof: Zero<G>, c: int)
    requires
        ZeroProtocol::<G>::produced(public, w, proof, c),
        public.ct@ == enc_val::<G>(public.params@, public.pk@, 0, w),
    ensures
        ZeroProtocol::<G>::verify_result(public, proof, c) == Ok::<(), Error>(()),
{
    G::lemma_order();
    let q = G::order() as int;
    let b = public.basis();
    let t = choose|t: int|
        0 <= t < q && proof.commitment@ == #[trigger] scale3(public.basis(), t, q) && G::scalar_val(proof.response)
            == (c * w + t) % q;
    lemma_response(b.0, w, t, c, q);
    lemma_response(b.1, w, t, c, q);
    lemma_response(b.2, w, t, c, q);
    assert(b.2 * w + 0 == b.2 * w);
}

/// A proof made by `Zero::prove` for a ciphertext that encrypts the identity
/// with randomness `r` is accepted by `Zero::verify`.
pub proof fn lemma_zero_prove_verify<G: Group>(
    public: ZeroPublicBorrowed<G>,
    witness: SecretScalar<G>,
    rng: &mut ChaCha20Rng,
    proof: Zero<G>,
    res: Result<(), Error>,
)
    requires
        public.ct@ == enc_val::<G>(public.params@, public.pk@, 0, witness@),
        call_ensures(Zero::<G>::prove, (public, &witness, rng), proof),
        call_ensures(Zero::<G>::verify, (&proof, public), res),
    ensures
        res == Ok::<(), Error>(()),
{
    lemma_zero_complete(public, witness@, proof, ZeroProtocol::<G>::challenge(fresh_ops(), public, proof));
}

} // verus!
