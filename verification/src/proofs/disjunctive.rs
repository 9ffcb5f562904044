//! Disjunctive (OR) proof that an ElGamal ciphertext encrypts one of a
//! public list of values.
//!
//! For `C = Enc([v_m]generator; r)` with `v_m` among `values`, the prover
//! answers the branch `m` honestly and simulates every other branch `i`:
//! it draws `c_i, z_i` and commits to `I_i = [z_i]PK - [c_i](C - (0, 0, [v_i]))`.
//! The honest branch commits to `I_m = [t]PK`, takes
//! `c_m = c - sum_{i != m} c_i` and answers `z_m = c_m r + t`. The verifier
//! checks that the challenges add up to `c` and that
//! `[z_i]PK == I_i + [c_i](C - (0, 0, [v_i]))` for every branch.
use vstd::prelude::*;
use core::marker::PhantomData;
use merlin::Transcript;
use rand_chacha::ChaCha20Rng;
use crate::error::Error;
use crate::bytes::{le_bytes, u64_le_bytes};
use crate::group::{Group, scalars_val};
use crate::zq::{
    scale3, add3, sub3, seq_sum, sum_except, lemma_add_mod_both, lemma_sub_mod_both, lemma_mod_small, lemma_mod_mod,
    lemma_response, lemma_sum_split, lemma_sum_except_agree, lemma_sub_add_cancel,
};
use crate::elgamal::ciphertext::{Ciphertext, enc_val};
use crate::elgamal::keys::{ElGamalParams, PublicKey, SecretScalar};
use crate::transcript::{TranscriptOp, transcript_entries, transcript_new};
use crate::proofs::{SigmaProtocol, TranscriptForGroup, msg_op, point_op, ct_op, challenge_op, start_op, fresh_ops, copy_vec};
use crate::proofs::labels::{
    OR_DOMAIN, LABEL_H, LABEL_G1, LABEL_G2, LABEL_CT, LABEL_N, LABEL_EMPTY, LABEL_I, LABEL_CHALLENGE,
};

verus! {

/// Borrowed public inputs of the protocol.
#[derive(Debug, Clone, Copy)]
pub struct OrPublicBorrowed<'a, G: Group> {
    pub pk: &'a PublicKey<G>,
    pub params: &'a ElGamalParams<G>,
    pub ct: Ciphertext<G>,
    pub values: &'a [u64],
}

impl<'a, G: Group> OrPublicBorrowed<'a, G> {
    pub fn new(pk: &'a PublicKey<G>, params: &'a ElGamalParams<G>, ct: Ciphertext<G>, values: &'a [u64]) -> (r: Self)
        ensures
            r.pk == pk,
            r.params == params,
            r.ct == ct,
            r.values == values,
    {
        OrPublicBorrowed { pk, params, ct, values }
    }

    /// The basis `(G1, G2, H)` over discrete logarithms.
    pub open spec fn basis(self) -> (int, int, int) {
        (self.params@.0, self.params@.1, self.pk@)
    }

    /// The transcript entries of the candidate values.
    pub open spec fn value_ops(self) -> Seq<TranscriptOp> {
        self.values@.map_values(|v: u64| msg_op(LABEL_EMPTY@, G::u64_scalar_bytes(v)))
    }

    /// The transcript entries of the public statement, in order: the bases,
    /// the ciphertext, the number of values and each value as a scalar.
    pub open spec fn public_ops(self) -> Seq<TranscriptOp> {
        seq![
            point_op::<G>(LABEL_H@, self.pk.h),
            point_op::<G>(LABEL_G1@, self.params.g1),
            point_op::<G>(LABEL_G2@, self.params.g2),
            ct_op::<G>(LABEL_CT@, self.ct),
            msg_op(LABEL_N@, le_bytes(self.values@.len(), 8)),
        ] + self.value_ops()
    }
}

/// The witness: the index of the encrypted value and the encryption
/// randomness.
#[derive(Debug)]
pub struct OrWitness<G: Group> {
    pub index: usize,
    pub r: SecretScalar<G>,
}

impl<G: Group> OrWitness<G> {
    /// `InvalidInputShape` for an empty list or an index past its end.
    pub fn new(index: usize, r: SecretScalar<G>, values_len: usize) -> (res: Result<Self, Error>)
        ensures
            res is Err <==> values_len == 0 || index >= values_len,
            res matches Err(e) ==> e == Error::InvalidInputShape,
            res matches Ok(w) ==> w.index == index && w.r@ == r@,
    {
        if values_len == 0 || index >= values_len {
            return Err(Error::InvalidInputShape);
        }
        Ok(OrWitness { index, r })
    }
}

/// OR proof.
#[derive(Debug, Clone, PartialEq)]
pub struct Or<G: Group> {
    /// Commitments `I_i`.
    pub commitments: Vec<Ciphertext<G>>,
    /// Responses `z_i`.
    pub responses: Vec<G::Scalar>,
    /// Per-branch challenges `c_i`, which add up to the transcript challenge.
    pub challenges: Vec<G::Scalar>,
}

impl<G: Group> Or<G> {
    /// The transcript entries of the proof's commitments.
    pub open spec fn proof_ops(self) -> Seq<TranscriptOp> {
        self.commitments@.map_values(|c: Ciphertext<G>| ct_op::<G>(LABEL_I@, c))
    }

    /// Prove with a fresh transcript.
    pub fn prove(public: OrPublicBorrowed<'_, G>, witness: &OrWitness<G>, rng: &mut ChaCha20Rng) -> (r: Self)
        requires
            witness.index < public.values@.len(),
        ensures
            OrProtocol::<G>::produced(
                public,
                witness.index as int,
                witness.r@,
                r,
                OrProtocol::<G>::challenge(fresh_ops(), public, r),
            ),
    {
        let mut tr = transcript_new(&LABEL_EMPTY);
        assert(LABEL_EMPTY@ == Seq::<u8>::empty());
        OrProtocol::<G>::prove(public, witness, &mut tr, rng)
    }

    /// Verify with a fresh transcript.
    pub fn verify(&self, public: OrPublicBorrowed<'_, G>) -> (r: Result<(), Error>)
        ensures
            r == OrProtocol::<G>::verify_result(public, *self, OrProtocol::<G>::challenge(fresh_ops(), public, *self)),
    {
        let mut tr = transcript_new(&LABEL_EMPTY);
        assert(LABEL_EMPTY@ == Seq::<u8>::empty());
        OrProtocol::<G>::verify(public, self, &mut tr)
    }
}

/// Prover ephemeral state.
#[derive(Debug)]
pub struct OrState<G: Group> {
    t: SecretScalar<G>,
    sim_c: Vec<G::Scalar>,
    sim_z: Vec<G::Scalar>,
    commitments: Vec<Ciphertext<G>>,
}

impl<G: Group> OrState<G> {
    /// The nonce of the honest branch.
    pub closed spec fn nonce(self) -> int {
        self.t@
    }

    /// The pre-drawn simulated challenges.
    pub closed spec fn sim_c(self) -> Seq<G::Scalar> {
        self.sim_c@
    }

    /// The pre-drawn simulated responses.
    pub closed spec fn sim_z(self) -> Seq<G::Scalar> {
        self.sim_z@
    }

    /// The commitments made so far.
    pub closed spec fn committed(self) -> Seq<Ciphertext<G>> {
        self.commitments@
    }

    /// Whether a simulated challenge and response are drawn for every branch
    /// below `k` but `index`.
    pub open spec fn covers(self, k: int, index: int) -> bool {
        &&& self.sim_c().len() >= k || (self.sim_c().len() == k - 1 && index == k - 1)
        &&& self.sim_z().len() >= k || (self.sim_z().len() == k - 1 && index == k - 1)
    }
}

/// The OR protocol.
pub struct OrProtocol<G: Group>(PhantomData<G>);

/// `C - (0, 0, [v]generator)` over discrete logarithms.
pub open spec fn or_adjusted<G: Group>(ct: (int, int, int), v: u64) -> (int, int, int) {
    let q = G::order() as int;
    (ct.0, ct.1, (ct.2 - v as int % q) % q)
}

/// The verifier's relation for one branch:
/// `[z](G1, G2, H) == I + [c](C - (0, 0, [v]generator))`.
pub open spec fn or_branch_holds<G: Group>(
    basis: (int, int, int),
    ct: (int, int, int),
    v: u64,
    commitment: (int, int, int),
    z: int,
    c: int,
) -> bool {
    let q = G::order() as int;
    scale3(basis, z, q) == add3(commitment, scale3(or_adjusted::<G>(ct, v), c, q), q)
}

/// A simulated commitment `[z](G1, G2, H) - [c](C - (0, 0, [v]generator))`.
pub open spec fn or_simulated<G: Group>(basis: (int, int, int), ct: (int, int, int), v: u64, z: int, c: int) -> (int, int, int) {
    let q = G::order() as int;
    sub3(scale3(basis, z, q), scale3(or_adjusted::<G>(ct, v), c, q), q)
}

/// `C - (0, 0, [v]generator)`.
fn adjusted_ct<G: Group>(ct: &Ciphertext<G>, v: u64) -> (r: Ciphertext<G>)
    ensures
        r@ == or_adjusted::<G>(ct@, v),
{
    let m = G::point_mul(&G::generator(), &G::scalar_from_u64(v));
    proof {
        G::lemma_order();
        lemma_mod_mod(v as int, G::order() as int);
        lemma_mod_small(v as int % G::order() as int, G::order() as int);
    }
    Ciphertext { random_point: ct.random_point, random_point2: ct.random_point2, blinded_point: G::point_sub(&ct.blinded_point, &m) }
}

impl<G: Group> OrProtocol<G> {
    pub open spec fn transcript_ops(prefix: Seq<TranscriptOp>, public: OrPublicBorrowed<G>, proof: Or<G>) -> Seq<TranscriptOp> {
        prefix.push(start_op(OR_DOMAIN@)) + public.public_ops() + proof.proof_ops()
    }

    pub open spec fn challenge(prefix: Seq<TranscriptOp>, public: OrPublicBorrowed<G>, proof: Or<G>) -> int {
        G::spec_challenge(Self::transcript_ops(prefix, public, proof), LABEL_CHALLENGE@)
    }

    /// What the verifier answers under challenge `c`: `InvalidInputShape`
    /// unless every list has one entry per value, `ChallengeMismatch` unless
    /// the branch challenges add up to `c`, `CommitmentMismatch` unless
    /// every branch holds.
    pub open spec fn verify_result(public: OrPublicBorrowed<G>, proof: Or<G>, c: int) -> Result<(), Error> {
        let q = G::order() as int;
        let k = public.values@.len();
        if proof.commitments@.len() != k || proof.responses@.len() != k || proof.challenges@.len() != k {
            Err(Error::InvalidInputShape)
        } else if seq_sum(scalars_val::<G>(proof.challenges@), k as int) % q != c {
            Err(Error::ChallengeMismatch)
        } else if forall|i: int|
            #![trigger proof.commitments@[i]]
            0 <= i < k ==> or_branch_holds::<G>(
                public.basis(),
                public.ct@,
                public.values@[i],
                proof.commitments@[i]@,
                G::scalar_val(proof.responses@[i]),
                G::scalar_val(proof.challenges@[i]),
            ) {
            Ok(())
        } else {
            Err(Error::CommitmentMismatch)
        }
    }

    /// Whether `proof` is what the prover answers for the value at `index`
    /// with randomness `r` under challenge `c`: every other branch is
    /// simulated from its own challenge and response, the honest challenge
    /// completes the sum to `c`, and the honest branch answers a nonce.
    pub open spec fn produced(public: OrPublicBorrowed<G>, index: int, r: int, proof: Or<G>, c: int) -> bool {
        let q = G::order() as int;
        let k = public.values@.len();
        let cs = scalars_val::<G>(proof.challenges@);
        &&& proof.commitments@.len() == k
        &&& proof.responses@.len() == k
        &&& proof.challenges@.len() == k
        &&& 0 <= index < k
        &&& forall|i: int|
            #![trigger proof.commitments@[i]]
            0 <= i < k && i != index ==> proof.commitments@[i]@ == or_simulated::<G>(
                public.basis(),
                public.ct@,
                public.values@[i],
                G::scalar_val(proof.responses@[i]),
                G::scalar_val(proof.challenges@[i]),
            )
        &&& cs[index] == (c - sum_except(cs, index, k as int)) % q
        &&& exists|t: int|
            0 <= t < q && proof.commitments@[index]@ == #[trigger] scale3(public.basis(), t, q) && G::scalar_val(
                proof.responses@[index],
            ) == (cs[index] * r + t) % q
    }
}

impl<'a, G: Group> SigmaProtocol<'a> for OrProtocol<G> {
    type Public = OrPublicBorrowed<'a, G>;

    type Witness = OrWitness<G>;

    type Proof = Or<G>;

    type State = OrState<G>;

    open spec fn domain() -> Seq<u8> {
        OR_DOMAIN@
    }

    fn domain_label() -> (r: &'static [u8]) {
        &OR_DOMAIN
    }

    open spec fn public_entries(public: OrPublicBorrowed<'a, G>) -> Seq<TranscriptOp> {
        public.public_ops()
    }

    open spec fn proof_shaped(proof: Or<G>) -> bool {
        true
    }

    open spec fn proof_entries(proof: Or<G>) -> Seq<TranscriptOp> {
        proof.proof_ops()
    }

    open spec fn relation(public: OrPublicBorrowed<'a, G>, proof: Or<G>, entries: Seq<TranscriptOp>) -> Result<(), Error> {
        Self::verify_result(public, proof, G::spec_challenge(entries, LABEL_CHALLENGE@))
    }

    open spec fn relation_entries(proof: Or<G>, entries: Seq<TranscriptOp>) -> Seq<TranscriptOp> {
        entries.push(challenge_op::<G>(LABEL_CHALLENGE@))
    }

    open spec fn prove_pre(public: OrPublicBorrowed<'a, G>, witness: OrWitness<G>) -> bool {
        witness.index < public.values@.len()
    }

    open spec fn fresh(public: OrPublicBorrowed<'a, G>, state: OrState<G>) -> bool {
        &&& state.sim_c().len() == public.values@.len()
        &&& state.sim_z().len() == public.values@.len()
        &&& state.committed().len() == 0
        &&& 0 <= state.nonce() < G::order()
    }

    open spec fn commit_pre(public: OrPublicBorrowed<'a, G>, state: OrState<G>, witness: OrWitness<G>) -> bool {
        state.covers(public.values@.len() as int, witness.index as int)
    }

    open spec fn commit_step(
        public: OrPublicBorrowed<'a, G>,
        before: OrState<G>,
        after: OrState<G>,
        witness: OrWitness<G>,
        entries_before: Seq<TranscriptOp>,
        entries_after: Seq<TranscriptOp>,
    ) -> bool {
        &&& after.nonce() == before.nonce()
        &&& after.sim_c() == before.sim_c()
        &&& after.sim_z() == before.sim_z()
        &&& ({
            let q = G::order() as int;
            let k = public.values@.len() as int;
            let n0 = before.committed().len() as int;
            let com = after.committed();
            &&& com.len() == n0 + k
            &&& com.subrange(0, n0) == before.committed()
            &&& forall|i: int|
                #![trigger com[n0 + i]]
                0 <= i < k ==> com[n0 + i]@ == if i == witness.index {
                    scale3(public.basis(), before.nonce(), q)
                } else {
                    or_simulated::<G>(
                        public.basis(),
                        public.ct@,
                        public.values@[i],
                        G::scalar_val(before.sim_z()[i]),
                        G::scalar_val(before.sim_c()[i]),
                    )
                }
            &&& entries_after == entries_before + com.subrange(n0, n0 + k).map_values(
                |c: Ciphertext<G>| ct_op::<G>(LABEL_I@, c),
            )
        })
    }

    open spec fn complete_pre(state: OrState<G>, witness: OrWitness<G>) -> bool {
        &&& witness.index < state.sim_c().len()
        &&& witness.index < state.sim_z().len()
    }

    open spec fn complete_step(
        state: OrState<G>,
        witness: OrWitness<G>,
        entries_before: Seq<TranscriptOp>,
        proof: Or<G>,
        entries_after: Seq<TranscriptOp>,
    ) -> bool {
        &&& proof.commitments@ == state.committed()
        &&& ({
            let c = G::spec_challenge(entries_before, LABEL_CHALLENGE@);
            let q = G::order() as int;
            let m = witness.index as int;
            let k = state.committed().len();
            let n = if k <= state.sim_c().len() { k } else { state.sim_c().len() };
            let cm = G::scalar_val(proof.challenges@[m]);
            &&& proof.challenges@.len() == state.sim_c().len()
            &&& proof.responses@.len() == state.sim_z().len()
            &&& forall|i: int| 0 <= i < proof.challenges@.len() && i != m ==> proof.challenges@[i] == state.sim_c()[i]
            &&& forall|i: int| 0 <= i < proof.responses@.len() && i != m ==> proof.responses@[i] == state.sim_z()[i]
            &&& cm == (c - sum_except(scalars_val::<G>(state.sim_c()), m, n as int)) % q
            &&& G::scalar_val(proof.responses@[m]) == (cm * witness.r@ + state.nonce()) % q
        })
        &&& entries_after == entries_before.push(challenge_op::<G>(LABEL_CHALLENGE@))
    }

    open spec fn produced_on(public: OrPublicBorrowed<'a, G>, witness: OrWitness<G>, proof: Or<G>, prefix: Seq<TranscriptOp>) -> bool {
        Self::produced(public, witness.index as int, witness.r@, proof, Self::challenge(prefix, public, proof))
    }

    proof fn lemma_prover_flow(
        public: OrPublicBorrowed<'a, G>,
        witness: OrWitness<G>,
        s0: OrState<G>,
        s1: OrState<G>,
        prefix: Seq<TranscriptOp>,
        e2: Seq<TranscriptOp>,
        proof: Or<G>,
        e3: Seq<TranscriptOp>,
    ) {
        let e1 = prefix.push(start_op(Self::domain())) + Self::public_entries(public);
        assert(Self::prove_pre(public, witness));
        assert(Self::fresh(public, s0));
        assert(Self::commit_pre(public, s0, witness));
        if Self::commit_step(public, s0, s1, witness, e1, e2) {
            assert(Self::complete_pre(s1, witness));
            if Self::complete_step(s1, witness, e2, proof, e3) {
                let q = G::order() as int;
                let k = public.values@.len() as int;
                let m = witness.index as int;
                let com = s1.committed();
                assert(com.subrange(0, k) =~= com);
                assert(com.subrange(0, k).map_values(|c: Ciphertext<G>| ct_op::<G>(LABEL_I@, c)) =~= proof.proof_ops());
                assert(e2 == Self::transcript_ops(prefix, public, proof));
                let c = Self::challenge(prefix, public, proof);
                lemma_sum_except_agree(
                    scalars_val::<G>(s1.sim_c()),
                    scalars_val::<G>(proof.challenges@),
                    m,
                    k,
                );
                assert forall|i: int|
                    #![trigger proof.commitments@[i]]
                    0 <= i < k && i != m implies proof.commitments@[i]@ == or_simulated::<G>(
                        public.basis(),
                        public.ct@,
                        public.values@[i],
                        G::scalar_val(proof.responses@[i]),
                        G::scalar_val(proof.challenges@[i]),
                    ) by {
                    assert(com[0 + i] == com[i]);
                }
                assert(com[0 + m] == com[m]);
                assert(proof.commitments@[m]@ == scale3(public.basis(), s1.nonce(), q));
                assert(Self::produced_on(public, witness, proof, prefix));
                assert(Self::proof_shaped(proof));
                assert(e3 == Self::relation_entries(proof, e1 + Self::proof_entries(proof)));
            }
        }
    }

    /// Absorb the public statement.
    fn absorb_public(public: OrPublicBorrowed<'a, G>, tr: &mut Transcript)
        ensures
            transcript_entries(*final(tr)) == transcript_entries(*old(tr)) + Self::public_entries(public),
            transcript_entries(*final(tr)) == transcript_entries(*old(tr)) + public.public_ops(),
    {
        let ghost start = transcript_entries(*tr);
        tr.append_point::<G>(&LABEL_H, &public.pk.h);
        tr.append_point::<G>(&LABEL_G1, &public.params.g1);
        tr.append_point::<G>(&LABEL_G2, &public.params.g2);
        tr.append_ciphertext::<G>(&LABEL_CT, &public.ct);
        let n = public.values.len() as u64;
        let nb = u64_le_bytes(n);
        tr.append_bytes(&LABEL_N, nb.as_slice());
        let ghost head = transcript_entries(*tr);
        let mut i: usize = 0;
        while i < public.values.len()
            invariant
                i <= public.values@.len(),
                transcript_entries(*tr) == head + public.value_ops().subrange(0, i as int),
            decreases public.values@.len() - i,
        {
            let s = G::scalar_from_u64(public.values[i]);
            tr.append_scalar::<G>(&LABEL_EMPTY, &s);
            i = i + 1;
            assert(public.value_ops().subrange(0, i as int) =~= public.value_ops().subrange(0, i - 1).push(
                public.value_ops()[i - 1],
            ));
        }
        assert(public.value_ops().subrange(0, public.values@.len() as int) =~= public.value_ops());
        assert(head + public.value_ops() =~= start + public.public_ops());
    }

    /// Draw a simulated challenge and response for every branch, then the
    /// nonce of the honest branch.
    fn init(public: OrPublicBorrowed<'a, G>, rng: &mut ChaCha20Rng) -> (r: OrState<G>)
        ensures
            Self::fresh(public, r),
            r.sim_c().len() == public.values@.len(),
            r.sim_z().len() == public.values@.len(),
            r.committed().len() == 0,
            0 <= r.nonce() < G::order(),
    {
        let k = public.values.len();
        let mut sim_c: Vec<G::Scalar> = Vec::new();
        let mut sim_z: Vec<G::Scalar> = Vec::new();
        let mut i: usize = 0;
        while i < k
            invariant
                i <= k,
                sim_c@.len() == i,
                sim_z@.len() == i,
            decreases k - i,
        {
            sim_c.push(G::scalar_random(rng));
            sim_z.push(G::scalar_random(rng));
            i = i + 1;
        }
        OrState { t: SecretScalar::new(rng), sim_c, sim_z, commitments: Vec::new() }
    }

    /// Commit on every branch, honestly on the witness's branch, and absorb
    /// the commitments.
    fn commit(public: OrPublicBorrowed<'a, G>, st: &mut OrState<G>, witness: &OrWitness<G>, tr: &mut Transcript)
        ensures
            Self::commit_step(public, *old(st), *final(st), *witness, transcript_entries(*old(tr)), transcript_entries(*final(tr))),
            final(st).nonce() == old(st).nonce(),
            final(st).sim_c() == old(st).sim_c(),
            final(st).sim_z() == old(st).sim_z(),
            ({
                let q = G::order() as int;
                let k = public.values@.len() as int;
                let n0 = old(st).committed().len() as int;
                let com = final(st).committed();
                &&& com.len() == n0 + k
                &&& com.subrange(0, n0) == old(st).committed()
                &&& forall|i: int|
                    #![trigger com[n0 + i]]
                    0 <= i < k ==> com[n0 + i]@ == if i == witness.index {
                        scale3(public.basis(), old(st).nonce(), q)
                    } else {
                        or_simulated::<G>(
                            public.basis(),
                            public.ct@,
                            public.values@[i],
                            G::scalar_val(old(st).sim_z()[i]),
                            G::scalar_val(old(st).sim_c()[i]),
                        )
                    }
                &&& transcript_entries(*final(tr)) == transcript_entries(*old(tr)) + com.subrange(n0, n0 + k).map_values(
                    |c: Ciphertext<G>| ct_op::<G>(LABEL_I@, c),
                )
            }),
    {
        proof {
            assert(Self::commit_pre(public, *st, *witness));
        }
        let k = public.values.len();
        let base = public.pk.to_ciphertext(public.params);
        let ghost n0 = st.commitments@.len() as int;
        let ghost start = transcript_entries(*tr);
        let ghost old_st = st.commitments@;
        let mut i: usize = 0;
        while i < k
            invariant
                i <= k,
                k == public.values@.len(),
                base@ == public.basis(),
                st.t@ == old(st).nonce(),
                st.sim_c@ == old(st).sim_c(),
                st.sim_z@ == old(st).sim_z(),
                old(st).covers(k as int, witness.index as int),
                st.commitments@.len() == n0 + i,
                st.commitments@.subrange(0, n0) == old_st,
                old_st == old(st).committed(),
                n0 == old(st).committed().len(),
                forall|j: int|
                    #![trigger st.commitments@[n0 + j]]
                    0 <= j < i ==> st.commitments@[n0 + j]@ == if j == witness.index {
                        scale3(public.basis(), old(st).nonce(), G::order() as int)
                    } else {
                        or_simulated::<G>(
                            public.basis(),
                            public.ct@,
                            public.values@[j],
                            G::scalar_val(old(st).sim_z()[j]),
                            G::scalar_val(old(st).sim_c()[j]),
                        )
                    },
                transcript_entries(*tr) == start + st.commitments@.subrange(n0, n0 + i).map_values(
                    |c: Ciphertext<G>| ct_op::<G>(LABEL_I@, c),
                ),
            decreases k - i,
        {
            let ci = if i == witness.index {
                base.mul_scalar(st.t.expose())
            } else {
                let adjusted = adjusted_ct(&public.ct, public.values[i]);
                base.mul_scalar(&st.sim_z[i]).sub_ct(adjusted.mul_scalar(&st.sim_c[i]))
            };
            tr.append_ciphertext::<G>(&LABEL_I, &ci);
            let ghost before = st.commitments@;
            st.commitments.push(ci);
            proof {
                assert(st.commitments@.subrange(0, n0) =~= old_st);
                assert(st.commitments@.subrange(n0, n0 + i + 1) =~= before.subrange(n0, n0 + i).push(ci));
                assert(st.commitments@.subrange(n0, n0 + i + 1).map_values(|c: Ciphertext<G>| ct_op::<G>(LABEL_I@, c))
                    =~= before.subrange(n0, n0 + i).map_values(|c: Ciphertext<G>| ct_op::<G>(LABEL_I@, c)).push(
                    ct_op::<G>(LABEL_I@, ci),
                ));
                assert forall|j: int|
                    #![trigger st.commitments@[n0 + j]]
                    0 <= j < i + 1 implies st.commitments@[n0 + j]@ == if j == witness.index {
                        scale3(public.basis(), old(st).nonce(), G::order() as int)
                    } else {
                        or_simulated::<G>(
                            public.basis(),
                            public.ct@,
                            public.values@[j],
                            G::scalar_val(old(st).sim_z()[j]),
                            G::scalar_val(old(st).sim_c()[j]),
                        )
                    } by {
                    if j < i {
                        assert(st.commitments@[n0 + j] == before[n0 + j]);
                    }
                }
            }
            i = i + 1;
        }
    }

    /// Derive the challenge, complete the honest branch's challenge to the
    /// sum `c`, and answer `z_m = c_m r + t`.
    fn complete(st: OrState<G>, witness: &OrWitness<G>, tr: &mut Transcript) -> (r: Or<G>)
        ensures
            Self::complete_step(st, *witness, transcript_entries(*old(tr)), r, transcript_entries(*final(tr))),
            r.commitments@ == st.committed(),
            ({
                let c = G::spec_challenge(transcript_entries(*old(tr)), LABEL_CHALLENGE@);
                let q = G::order() as int;
                let m = witness.index as int;
                let k = st.committed().len();
                let n = if k <= st.sim_c().len() { k } else { st.sim_c().len() };
                let cm = G::scalar_val(r.challenges@[m]);
                &&& r.challenges@.len() == st.sim_c().len()
                &&& r.responses@.len() == st.sim_z().len()
                &&& forall|i: int| 0 <= i < r.challenges@.len() && i != m ==> r.challenges@[i] == st.sim_c()[i]
                &&& forall|i: int| 0 <= i < r.responses@.len() && i != m ==> r.responses@[i] == st.sim_z()[i]
                &&& cm == (c - sum_except(scalars_val::<G>(st.sim_c()), m, n as int)) % q
                &&& G::scalar_val(r.responses@[m]) == (cm * witness.r@ + st.nonce()) % q
            }),
            transcript_entries(*final(tr)) == transcript_entries(*old(tr)).push(challenge_op::<G>(LABEL_CHALLENGE@)),
    {
        proof {
            assert(Self::complete_pre(st, *witness));
        }
        let k = st.commitments.len();
        let mut challenges = copy_vec(&st.sim_c);
        let mut responses = copy_vec(&st.sim_z);
        let c = tr.challenge_scalar::<G>(&LABEL_CHALLENGE);
        let n = if k <= challenges.len() { k } else { challenges.len() };
        let ghost vals = scalars_val::<G>(st.sim_c@);
        let mut sum = G::scalar_from_u64(0);
        proof {
            G::lemma_order();
            lemma_mod_small(0, G::order() as int);
        }
        let mut i: usize = 0;
        while i < n
            invariant
                i <= n,
                n <= challenges@.len(),
                challenges@ == st.sim_c@,
                vals == scalars_val::<G>(st.sim_c@),
                G::scalar_val(sum) == sum_except(vals, witness.index as int, i as int) % G::order() as int,
            decreases n - i,
        {
            if i != witness.index {
                proof {
                    G::lemma_order();
                    lemma_add_mod_both(sum_except(vals, witness.index as int, i as int), vals[i as int], G::order() as int);
                }
                sum = G::scalar_add(&sum, &challenges[i]);
            }
            i = i + 1;
        }
        let c_m = G::scalar_sub(&c, &sum);
        let z_m = G::scalar_add(&G::scalar_mul(&c_m, witness.r.expose()), st.t.expose());
        proof {
            G::lemma_order();
            let q = G::order() as int;
            lemma_sub_mod_both(G::scalar_val(c), sum_except(vals, witness.index as int, n as int), q);
            lemma_add_mod_both(G::scalar_val(c_m) * witness.r@, st.t@, q);
        }
        challenges.set(witness.index, c_m);
        responses.set(witness.index, z_m);
        Or { commitments: copy_vec(&st.commitments), responses, challenges }
    }

    /// Absorb the proof's commitments.
    fn update_transcript(proof: &Or<G>, tr: &mut Transcript) -> (r: Result<(), Error>)
        ensures
            transcript_entries(*final(tr)) == transcript_entries(*old(tr)) + Self::proof_entries(*proof),
            r is Ok,
            transcript_entries(*final(tr)) == transcript_entries(*old(tr)) + proof.proof_ops(),
    {
        proof {
            assert(Self::proof_shaped(*proof));
        }
        let ghost start = transcript_entries(*tr);
        let mut i: usize = 0;
        while i < proof.commitments.len()
            invariant
                i <= proof.commitments@.len(),
                transcript_entries(*tr) == start + proof.proof_ops().subrange(0, i as int),
            decreases proof.commitments@.len() - i,
        {
            tr.append_ciphertext::<G>(&LABEL_I, &proof.commitments[i]);
            i = i + 1;
            assert(proof.proof_ops().subrange(0, i as int) =~= proof.proof_ops().subrange(0, i - 1).push(
                proof.proof_ops()[i - 1],
            ));
        }
        assert(proof.proof_ops().subrange(0, proof.commitments@.len() as int) =~= proof.proof_ops());
        Ok(())
    }

    /// Derive the challenge, check the shapes, the challenge sum and every
    /// branch.
    fn verify_relation(public: OrPublicBorrowed<'a, G>, proof: &Or<G>, tr: &mut Transcript) -> (r: Result<(), Error>)
        ensures
            r == Self::relation(public, *proof, transcript_entries(*old(tr))) && transcript_entries(*final(tr)) == Self::relation_entries(*proof, transcript_entries(*old(tr))),
            r == Self::verify_result(public, *proof, G::spec_challenge(transcript_entries(*old(tr)), LABEL_CHALLENGE@)),
            transcript_entries(*final(tr)) == transcript_entries(*old(tr)).push(challenge_op::<G>(LABEL_CHALLENGE@)),
    {
        proof {
            assert(Self::proof_shaped(*proof));
        }
        let c = tr.challenge_scalar::<G>(&LABEL_CHALLENGE);
        let k = public.values.len();
        if proof.commitments.len() != k || proof.responses.len() != k || proof.challenges.len() != k {
            return Err(Error::InvalidInputShape);
        }
        let ghost vals = scalars_val::<G>(proof.challenges@);
        let mut sum = G::scalar_from_u64(0);
        proof {
            G::lemma_order();
            lemma_mod_small(0, G::order() as int);
        }
        let mut i: usize = 0;
        while i < proof.challenges.len()
            invariant
                i <= proof.challenges@.len(),
                vals == scalars_val::<G>(proof.challenges@),
                G::scalar_val(sum) == seq_sum(vals, i as int) % G::order() as int,
            decreases proof.challenges@.len() - i,
        {
            proof {
                G::lemma_order();
                lemma_add_mod_both(seq_sum(vals, i as int), vals[i as int], G::order() as int);
            }
            sum = G::scalar_add(&sum, &proof.challenges[i]);
            i = i + 1;
        }
        if !G::scalar_eq(&sum, &c) {
            return Err(Error::ChallengeMismatch);
        }
        let base = public.pk.to_ciphertext(public.params);
        let mut j: usize = 0;
        while j < k
            invariant
                j <= k,
                k == public.values@.len(),
                proof.commitments@.len() == k,
                proof.responses@.len() == k,
                proof.challenges@.len() == k,
                base@ == public.basis(),
                transcript_entries(*tr) == transcript_entries(*old(tr)).push(challenge_op::<G>(LABEL_CHALLENGE@)),
                G::scalar_val(c) == G::spec_challenge(transcript_entries(*old(tr)), LABEL_CHALLENGE@),
                seq_sum(scalars_val::<G>(proof.challenges@), k as int) % G::order() as int == G::scalar_val(c),
                forall|i: int|
                    #![trigger proof.commitments@[i]]
                    0 <= i < j ==> or_branch_holds::<G>(
                        public.basis(),
                        public.ct@,
                        public.values@[i],
                        proof.commitments@[i]@,
                        G::scalar_val(proof.responses@[i]),
                        G::scalar_val(proof.challenges@[i]),
                    ),
            decreases k - j,
        {
            let adjusted = adjusted_ct(&public.ct, public.values[j]);
            let lhs = base.mul_scalar(&proof.responses[j]);
            let rhs = proof.commitments[j].add_ct(adjusted.mul_scalar(&proof.challenges[j]));
            if !lhs.ct_eq(&rhs) {
                assert(!or_branch_holds::<G>(
                    public.basis(),
                    public.ct@,
                    public.values@[j as int],
                    proof.commitments@[j as int]@,
                    G::scalar_val(proof.responses@[j as int]),
                    G::scalar_val(proof.challenges@[j as int]),
                ));
                return Err(Error::CommitmentMismatch);
            }
            j = j + 1;
        }
        Ok(())
    }
}

/// Completeness: for `C = Enc([v_m]generator; r)` with `v_m` the value at
/// `index`, a proof that the prover makes with witness `(index, r)` is
/// accepted under the same challenge.
pub proof fn lemma_or_complete<G: Group>(public: OrPublicBorrowed<G>, index: int, r: int, proof: Or<G>, c: int)
    requires
        OrProtocol::<G>::produced(public, index, r, proof, c),
        0 <= c < G::order(),
        0 <= index < public.values@.len(),
        public.ct@ == enc_val::<G>(public.params@, public.pk@, public.values@[index] as int, r),
    ensures
        OrProtocol::<G>::verify_result(public, proof, c) == Ok::<(), Error>(()),
{
    G::lemma_order();
    let q = G::order() as int;
    let k = public.values@.len() as int;
    let cs = scalars_val::<G>(proof.challenges@);
    let b = public.basis();
    let x = public.ct@;
    // the branch challenges add up to c
    let s = sum_except(cs, index, k);
    lemma_sum_split(cs, index, k);
    lemma_add_mod_both(s, c - s, q);
    lemma_mod_small(c, q);
    // every branch holds
    assert forall|i: int|
        #![trigger proof.commitments@[i]]
        0 <= i < k implies or_branch_holds::<G>(
            public.basis(),
            public.ct@,
            public.values@[i],
            proof.commitments@[i]@,
            G::scalar_val(proof.responses@[i]),
            G::scalar_val(proof.challenges@[i]),
        ) by {
        let z = G::scalar_val(proof.responses@[i]);
        let ci = G::scalar_val(proof.challenges@[i]);
        let adj = or_adjusted::<G>(x, public.values@[i]);
        let a = scale3(b, z, q);
        let d = scale3(adj, ci, q);
        if i != index {
            vstd::arithmetic::div_mod::lemma_mod_bound(b.0 * z, q);
            vstd::arithmetic::div_mod::lemma_mod_bound(b.1 * z, q);
            vstd::arithmetic::div_mod::lemma_mod_bound(b.2 * z, q);
            vstd::arithmetic::div_mod::lemma_mod_bound(adj.0 * ci, q);
            vstd::arithmetic::div_mod::lemma_mod_bound(adj.1 * ci, q);
            vstd::arithmetic::div_mod::lemma_mod_bound(adj.2 * ci, q);
            lemma_sub_add_cancel(a.0, d.0, q);
            lemma_sub_add_cancel(a.1, d.1, q);
            lemma_sub_add_cancel(a.2, d.2, q);
        } else {
            let t = choose|t: int|
                0 <= t < q && proof.commitments@[index]@ == #[trigger] scale3(public.basis(), t, q) && G::scalar_val(
                    proof.responses@[index],
                ) == (cs[index] * r + t) % q;
            let v = public.values@[index] as int;
            lemma_sub_mod_both(b.2 * r + v, v, q);
            assert(b.2 * r + v - v == b.2 * r);
            lemma_response(b.0, r, t, ci, q);
            lemma_response(b.1, r, t, ci, q);
            lemma_response(b.2, r, t, ci, q);
        }
    }
}

/// A proof made by `Or::prove` for a ciphertext of the listed value at
/// `index`, with its randomness, is accepted by `Or::verify`.
pub proof fn lemma_or_prove_verify<G: Group>(
    public: OrPublicBorrowed<G>,
    witness: OrWitness<G>,
    rng: &mut ChaCha20Rng,
    proof: Or<G>,
    res: Result<(), Error>,
)
    requires
        witness.index < public.values@.len(),
        public.ct@ == enc_val::<G>(
            public.params@,
            public.pk@,
            public.values@[witness.index as int] as int,
            witness.r@,
        ),
        call_ensures(Or::<G>::prove, (public, &witness, rng), proof),
        call_ensures(Or::<G>::verify, (&proof, public), res),
    ensures
        res == Ok::<(), Error>(()),
{
    G::lemma_challenge_range(OrProtocol::<G>::transcript_ops(fresh_ops(), public, proof), LABEL_CHALLENGE@);
    lemma_or_complete(
        public,
        witness.index as int,
        witness.r@,
        proof,
        OrProtocol::<G>::challenge(fresh_ops(), public, proof),
    );
}

} // verus!
