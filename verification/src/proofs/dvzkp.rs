//! Designated-verifier proof: an OR proof over two statements
//! `S0: P0 = [x]B0` and `S1: P1A = [x]B1A and P1B = [x]B1B`.
//!
//! The designated verifier publishes `P0 = [sv]B0` and keeps `sv`; a prover
//! who does not know `sv` proves `S1` honestly and simulates `S0`, while the
//! verifier, knowing `sv`, could have simulated the whole transcript. One
//! branch is honest (`[t]` commitments, response `c_i x + t`), the other is
//! simulated from a pre-drawn challenge and response, and the two challenges
//! add up to the transcript challenge.
use vstd::prelude::*;
use core::marker::PhantomData;
use merlin::Transcript;
use rand_chacha::ChaCha20Rng;
use crate::error::Error;
use crate::group::Group;
use crate::zq::{lemma_add_mod_both, lemma_mod_mod, lemma_mod_small, lemma_response, is_unit, lemma_unit_keeps_nonzero, lemma_unit_cancel};
use crate::elgamal::keys::SecretScalar;
use crate::transcript::{TranscriptOp, transcript_entries, transcript_new};
use crate::proofs::{SigmaProtocol, TranscriptForGroup, point_op, challenge_op, start_op, fresh_ops};
use crate::proofs::labels::{
    DV_DOMAIN, LABEL_B0, LABEL_B1A, LABEL_B1B, LABEL_P0, LABEL_P1A, LABEL_P1B, LABEL_I0, LABEL_I1A, LABEL_I1B,
    LABEL_CHALLENGE, LABEL_EMPTY,
};

verus! {

/// The designated verifier's secret `sv`.
#[derive(Debug)]
pub struct DesignatedSecret<G: Group> {
    pub sv: SecretScalar<G>,
}

impl<G: Group> DesignatedSecret<G> {
    /// A fresh secret, never zero.
    pub fn new(rng: &mut ChaCha20Rng) -> (r: Self)
        ensures
            0 < r.sv@ < G::order(),
            is_unit(r.sv@, G::order() as int),
    {
        DesignatedSecret { sv: SecretScalar::new(rng) }
    }
}

/// The designated verifier's public value `pv = [sv]base0`.
#[derive(Debug, Clone, PartialEq)]
pub struct DesignatedPublic<G: Group> {
    pub base0: G::Point,
    pub pv: G::Point,
}

impl<G: Group> DesignatedPublic<G> {
    /// `pv = [sv]base0`.
    pub fn new(ds: &DesignatedSecret<G>, base0: G::Point) -> (r: Self)
        ensures
            r.base0 == base0,
            G::point_val(r.pv) == (G::point_val(base0) * ds.sv@) % G::order() as int,
    {
        DesignatedPublic { base0, pv: G::point_mul(&base0, ds.sv.expose()) }
    }
}

/// A designated verifier's secret with its public value.
#[derive(Debug)]
pub struct DesignatedPair<G: Group> {
    pub ds: DesignatedSecret<G>,
    pub dp: DesignatedPublic<G>,
}

impl<G: Group> DesignatedPair<G> {
    /// A fresh pair over `base0`.
    pub fn new(base0: G::Point, rng: &mut ChaCha20Rng) -> (r: Self)
        ensures
            r.dp.base0 == base0,
            0 < r.ds.sv@ < G::order(),
            is_unit(r.ds.sv@, G::order() as int),
            G::point_val(r.dp.pv) == (G::point_val(base0) * r.ds.sv@) % G::order() as int,
    {
        let ds = DesignatedSecret::new(rng);
        let dp = DesignatedPublic::new(&ds, base0);
        DesignatedPair { ds, dp }
    }

    pub fn into_tuple(self) -> (r: (DesignatedPublic<G>, DesignatedSecret<G>))
        ensures
            r.0 == self.dp,
            r.1.sv@ == self.ds.sv@,
    {
        (self.dp, self.ds)
    }
}

/// Borrowed public inputs of the protocol.
#[derive(Debug, Clone, Copy)]
pub struct DvPublicBorrowed<'a, G: Group> {
    pub dv: &'a DesignatedPublic<G>,
    pub b1a: &'a G::Point,
    pub b1b: &'a G::Point,
    pub p1a: &'a G::Point,
    pub p1b: &'a G::Point,
}

impl<'a, G: Group> DvPublicBorrowed<'a, G> {
    pub fn new(
        dv: &'a DesignatedPublic<G>,
        b1a: &'a G::Point,
        b1b: &'a G::Point,
        p1a: &'a G::Point,
        p1b: &'a G::Point,
    ) -> (r: Self)
        ensures
            r.dv == dv,
            r.b1a == b1a,
            r.b1b == b1b,
            r.p1a == p1a,
            r.p1b == p1b,
    {
        DvPublicBorrowed { dv, b1a, b1b, p1a, p1b }
    }

    /// The transcript entries of the public statement, in order.
    pub open spec fn public_ops(self) -> Seq<TranscriptOp> {
        seq![
            point_op::<G>(LABEL_B0@, self.dv.base0),
            point_op::<G>(LABEL_B1A@, *self.b1a),
            point_op::<G>(LABEL_B1B@, *self.b1b),
            point_op::<G>(LABEL_P0@, self.dv.pv),
            point_op::<G>(LABEL_P1A@, *self.p1a),
            point_op::<G>(LABEL_P1B@, *self.p1b),
        ]
    }
}

/// The witness: `First` knows `x` with `P0 = [x]B0`; `Second` knows `x` with
/// `P1A = [x]B1A` and `P1B = [x]B1B`. The variant names the honest branch.
#[derive(Debug)]
pub enum DvWitness<G: Group> {
    First { x: SecretScalar<G> },
    Second { x: SecretScalar<G> },
}

impl<G: Group> DvWitness<G> {
    /// The secret of either branch.
    pub open spec fn secret(self) -> int {
        match self {
            DvWitness::First { x } => x@,
            DvWitness::Second { x } => x@,
        }
    }

    /// A witness for the first statement.
    pub fn new_simulate(x: SecretScalar<G>) -> (r: Self)
        ensures
            r is First,
            r.secret() == x@,
    {
        DvWitness::First { x }
    }

    /// A witness for the second statement.
    pub fn new(x: SecretScalar<G>) -> (r: Self)
        ensures
            r is Second,
            r.secret() == x@,
    {
        DvWitness::Second { x }
    }
}

/// Prover ephemeral state.
#[derive(Debug)]
pub struct DvState<G: Group> {
    t: SecretScalar<G>,
    c_sim: G::Scalar,
    z_sim: G::Scalar,
    i0: Option<G::Point>,
    i1a: Option<G::Point>,
    i1b: Option<G::Point>,
}

impl<G: Group> DvState<G> {
    /// The honest nonce, the simulated challenge and the simulated response.
    pub closed spec fn draws(self) -> (int, int, int) {
        (self.t@, G::scalar_val(self.c_sim), G::scalar_val(self.z_sim))
    }

    /// The commitments, once `commit` has run.
    pub closed spec fn committed(self) -> Option<(G::Point, G::Point, G::Point)> {
        match (self.i0, self.i1a, self.i1b) {
            (Some(a), Some(b), Some(c)) => Some((a, b, c)),
            _ => None,
        }
    }
}

/// Designated-verifier proof.
#[derive(Debug, Clone, PartialEq)]
pub struct DvProof<G: Group> {
    pub i0: G::Point,
    pub i1a: G::Point,
    pub i1b: G::Point,
    pub c0: G::Scalar,
    pub c1: G::Scalar,
    pub z0: G::Scalar,
    pub z1: G::Scalar,
}

impl<G: Group> DvProof<G> {
    /// The transcript entries of the proof's commitments.
    pub open spec fn proof_ops(self) -> Seq<TranscriptOp> {
        seq![point_op::<G>(LABEL_I0@, self.i0), point_op::<G>(LABEL_I1A@, self.i1a), point_op::<G>(LABEL_I1B@, self.i1b)]
    }
}

/// The designated-verifier protocol.
pub struct DvProtocol<G: Group>(PhantomData<G>);

/// The Schnorr check `[z]B == I + [c]P` over discrete logarithms.
pub open spec fn schnorr_holds<G: Group>(b: int, p: int, i: int, z: int, c: int) -> bool {
    let q = G::order() as int;
    (b * z) % q == (i + (p * c) % q) % q
}

/// A simulated commitment `[z]B - [c]P` over discrete logarithms.
pub open spec fn simulated<G: Group>(b: int, p: int, z: int, c: int) -> int {
    let q = G::order() as int;
    ((b * z) % q - (p * c) % q) % q
}

impl<G: Group> DvProtocol<G> {
    pub open spec fn transcript_ops(prefix: Seq<TranscriptOp>, public: DvPublicBorrowed<G>, proof: DvProof<G>) -> Seq<TranscriptOp> {
        prefix.push(start_op(DV_DOMAIN@)) + public.public_ops() + proof.proof_ops()
    }

    pub open spec fn challenge(prefix: Seq<TranscriptOp>, public: DvPublicBorrowed<G>, proof: DvProof<G>) -> int {
        G::spec_challenge(Self::transcript_ops(prefix, public, proof), LABEL_CHALLENGE@)
    }

    /// What the verifier answers under challenge `c`.
    pub open spec fn verify_result(public: DvPublicBorrowed<G>, proof: DvProof<G>, c: int) -> Result<(), Error> {
        let q = G::order() as int;
        let c0 = G::scalar_val(proof.c0);
        let c1 = G::scalar_val(proof.c1);
        if c != (c0 + c1) % q {
            Err(Error::ChallengeMismatch)
        } else if schnorr_holds::<G>(
            G::point_val(public.dv.base0),
            G::point_val(public.dv.pv),
            G::point_val(proof.i0),
            G::scalar_val(proof.z0),
            c0,
        ) && schnorr_holds::<G>(
            G::point_val(*public.b1a),
            G::point_val(*public.p1a),
            G::point_val(proof.i1a),
            G::scalar_val(proof.z1),
            c1,
        ) && schnorr_holds::<G>(
            G::point_val(*public.b1b),
            G::point_val(*public.p1b),
            G::point_val(proof.i1b),
            G::scalar_val(proof.z1),
            c1,
        ) {
            Ok(())
        } else {
            Err(Error::CommitmentMismatch)
        }
    }

    /// Whether `proof` is what the prover answers with `witness` under
    /// challenge `c`, with nonce `t`, simulated challenge `cs` and
    /// simulated response `zs`.
    pub open spec fn produced_with(public: DvPublicBorrowed<G>, first: bool, x: int, proof: DvProof<G>, c: int, t: int, cs: int, zs: int) -> bool {
        let q = G::order() as int;
        let b0 = G::point_val(public.dv.base0);
        let p0 = G::point_val(public.dv.pv);
        let b1a = G::point_val(*public.b1a);
        let p1a = G::point_val(*public.p1a);
        let b1b = G::point_val(*public.b1b);
        let p1b = G::point_val(*public.p1b);
        if first {
            &&& G::point_val(proof.i0) == (b0 * t) % q
            &&& G::point_val(proof.i1a) == simulated::<G>(b1a, p1a, zs, cs)
            &&& G::point_val(proof.i1b) == simulated::<G>(b1b, p1b, zs, cs)
            &&& G::scalar_val(proof.c1) == cs
            &&& G::scalar_val(proof.c0) == (c - cs) % q
            &&& G::scalar_val(proof.z0) == (G::scalar_val(proof.c0) * x + t) % q
            &&& G::scalar_val(proof.z1) == zs
        } else {
            &&& G::point_val(proof.i0) == simulated::<G>(b0, p0, zs, cs)
            &&& G::point_val(proof.i1a) == (b1a * t) % q
            &&& G::point_val(proof.i1b) == (b1b * t) % q
            &&& G::scalar_val(proof.c0) == cs
            &&& G::scalar_val(proof.c1) == (c - cs) % q
            &&& G::scalar_val(proof.z1) == (G::scalar_val(proof.c1) * x + t) % q
            &&& G::scalar_val(proof.z0) == zs
        }
    }

    /// Whether `proof` is what the prover answers with `witness` under
    /// challenge `c`, for some draws.
    pub open spec fn produced(public: DvPublicBorrowed<G>, witness: DvWitness<G>, proof: DvProof<G>, c: int) -> bool {
        let q = G::order() as int;
        exists|t: int, cs: int, zs: int|
            0 <= t < q && 0 <= cs < q && 0 <= zs < q && #[trigger] Self::produced_with(
                public,
                witness is First,
                witness.secret(),
                proof,
                c,
                t,
                cs,
                zs,
            )
    }
}

impl<'a, G: Group> SigmaProtocol<'a> for DvProtocol<G> {
    type Public = DvPublicBorrowed<'a, G>;

    type Witness = DvWitness<G>;

    type Proof = DvProof<G>;

    type State = DvState<G>;

    open spec fn domain() -> Seq<u8> {
        DV_DOMAIN@
    }

    fn domain_label() -> (r: &'static [u8]) {
        &DV_DOMAIN
    }

    open spec fn public_entries(public: DvPublicBorrowed<'a, G>) -> Seq<TranscriptOp> {
        public.public_ops()
    }

    open spec fn proof_shaped(proof: DvProof<G>) -> bool {
        true
    }

    open spec fn proof_entries(proof: DvProof<G>) -> Seq<TranscriptOp> {
        proof.proof_ops()
    }

    open spec fn relation(public: DvPublicBorrowed<'a, G>, proof: DvProof<G>, entries: Seq<TranscriptOp>) -> Result<(), Error> {
        Self::verify_result(public, proof, G::spec_challenge(entries, LABEL_CHALLENGE@))
    }

    open spec fn relation_entries(proof: DvProof<G>, entries: Seq<TranscriptOp>) -> Seq<TranscriptOp> {
        entries.push(challenge_op::<G>(LABEL_CHALLENGE@))
    }

    open spec fn prove_pre(public: DvPublicBorrowed<'a, G>, witness: DvWitness<G>) -> bool {
        true
    }

    open spec fn fresh(public: DvPublicBorrowed<'a, G>, state: DvState<G>) -> bool {
        &&& state.committed() is None
        &&& 0 <= state.draws().0 < G::order()
        &&& 0 <= state.draws().1 < G::order()
        &&& 0 <= state.draws().2 < G::order()
    }

    open spec fn commit_pre(public: DvPublicBorrowed<'a, G>, state: DvState<G>, witness: DvWitness<G>) -> bool {
        true
    }

    open spec fn commit_step(
        public: DvPublicBorrowed<'a, G>,
        before: DvState<G>,
        after: DvState<G>,
        witness: DvWitness<G>,
        entries_before: Seq<TranscriptOp>,
        entries_after: Seq<TranscriptOp>,
    ) -> bool {
        &&& after.draws() == before.draws()
        &&& ({
            let q = G::order() as int;
            let (t, cs, zs) = before.draws();
            let b0 = G::point_val(public.dv.base0);
            let p0 = G::point_val(public.dv.pv);
            let b1a = G::point_val(*public.b1a);
            let p1a = G::point_val(*public.p1a);
            let b1b = G::point_val(*public.b1b);
            let p1b = G::point_val(*public.p1b);
            after.committed() matches Some((i0, i1a, i1b)) && entries_after
                == entries_before.push(point_op::<G>(LABEL_I0@, i0)).push(
                point_op::<G>(LABEL_I1A@, i1a),
            ).push(point_op::<G>(LABEL_I1B@, i1b)) && if witness is First {
                &&& G::point_val(i0) == (b0 * t) % q
                &&& G::point_val(i1a) == simulated::<G>(b1a, p1a, zs, cs)
                &&& G::point_val(i1b) == simulated::<G>(b1b, p1b, zs, cs)
            } else {
                &&& G::point_val(i0) == simulated::<G>(b0, p0, zs, cs)
                &&& G::point_val(i1a) == (b1a * t) % q
                &&& G::point_val(i1b) == (b1b * t) % q
            }
        })
    }

    open spec fn complete_pre(state: DvState<G>, witness: DvWitness<G>) -> bool {
        state.committed() is Some
    }

    open spec fn complete_step(
        state: DvState<G>,
        witness: DvWitness<G>,
        entries_before: Seq<TranscriptOp>,
        proof: DvProof<G>,
        entries_after: Seq<TranscriptOp>,
    ) -> bool {
        &&& state.committed() == Some((proof.i0, proof.i1a, proof.i1b))
        &&& ({
            let c = G::spec_challenge(entries_before, LABEL_CHALLENGE@);
            let q = G::order() as int;
            let (t, cs, zs) = state.draws();
            if witness is First {
                &&& G::scalar_val(proof.c1) == cs
                &&& G::scalar_val(proof.c0) == (c - cs) % q
                &&& G::scalar_val(proof.z0) == (G::scalar_val(proof.c0) * witness.secret() + t) % q
                &&& G::scalar_val(proof.z1) == zs
            } else {
                &&& G::scalar_val(proof.c0) == cs
                &&& G::scalar_val(proof.c1) == (c - cs) % q
                &&& G::scalar_val(proof.z1) == (G::scalar_val(proof.c1) * witness.secret() + t) % q
                &&& G::scalar_val(proof.z0) == zs
            }
        })
        &&& entries_after == entries_before.push(challenge_op::<G>(LABEL_CHALLENGE@))
    }

    open spec fn produced_on(public: DvPublicBorrowed<'a, G>, witness: DvWitness<G>, proof: DvProof<G>, prefix: Seq<TranscriptOp>) -> bool {
        Self::produced(public, witness, proof, Self::challenge(prefix, public, proof))
    }

    proof fn lemma_prover_flow(
        public: DvPublicBorrowed<'a, G>,
        witness: DvWitness<G>,
        s0: DvState<G>,
        s1: DvState<G>,
        prefix: Seq<TranscriptOp>,
        e2: Seq<TranscriptOp>,
        proof: DvProof<G>,
        e3: Seq<TranscriptOp>,
    ) {
        let e1 = prefix.push(start_op(Self::domain())) + Self::public_entries(public);
        assert(Self::prove_pre(public, witness));
        assert(Self::fresh(public, s0));
        assert(Self::commit_pre(public, s0, witness));
        if Self::commit_step(public, s0, s1, witness, e1, e2) {
            assert(Self::complete_pre(s1, witness));
            if Self::complete_step(s1, witness, e2, proof, e3) {
                let (t, cs, zs) = s1.draws();
                assert(e2 == Self::transcript_ops(prefix, public, proof));
                assert(Self::produced_with(
                    public,
                    witness is First,
                    witness.secret(),
                    proof,
                    Self::challenge(prefix, public, proof),
                    t,
                    cs,
                    zs,
                ));
                assert(Self::produced_on(public, witness, proof, prefix));
                assert(Self::proof_shaped(proof));
                assert(e3 == Self::relation_entries(proof, e1 + Self::proof_entries(proof)));
            }
        }
    }

    /// Absorb the public statement.
    fn absorb_public(public: DvPublicBorrowed<'a, G>, tr: &mut Transcript)
        ensures
            transcript_entries(*final(tr)) == transcript_entries(*old(tr)) + Self::public_entries(public),
            transcript_entries(*final(tr)) == transcript_entries(*old(tr)) + public.public_ops(),
    {
        tr.append_point::<G>(&LABEL_B0, &public.dv.base0);
        tr.append_point::<G>(&LABEL_B1A, public.b1a);
        tr.append_point::<G>(&LABEL_B1B, public.b1b);
        tr.append_point::<G>(&LABEL_P0, &public.dv.pv);
        tr.append_point::<G>(&LABEL_P1A, public.p1a);
        tr.append_point::<G>(&LABEL_P1B, public.p1b);
    }

    /// Draw the nonce, the simulated challenge and the simulated response.
    fn init(public: DvPublicBorrowed<'a, G>, rng: &mut ChaCha20Rng) -> (r: DvState<G>)
        ensures
            Self::fresh(public, r),
            r.committed() is None,
            0 <= r.draws().0 < G::order(),
            0 <= r.draws().1 < G::order(),
            0 <= r.draws().2 < G::order(),
    {
        let t = SecretScalar::new(rng);
        let c_sim = G::scalar_random(rng);
        let z_sim = G::scalar_random(rng);
        proof {
            G::lemma_scalar_facts(c_sim);
            G::lemma_scalar_facts(z_sim);
        }
        DvState { t, c_sim, z_sim, i0: None, i1a: None, i1b: None }
    }

    /// Commit on the honest branch and simulate the other; absorb the
    /// commitments.
    fn commit(public: DvPublicBorrowed<'a, G>, state: &mut DvState<G>, witness: &DvWitness<G>, tr: &mut Transcript)
        ensures
            Self::commit_step(public, *old(state), *final(state), *witness, transcript_entries(*old(tr)), transcript_entries(*final(tr))),
            final(state).draws() == old(state).draws(),
            ({
                let q = G::order() as int;
                let (t, cs, zs) = old(state).draws();
                let b0 = G::point_val(public.dv.base0);
                let p0 = G::point_val(public.dv.pv);
                let b1a = G::point_val(*public.b1a);
                let p1a = G::point_val(*public.p1a);
                let b1b = G::point_val(*public.b1b);
                let p1b = G::point_val(*public.p1b);
                final(state).committed() matches Some((i0, i1a, i1b)) && transcript_entries(*final(tr))
                    == transcript_entries(*old(tr)).push(point_op::<G>(LABEL_I0@, i0)).push(
                    point_op::<G>(LABEL_I1A@, i1a),
                ).push(point_op::<G>(LABEL_I1B@, i1b)) && if witness is First {
                    &&& G::point_val(i0) == (b0 * t) % q
                    &&& G::point_val(i1a) == simulated::<G>(b1a, p1a, zs, cs)
                    &&& G::point_val(i1b) == simulated::<G>(b1b, p1b, zs, cs)
                } else {
                    &&& G::point_val(i0) == simulated::<G>(b0, p0, zs, cs)
                    &&& G::point_val(i1a) == (b1a * t) % q
                    &&& G::point_val(i1b) == (b1b * t) % q
                }
            }),
    {
        proof {
            assert(Self::commit_pre(public, *state, *witness));
        }
        let (i0, i1a, i1b) = match witness {
            DvWitness::First { .. } => {
                let i0 = G::point_mul(&public.dv.base0, state.t.expose());
                let i1a = G::point_sub(&G::point_mul(public.b1a, &state.z_sim), &G::point_mul(public.p1a, &state.c_sim));
                let i1b = G::point_sub(&G::point_mul(public.b1b, &state.z_sim), &G::point_mul(public.p1b, &state.c_sim));
                (i0, i1a, i1b)
            },
            DvWitness::Second { .. } => {
                let i0 = G::point_sub(
                    &G::point_mul(&public.dv.base0, &state.z_sim),
                    &G::point_mul(&public.dv.pv, &state.c_sim),
                );
                let i1a = G::point_mul(public.b1a, state.t.expose());
                let i1b = G::point_mul(public.b1b, state.t.expose());
                (i0, i1a, i1b)
            },
        };
        tr.append_point::<G>(&LABEL_I0, &i0);
        tr.append_point::<G>(&LABEL_I1A, &i1a);
        tr.append_point::<G>(&LABEL_I1B, &i1b);
        state.i0 = Some(i0);
        state.i1a = Some(i1a);
        state.i1b = Some(i1b);
    }

    /// Derive the challenge, split it, and answer on the honest branch.
    fn complete(state: DvState<G>, witness: &DvWitness<G>, tr: &mut Transcript) -> (r: DvProof<G>)
        ensures
            Self::complete_step(state, *witness, transcript_entries(*old(tr)), r, transcript_entries(*final(tr))),
            state.committed() == Some((r.i0, r.i1a, r.i1b)),
            ({
                let c = G::spec_challenge(transcript_entries(*old(tr)), LABEL_CHALLENGE@);
                let q = G::order() as int;
                let (t, cs, zs) = state.draws();
                if witness is First {
                    &&& G::scalar_val(r.c1) == cs
                    &&& G::scalar_val(r.c0) == (c - cs) % q
                    &&& G::scalar_val(r.z0) == (G::scalar_val(r.c0) * witness.secret() + t) % q
                    &&& G::scalar_val(r.z1) == zs
                } else {
                    &&& G::scalar_val(r.c0) == cs
                    &&& G::scalar_val(r.c1) == (c - cs) % q
                    &&& G::scalar_val(r.z1) == (G::scalar_val(r.c1) * witness.secret() + t) % q
                    &&& G::scalar_val(r.z0) == zs
                }
            }),
            transcript_entries(*final(tr)) == transcript_entries(*old(tr)).push(challenge_op::<G>(LABEL_CHALLENGE@)),
    {
        proof {
            assert(Self::complete_pre(state, *witness));
        }
        let c = tr.challenge_scalar::<G>(&LABEL_CHALLENGE);
        let (i0, i1a, i1b) = match (state.i0, state.i1a, state.i1b) {
            (Some(a), Some(b), Some(d)) => (a, b, d),
            _ => (G::identity(), G::identity(), G::identity()),
        };
        proof {
            G::lemma_order();
        }
        match witness {
            DvWitness::First { x } => {
                let c1 = state.c_sim;
                let c0 = G::scalar_sub(&c, &c1);
                let z0 = G::scalar_add(&G::scalar_mul(&c0, x.expose()), state.t.expose());
                proof {
                    lemma_add_mod_both(G::scalar_val(c0) * x@, state.t@, G::order() as int);
                }
                DvProof { i0, i1a, i1b, c0, c1, z0, z1: state.z_sim }
            },
            DvWitness::Second { x } => {
                let c0 = state.c_sim;
                let c1 = G::scalar_sub(&c, &c0);
                let z1 = G::scalar_add(&G::scalar_mul(&c1, x.expose()), state.t.expose());
                proof {
                    lemma_add_mod_both(G::scalar_val(c1) * x@, state.t@, G::order() as int);
                }
                DvProof { i0, i1a, i1b, c0, c1, z0: state.z_sim, z1 }
            },
        }
    }

    /// Absorb the proof's commitments.
    fn update_transcript(proof: &DvProof<G>, tr: &mut Transcript) -> (r: Result<(), Error>)
        ensures
            transcript_entries(*final(tr)) == transcript_entries(*old(tr)) + Self::proof_entries(*proof),
            r is Ok,
            transcript_entries(*final(tr)) == transcript_entries(*old(tr)) + proof.proof_ops(),
    {
        proof {
            assert(Self::proof_shaped(*proof));
        }
        tr.append_point::<G>(&LABEL_I0, &proof.i0);
        tr.append_point::<G>(&LABEL_I1A, &proof.i1a);
        tr.append_point::<G>(&LABEL_I1B, &proof.i1b);
        Ok(())
    }

    /// Derive the challenge, check that it splits into `c0 + c1`, and check
    /// all three Schnorr relations.
    fn verify_relation(public: DvPublicBorrowed<'a, G>, proof: &DvProof<G>, tr: &mut Transcript) -> (r: Result<(), Error>)
        ensures
            r == Self::relation(public, *proof, transcript_entries(*old(tr))) && transcript_entries(*final(tr)) == Self::relation_entries(*proof, transcript_entries(*old(tr))),
            r == Self::verify_result(public, *proof, G::spec_challenge(transcript_entries(*old(tr)), LABEL_CHALLENGE@)),
            transcript_entries(*final(tr)) == transcript_entries(*old(tr)).push(challenge_op::<G>(LABEL_CHALLENGE@)),
    {
        proof {
            assert(Self::proof_shaped(*proof));
        }
        let c = tr.challenge_scalar::<G>(&LABEL_CHALLENGE);
        if !G::scalar_eq(&c, &G::scalar_add(&proof.c0, &proof.c1)) {
            proof {
                G::lemma_scalar_facts(c);
            }
            return Err(Error::ChallengeMismatch);
        }
        proof {
            G::lemma_scalar_facts(c);
            G::lemma_order();
            lemma_mod_small(G::scalar_val(c), G::order() as int);
        }
        let lhs0 = G::point_mul(&public.dv.base0, &proof.z0);
        let rhs0 = G::point_add(&proof.i0, &G::point_mul(&public.dv.pv, &proof.c0));
        if !G::point_eq(&lhs0, &rhs0) {
            return Err(Error::CommitmentMismatch);
        }
        let lhs1a = G::point_mul(public.b1a, &proof.z1);
        let rhs1a = G::point_add(&proof.i1a, &G::point_mul(public.p1a, &proof.c1));
        if !G::point_eq(&lhs1a, &rhs1a) {
            return Err(Error::CommitmentMismatch);
        }
        let lhs1b = G::point_mul(public.b1b, &proof.z1);
        let rhs1b = G::point_add(&proof.i1b, &G::point_mul(public.p1b, &proof.c1));
        if !G::point_eq(&lhs1b, &rhs1b) {
            return Err(Error::CommitmentMismatch);
        }
        Ok(())
    }
}

impl<G: Group> DvProof<G> {
    /// Prove with a fresh transcript.
    pub fn prove(public: DvPublicBorrowed<'_, G>, witness: &DvWitness<G>, rng: &mut ChaCha20Rng) -> (r: Self)
        ensures
            DvProtocol::<G>::produced(public, *witness, r, DvProtocol::<G>::challenge(fresh_ops(), public, r)),
    {
        let mut tr = transcript_new(&LABEL_EMPTY);
        assert(LABEL_EMPTY@ == Seq::<u8>::empty());
        DvProtocol::<G>::prove(public, witness, &mut tr, rng)
    }

    /// Verify with a fresh transcript.
    pub fn verify(&self, public: DvPublicBorrowed<'_, G>) -> (r: Result<(), Error>)
        ensures
            r == DvProtocol::<G>::verify_result(public, *self, DvProtocol::<G>::challenge(fresh_ops(), public, *self)),
    {
        let mut tr = transcript_new(&LABEL_EMPTY);
        assert(LABEL_EMPTY@ == Seq::<u8>::empty());
        DvProtocol::<G>::verify(public, self, &mut tr)
    }
}

/// A simulated commitment passes its Schnorr check.
proof fn lemma_simulated_holds<G: Group>(b: int, p: int, z: int, c: int)
    ensures
        schnorr_holds::<G>(b, p, simulated::<G>(b, p, z, c), z, c),
{
    G::lemma_order();
    let q = G::order() as int;
    let x = (b * z) % q;
    let y = (p * c) % q;
    lemma_add_mod_both(x - y, y, q);
    lemma_mod_mod(b * z, q);
    lemma_mod_mod(p * c, q);
}

/// Completeness: a proof that the prover makes with a witness for the
/// statement its variant names (`P0 = [x]B0` for `First`, `P1A = [x]B1A`
/// and `P1B = [x]B1B` for `Second`) is accepted under the same challenge.
pub proof fn lemma_dv_complete<G: Group>(public: DvPublicBorrowed<G>, witness: DvWitness<G>, proof: DvProof<G>, c: int)
    requires
        DvProtocol::<G>::produced(public, witness, proof, c),
        0 <= c < G::order(),
        witness is First ==> G::point_val(public.dv.pv) == (G::point_val(public.dv.base0) * witness.secret())
            % G::order() as int,
        witness is Second ==> G::point_val(*public.p1a) == (G::point_val(*public.b1a) * witness.secret())
            % G::order() as int && G::point_val(*public.p1b) == (G::point_val(*public.b1b) * witness.secret())
            % G::order() as int,
    ensures
        DvProtocol::<G>::verify_result(public, proof, c) == Ok::<(), Error>(()),
{
    G::lemma_order();
    let q = G::order() as int;
    let x = witness.secret();
    let (t, cs, zs) = choose|t: int, cs: int, zs: int|
        0 <= t < q && 0 <= cs < q && 0 <= zs < q && #[trigger] DvProtocol::<G>::produced_with(
            public,
            witness is First,
            witness.secret(),
            proof,
            c,
            t,
            cs,
            zs,
        );
    let b0 = G::point_val(public.dv.base0);
    let b1a = G::point_val(*public.b1a);
    let b1b = G::point_val(*public.b1b);
    let p0 = G::point_val(public.dv.pv);
    let p1a = G::point_val(*public.p1a);
    let p1b = G::point_val(*public.p1b);
    // the two challenges add up to c
    lemma_add_mod_both(c - cs, cs, q);
    lemma_add_mod_both(cs, c - cs, q);
    lemma_mod_small(cs, q);
    lemma_mod_small(c, q);
    if witness is First {
        let c0 = (c - cs) % q;
        lemma_response(b0, x, t, c0, q);
        lemma_simulated_holds::<G>(b1a, p1a, zs, cs);
        lemma_simulated_holds::<G>(b1b, p1b, zs, cs);
        assert((b0 * ((c0 * x + t) % q)) % q == ((b0 * t) % q + ((b0 * x) % q * c0) % q) % q);
        assert(((b0 * x) % q * c0) == p0 * c0);
    } else {
        let c1 = (c - cs) % q;
        lemma_response(b1a, x, t, c1, q);
        lemma_response(b1b, x, t, c1, q);
        lemma_simulated_holds::<G>(b0, p0, zs, cs);
        assert(((b1a * x) % q * c1) == p1a * c1);
        assert(((b1b * x) % q * c1) == p1b * c1);
    }
}

/// A proof made by `DvProof::prove` with a witness for the statement its
/// variant names is accepted by `DvProof::verify`.
pub proof fn lemma_dv_prove_verify<G: Group>(
    public: DvPublicBorrowed<G>,
    witness: DvWitness<G>,
    rng: &mut ChaCha20Rng,
    proof: DvProof<G>,
    res: Result<(), Error>,
)
    requires
        witness is First ==> G::point_val(public.dv.pv) == (G::point_val(public.dv.base0) * witness.secret())
            % G::order() as int,
        witness is Second ==> G::point_val(*public.p1a) == (G::point_val(*public.b1a) * witness.secret())
            % G::order() as int && G::point_val(*public.p1b) == (G::point_val(*public.b1b) * witness.secret())
            % G::order() as int,
        call_ensures(DvProof::<G>::prove, (public, &witness, rng), proof),
        call_ensures(DvProof::<G>::verify, (&proof, public), res),
    ensures
        res == Ok::<(), Error>(()),
{
    G::lemma_challenge_range(DvProtocol::<G>::transcript_ops(fresh_ops(), public, proof), LABEL_CHALLENGE@);
    lemma_dv_complete(public, witness, proof, DvProtocol::<G>::challenge(fresh_ops(), public, proof));
}

/// The designated verifier's value is no identity: a fresh pair over a base
/// other than the identity has a nonzero, invertible secret, so its public
/// value `pv = [sv]base0` is not the identity either; and one secret maps
/// different bases to different public values.
pub proof fn lemma_designated_pair_not_identity<G: Group>(base0: G::Point, rng: &mut ChaCha20Rng, pair: DesignatedPair<G>)
    requires
        call_ensures(DesignatedPair::<G>::new, (base0, rng), pair),
    ensures
        0 < pair.ds.sv@ < G::order(),
        G::point_val(base0) != 0 ==> G::point_val(pair.dp.pv) != 0,
        forall|b: int, b2: int|
            0 <= b < G::order() && 0 <= b2 < G::order() && b != b2 ==> (#[trigger] (b * pair.ds.sv@)) % G::order() as int
                != (#[trigger] (b2 * pair.ds.sv@)) % G::order() as int,
{
    G::lemma_order();
    G::lemma_point_facts(base0);
    let q = G::order() as int;
    if G::point_val(base0) != 0 {
        lemma_unit_keeps_nonzero(G::point_val(base0), pair.ds.sv@, q);
    }
    assert forall|b: int, b2: int|
        0 <= b < G::order() && 0 <= b2 < G::order() && b != b2 implies (#[trigger] (b * pair.ds.sv@)) % q
            != (#[trigger] (b2 * pair.ds.sv@)) % q by {
        if (b * pair.ds.sv@) % q == (b2 * pair.ds.sv@) % q {
            lemma_unit_cancel(b, b2, pair.ds.sv@, q);
        }
    }
}

} // verus!
