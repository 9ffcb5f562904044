//! Sigma protocols for discrete-logarithm relations, made non-interactive
//! with Fiat-Shamir over `merlin` transcripts.
//!
//! Every protocol follows one canonical flow. The prover starts the proof
//! (domain separation under `dom-sep`), absorbs the public statement, draws
//! its ephemeral randomness, absorbs its commitments, derives the challenge
//! and computes the responses. The verifier starts the proof, absorbs the
//! same public statement and the proof's commitments, derives the challenge
//! and checks the algebraic relations. Each protocol states the transcript
//! entries it produces, so prover and verifier derive the same challenge from
//! transcripts that start alike; the challenge is named by
//! `GroupScalar::spec_challenge`.
pub mod labels;
pub mod zero;
pub mod plaintext;
pub mod exp;
pub mod log_equality;
pub mod ver_decr;
pub mod not_identity;
pub mod dvzkp;
pub mod disjunctive;
pub mod fingerprints;
pub mod shuffle;
pub mod known_content;
pub mod reencryption;

use vstd::prelude::*;
use merlin::Transcript;
use rand_chacha::ChaCha20Rng;
use crate::group::{Group, GroupScalar, point_to_vec, scalar_to_vec, scalars_val, chacha_seeded};
use crate::randomness::RandomBytesProvider;
use crate::elgamal::ciphertext::Ciphertext;
use crate::error::Error;
use crate::transcript::{
    TranscriptOp, transcript_entries, transcript_append, transcript_challenge, dom_sep_label, merlin_challenge,
};
use crate::proofs::labels::DOM_SEP;

verus! {

/// The transcript entry of a message.
pub open spec fn msg_op(label: Seq<u8>, bytes: Seq<u8>) -> TranscriptOp {
    TranscriptOp::Message(label, bytes)
}

/// The transcript entry of a point.
pub open spec fn point_op<G: Group>(label: Seq<u8>, p: G::Point) -> TranscriptOp {
    TranscriptOp::Message(label, G::point_bytes(p))
}

/// The transcript entry of a scalar.
pub open spec fn scalar_op<G: Group>(label: Seq<u8>, s: G::Scalar) -> TranscriptOp {
    TranscriptOp::Message(label, G::scalar_bytes(s))
}

/// The transcript entry of a ciphertext.
pub open spec fn ct_op<G: Group>(label: Seq<u8>, c: Ciphertext<G>) -> TranscriptOp {
    TranscriptOp::Message(label, c.bytes_spec())
}

/// The transcript entry of a scalar challenge.
pub open spec fn challenge_op<G: Group>(label: Seq<u8>) -> TranscriptOp {
    TranscriptOp::Challenge(label, G::challenge_len())
}

/// The transcript entry that starts a proof in `domain`.
pub open spec fn start_op(domain: Seq<u8>) -> TranscriptOp {
    TranscriptOp::Message(dom_sep_label(), domain)
}

/// The entries of a fresh transcript made with the empty label, as the
/// one-shot `prove` and `verify` of each proof use.
pub open spec fn fresh_ops() -> Seq<TranscriptOp> {
    seq![start_op(Seq::<u8>::empty())]
}

/// A Sigma protocol in the canonical flow: domain separation, the public
/// statement, the prover's commitments, the challenge and the responses.
///
/// Each protocol states its steps over spec functions of its own: what the
/// statement and the commitments add to the transcript, what each prover
/// step does, and what the verifier's relation answers. The one-shot `prove`
/// and `verify` are written once here, over those steps.
pub trait SigmaProtocol<'a>: Sized {
    /// Protocol-wide domain separator, as bytes.
    spec fn domain() -> Seq<u8>;

    /// The domain separator, unique per protocol.
    fn domain_label() -> (r: &'static [u8])
        ensures
            r@ == Self::domain(),
            r@.len() <= u32::MAX,
    ;

    /// Borrowed public input.
    type Public: Copy;

    /// Witness owned by the prover.
    type Witness;

    /// Final proof object.
    type Proof;

    /// Ephemeral state across `init`, `commit` and `complete`.
    type State;

    /// The transcript entries of the public statement.
    spec fn public_entries(public: Self::Public) -> Seq<TranscriptOp>;

    /// Whether a proof has the shape that verification reads.
    spec fn proof_shaped(proof: Self::Proof) -> bool;

    /// The transcript entries of the proof's commitments.
    spec fn proof_entries(proof: Self::Proof) -> Seq<TranscriptOp>;

    /// What the verifier's relation answers on a transcript that holds
    /// `entries`.
    spec fn relation(public: Self::Public, proof: Self::Proof, entries: Seq<TranscriptOp>) -> Result<(), Error>;

    /// The transcript once the relation is checked on one that held `entries`.
    spec fn relation_entries(proof: Self::Proof, entries: Seq<TranscriptOp>) -> Seq<TranscriptOp>;

    /// Whether the prover may run with this witness.
    spec fn prove_pre(public: Self::Public, witness: Self::Witness) -> bool;

    /// What `init` gives.
    spec fn fresh(public: Self::Public, state: Self::State) -> bool;

    /// What `commit` needs of the state and the witness.
    spec fn commit_pre(public: Self::Public, state: Self::State, witness: Self::Witness) -> bool;

    /// What `commit` does to the state and to a transcript holding `before`.
    spec fn commit_step(
        public: Self::Public,
        before: Self::State,
        after: Self::State,
        witness: Self::Witness,
        entries_before: Seq<TranscriptOp>,
        entries_after: Seq<TranscriptOp>,
    ) -> bool;

    /// What `complete` needs of the state and the witness.
    spec fn complete_pre(state: Self::State, witness: Self::Witness) -> bool;

    /// What `complete` makes from the state on a transcript holding `before`.
    spec fn complete_step(
        state: Self::State,
        witness: Self::Witness,
        entries_before: Seq<TranscriptOp>,
        proof: Self::Proof,
        entries_after: Seq<TranscriptOp>,
    ) -> bool;

    /// Whether `proof` is what the prover makes with `witness` on a
    /// transcript that held `prefix`.
    spec fn produced_on(public: Self::Public, witness: Self::Witness, proof: Self::Proof, prefix: Seq<TranscriptOp>) -> bool;

    /// The prover's steps compose: a fresh state meets what `commit` needs,
    /// a committed state what `complete` needs, and the proof made is what the
    /// prover makes, with the transcript that the verifier replays.
    proof fn lemma_prover_flow(
        public: Self::Public,
        witness: Self::Witness,
        s0: Self::State,
        s1: Self::State,
        prefix: Seq<TranscriptOp>,
        e2: Seq<TranscriptOp>,
        proof: Self::Proof,
        e3: Seq<TranscriptOp>,
    )
        requires
            Self::prove_pre(public, witness),
            Self::fresh(public, s0),
        ensures
            Self::commit_pre(public, s0, witness),
            Self::commit_step(
                public,
                s0,
                s1,
                witness,
                prefix.push(start_op(Self::domain())) + Self::public_entries(public),
                e2,
            ) ==> Self::complete_pre(s1, witness),
            Self::commit_step(
                public,
                s0,
                s1,
                witness,
                prefix.push(start_op(Self::domain())) + Self::public_entries(public),
                e2,
            ) && Self::complete_step(s1, witness, e2, proof, e3) ==> Self::produced_on(public, witness, proof, prefix)
                && Self::proof_shaped(proof) && e3 == Self::relation_entries(
                proof,
                prefix.push(start_op(Self::domain())) + Self::public_entries(public) + Self::proof_entries(proof),
            ),
    ;

    /// Absorb the public statement.
    fn absorb_public(public: Self::Public, transcript: &mut Transcript)
        ensures
            transcript_entries(*final(transcript)) == transcript_entries(*old(transcript)) + Self::public_entries(
                public,
            ),
    ;

    /// Draw the ephemeral randomness.
    fn init(public: Self::Public, rng: &mut ChaCha20Rng) -> (r: Self::State)
        ensures
            Self::fresh(public, r),
    ;

    /// Produce and absorb the commitments.
    fn commit(public: Self::Public, state: &mut Self::State, witness: &Self::Witness, transcript: &mut Transcript)
        requires
            Self::commit_pre(public, *old(state), *witness),
        ensures
            Self::commit_step(
                public,
                *old(state),
                *final(state),
                *witness,
                transcript_entries(*old(transcript)),
                transcript_entries(*final(transcript)),
            ),
    ;

    /// Derive the challenge and compute the responses.
    fn complete(state: Self::State, witness: &Self::Witness, transcript: &mut Transcript) -> (r: Self::Proof)
        requires
            Self::complete_pre(state, *witness),
        ensures
            Self::complete_step(
                state,
                *witness,
                transcript_entries(*old(transcript)),
                r,
                transcript_entries(*final(transcript)),
            ),
    ;

    /// Replay the absorption of the proof's commitments.
    fn update_transcript(proof: &Self::Proof, transcript: &mut Transcript) -> (r: Result<(), Error>)
        requires
            Self::proof_shaped(*proof),
        ensures
            r is Ok,
            transcript_entries(*final(transcript)) == transcript_entries(*old(transcript)) + Self::proof_entries(
                *proof,
            ),
    ;

    /// Re-derive the challenge and check the relation.
    fn verify_relation(public: Self::Public, proof: &Self::Proof, transcript: &mut Transcript) -> (r: Result<(), Error>)
        requires
            Self::proof_shaped(*proof),
        ensures
            r == Self::relation(public, *proof, transcript_entries(*old(transcript))),
            transcript_entries(*final(transcript)) == Self::relation_entries(*proof, transcript_entries(*old(transcript))),
    ;

    /// One-shot proving: start the proof, absorb the statement, commit and
    /// answer.
    fn prove(public: Self::Public, witness: &Self::Witness, transcript: &mut Transcript, rng: &mut ChaCha20Rng) -> (r: Self::Proof)
        requires
            Self::prove_pre(public, *witness),
        ensures
            Self::produced_on(public, *witness, r, transcript_entries(*old(transcript))),
            Self::proof_shaped(r),
            transcript_entries(*final(transcript)) == Self::relation_entries(
                r,
                transcript_entries(*old(transcript)).push(start_op(Self::domain())) + Self::public_entries(public)
                    + Self::proof_entries(r),
            ),
    {
        let ghost prefix = transcript_entries(*transcript);
        transcript.start_proof(Self::domain_label());
        Self::absorb_public(public, transcript);
        let mut state = Self::init(public, rng);
        let ghost s0 = state;
        proof {
            Self::lemma_prover_flow(public, *witness, s0, s0, prefix, prefix, arbitrary(), prefix);
        }
        Self::commit(public, &mut state, witness, transcript);
        let ghost s1 = state;
        let ghost e2 = transcript_entries(*transcript);
        proof {
            Self::lemma_prover_flow(public, *witness, s0, s1, prefix, e2, arbitrary(), prefix);
        }
        let proof = Self::complete(state, witness, transcript);
        proof {
            Self::lemma_prover_flow(public, *witness, s0, s1, prefix, e2, proof, transcript_entries(*transcript));
        }
        proof
    }

    /// Verification: start the proof, absorb the statement and the proof's
    /// commitments, and check the relation.
    fn verify(public: Self::Public, proof: &Self::Proof, transcript: &mut Transcript) -> (r: Result<(), Error>)
        requires
            Self::proof_shaped(*proof),
        ensures
            r == Self::relation(
                public,
                *proof,
                transcript_entries(*old(transcript)).push(start_op(Self::domain())) + Self::public_entries(public)
                    + Self::proof_entries(*proof),
            ),
            transcript_entries(*final(transcript)) == Self::relation_entries(
                *proof,
                transcript_entries(*old(transcript)).push(start_op(Self::domain())) + Self::public_entries(public)
                    + Self::proof_entries(*proof),
            ),
    {
        transcript.start_proof(Self::domain_label());
        Self::absorb_public(public, transcript);
        match Self::update_transcript(proof, transcript) {
            Ok(()) => {},
            Err(e) => {
                return Err(e);
            },
        }
        Self::verify_relation(public, proof, transcript)
    }
}

/// Transcript helpers for group elements, scalars and ciphertexts.
pub trait TranscriptForGroup: Sized {
    /// The operations applied to the transcript so far.
    spec fn entries(&self) -> Seq<TranscriptOp>;

    /// Begin a proof with domain separation: `proof_label` under `dom-sep`.
    /// The protocol absorbs its public statement right after.
    fn start_proof(&mut self, proof_label: &'static [u8])
        requires
            proof_label@.len() <= u32::MAX,
        ensures
            final(self).entries() == old(self).entries().push(start_op(proof_label@)),
    ;

    /// Append raw bytes under `label`.
    fn append_bytes(&mut self, label: &'static [u8], bytes: &[u8])
        requires
            bytes@.len() <= u32::MAX,
        ensures
            final(self).entries() == old(self).entries().push(msg_op(label@, bytes@)),
    ;

    /// Append a group point under `label`.
    fn append_point<G: Group>(&mut self, label: &'static [u8], point: &G::Point)
        ensures
            final(self).entries() == old(self).entries().push(point_op::<G>(label@, *point)),
    ;

    /// Append a scalar under `label`.
    fn append_scalar<G: Group>(&mut self, label: &'static [u8], scalar: &G::Scalar)
        ensures
            final(self).entries() == old(self).entries().push(scalar_op::<G>(label@, *scalar)),
    ;

    /// Append an ElGamal ciphertext under `label`.
    fn append_ciphertext<G: Group>(&mut self, label: &'static [u8], ciphertext: &Ciphertext<G>)
        ensures
            final(self).entries() == old(self).entries().push(ct_op::<G>(label@, *ciphertext)),
    ;

    /// Derive a challenge scalar from everything absorbed so far.
    fn challenge_scalar<G: Group>(&mut self, label: &'static [u8]) -> (r: G::Scalar)
        ensures
            G::scalar_val(r) == G::spec_challenge(old(self).entries(), label@),
            final(self).entries() == old(self).entries().push(challenge_op::<G>(label@)),
    ;

    /// Derive the 32-byte seed of a deterministic ChaCha generator from the
    /// transcript.
    fn challenge_seed(&mut self, label: &'static [u8]) -> (r: [u8; 32])
        ensures
            r@ == merlin_challenge(old(self).entries(), label@, 32),
            final(self).entries() == old(self).entries().push(TranscriptOp::Challenge(label@, 32)),
    ;

    /// Derive a deterministic ChaCha generator from the transcript, for
    /// sampling that must be replayable: the generator seeded with the
    /// challenge bytes that `challenge_seed` gives.
    fn challenge_shuffle<G: Group>(&mut self, label: &'static [u8]) -> (r: ChaCha20Rng)
        ensures
            r == chacha_seeded(merlin_challenge(old(self).entries(), label@, 32)),
            final(self).entries() == old(self).entries().push(TranscriptOp::Challenge(label@, 32)),
    ;
}

impl TranscriptForGroup for Transcript {
    open spec fn entries(&self) -> Seq<TranscriptOp> {
        transcript_entries(*self)
    }

    fn start_proof(&mut self, proof_label: &'static [u8]) {
        let label: &'static [u8] = &DOM_SEP;
        assert(label@ =~= dom_sep_label());
        transcript_append(self, label, proof_label);
        assert(transcript_entries(*self) == transcript_entries(*old(self)).push(start_op(proof_label@)));
        assert(self.entries() == transcript_entries(*self));
        assert(old(self).entries() == transcript_entries(*old(self)));
    }

    fn append_bytes(&mut self, label: &'static [u8], bytes: &[u8]) {
        transcript_append(self, label, bytes);
    }

    fn append_point<G: Group>(&mut self, label: &'static [u8], point: &G::Point) {
        proof {
            G::lemma_point_facts(*point);
        }
        let output = point_to_vec::<G>(point);
        transcript_append(self, label, output.as_slice());
    }

    fn append_scalar<G: Group>(&mut self, label: &'static [u8], scalar: &G::Scalar) {
        proof {
            G::lemma_scalar_facts(*scalar);
        }
        let output = scalar_to_vec::<G>(scalar);
        transcript_append(self, label, output.as_slice());
    }

    fn append_ciphertext<G: Group>(&mut self, label: &'static [u8], ciphertext: &Ciphertext<G>) {
        proof {
            G::lemma_point_facts(ciphertext.random_point);
            G::lemma_point_facts(ciphertext.random_point2);
            G::lemma_point_facts(ciphertext.blinded_point);
        }
        let output = ciphertext.to_bytes();
        transcript_append(self, label, output.as_slice());
    }

    fn challenge_scalar<G: Group>(&mut self, label: &'static [u8]) -> (r: G::Scalar) {
        G::scalar_from_random_bytes(RandomBytesProvider::new(self, label))
    }

    fn challenge_seed(&mut self, label: &'static [u8]) -> (r: [u8; 32]) {
        let mut seed = [0u8; 32];
        transcript_challenge(self, label, &mut seed);
        seed
    }

    fn challenge_shuffle<G: Group>(&mut self, label: &'static [u8]) -> (r: ChaCha20Rng) {
        G::rng_from_random_bytes(RandomBytesProvider::new(self, label))
    }
}


/// A copy of a vector of copyable items.
pub(crate) fn copy_vec<T: Copy>(v: &Vec<T>) -> (r: Vec<T>)
    ensures
        r@ == v@,
{
    let mut r: Vec<T> = Vec::new();
    let mut i: usize = 0;
    while i < v.len()
        invariant
            i <= v@.len(),
            r@ == v@.subrange(0, i as int),
        decreases v@.len() - i,
    {
        r.push(v[i]);
        i = i + 1;
        assert(r@ =~= v@.subrange(0, i as int));
    }
    assert(v@.subrange(0, v@.len() as int) =~= v@);
    r
}


/// A vector holding the items of a slice of copyable items.
pub(crate) fn copy_slice<T: Copy>(v: &[T]) -> (r: Vec<T>)
    ensures
        r@ == v@,
{
    let mut r: Vec<T> = Vec::new();
    let mut i: usize = 0;
    while i < v.len()
        invariant
            i <= v@.len(),
            r@ == v@.subrange(0, i as int),
        decreases v@.len() - i,
    {
        r.push(v[i]);
        i = i + 1;
        assert(r@ =~= v@.subrange(0, i as int));
    }
    assert(v@.subrange(0, v@.len() as int) =~= v@);
    r
}

/// `n` scalars drawn from a generator.
pub(crate) fn draw_scalars<G: Group>(rng: &mut ChaCha20Rng, n: usize) -> (r: Vec<G::Scalar>)
    ensures
        r@.len() == n,
{
    let mut r: Vec<G::Scalar> = Vec::new();
    let mut i: usize = 0;
    while i < n
        invariant
            i <= n,
            r@.len() == i,
        decreases n - i,
    {
        r.push(G::scalar_random(rng));
        i = i + 1;
    }
    r
}

/// The residues of `n` scalars drawn one after another, as `scalar_random`
/// draws them, from a ChaCha20 generator seeded with `seed` and set to word
/// position `pos`.
pub open spec fn seeded_scalars<G: Group>(seed: Seq<u8>, pos: int, n: nat) -> Seq<int>
    decreases n,
{
    if n == 0 {
        Seq::empty()
    } else {
        let d = G::seeded_draw(seed, pos);
        seq![d.0] + seeded_scalars::<G>(seed, d.1, (n - 1) as nat)
    }
}

/// `n` draws give `n` scalars.
pub proof fn lemma_seeded_scalars_len<G: Group>(seed: Seq<u8>, pos: int, n: nat)
    ensures
        seeded_scalars::<G>(seed, pos, n).len() == n,
    decreases n,
{
    if n > 0 {
        lemma_seeded_scalars_len::<G>(seed, G::seeded_draw(seed, pos).1, (n - 1) as nat);
    }
}

/// `n` scalars drawn, as `scalar_random` draws them, from a ChaCha20
/// generator seeded with `seed`.
pub(crate) fn draw_seeded<G: Group>(seed: &[u8; 32], n: usize) -> (r: Vec<G::Scalar>)
    ensures
        r@.len() == n,
        scalars_val::<G>(r@) == seeded_scalars::<G>(seed@, 0, n as nat),
{
    let mut r: Vec<G::Scalar> = Vec::new();
    let mut pos: u128 = 0;
    let mut i: usize = 0;
    while i < n
        invariant
            i <= n,
            r@.len() == i,
            scalars_val::<G>(r@) + seeded_scalars::<G>(seed@, pos as int, (n - i) as nat) == seeded_scalars::<G>(
                seed@,
                0,
                n as nat,
            ),
        decreases n - i,
    {
        let ghost before = scalars_val::<G>(r@);
        let ghost rest = seeded_scalars::<G>(seed@, pos as int, (n - i) as nat);
        let (s, next) = G::scalar_at(seed, pos);
        assert(rest == seq![G::scalar_val(s)] + seeded_scalars::<G>(seed@, next as int, (n - i - 1) as nat));
        r.push(s);
        pos = next;
        i = i + 1;
        assert(scalars_val::<G>(r@) =~= before.push(G::scalar_val(s)));
        assert(before + rest =~= scalars_val::<G>(r@) + seeded_scalars::<G>(seed@, pos as int, (n - i) as nat));
    }
    assert(seeded_scalars::<G>(seed@, pos as int, 0) =~= Seq::<int>::empty());
    assert(scalars_val::<G>(r@) + Seq::<int>::empty() =~= scalars_val::<G>(r@));
    r
}

} // verus!
