//! Verifiable fingerprints: every ciphertext of a list of lists is scaled by
//! one secret scalar `z`, with a proof that one scalar was used throughout.
//!
//! The prover publishes `fp = [z]C` and `comm = [t]C` for every ciphertext
//! `C`, derives the challenge `c` and answers `s = t + c z`; the verifier
//! checks `[s]C == [c]fp + comm` for every ciphertext.
use vstd::prelude::*;
use merlin::Transcript;
use rand_chacha::ChaCha20Rng;
use crate::error::Error;
use crate::group::{Group, nonzero_scalar};
use crate::zq::{scale3, add3, lemma_add_mod_both, lemma_response, is_unit, lemma_unit_keeps_nonzero, lemma_unit_cancel};
use crate::elgamal::ciphertext::Ciphertext;
use crate::transcript::{TranscriptOp, transcript_entries};
use crate::proofs::{TranscriptForGroup, ct_op, challenge_op};
use crate::proofs::labels::{LABEL_FP, LABEL_COMM, LABEL_CHALLENGE};

verus! {

/// The smaller of two integers.
pub open spec fn min_int(a: int, b: int) -> int {
    if a <= b {
        a
    } else {
        b
    }
}

/// The transcript entries of the first `n` pairs of one row:
/// `fp` then `comm` for each.
pub open spec fn row_ops<G: Group>(fps: Seq<Ciphertext<G>>, comms: Seq<Ciphertext<G>>, n: int) -> Seq<TranscriptOp>
    decreases n,
{
    if n <= 0 {
        Seq::empty()
    } else {
        row_ops::<G>(fps, comms, n - 1) + seq![ct_op::<G>(LABEL_FP@, fps[n - 1]), ct_op::<G>(LABEL_COMM@, comms[n - 1])]
    }
}

/// The transcript entries of the first `n` rows, each over the pairs that
/// both of its lists hold.
pub open spec fn lists_ops<G: Group>(fps: Seq<Vec<Ciphertext<G>>>, comms: Seq<Vec<Ciphertext<G>>>, n: int) -> Seq<TranscriptOp>
    decreases n,
{
    if n <= 0 {
        Seq::empty()
    } else {
        lists_ops::<G>(fps, comms, n - 1) + row_ops::<G>(
            fps[n - 1]@,
            comms[n - 1]@,
            min_int(fps[n - 1]@.len() as int, comms[n - 1]@.len() as int),
        )
    }
}

/// Whether `out` is `cts` scaled by `k`, one by one.
pub open spec fn row_scaled<G: Group>(cts: Seq<Ciphertext<G>>, out: Seq<Ciphertext<G>>, k: int) -> bool {
    &&& out.len() == cts.len()
    &&& forall|b: int| 0 <= b < cts.len() ==> #[trigger] out[b]@ == scale3(cts[b]@, k, G::order() as int)
}

/// The verifier's relation for one ciphertext: `[s]C == [c]fp + comm`.
pub open spec fn fp_holds<G: Group>(orig: Ciphertext<G>, fp: Ciphertext<G>, comm: Ciphertext<G>, s: int, c: int) -> bool {
    let q = G::order() as int;
    scale3(orig@, s, q) == add3(scale3(fp@, c, q), comm@, q)
}

proof fn lemma_row_ops_prefix<G: Group>(fps: Seq<Ciphertext<G>>, comms: Seq<Ciphertext<G>>, f2: Seq<Ciphertext<G>>, c2: Seq<Ciphertext<G>>, n: int)
    requires
        forall|i: int| 0 <= i < n ==> fps[i] == f2[i] && comms[i] == c2[i],
    ensures
        row_ops::<G>(fps, comms, n) == row_ops::<G>(f2, c2, n),
    decreases n,
{
    if n > 0 {
        lemma_row_ops_prefix::<G>(fps, comms, f2, c2, n - 1);
    }
}

proof fn lemma_lists_ops_prefix<G: Group>(
    fps: Seq<Vec<Ciphertext<G>>>,
    comms: Seq<Vec<Ciphertext<G>>>,
    f2: Seq<Vec<Ciphertext<G>>>,
    c2: Seq<Vec<Ciphertext<G>>>,
    n: int,
)
    requires
        forall|i: int| 0 <= i < n ==> fps[i]@ == f2[i]@ && comms[i]@ == c2[i]@,
    ensures
        lists_ops::<G>(fps, comms, n) == lists_ops::<G>(f2, c2, n),
    decreases n,
{
    if n > 0 {
        lemma_lists_ops_prefix::<G>(fps, comms, f2, c2, n - 1);
    }
}

/// Fingerprints of a list of lists of ciphertexts, with the proof that one
/// scalar made all of them.
#[derive(Debug, Clone, PartialEq)]
pub struct VerifiableFingerprints<G: Group> {
    pub fp_lists: Vec<Vec<Ciphertext<G>>>,
    pub comm_lists: Vec<Vec<Ciphertext<G>>>,
    pub response: G::Scalar,
}

impl<G: Group> VerifiableFingerprints<G> {
    /// The transcript entries of the fingerprints and commitments, over the
    /// rows and pairs that both lists hold.
    pub open spec fn proof_ops(self) -> Seq<TranscriptOp> {
        lists_ops::<G>(self.fp_lists@, self.comm_lists@, min_int(self.fp_lists@.len() as int, self.comm_lists@.len() as int))
    }

    /// Whether this is what `new` makes from `ct_lists` with the nonzero,
    /// invertible scalar `z`, nonce `t` and challenge `c`.
    pub open spec fn made_from(self, ct_lists: Seq<Vec<Ciphertext<G>>>, z: int, t: int, c: int) -> bool {
        &&& self.fp_lists@.len() == ct_lists.len()
        &&& self.comm_lists@.len() == ct_lists.len()
        &&& forall|a: int|
            0 <= a < ct_lists.len() ==> row_scaled::<G>(ct_lists[a]@, #[trigger] self.fp_lists@[a]@, z) && row_scaled::<G>(
                ct_lists[a]@,
                self.comm_lists@[a]@,
                t,
            )
        &&& G::scalar_val(self.response) == (t + c * z) % G::order() as int
        &&& 0 < z < G::order()
        &&& is_unit(z, G::order() as int)
    }

    /// Whether the commitment lists have exactly the shape of the
    /// fingerprint lists: one commitment for every fingerprint.
    pub open spec fn shape_matches(self) -> bool {
        &&& self.comm_lists@.len() == self.fp_lists@.len()
        &&& forall|a: int|
            0 <= a < self.fp_lists@.len() ==> #[trigger] self.comm_lists@[a]@.len() == self.fp_lists@[a]@.len()
    }

    /// What `verify` answers for `originals` under challenge `c`: a
    /// commitment list of another shape is refused, and otherwise every
    /// fingerprint must meet the verifier's relation.
    pub open spec fn verify_result(self, originals: Seq<Vec<Ciphertext<G>>>, c: int) -> Result<(), Error> {
        let rows = min_int(self.fp_lists@.len() as int, self.comm_lists@.len() as int);
        if !self.shape_matches() {
            Err(Error::CommitmentMismatch)
        } else if forall|a: int, b: int|
            #![trigger self.fp_lists@[a]@[b]]
            0 <= a < rows && 0 <= b < min_int(self.fp_lists@[a]@.len() as int, self.comm_lists@[a]@.len() as int)
                ==> fp_holds::<G>(
                originals[a]@[b],
                self.fp_lists@[a]@[b],
                self.comm_lists@[a]@[b],
                G::scalar_val(self.response),
                c,
            ) {
            Ok(())
        } else {
            Err(Error::CommitmentMismatch)
        }
    }

    /// Fingerprint every ciphertext with a fresh scalar `z` and prove it.
    pub fn new(ct_lists: Vec<Vec<Ciphertext<G>>>, rng: &mut ChaCha20Rng, transcript: &mut Transcript) -> (r: Self)
        ensures
            exists|z: int, t: int|
                0 <= z < G::order() && 0 <= t < G::order() && #[trigger] r.made_from(
                    ct_lists@,
                    z,
                    t,
                    G::spec_challenge(transcript_entries(*old(transcript)) + r.proof_ops(), LABEL_CHALLENGE@),
                ),
            transcript_entries(*final(transcript)) == (transcript_entries(*old(transcript)) + r.proof_ops()).push(
                challenge_op::<G>(LABEL_CHALLENGE@),
            ),
    {
        let z = nonzero_scalar::<G>(rng);
        let t = G::scalar_random(rng);
        proof {
            G::lemma_scalar_facts(z);
            G::lemma_scalar_facts(t);
        }
        let ghost zv = G::scalar_val(z);
        let ghost tv = G::scalar_val(t);
        let ghost start = transcript_entries(*transcript);
        let mut fp_lists: Vec<Vec<Ciphertext<G>>> = Vec::new();
        let mut comm_lists: Vec<Vec<Ciphertext<G>>> = Vec::new();
        let mut i: usize = 0;
        while i < ct_lists.len()
            invariant
                i <= ct_lists@.len(),
                zv == G::scalar_val(z),
                tv == G::scalar_val(t),
                fp_lists@.len() == i,
                comm_lists@.len() == i,
                forall|a: int| 0 <= a < i ==> row_scaled::<G>(ct_lists@[a]@, #[trigger] fp_lists@[a]@, zv),
                forall|a: int| 0 <= a < i ==> row_scaled::<G>(ct_lists@[a]@, #[trigger] comm_lists@[a]@, tv),
                transcript_entries(*transcript) == start + lists_ops::<G>(fp_lists@, comm_lists@, i as int),
            decreases ct_lists@.len() - i,
        {
            let row = &ct_lists[i];
            let mut fp_list: Vec<Ciphertext<G>> = Vec::new();
            let mut comm_list: Vec<Ciphertext<G>> = Vec::new();
            let ghost before = transcript_entries(*transcript);
            let mut j: usize = 0;
            while j < row.len()
                invariant
                    j <= row@.len(),
                    zv == G::scalar_val(z),
                    tv == G::scalar_val(t),
                    fp_list@.len() == j,
                    comm_list@.len() == j,
                    forall|b: int| 0 <= b < j ==> #[trigger] fp_list@[b]@ == scale3(row@[b]@, zv, G::order() as int),
                    forall|b: int| 0 <= b < j ==> #[trigger] comm_list@[b]@ == scale3(row@[b]@, tv, G::order() as int),
                    transcript_entries(*transcript) == before + row_ops::<G>(fp_list@, comm_list@, j as int),
                decreases row@.len() - j,
            {
                let fp = row[j].mul_scalar(&z);
                let comm = row[j].mul_scalar(&t);
                transcript.append_ciphertext::<G>(&LABEL_FP, &fp);
                transcript.append_ciphertext::<G>(&LABEL_COMM, &comm);
                let ghost f0 = fp_list@;
                let ghost c0 = comm_list@;
                fp_list.push(fp);
                comm_list.push(comm);
                proof {
                    lemma_row_ops_prefix::<G>(f0, c0, fp_list@, comm_list@, j as int);
                    assert(fp_list@[j as int] == fp && comm_list@[j as int] == comm);
                }
                j = j + 1;
            }
            let ghost fl0 = fp_lists@;
            let ghost cl0 = comm_lists@;
            fp_lists.push(fp_list);
            comm_lists.push(comm_list);
            proof {
                lemma_lists_ops_prefix::<G>(fl0, cl0, fp_lists@, comm_lists@, i as int);
                assert(fp_lists@[i as int]@ == fp_list@);
                assert(comm_lists@[i as int]@ == comm_list@);
                assert(row_scaled::<G>(ct_lists@[i as int]@, fp_lists@[i as int]@, zv));
                assert(row_scaled::<G>(ct_lists@[i as int]@, comm_lists@[i as int]@, tv));
                assert forall|a: int| 0 <= a < i + 1 implies row_scaled::<G>(ct_lists@[a]@, #[trigger] fp_lists@[a]@, zv) by {
                    if a < i {
                        assert(fp_lists@[a] == fl0[a]);
                    }
                }
                assert forall|a: int| 0 <= a < i + 1 implies row_scaled::<G>(ct_lists@[a]@, #[trigger] comm_lists@[a]@, tv) by {
                    if a < i {
                        assert(comm_lists@[a] == cl0[a]);
                    }
                }
            }
            i = i + 1;
        }
        let challenge = transcript.challenge_scalar::<G>(&LABEL_CHALLENGE);
        let response = G::scalar_add(&t, &G::scalar_mul(&challenge, &z));
        let r = VerifiableFingerprints { fp_lists, comm_lists, response };
        proof {
            G::lemma_order();
            lemma_add_mod_both(tv, G::scalar_val(challenge) * zv, G::order() as int);
            assert(r.proof_ops() == lists_ops::<G>(r.fp_lists@, r.comm_lists@, ct_lists@.len() as int));
            assert(r.made_from(ct_lists@, zv, tv, G::scalar_val(challenge)));
        }
        r
    }

    /// Verify the fingerprints against the original lists of ciphertexts.
    pub fn verify(&self, originals: &[Vec<Ciphertext<G>>], transcript: &mut Transcript) -> (r: Result<(), Error>)
        requires
            originals@.len() == self.fp_lists@.len(),
            forall|a: int| 0 <= a < originals@.len() ==> #[trigger] originals@[a]@.len() == self.fp_lists@[a]@.len(),
        ensures
            r == self.verify_result(
                originals@,
                G::spec_challenge(transcript_entries(*old(transcript)) + self.proof_ops(), LABEL_CHALLENGE@),
            ),
            self.shape_matches() ==> transcript_entries(*final(transcript)) == (transcript_entries(*old(transcript))
                + self.proof_ops()).push(challenge_op::<G>(LABEL_CHALLENGE@)),
            !self.shape_matches() ==> *final(transcript) == *old(transcript),
    {
        if self.comm_lists.len() != self.fp_lists.len() {
            return Err(Error::CommitmentMismatch);
        }
        let mut k: usize = 0;
        while k < self.fp_lists.len()
            invariant
                k <= self.fp_lists@.len(),
                self.comm_lists@.len() == self.fp_lists@.len(),
                forall|x: int| 0 <= x < k ==> #[trigger] self.comm_lists@[x]@.len() == self.fp_lists@[x]@.len(),
            decreases self.fp_lists@.len() - k,
        {
            if self.comm_lists[k].len() != self.fp_lists[k].len() {
                return Err(Error::CommitmentMismatch);
            }
            k = k + 1;
        }
        assert(self.shape_matches());
        let rows = if self.fp_lists.len() <= self.comm_lists.len() {
            self.fp_lists.len()
        } else {
            self.comm_lists.len()
        };
        let ghost start = transcript_entries(*transcript);
        let mut i: usize = 0;
        while i < rows
            invariant
                i <= rows,
                rows == min_int(self.fp_lists@.len() as int, self.comm_lists@.len() as int),
                transcript_entries(*transcript) == start + lists_ops::<G>(self.fp_lists@, self.comm_lists@, i as int),
            decreases rows - i,
        {
            let fps = &self.fp_lists[i];
            let comms = &self.comm_lists[i];
            let n = if fps.len() <= comms.len() {
                fps.len()
            } else {
                comms.len()
            };
            let ghost before = transcript_entries(*transcript);
            let mut j: usize = 0;
            while j < n
                invariant
                    j <= n,
                    n <= fps@.len(),
                    n <= comms@.len(),
                    transcript_entries(*transcript) == before + row_ops::<G>(fps@, comms@, j as int),
                decreases n - j,
            {
                transcript.append_ciphertext::<G>(&LABEL_FP, &fps[j]);
                transcript.append_ciphertext::<G>(&LABEL_COMM, &comms[j]);
                j = j + 1;
            }
            i = i + 1;
        }
        let challenge = transcript.challenge_scalar::<G>(&LABEL_CHALLENGE);
        let ghost c = G::scalar_val(challenge);
        let mut a: usize = 0;
        while a < rows
            invariant
                a <= rows,
                rows == min_int(self.fp_lists@.len() as int, self.comm_lists@.len() as int),
                originals@.len() == self.fp_lists@.len(),
                forall|x: int| 0 <= x < originals@.len() ==> #[trigger] originals@[x]@.len() == self.fp_lists@[x]@.len(),
                self.shape_matches(),
                c == G::scalar_val(challenge),
                transcript_entries(*transcript) == (start + self.proof_ops()).push(challenge_op::<G>(LABEL_CHALLENGE@)),
                c == G::spec_challenge(start + self.proof_ops(), LABEL_CHALLENGE@),
                start == transcript_entries(*old(transcript)),
                forall|x: int, b: int|
                    #![trigger self.fp_lists@[x]@[b]]
                    0 <= x < a && 0 <= b < min_int(self.fp_lists@[x]@.len() as int, self.comm_lists@[x]@.len() as int)
                        ==> fp_holds::<G>(
                        originals@[x]@[b],
                        self.fp_lists@[x]@[b],
                        self.comm_lists@[x]@[b],
                        G::scalar_val(self.response),
                        c,
                    ),
            decreases rows - a,
        {
            let origs = &originals[a];
            let fps = &self.fp_lists[a];
            let comms = &self.comm_lists[a];
            let n = if fps.len() <= comms.len() {
                fps.len()
            } else {
                comms.len()
            };
            assert(origs@.len() == fps@.len());
            let mut b: usize = 0;
            while b < n
                invariant
                    b <= n,
                    a < rows,
                    rows == min_int(self.fp_lists@.len() as int, self.comm_lists@.len() as int),
                    a < originals@.len(),
                    originals@.len() == self.fp_lists@.len(),
                    n == min_int(fps@.len() as int, comms@.len() as int),
                    origs@.len() == fps@.len(),
                    self.shape_matches(),
                    origs == originals@[a as int],
                    fps == self.fp_lists@[a as int],
                    comms == self.comm_lists@[a as int],
                    c == G::scalar_val(challenge),
                    transcript_entries(*transcript) == (start + self.proof_ops()).push(
                        challenge_op::<G>(LABEL_CHALLENGE@),
                    ),
                    c == G::spec_challenge(start + self.proof_ops(), LABEL_CHALLENGE@),
                    start == transcript_entries(*old(transcript)),
                    forall|y: int|
                        #![trigger fps@[y]]
                        0 <= y < b ==> fp_holds::<G>(origs@[y], fps@[y], comms@[y], G::scalar_val(self.response), c),
                decreases n - b,
            {
                let lhs = origs[b].mul_scalar(&self.response);
                let rhs = fps[b].mul_scalar(&challenge).add_ct(comms[b]);
                if !lhs.ct_eq(&rhs) {
                    assert(!fp_holds::<G>(origs@[b as int], fps@[b as int], comms@[b as int], G::scalar_val(self.response), c));
                    assert(self.fp_lists@[a as int]@[b as int] == fps@[b as int]);
                    return Err(Error::CommitmentMismatch);
                }
                b = b + 1;
            }
            proof {
                assert forall|x: int, y: int|
                    #![trigger self.fp_lists@[x]@[y]]
                    0 <= x < a + 1 && 0 <= y < min_int(self.fp_lists@[x]@.len() as int, self.comm_lists@[x]@.len() as int)
                        implies fp_holds::<G>(
                        originals@[x]@[y],
                        self.fp_lists@[x]@[y],
                        self.comm_lists@[x]@[y],
                        G::scalar_val(self.response),
                        c,
                    ) by {
                    if x == a {
                        assert(fps@[y] == self.fp_lists@[x]@[y]);
                    }
                }
            }
            a = a + 1;
        }
        Ok(())
    }
}

/// Completeness: fingerprints made from `ct_lists` verify against
/// `ct_lists` under the challenge they were made with.
pub proof fn lemma_fingerprints_complete<G: Group>(fp: VerifiableFingerprints<G>, ct_lists: Seq<Vec<Ciphertext<G>>>, z: int, t: int, c: int)
    requires
        fp.made_from(ct_lists, z, t, c),
    ensures
        fp.verify_result(ct_lists, c) == Ok::<(), Error>(()),
{
    G::lemma_order();
    assert forall|a: int| 0 <= a < fp.fp_lists@.len() implies #[trigger] fp.comm_lists@[a]@.len() == fp.fp_lists@[a]@.len() by {
        assert(row_scaled::<G>(ct_lists[a]@, fp.fp_lists@[a]@, z));
        assert(row_scaled::<G>(ct_lists[a]@, fp.comm_lists@[a]@, t));
    }
    let q = G::order() as int;
    let rows = min_int(fp.fp_lists@.len() as int, fp.comm_lists@.len() as int);
    assert forall|a: int, b: int|
        #![trigger fp.fp_lists@[a]@[b]]
        0 <= a < rows && 0 <= b < min_int(fp.fp_lists@[a]@.len() as int, fp.comm_lists@[a]@.len() as int) implies fp_holds::<G>(
        ct_lists[a]@[b],
        fp.fp_lists@[a]@[b],
        fp.comm_lists@[a]@[b],
        G::scalar_val(fp.response),
        c,
    ) by {
        assert(row_scaled::<G>(ct_lists[a]@, fp.fp_lists@[a]@, z));
        assert(row_scaled::<G>(ct_lists[a]@, fp.comm_lists@[a]@, t));
        let x = ct_lists[a]@[b]@;
        assert(fp.fp_lists@[a]@[b]@ == scale3(x, z, q));
        assert(fp.comm_lists@[a]@[b]@ == scale3(x, t, q));
        assert(c * z + t == t + c * z);
        lemma_response(x.0, z, t, c, q);
        lemma_response(x.1, z, t, c, q);
        lemma_response(x.2, z, t, c, q);
        lemma_add_mod_both((x.0 * z) % q * c, x.0 * t, q);
    }
}

/// Soundness of the check: fingerprints that `verify` accepts come with one
/// commitment for every fingerprint, and every fingerprint meets the
/// verifier's relation `[s]C == [c]fp + comm` against its original.
pub proof fn lemma_fingerprints_checked<G: Group>(fp: VerifiableFingerprints<G>, originals: Seq<Vec<Ciphertext<G>>>, c: int)
    requires
        fp.verify_result(originals, c) == Ok::<(), Error>(()),
    ensures
        fp.shape_matches(),
        forall|a: int, b: int|
            0 <= a < fp.fp_lists@.len() && 0 <= b < fp.fp_lists@[a]@.len() ==> fp_holds::<G>(
                originals[a]@[b],
                #[trigger] fp.fp_lists@[a]@[b],
                fp.comm_lists@[a]@[b],
                G::scalar_val(fp.response),
                c,
            ),
{
}

/// Fingerprinting is injective: the scalar that fingerprints are made with
/// is nonzero and invertible, so a ciphertext other than the identity triple
/// gets a fingerprint other than the identity triple, and two different
/// ciphertexts get two different fingerprints.
pub proof fn lemma_fingerprints_injective<G: Group>(
    fp: VerifiableFingerprints<G>,
    ct_lists: Seq<Vec<Ciphertext<G>>>,
    z: int,
    t: int,
    c: int,
)
    requires
        fp.made_from(ct_lists, z, t, c),
    ensures
        forall|a: int, b: int|
            0 <= a < ct_lists.len() && 0 <= b < ct_lists[a]@.len() && ct_lists[a]@[b]@ != (0int, 0int, 0int)
                ==> #[trigger] fp.fp_lists@[a]@[b]@ != (0int, 0int, 0int),
        forall|a: int, b: int, a2: int, b2: int|
            0 <= a < ct_lists.len() && 0 <= b < ct_lists[a]@.len() && 0 <= a2 < ct_lists.len() && 0 <= b2
                < ct_lists[a2]@.len() && ct_lists[a]@[b]@ != ct_lists[a2]@[b2]@ ==> #[trigger] fp.fp_lists@[a]@[b]@
                != #[trigger] fp.fp_lists@[a2]@[b2]@,
{
    G::lemma_order();
    let q = G::order() as int;
    assert forall|a: int, b: int|
        0 <= a < ct_lists.len() && 0 <= b < ct_lists[a]@.len() && ct_lists[a]@[b]@ != (0int, 0int, 0int)
            implies #[trigger] fp.fp_lists@[a]@[b]@ != (0int, 0int, 0int) by {
        assert(row_scaled::<G>(ct_lists[a]@, fp.fp_lists@[a]@, z));
        let x = ct_lists[a]@[b];
        G::lemma_point_facts(x.random_point);
        G::lemma_point_facts(x.random_point2);
        G::lemma_point_facts(x.blinded_point);
        if x@.0 != 0 {
            lemma_unit_keeps_nonzero(x@.0, z, q);
        } else if x@.1 != 0 {
            lemma_unit_keeps_nonzero(x@.1, z, q);
        } else {
            lemma_unit_keeps_nonzero(x@.2, z, q);
        }
    }
    assert forall|a: int, b: int, a2: int, b2: int|
        0 <= a < ct_lists.len() && 0 <= b < ct_lists[a]@.len() && 0 <= a2 < ct_lists.len() && 0 <= b2
            < ct_lists[a2]@.len() && ct_lists[a]@[b]@ != ct_lists[a2]@[b2]@ implies #[trigger] fp.fp_lists@[a]@[b]@
            != #[trigger] fp.fp_lists@[a2]@[b2]@ by {
        assert(row_scaled::<G>(ct_lists[a]@, fp.fp_lists@[a]@, z));
        assert(row_scaled::<G>(ct_lists[a2]@, fp.fp_lists@[a2]@, z));
        let x = ct_lists[a]@[b];
        let y = ct_lists[a2]@[b2];
        G::lemma_point_facts(x.random_point);
        G::lemma_point_facts(x.random_point2);
        G::lemma_point_facts(x.blinded_point);
        G::lemma_point_facts(y.random_point);
        G::lemma_point_facts(y.random_point2);
        G::lemma_point_facts(y.blinded_point);
        if fp.fp_lists@[a]@[b]@ == fp.fp_lists@[a2]@[b2]@ {
            lemma_unit_cancel(x@.0, y@.0, z, q);
            lemma_unit_cancel(x@.1, y@.1, z, q);
            lemma_unit_cancel(x@.2, y@.2, z, q);
        }
    }
}

} // verus!
