use dlog_sigma_primitives::proofs::SigmaProtocol;
use dlog_sigma_primitives::elgamal::ciphertext::{Ciphertext, ExtendedCiphertext};
use dlog_sigma_primitives::elgamal::keys::{ElGamalParams, KeyPair, PublicKey, SecretScalar};
use dlog_sigma_primitives::error::Error;
use dlog_sigma_primitives::group::{GroupPoint, GroupScalar};
use dlog_sigma_primitives::pedersen::commitment::{ExtendedPedersen, Parameters};
use dlog_sigma_primitives::proofs::disjunctive::{Or, OrPublicBorrowed, OrWitness};
use dlog_sigma_primitives::proofs::dvzkp::{DesignatedPair, DvProof, DvPublicBorrowed, DvWitness};
use dlog_sigma_primitives::proofs::exp::{ExpProof, ExpPublicBorrowed, ExpWitness};
use dlog_sigma_primitives::proofs::fingerprints::VerifiableFingerprints;
use dlog_sigma_primitives::proofs::log_equality::{LogEq, LogEqProtocol, LogEqPublicBorrowed, LogEqWitness};
use dlog_sigma_primitives::proofs::not_identity::{NotId, NotIdProtocol, NotIdPublicBorrowed};
use dlog_sigma_primitives::proofs::plaintext::{Plaintext, PlaintextProtocol, PlaintextPublicBorrowed, PlaintextWitness};
use dlog_sigma_primitives::proofs::shuffle::{KnownContentShuffle, Shuffle, ShuffleBuilder};
use dlog_sigma_primitives::proofs::ver_decr::{DecOk, DecOkProtocol, DecOkPublicBorrowed};
use dlog_sigma_primitives::proofs::zero::{Zero, ZeroProtocol, ZeroPublicBorrowed};
use dlog_sigma_primitives::Curve;
use merlin::Transcript;
use rand::seq::SliceRandom;
use rand_chacha::ChaCha20Rng;
use rand_core::SeedableRng;

type Scalar = <Curve as GroupScalar>::Scalar;
type Point = <Curve as GroupPoint>::Point;

fn test_rng() -> ChaCha20Rng {
    ChaCha20Rng::seed_from_u64(7)
}

fn setup() -> (ChaCha20Rng, ElGamalParams<Curve>, PublicKey<Curve>) {
    let mut rng = test_rng();
    let params = ElGamalParams::<Curve>::new(&mut rng);
    let (_sk, pk) = KeyPair::<Curve>::new_from_params(&params, &mut rng).into_tuple();
    (rng, params, pk)
}

fn mul(p: &Point, s: &Scalar) -> Point {
    Curve::point_mul(p, s)
}

// --- zero ---------------------------------------------------------------

#[test]
fn zero_verify_zero_proof_happy_path() {
    let (mut rng, params, pk) = setup();
    let ct = pk.encrypt(Curve::identity(), &params, &mut rng).into_tuple();
    let public = ZeroPublicBorrowed { pk: &pk, params: &params, ct: &ct.0 };
    let proof = Zero::prove(public, &ct.1, &mut rng);
    let res = proof.verify(public);
    assert!(res.is_ok(), "verification failed: {res:?}");
}

#[test]
fn zero_rejects_wrong_challenge() {
    let (mut rng, params, pk) = setup();
    let ct = pk.encrypt(Curve::identity(), &params, &mut rng).into_tuple();
    let public = ZeroPublicBorrowed { pk: &pk, params: &params, ct: &ct.0 };
    let mut t1 = Transcript::new(b"test");
    let proof = ZeroProtocol::prove(public, &ct.1, &mut t1, &mut rng);
    let mut t2 = Transcript::new(b"tset");
    let res = ZeroProtocol::verify(public, &proof, &mut t2);
    assert!(res.is_err(), "proof should reject a different challenge");
}

#[test]
fn zero_basic_round_trip() {
    let mut rng = test_rng();
    let params: ElGamalParams<Curve> = ElGamalParams::new(&mut rng);
    let (_sk, pk) = KeyPair::new_from_params(&params, &mut rng).into_tuple();
    let ct = pk.encrypt(Curve::identity(), &params, &mut rng).into_tuple();
    let public = ZeroPublicBorrowed::new(&pk, &params, &ct.0);
    let mut tr_p = Transcript::new(b"example");
    let proof = ZeroProtocol::prove(public, &ct.1, &mut tr_p, &mut rng);
    let mut tr_v = Transcript::new(b"example");
    ZeroProtocol::verify(public, &proof, &mut tr_v).expect("verification");
}

#[test]
fn zero_rejects_nonzero_plaintext() {
    let (mut rng, params, pk) = setup();
    let ct = pk.encrypt(Curve::generator(), &params, &mut rng).into_tuple();
    let public = ZeroPublicBorrowed::new(&pk, &params, &ct.0);
    let proof = Zero::prove(public, &ct.1, &mut rng);
    assert_eq!(proof.verify(public), Err(Error::CommitmentMismatch));
}

// --- plaintext ----------------------------------------------------------

#[test]
fn verify_plaintext_proof_happy_path() {
    let (mut rng, params, pk) = setup();
    let m_sec = SecretScalar::new(&mut rng);
    let m_point = mul(&Curve::generator(), m_sec.expose());
    let (ct, r_sec) = pk.encrypt(m_point, &params, &mut rng).into_tuple();
    let public = PlaintextPublicBorrowed::<Curve> { pk: &pk, params: &params, ct: &ct };
    let wit = PlaintextWitness::new(r_sec, m_sec);
    let proof = Plaintext::prove(public, &wit, &mut rng);
    let res = proof.verify(public);
    assert!(res.is_ok(), "verification failed: {res:?}");
}

#[test]
fn plaintext_rejects_wrong_challenge() {
    let (mut rng, params, pk) = setup();
    let m_sec = SecretScalar::new(&mut rng);
    let m_point = mul(&Curve::generator(), m_sec.expose());
    let (ct, r_sec) = pk.encrypt(m_point, &params, &mut rng).into_tuple();
    let public = PlaintextPublicBorrowed::<Curve> { pk: &pk, params: &params, ct: &ct };
    let wit = PlaintextWitness::new(r_sec, m_sec);
    let mut t1 = Transcript::new(b"test");
    let proof = PlaintextProtocol::prove(public, &wit, &mut t1, &mut rng);
    let mut t2 = Transcript::new(b"tset");
    let res = PlaintextProtocol::verify(public, &proof, &mut t2);
    assert!(res.is_err(), "proof should reject a different challenge");
}

// --- exp ----------------------------------------------------------------

#[test]
fn verify_exp_proof() {
    let mut rng = test_rng();
    let params: ElGamalParams<Curve> = ElGamalParams::new(&mut rng);
    let (_, pk) = KeyPair::new_from_params(&params, &mut rng).into_tuple();
    let message_sec = SecretScalar::<Curve>::new(&mut rng);
    let message = *message_sec.expose();
    let ct = ExtendedCiphertext::exp_new(&message, &pk, &params, &mut rng);
    let base = Curve::generator();
    let public = ExpPublicBorrowed { public_key: &pk, params: &params, ciphertext: &ct.inner, base: &base };
    let witness = ExpWitness::new(ct.random_scalar, message_sec);
    let proof = ExpProof::prove(public, &witness, &mut rng);
    proof.verify(public).unwrap();
}

#[test]
fn exp_rejects_other_base() {
    let mut rng = test_rng();
    let params: ElGamalParams<Curve> = ElGamalParams::new(&mut rng);
    let (_, pk) = KeyPair::new_from_params(&params, &mut rng).into_tuple();
    let message_sec = SecretScalar::<Curve>::new(&mut rng);
    let message = *message_sec.expose();
    let ct = ExtendedCiphertext::exp_new(&message, &pk, &params, &mut rng);
    let base = Curve::point_random(&mut rng);
    let public = ExpPublicBorrowed::new(&pk, &params, &ct.inner, &base);
    let witness = ExpWitness::new(ct.random_scalar, message_sec);
    let proof = ExpProof::prove(public, &witness, &mut rng);
    assert_eq!(proof.verify(public), Err(Error::CommitmentMismatch));
}

// --- log equality -------------------------------------------------------

fn logeq_instance(
    rng: &mut ChaCha20Rng,
    params: &ElGamalParams<Curve>,
    pk: &PublicKey<Curve>,
) -> (Ciphertext<Curve>, Ciphertext<Curve>, Point, Point, LogEqWitness<Curve>) {
    let g3 = Curve::point_random(rng);
    let o = Curve::point_random(rng);
    let m = Curve::scalar_random(rng);
    let (c1, r1) = pk.encrypt(mul(&g3, &m), params, rng).into_tuple();
    let (c2, r2) = pk.encrypt(mul(&o, &m), params, rng).into_tuple();
    (c1, c2, g3, o, LogEqWitness::from_r1_r2(m, r1, r2))
}

#[test]
fn verify_logeq_proof_happy_path() {
    let (mut rng, params, pk) = setup();
    let (c1, c2, g3, o, wit) = logeq_instance(&mut rng, &params, &pk);
    let public = LogEqPublicBorrowed::new(&pk, &params, &c1, &c2, &g3, &o);
    let proof = LogEq::prove(public, &wit, &mut rng);
    let res = proof.verify(public);
    assert!(res.is_ok(), "verification failed: {res:?}");
}

#[test]
fn log_equality_rejects_wrong_challenge() {
    let (mut rng, params, pk) = setup();
    let (c1, c2, g3, o, wit) = logeq_instance(&mut rng, &params, &pk);
    let public = LogEqPublicBorrowed::new(&pk, &params, &c1, &c2, &g3, &o);
    let mut t1 = Transcript::new(b"test");
    let proof = LogEqProtocol::prove(public, &wit, &mut t1, &mut rng);
    let mut t2 = Transcript::new(b"tset");
    let res = LogEqProtocol::verify(public, &proof, &mut t2);
    assert!(res.is_err(), "proof should reject a different challenge");
}

#[test]
fn log_equality_rejects_different_exponents() {
    let (mut rng, params, pk) = setup();
    let g3 = Curve::point_random(&mut rng);
    let o = Curve::point_random(&mut rng);
    let m = Curve::scalar_from_u64(5);
    let (c1, r1) = pk.encrypt(mul(&g3, &m), &params, &mut rng).into_tuple();
    let (c2, r2) = pk.encrypt(mul(&o, &Curve::scalar_from_u64(6)), &params, &mut rng).into_tuple();
    let public = LogEqPublicBorrowed::new(&pk, &params, &c1, &c2, &g3, &o);
    let proof = LogEq::prove(public, &LogEqWitness::from_r1_r2(m, r1, r2), &mut rng);
    assert_eq!(proof.verify(public), Err(Error::CommitmentMismatch));
}

// --- not identity -------------------------------------------------------

#[test]
fn verify_notid_proof_happy_path() {
    let (mut rng, params, pk) = setup();
    let m = Curve::point_random(&mut rng);
    let ct = pk.encrypt(m, &params, &mut rng).into_tuple();
    let public = NotIdPublicBorrowed::new(&pk, &params, &ct.0);
    let proof = NotId::prove(public, &ct.1, &mut rng);
    let res = proof.verify(public);
    assert!(res.is_ok(), "verification failed: {res:?}");
}

#[test]
fn not_identity_rejects_wrong_challenge() {
    let (mut rng, params, pk) = setup();
    let m = Curve::point_random(&mut rng);
    let ct = pk.encrypt(m, &params, &mut rng).into_tuple();
    let public = NotIdPublicBorrowed::new(&pk, &params, &ct.0);
    let mut t1 = Transcript::new(b"test");
    let proof = NotIdProtocol::prove(public, &ct.1, &mut t1, &mut rng);
    let mut t2 = Transcript::new(b"tset");
    let res = NotIdProtocol::verify(public, &proof, &mut t2);
    assert!(res.is_err(), "proof should reject a different challenge");
}

#[test]
fn not_identity_rejects_identity() {
    let (mut rng, params, pk) = setup();
    let ct = pk.encrypt(Curve::identity(), &params, &mut rng).into_tuple();
    let public = NotIdPublicBorrowed::new(&pk, &params, &ct.0);
    let proof = NotId::prove(public, &ct.1, &mut rng);
    assert_eq!(proof.verify(public), Err(Error::CommitmentMismatch));
}

// --- correct decryption -------------------------------------------------

#[test]
fn ver_decr_verify_zero_proof_happy_path() {
    let mut rng = test_rng();
    let params: ElGamalParams<Curve> = ElGamalParams::new(&mut rng);
    let (sk, pk) = KeyPair::<Curve>::new_from_params(&params, &mut rng).into_tuple();
    let m = Curve::point_random(&mut rng);
    let ct = pk.encrypt(m, &params, &mut rng).into_tuple();
    let public = DecOkPublicBorrowed::new(&params, &pk, &ct.0, &m);
    let proof = DecOk::prove(public, &sk, &mut rng);
    let res = proof.verify(public);
    assert!(res.is_ok(), "verification failed: {res:?}");
}

#[test]
fn ver_decr_rejects_wrong_challenge() {
    let mut rng = test_rng();
    let params: ElGamalParams<Curve> = ElGamalParams::new(&mut rng);
    let (sk, pk) = KeyPair::<Curve>::new_from_params(&params, &mut rng).into_tuple();
    let m = Curve::point_random(&mut rng);
    let ct = pk.encrypt(m, &params, &mut rng).into_tuple();
    let public = DecOkPublicBorrowed::new(&params, &pk, &ct.0, &m);
    let mut t1 = Transcript::new(b"test");
    let proof = DecOkProtocol::prove(public, &sk, &mut t1, &mut rng);
    let mut t2 = Transcript::new(b"tset");
    let res = DecOkProtocol::verify(public, &proof, &mut t2);
    assert!(res.is_err(), "proof should reject a different challenge");
}

#[test]
fn ver_decr_rejects_wrong_plaintext() {
    let mut rng = test_rng();
    let params: ElGamalParams<Curve> = ElGamalParams::new(&mut rng);
    let (sk, pk) = KeyPair::<Curve>::new_from_params(&params, &mut rng).into_tuple();
    let m = Curve::point_random(&mut rng);
    let ct = pk.encrypt(m, &params, &mut rng).into_tuple();
    let other = Curve::generator();
    let public = DecOkPublicBorrowed::new(&params, &pk, &ct.0, &other);
    let proof = DecOk::prove(public, &sk, &mut rng);
    assert_eq!(proof.verify(public), Err(Error::CommitmentMismatch));
}

// --- disjunctive --------------------------------------------------------

#[test]
fn verify_or_proof_happy_path() {
    let (mut rng, params, pk) = setup();
    let values = [0u64, 10u64].to_vec();
    let index = 0;
    let (ct, r) = pk
        .encrypt(mul(&Curve::generator(), &Curve::scalar_from_u64(values[index])), &params, &mut rng)
        .into_tuple();
    let public = OrPublicBorrowed::<Curve> { pk: &pk, params: &params, ct, values: &values };
    let wit = OrWitness { index, r };
    let proof = Or::prove(public, &wit, &mut rng);
    let res = proof.verify(public);
    assert!(res.is_ok(), "verification failed: {res:?}");
}

#[test]
fn or_fails_on_values_permutation() {
    let (mut rng, params, pk) = setup();
    let values = [0u64, 10u64].to_vec();
    let index = 0;
    let (ct, r) = pk
        .encrypt(mul(&Curve::generator(), &Curve::scalar_from_u64(values[index])), &params, &mut rng)
        .into_tuple();
    let public = OrPublicBorrowed::<Curve> { pk: &pk, params: &params, ct, values: &values };
    let wit = OrWitness { index, r };
    let proof = Or::prove(public, &wit, &mut rng);
    let mut values_perm = values.clone();
    values_perm.swap(0, 1);
    let public_bad = OrPublicBorrowed::<Curve> { pk: &pk, params: &params, ct, values: &values_perm };
    let res = proof.verify(public_bad);
    assert!(res.is_err(), "verifier with permuted values must fail");
}

#[test]
fn or_proof_for_middle_value_and_shape_errors() {
    let (mut rng, params, pk) = setup();
    let values = vec![3u64, 5, 8, 13];
    let (ct, r) = pk.encrypt(mul(&Curve::generator(), &Curve::scalar_from_u64(8)), &params, &mut rng).into_tuple();
    let public = OrPublicBorrowed::new(&pk, &params, ct, &values);
    let wit = OrWitness::new(2, r, values.len()).unwrap();
    let proof = Or::prove(public, &wit, &mut rng);
    assert_eq!(proof.verify(public), Ok(()));
    let mut short = proof.clone();
    short.responses.pop();
    assert_eq!(short.verify(public), Err(Error::InvalidInputShape));
    let mut bad_sum = proof.clone();
    bad_sum.challenges[0] = Curve::scalar_add(&bad_sum.challenges[0], &Curve::scalar_from_u64(1));
    assert_eq!(bad_sum.verify(public), Err(Error::ChallengeMismatch));
    assert!(matches!(OrWitness::<Curve>::new(4, SecretScalar::from_u64(1), 4), Err(Error::InvalidInputShape)));
    assert!(matches!(OrWitness::<Curve>::new(0, SecretScalar::from_u64(1), 0), Err(Error::InvalidInputShape)));
}

#[test]
fn or_rejects_value_outside_the_list() {
    let (mut rng, params, pk) = setup();
    let values = vec![1u64, 2];
    let (ct, r) = pk.encrypt(mul(&Curve::generator(), &Curve::scalar_from_u64(3)), &params, &mut rng).into_tuple();
    let public = OrPublicBorrowed::new(&pk, &params, ct, &values);
    let proof = Or::prove(public, &OrWitness { index: 1, r }, &mut rng);
    assert_eq!(proof.verify(public), Err(Error::CommitmentMismatch));
}

// --- designated verifier ------------------------------------------------

#[test]
fn dv_first_branch_happy_path() {
    let mut rng = test_rng();
    let b0 = Curve::point_random(&mut rng);
    let (dv, ds) = DesignatedPair::new(b0, &mut rng).into_tuple();
    let b1a = Curve::point_random(&mut rng);
    let b1b = Curve::point_random(&mut rng);
    let p1a = Curve::point_random(&mut rng);
    let p1b = Curve::point_random(&mut rng);
    let public = DvPublicBorrowed::<Curve>::new(&dv, &b1a, &b1b, &p1a, &p1b);
    let wit = DvWitness::new_simulate(ds.sv);
    let proof = DvProof::prove(public, &wit, &mut rng);
    proof.verify(public).expect("simulation failed");
}

#[test]
fn dv_second_branch_happy_path() {
    let mut rng = test_rng();
    let b0 = Curve::point_random(&mut rng);
    let (dv, _ds) = DesignatedPair::new(b0, &mut rng).into_tuple();
    let b1a = Curve::point_random(&mut rng);
    let b1b = Curve::point_random(&mut rng);
    let x = SecretScalar::<Curve>::new(&mut rng);
    let p1a = mul(&b1a, x.expose());
    let p1b = mul(&b1b, x.expose());
    let public = DvPublicBorrowed::<Curve>::new(&dv, &b1a, &b1b, &p1a, &p1b);
    let wit = DvWitness::new(x);
    let proof = DvProof::prove(public, &wit, &mut rng);
    proof.verify(public).expect("verification failed");
}

#[test]
fn dv_wrong_relation_fails() {
    let mut rng = test_rng();
    let b0 = Curve::point_random(&mut rng);
    let (dv, _ds) = DesignatedPair::new(b0, &mut rng).into_tuple();
    let b1a = Curve::point_random(&mut rng);
    let b1b = Curve::point_random(&mut rng);
    let x = SecretScalar::<Curve>::new(&mut rng);
    let p1a = Curve::point_random(&mut rng);
    let p1b = Curve::point_random(&mut rng);
    let public = DvPublicBorrowed::<Curve>::new(&dv, &b1a, &b1b, &p1a, &p1b);
    let wit = DvWitness::new(x);
    let proof = DvProof::prove(public, &wit, &mut rng);
    let res = proof.verify(public);
    assert!(res.is_err(), "wrong relation should fail")
}

#[test]
fn dv_challenge_split_is_checked() {
    let mut rng = test_rng();
    let b0 = Curve::point_random(&mut rng);
    let (dv, ds) = DesignatedPair::new(b0, &mut rng).into_tuple();
    let b1a = Curve::point_random(&mut rng);
    let b1b = Curve::point_random(&mut rng);
    let public = DvPublicBorrowed::<Curve>::new(&dv, &b1a, &b1b, &b1a, &b1b);
    let mut proof = DvProof::prove(public, &DvWitness::new_simulate(ds.sv), &mut rng);
    proof.c0 = Curve::scalar_add(&proof.c0, &Curve::scalar_from_u64(1));
    assert_eq!(proof.verify(public), Err(Error::ChallengeMismatch));
}

// --- fingerprints -------------------------------------------------------

#[test]
fn verify_proof() {
    let mut rng = test_rng();
    let params: ElGamalParams<Curve> = ElGamalParams::new(&mut rng);
    let (_, pk) = KeyPair::new_from_params(&params, &mut rng).into_tuple();
    let mut originals_list = vec![];
    for _ in 0..3 {
        let mut originals = vec![];
        for _ in 0..2 {
            let value = Curve::point_random(&mut rng);
            originals.push(pk.encrypt(value, &params, &mut rng).inner);
        }
        originals_list.push(originals);
    }
    let mut transcript = Transcript::new(b"test");
    let proof = VerifiableFingerprints::new(originals_list.clone(), &mut rng, &mut transcript);
    let mut transcript1 = Transcript::new(b"test");
    proof.verify(&originals_list, &mut transcript1).unwrap();
}

#[test]
fn fingerprints_reject_other_ciphertexts() {
    let mut rng = test_rng();
    let params: ElGamalParams<Curve> = ElGamalParams::new(&mut rng);
    let (_, pk) = KeyPair::new_from_params(&params, &mut rng).into_tuple();
    let originals: Vec<Vec<Ciphertext<Curve>>> =
        vec![vec![pk.encrypt(Curve::point_random(&mut rng), &params, &mut rng).inner]];
    let mut transcript = Transcript::new(b"test");
    let proof = VerifiableFingerprints::new(originals, &mut rng, &mut transcript);
    let others = vec![vec![pk.encrypt(Curve::point_random(&mut rng), &params, &mut rng).inner]];
    let mut transcript1 = Transcript::new(b"test");
    assert_eq!(proof.verify(&others, &mut transcript1), Err(Error::CommitmentMismatch));
}

// --- shuffle ------------------------------------------------------------

#[test]
fn verify_shuffle_proof() {
    let mut rng = test_rng();
    let params = Parameters::new(10, &mut rng);
    let mut perm: Vec<usize> = (0..10).collect();
    perm.shuffle(&mut rng);
    let originals = perm.clone().into_iter().map(|_x| Curve::scalar_random(&mut rng)).collect::<Vec<_>>();
    let mut shuffled = vec![];
    for i in perm.clone() {
        shuffled.push(originals[i])
    }
    let commitment = ExtendedPedersen::<Curve>::var_commit(&params, &shuffled, &mut rng).unwrap();
    let mut transcript = Transcript::new(b"test");
    let proof = KnownContentShuffle::new(&params, &commitment, &perm, &originals, &mut transcript, &mut rng);
    let mut transcript1 = Transcript::new(b"test");
    proof.verify(&params, &shuffled, &mut transcript1).unwrap()
}

#[test]
fn known_content_shuffle_rejects_other_content() {
    let mut rng = test_rng();
    let params = Parameters::new(4, &mut rng);
    let perm: Vec<usize> = vec![2, 0, 3, 1];
    let originals: Vec<Scalar> = (1..=4).map(Curve::scalar_from_u64).collect();
    let shuffled: Vec<Scalar> = perm.iter().map(|&i| originals[i]).collect();
    let commitment = ExtendedPedersen::<Curve>::var_commit(&params, &shuffled, &mut rng).unwrap();
    let mut transcript = Transcript::new(b"kcs");
    let proof = KnownContentShuffle::new(&params, &commitment, &perm, &originals, &mut transcript, &mut rng);
    let others: Vec<Scalar> = (5..=8).map(Curve::scalar_from_u64).collect();
    let mut transcript1 = Transcript::new(b"kcs");
    assert_eq!(proof.verify(&params, &others, &mut transcript1), Err(Error::CommitmentMismatch));
    let mut transcript2 = Transcript::new(b"kcs");
    assert_eq!(proof.verify(&params, &others[..3], &mut transcript2), Err(Error::LengthMismatch));
}

fn shuffle_setup(
    rng: &mut ChaCha20Rng,
) -> (Parameters<Curve>, Vec<usize>, ElGamalParams<Curve>, PublicKey<Curve>, Vec<Ciphertext<Curve>>, Vec<Ciphertext<Curve>>) {
    let params: Parameters<Curve> = Parameters::new(10, rng);
    let mut perm: Vec<usize> = (0..10).collect();
    perm.shuffle(rng);
    let el_params = ElGamalParams::new(rng);
    let (_sk, pk) = KeyPair::<Curve>::new_from_params(&el_params, rng).into_tuple();
    let originals = perm
        .iter()
        .map(|_| {
            let p = Curve::point_random(rng);
            pk.encrypt(p, &el_params, rng).inner
        })
        .collect::<Vec<_>>();
    let mut shuffled = vec![];
    for i in perm.clone() {
        shuffled.push(originals[i])
    }
    (params, perm, el_params, pk, originals, shuffled)
}

#[test]
fn verify_shuffle_builder_proof() {
    let mut rng = test_rng();
    let (params, perm, _el_params, _pk, _originals, _shuffled) = shuffle_setup(&mut rng);
    let builder: ShuffleBuilder<_> = ShuffleBuilder::new(&params, &perm, &mut rng);
    let mut transcript = Transcript::new(b"test");
    builder.update_transcript1(&mut transcript);
    let (f_list, t_list) = builder.compute_t(&perm, &mut transcript);
    builder.update_transcript2(&mut transcript, &f_list);
    let proof: Shuffle<_> = builder.complete(&params, &f_list, &t_list, &perm, &mut transcript, &mut rng);
    let mut transcript1 = Transcript::new(b"test");
    proof.verify(&params, &mut transcript1).unwrap();
}

#[test]
fn verify_shuffle_builder_re_encryption() {
    let mut rng = test_rng();
    let (params, perm, el_params, pk, originals, shuffled) = shuffle_setup(&mut rng);
    let builder: ShuffleBuilder<_> = ShuffleBuilder::new(&params, &perm, &mut rng);
    let mut transcript = Transcript::new(b"test");
    builder.update_transcript1(&mut transcript);
    let (f_list, t_list) = builder.compute_t(&perm, &mut transcript);
    builder.update_transcript2(&mut transcript, &f_list);
    let e_d = builder.get_e_d(&pk, &el_params, &shuffled, &mut rng);
    let proof: Shuffle<_> = builder.complete(&params, &f_list, &t_list, &perm, &mut transcript, &mut rng);
    let mut transcript1 = Transcript::new(b"test");
    let t_list = proof.verify(&params, &mut transcript1).unwrap();
    proof
        .check_re_encryption(&pk, &el_params, &e_d.inner, e_d.random_scalar.expose(), &t_list, &originals, &shuffled)
        .unwrap();
}

#[test]
fn shuffle_rejects_tampered_f_and_wrong_reencryption() {
    let mut rng = test_rng();
    let (params, perm, el_params, pk, originals, shuffled) = shuffle_setup(&mut rng);
    let builder: ShuffleBuilder<_> = ShuffleBuilder::new(&params, &perm, &mut rng);
    let mut transcript = Transcript::new(b"test");
    builder.update_transcript1(&mut transcript);
    let (f_list, t_list) = builder.compute_t(&perm, &mut transcript);
    builder.update_transcript2(&mut transcript, &f_list);
    let e_d = builder.get_e_d(&pk, &el_params, &shuffled, &mut rng);
    let proof: Shuffle<_> = builder.complete(&params, &f_list, &t_list, &perm, &mut transcript, &mut rng);
    let mut tampered = proof.clone();
    tampered.f[0] = Curve::scalar_add(&tampered.f[0], &Curve::scalar_from_u64(1));
    let mut transcript1 = Transcript::new(b"test");
    assert_eq!(tampered.verify(&params, &mut transcript1), Err(Error::CommitmentMismatch));
    // a list of ciphertexts that is not the shuffle fails the re-encryption check
    let mut transcript2 = Transcript::new(b"test");
    let t = proof.verify(&params, &mut transcript2).unwrap();
    let mut wrong = shuffled.clone();
    wrong.swap(0, 1);
    assert_eq!(
        proof.check_re_encryption(&pk, &el_params, &e_d.inner, e_d.random_scalar.expose(), &t, &originals, &wrong),
        Err(Error::CommitmentMismatch)
    );
    // the accumulator of the proof side matches the builder's
    let e_d2 = proof.get_e_d(&pk, &el_params, &shuffled, e_d.random_scalar.expose());
    assert_eq!(e_d2.to_bytes().len(), 96);
}

#[test]
fn shuffle_with_re_randomization_passes_the_re_encryption_check() {
    let mut rng = test_rng();
    let (params, perm, el_params, pk, originals, _) = shuffle_setup(&mut rng);
    // shuffled[i] = originals[perm[i]] + Enc(0; rho_i)
    let mut shuffled = vec![];
    let mut rhos = vec![];
    for &i in &perm {
        let re = originals[i].re_encrypt(&pk, &el_params, &mut rng);
        rhos.push(*re.expose());
        shuffled.push(re.inner);
    }
    let builder: ShuffleBuilder<_> = ShuffleBuilder::new(&params, &perm, &mut rng);
    let mut transcript = Transcript::new(b"test");
    builder.update_transcript1(&mut transcript);
    let (f_list, t_list) = builder.compute_t(&perm, &mut transcript);
    builder.update_transcript2(&mut transcript, &f_list);
    let e_d = builder.get_e_d(&pk, &el_params, &shuffled, &mut rng);
    let proof: Shuffle<_> = builder.complete(&params, &f_list, &t_list, &perm, &mut transcript, &mut rng);
    let mut transcript1 = Transcript::new(b"test");
    let t = proof.verify(&params, &mut transcript1).unwrap();
    // z = r_d + sum_i t_{perm(i)} rho_i
    let mut z = *e_d.expose();
    for (i, &p) in perm.iter().enumerate() {
        z = Curve::scalar_add(&z, &Curve::scalar_mul(&t[p], &rhos[i]));
    }
    assert_eq!(proof.check_re_encryption(&pk, &el_params, &e_d.inner, &z, &t, &originals, &shuffled), Ok(()));
    // the randomness of the accumulator alone does not do here
    assert_eq!(
        proof.check_re_encryption(&pk, &el_params, &e_d.inner, e_d.expose(), &t, &originals, &shuffled),
        Err(Error::CommitmentMismatch)
    );
}

#[test]
fn fingerprints_reject_commitment_lists_of_another_shape() {
    let mut rng = test_rng();
    let params: ElGamalParams<Curve> = ElGamalParams::new(&mut rng);
    let (_, pk) = KeyPair::new_from_params(&params, &mut rng).into_tuple();
    let originals: Vec<Vec<Ciphertext<Curve>>> = (0..2)
        .map(|_| (0..2).map(|_| pk.encrypt(Curve::point_random(&mut rng), &params, &mut rng).inner).collect())
        .collect();
    let mut transcript = Transcript::new(b"test");
    let proof = VerifiableFingerprints::new(originals.clone(), &mut rng, &mut transcript);
    let mut no_rows = proof.clone();
    no_rows.comm_lists = vec![];
    let mut transcript1 = Transcript::new(b"test");
    assert_eq!(no_rows.verify(&originals, &mut transcript1), Err(Error::CommitmentMismatch));
    let mut short_row = proof.clone();
    short_row.comm_lists[1].pop();
    let mut transcript2 = Transcript::new(b"test");
    assert_eq!(short_row.verify(&originals, &mut transcript2), Err(Error::CommitmentMismatch));
    let mut transcript3 = Transcript::new(b"test");
    assert_eq!(proof.verify(&originals, &mut transcript3), Ok(()));
}

#[test]
fn shuffle_proofs_with_over_long_lists_are_refused() {
    let mut rng = test_rng();
    let params = Parameters::new(4, &mut rng);
    let perm: Vec<usize> = vec![2, 0, 3, 1];
    let originals: Vec<Scalar> = (1..=4).map(Curve::scalar_from_u64).collect();
    let shuffled: Vec<Scalar> = perm.iter().map(|&i| originals[i]).collect();
    let commitment = ExtendedPedersen::<Curve>::var_commit(&params, &shuffled, &mut rng).unwrap();
    let mut transcript = Transcript::new(b"kcs");
    let proof = KnownContentShuffle::new(&params, &commitment, &perm, &originals, &mut transcript, &mut rng);
    let mut long_f = proof.clone();
    long_f.f.push(Curve::scalar_from_u64(1));
    let mut transcript1 = Transcript::new(b"kcs");
    assert_eq!(long_f.verify(&params, &shuffled, &mut transcript1), Err(Error::LengthMismatch));
    let mut long_delta = proof.clone();
    for _ in 0..3 {
        long_delta.f_delta.push(Curve::scalar_from_u64(1));
    }
    let mut transcript2 = Transcript::new(b"kcs");
    assert_eq!(long_delta.verify(&params, &shuffled, &mut transcript2), Err(Error::LengthMismatch));

    let mut rng = test_rng();
    let (params, perm, _el_params, _pk, _originals, _shuffled) = shuffle_setup(&mut rng);
    let builder: ShuffleBuilder<_> = ShuffleBuilder::new(&params, &perm, &mut rng);
    let mut transcript = Transcript::new(b"test");
    builder.update_transcript1(&mut transcript);
    let (f_list, t_list) = builder.compute_t(&perm, &mut transcript);
    builder.update_transcript2(&mut transcript, &f_list);
    let proof: Shuffle<_> = builder.complete(&params, &f_list, &t_list, &perm, &mut transcript, &mut rng);
    let mut long_outer = proof.clone();
    long_outer.f.push(Curve::scalar_from_u64(1));
    let mut transcript1 = Transcript::new(b"test");
    assert_eq!(long_outer.verify(&params, &mut transcript1), Err(Error::LengthMismatch));
}

#[test]
fn shuffle_verifier_returns_the_provers_t() {
    let mut rng = test_rng();
    let (params, perm, _el_params, _pk, _originals, _shuffled) = shuffle_setup(&mut rng);
    let builder: ShuffleBuilder<_> = ShuffleBuilder::new(&params, &perm, &mut rng);
    let mut transcript = Transcript::new(b"test");
    builder.update_transcript1(&mut transcript);
    let (f_list, t_list) = builder.compute_t(&perm, &mut transcript);
    builder.update_transcript2(&mut transcript, &f_list);
    let proof: Shuffle<_> = builder.complete(&params, &f_list, &t_list, &perm, &mut transcript, &mut rng);
    let mut transcript1 = Transcript::new(b"test");
    assert_eq!(proof.verify(&params, &mut transcript1), Ok(t_list.clone()));
    // the t drawn under another transcript label differs
    let mut transcript2 = Transcript::new(b"other");
    assert!(proof.verify(&params, &mut transcript2).is_err());
}

fn prove_and_verify<'a, P: SigmaProtocol<'a>>(public: P::Public, witness: &P::Witness, rng: &mut ChaCha20Rng) -> Result<(), Error> {
    let mut t1 = Transcript::new(b"generic");
    let proof = P::prove(public, witness, &mut t1, rng);
    let mut t2 = Transcript::new(b"generic");
    P::verify(public, &proof, &mut t2)
}

#[test]
fn protocols_run_through_the_sigma_protocol_trait() {
    let (mut rng, params, pk) = setup();
    let ct = pk.encrypt(Curve::identity(), &params, &mut rng).into_tuple();
    let public = ZeroPublicBorrowed { pk: &pk, params: &params, ct: &ct.0 };
    assert_eq!(prove_and_verify::<ZeroProtocol<Curve>>(public, &ct.1, &mut rng), Ok(()));
    assert_eq!(ZeroProtocol::<Curve>::domain_label(), b"ELGAMAL-ZERO");
    let other = pk.encrypt(Curve::generator(), &params, &mut rng).into_tuple();
    let wrong = ZeroPublicBorrowed { pk: &pk, params: &params, ct: &other.0 };
    assert!(prove_and_verify::<ZeroProtocol<Curve>>(wrong, &other.1, &mut rng).is_err());
}
