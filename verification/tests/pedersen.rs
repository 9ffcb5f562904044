use dlog_sigma_primitives::error::Error;
use dlog_sigma_primitives::group::GroupScalar;
use dlog_sigma_primitives::pedersen::commitment::{ExtendedPedersen, Parameters, Pedersen};
use dlog_sigma_primitives::Curve;
use rand_chacha::ChaCha20Rng;
use rand_core::SeedableRng;

type Scalar = <Curve as GroupScalar>::Scalar;

fn rng(seed: u64) -> ChaCha20Rng {
    ChaCha20Rng::seed_from_u64(seed)
}

#[test]
fn commit_and_open() {
    let mut rng = rng(30);
    let params = Parameters::<Curve>::new(5, &mut rng);
    let messages: Vec<Scalar> = (0..5).map(|_| Curve::scalar_random(&mut rng)).collect();

    let commitment = ExtendedPedersen::var_commit(&params, &messages, &mut rng).unwrap();
    let res = commitment.inner.verify(&params, &messages, commitment.randomness.expose());
    assert!(res.is_ok());
}

#[test]
fn homomorphic_properties() {
    let mut rng = rng(31);
    let params = Parameters::<Curve>::new(3, &mut rng);
    let msgs1: Vec<Scalar> = (0..3).map(|_| Curve::scalar_random(&mut rng)).collect();
    let msgs2: Vec<Scalar> = (0..3).map(|_| Curve::scalar_random(&mut rng)).collect();

    let c1 = ExtendedPedersen::var_commit(&params, &msgs1, &mut rng).unwrap();
    let c2 = ExtendedPedersen::var_commit(&params, &msgs2, &mut rng).unwrap();

    let expected_r = Curve::scalar_add(c1.randomness.expose(), c2.randomness.expose());
    let c_sum = c1.add(c2);

    let expected_msgs: Vec<Scalar> = msgs1.iter().zip(&msgs2).map(|(a, b)| Curve::scalar_add(a, b)).collect();

    assert!(c_sum.inner.verify(&params, &expected_msgs, &expected_r).is_ok());
}

#[test]
fn const_vs_var_commitment_equivalence() {
    let mut rng = rng(32);
    let params = Parameters::<Curve>::new(4, &mut rng);
    let messages: Vec<Scalar> = (0..4).map(|_| Curve::scalar_random(&mut rng)).collect();
    let r = Curve::scalar_random(&mut rng);

    let c_var = Pedersen::var_commit_with_randomness(&params, &messages, &r);
    let c_const = Pedersen::const_commit_with_randomness(&params, &messages, &r);

    assert_eq!(c_var, c_const, "var_commit and const_commit mismatch");
}

#[test]
fn pedersen_basic_round_trip() {
    let mut rng = rng(33);
    let list_len = 50;
    let params = Parameters::<Curve>::new(list_len, &mut rng);
    let messages: Vec<Scalar> = (0..40u64).map(|_| Curve::scalar_random(&mut rng)).collect();
    let (com, r) = ExtendedPedersen::var_commit(&params, &messages, &mut rng).unwrap().open();
    assert!(com.verify(&params, &messages, &r).is_ok());
}

#[test]
fn scaling_and_errors() {
    let mut rng = rng(34);
    let params = Parameters::<Curve>::new(2, &mut rng);
    let m = [Curve::scalar_from_u64(3), Curve::scalar_from_u64(4)];
    let r = Curve::scalar_from_u64(5);
    let k = Curve::scalar_from_u64(7);
    let c = ExtendedPedersen::var_commit_with_randomness(&params, &m, &r).mul(&k);
    let km = [Curve::scalar_from_u64(21), Curve::scalar_from_u64(28)];
    assert_eq!(c.inner.verify(&params, &km, &Curve::scalar_from_u64(35)), Ok(()));
    assert_eq!(c.inner.verify(&params, &km, &r), Err(Error::PedersenCommitmentMismatch));
    let too_many = [Curve::scalar_from_u64(1); 3];
    assert_eq!(c.inner.verify(&params, &too_many, &r), Err(Error::LengthMismatch));
    assert!(matches!(Pedersen::var_commit(&params, &too_many, &mut rng), Err(Error::LengthMismatch)));
    assert!(matches!(ExtendedPedersen::const_commit(&params, &too_many, &mut rng), Err(Error::LengthMismatch)));
    // subtraction undoes addition
    let a = Pedersen::var_commit_with_randomness(&params, &m, &r);
    let b = Pedersen::const_commit_with_randomness(&params, &km, &k);
    assert_eq!(a.add(b).sub(b), a);
}

#[test]
fn commitment_bytes() {
    let mut rng = rng(35);
    let params = Parameters::<Curve>::new(1, &mut rng);
    let c = Pedersen::var_commit(&params, &[Curve::scalar_from_u64(9)], &mut rng).unwrap();
    let bytes = c.to_bytes();
    assert_eq!(Pedersen::<Curve>::from_bytes(&bytes), Some(c));
    let zero = Pedersen::var_commit_with_randomness(&params, &[], &Curve::scalar_from_u64(0));
    assert_eq!(Pedersen::<Curve>::from_bytes(&zero.to_bytes()), None);
}
