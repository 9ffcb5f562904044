use dlog_sigma_primitives::proofs::SigmaProtocol;
use dlog_sigma_primitives::elgamal::ciphertext::{Ciphertext, DiscreteLogTable, ExtendedCiphertext};
use dlog_sigma_primitives::elgamal::keys::{ElGamalParams, KeyPair, PublicKey, SecretKey, SecretScalar};
use dlog_sigma_primitives::error::{DecryptionError, Error};
use dlog_sigma_primitives::group::{GroupPoint, GroupScalar};
use dlog_sigma_primitives::Curve;
use merlin::Transcript;
use rand_chacha::ChaCha20Rng;
use rand_core::SeedableRng;

type Scalar = <Curve as GroupScalar>::Scalar;

fn rng(seed: u64) -> ChaCha20Rng {
    ChaCha20Rng::seed_from_u64(seed)
}

fn gen_times(v: u64) -> <Curve as GroupPoint>::Point {
    Curve::point_mul(&Curve::generator(), &Curve::scalar_from_u64(v))
}

#[test]
fn dlog_table() {
    let table = DiscreteLogTable::<Curve>::new((1..100).collect());
    let decrypted_element = gen_times(50);
    assert_eq!(table.get(&decrypted_element), Some(50u64));
}

#[test]
fn dlog_table_identity_and_missing() {
    let table = DiscreteLogTable::<Curve>::new((1..10).collect());
    assert_eq!(table.get(&Curve::identity()), Some(0));
    assert_eq!(table.get(&gen_times(10)), None);
}

#[test]
fn decrypt() {
    let mut rng = rng(10);
    let params = ElGamalParams::new(&mut rng);
    let (_, pk) = KeyPair::new_from_params(&params, &mut rng).into_tuple();
    let s = Curve::scalar_from_u64(30);

    let ct1 = ExtendedCiphertext::exp_new(&s, &pk, &params, &mut rng);

    let table = DiscreteLogTable::<Curve>::new((1..100).collect());
    let dec = ct1.inner.exp_decrypt(&pk, &params, &table, ct1.expose()).unwrap();

    assert_eq!(dec, s);
}

#[test]
fn error_check() {
    let mut rng = rng(11);
    let params = ElGamalParams::new(&mut rng);
    let (_, pk) = KeyPair::new_from_params(&params, &mut rng).into_tuple();
    let wrong_params = ElGamalParams::new(&mut rng);
    let s = Curve::scalar_from_u64(200);
    let ct = ExtendedCiphertext::exp_new(&s, &pk, &params, &mut rng);
    let table = DiscreteLogTable::<Curve>::new((1..100).collect());

    let dec = ct.inner.exp_decrypt(&pk, &params, &table, ct.expose());
    assert_eq!(dec, Err(Error::ElementNotFound));
    let dec = ct.inner.exp_decrypt(&pk, &wrong_params, &table, ct.expose());
    assert_eq!(dec, Err(Error::RandomPointMismatch));
}

#[test]
fn api() {
    let mut rng = rng(12);
    let params = ElGamalParams::<Curve>::new(&mut rng);
    let (sk, pk) = KeyPair::new_from_params(&params, &mut rng).into_tuple();
    let message = Curve::point_random(&mut rng);
    let ext_ct = pk.encrypt(message, &params, &mut rng);
    let ct = ext_ct.to_inner();
    let dec = sk.decrypt(&ct);
    assert_eq!(message, dec);
}

#[test]
fn pk_serialization_roundtrip() {
    let mut rng = rng(13);
    let sk = SecretKey::<Curve>::new(&mut rng);
    let (_, pk) = PublicKey::<Curve>::new(&sk, &mut rng);

    let bytes = pk.to_bytes();
    let pk_de = PublicKey::<Curve>::from_bytes(&bytes).unwrap();

    assert_eq!(pk, pk_de);
}

#[test]
fn pk_from_bytes_errors() {
    assert_eq!(PublicKey::<Curve>::from_bytes(&[0u8; 31]), Err(Error::InvalidByteSize));
    assert_eq!(PublicKey::<Curve>::from_bytes(&[0xffu8; 32]), Err(Error::InvalidPoint));
    let mut id = [0u8; 32];
    Curve::point_to_bytes(&mut id, &Curve::identity());
    assert_eq!(PublicKey::<Curve>::from_bytes(&id), Err(Error::IdentityKey));
}

#[test]
fn decrypt_ok() {
    let mut rng = rng(14);
    let sk = SecretKey::<Curve>::new(&mut rng);
    let (params, pk) = PublicKey::<Curve>::new(&sk, &mut rng);

    let value = Curve::point_random(&mut rng);
    let enc = pk.encrypt(value, &params, &mut rng);
    let decrypt = sk.decrypt(&enc.inner);

    assert_eq!(value, decrypt);
}

#[test]
fn params_bytes_roundtrip() {
    let mut rng = rng(15);
    let params = ElGamalParams::<Curve>::new(&mut rng);
    let bytes = params.to_bytes();
    let de = ElGamalParams::<Curve>::from_bytes(&bytes).unwrap();
    assert_eq!(params, de);
}

#[test]
fn params_from_bytes_errors() {
    assert_eq!(ElGamalParams::<Curve>::from_bytes(&[0u8; 63]), Err(Error::InvalidByteSize));
    let mut bytes = [0xffu8; 64];
    assert_eq!(ElGamalParams::<Curve>::from_bytes(&bytes), Err(Error::InvalidPoint));
    Curve::point_to_bytes(&mut bytes[..32], &Curve::generator());
    assert_eq!(ElGamalParams::<Curve>::from_bytes(&bytes), Err(Error::InvalidPoint));
}

#[test]
fn elgamal_basic_round_trip() {
    let mut rng = rng(16);

    let params = ElGamalParams::<Curve>::new(&mut rng);
    let (sk, pk) = KeyPair::<Curve>::new_from_params(&params, &mut rng).into_tuple();

    let m = Curve::point_mul(&Curve::generator(), &Curve::scalar_random(&mut rng));

    let (ct, _r) = pk.encrypt(m, &params, &mut rng).into_tuple();

    let m_dec = sk.decrypt(&ct);

    assert_eq!(m, m_dec);
}

#[test]
fn decrypt_with_randomness() {
    let mut rng = rng(17);
    let params = ElGamalParams::<Curve>::new(&mut rng);
    let (_, pk) = KeyPair::<Curve>::new_from_params(&params, &mut rng).into_tuple();
    let m = Curve::point_random(&mut rng);
    let (ct, r) = pk.encrypt(m, &params, &mut rng).into_tuple();
    assert_eq!(pk.dec_with_rnd(&params, ct, r.expose()), Ok(m));
    let wrong = Curve::scalar_from_u64(5);
    assert_eq!(pk.dec_with_rnd(&params, ct, &wrong), Err(Error::RandomPointMismatch));
}

#[test]
fn homomorphic_addition_and_scaling() {
    let mut rng = rng(18);
    let params = ElGamalParams::<Curve>::new(&mut rng);
    let (sk, pk) = KeyPair::<Curve>::new_from_params(&params, &mut rng).into_tuple();
    let c3 = ExtendedCiphertext::exp_new(&Curve::scalar_from_u64(3), &pk, &params, &mut rng);
    let c4 = ExtendedCiphertext::exp_new(&Curve::scalar_from_u64(4), &pk, &params, &mut rng);
    let sum = c3.inner.add_ct(c4.inner);
    assert_eq!(sk.decrypt(&sum), gen_times(7));
    let scaled = c3.inner.mul_scalar(&Curve::scalar_from_u64(5));
    assert_eq!(sk.decrypt(&scaled), gen_times(15));
    assert_eq!(sk.decrypt(&c3.inner.mul_u64(2)), gen_times(6));
    let diff = c4.inner.sub_ct(c3.inner);
    assert_eq!(sk.decrypt(&diff), gen_times(1));
    let neg = c3.inner.neg_ct();
    assert_eq!(sk.decrypt(&neg.add_ct(c3.inner)), Curve::identity());
    let shifted = c3.inner.hom_sub(&gen_times(3));
    assert_eq!(sk.decrypt(&shifted), Curve::identity());
}

#[test]
fn re_encryption_keeps_plaintext() {
    let mut rng = rng(19);
    let params = ElGamalParams::<Curve>::new(&mut rng);
    let (sk, pk) = KeyPair::<Curve>::new_from_params(&params, &mut rng).into_tuple();
    let m = Curve::point_random(&mut rng);
    let (ct, _) = pk.encrypt(m, &params, &mut rng).into_tuple();
    let re = ct.re_encrypt(&pk, &params, &mut rng);
    assert!(!re.inner.ct_eq(&ct));
    assert_eq!(sk.decrypt(&re.inner), m);
}

#[test]
fn ranked_sum_weights_by_rank() {
    let mut rng = rng(20);
    let params = ElGamalParams::<Curve>::new(&mut rng);
    let (sk, pk) = KeyPair::<Curve>::new_from_params(&params, &mut rng).into_tuple();
    let cts: Vec<Ciphertext<Curve>> =
        (1..=3).map(|v| ExtendedCiphertext::exp_new(&Curve::scalar_from_u64(v), &pk, &params, &mut rng).inner).collect();
    // 1*1 + 2*2 + 3*3 = 14
    assert_eq!(sk.decrypt(&Ciphertext::ranked_sum(&cts)), gen_times(14));
    assert_eq!(sk.decrypt(&Ciphertext::<Curve>::zero()), Curve::identity());
}

#[test]
fn ciphertext_bytes_roundtrip() {
    let mut rng = rng(21);
    let params = ElGamalParams::<Curve>::new(&mut rng);
    let (_, pk) = KeyPair::<Curve>::new_from_params(&params, &mut rng).into_tuple();
    let ct = Ciphertext::new(&pk, &params, Curve::identity(), &mut rng);
    let bytes = ct.to_bytes();
    assert_eq!(bytes.len(), 96);
    assert_eq!(Ciphertext::<Curve>::from_bytes(&bytes), Some(ct));
    assert_eq!(Ciphertext::<Curve>::from_bytes(&bytes[..95]), None);
}

#[test]
fn extended_ciphertext_zero_and_identity() {
    let mut rng = rng(22);
    let params = ElGamalParams::<Curve>::new(&mut rng);
    let (_, pk) = KeyPair::<Curve>::new_from_params(&params, &mut rng).into_tuple();
    let id = ExtendedCiphertext::id_new(&pk, &params, &mut rng);
    assert!(id.is_zero(&pk));
    let one = ExtendedCiphertext::exp_new(&Curve::scalar_from_u64(1), &pk, &params, &mut rng);
    assert!(!one.is_zero(&pk));
    assert!(ExtendedCiphertext::<Curve>::zero().is_zero(&pk));
}

#[test]
fn secret_key_bytes_and_verifiable_decryption() {
    let mut rng = rng(23);
    let params = ElGamalParams::<Curve>::new(&mut rng);
    let (sk, pk) = KeyPair::<Curve>::new_from_params(&params, &mut rng).into_tuple();
    assert!(SecretKey::<Curve>::from_bytes(&[0u8; 63]).is_none());
    let (a, b) = sk.expose_scalars();
    let mut bytes = vec![0u8; 64];
    Curve::scalar_to_bytes(&mut bytes[..32], a);
    Curve::scalar_to_bytes(&mut bytes[32..], b);
    let sk2 = SecretKey::<Curve>::from_bytes(&bytes).unwrap();
    assert_eq!(sk2.to_public(&params), pk);
    let m = Curve::point_random(&mut rng);
    let (ct, _) = pk.encrypt(m, &params, &mut rng).into_tuple();
    let mut tr = Transcript::new(b"dec");
    let proof = sk.ver_decrypt(&params, &ct, &mut tr, &mut rng);
    let public = dlog_sigma_primitives::proofs::ver_decr::DecOkPublicBorrowed::new(&params, &pk, &ct, &m);
    let mut tr2 = Transcript::new(b"dec");
    assert_eq!(dlog_sigma_primitives::proofs::ver_decr::DecOkProtocol::verify(public, &proof, &mut tr2), Ok(()));
}

#[test]
fn secret_scalar_arithmetic() {
    let a = SecretScalar::<Curve>::from_u64(6);
    let b = SecretScalar::<Curve>::from_u64(4);
    assert_eq!(*a.add(b).expose(), Curve::scalar_from_u64(10));
    let a = SecretScalar::<Curve>::from_u64(6);
    let b = SecretScalar::<Curve>::from_u64(4);
    assert_eq!(*a.sub(b).expose(), Curve::scalar_from_u64(2));
    let a = SecretScalar::<Curve>::from_u64(6);
    let b = SecretScalar::<Curve>::from_u64(4);
    assert_eq!(*a.mul_secret(&b).expose(), Curve::scalar_from_u64(24));
    assert_eq!(*a.mul(&Curve::scalar_from_u64(3)).expose(), Curve::scalar_from_u64(18));
    let mut c = SecretScalar::<Curve>::from_u64(1);
    c.add_assign_scalar(&Curve::scalar_from_u64(2));
    c.sub_assign_scalar(&Curve::scalar_from_u64(1));
    assert_eq!(*c.expose(), Curve::scalar_from_u64(2));
}

#[test]
fn assigning_forms_of_the_operations() {
    let mut rng = rng(24);
    let params = ElGamalParams::<Curve>::new(&mut rng);
    let (sk, pk) = KeyPair::<Curve>::new_from_params(&params, &mut rng).into_tuple();
    let c2 = ExtendedCiphertext::exp_new(&Curve::scalar_from_u64(2), &pk, &params, &mut rng);
    let c5 = ExtendedCiphertext::exp_new(&Curve::scalar_from_u64(5), &pk, &params, &mut rng);
    let mut acc = c2.inner;
    acc.add_assign(c5.inner);
    assert_eq!(sk.decrypt(&acc), gen_times(7));
    acc.sub_assign(c2.inner);
    assert_eq!(sk.decrypt(&acc), gen_times(5));
    let (r2, r5) = (*c2.expose(), *c5.expose());
    let mut ext = c2.inner.to_extended(r2);
    ext.add_assign(c5.inner.to_extended(r5));
    assert_eq!(sk.decrypt(&ext.inner), gen_times(7));
    assert_eq!(*ext.expose(), Curve::scalar_add(&r2, &r5));
    let mut s = SecretScalar::<Curve>::from_u64(9);
    s.add_assign(SecretScalar::from_u64(3));
    assert_eq!(*s.expose(), Curve::scalar_from_u64(12));
    s.sub_assign(SecretScalar::from_u64(5));
    assert_eq!(*s.expose(), Curve::scalar_from_u64(7));
}

#[test]
fn error_messages_and_conversion() {
    assert_eq!(Error::from(DecryptionError::ElementNotFound), Error::ElementNotFound);
    assert_eq!(Error::from(DecryptionError::RandomPointMismatch), Error::RandomPointMismatch);
    assert_eq!(Error::LengthMismatch.message(), "length does not match");
}

#[allow(dead_code)]
fn scalar_type_is_copy(s: Scalar) -> (Scalar, Scalar) {
    (s, s)
}

#[test]
fn ciphertexts_with_identity_components_round_trip() {
    let zero = Ciphertext::<Curve>::zero();
    let bytes = zero.to_bytes();
    assert_eq!(Ciphertext::<Curve>::from_bytes(&bytes), Some(zero));
    let k_zero = Ciphertext::<dlog_sigma_primitives::k256::K256Group>::zero();
    let k_bytes = k_zero.to_bytes();
    assert_eq!(k_bytes, vec![0u8; 99]);
    assert_eq!(Ciphertext::<dlog_sigma_primitives::k256::K256Group>::from_bytes(&k_bytes), Some(k_zero));
    let p_zero = Ciphertext::<dlog_sigma_primitives::p384::P384Group>::zero();
    let p_bytes = p_zero.to_bytes();
    assert_eq!(Ciphertext::<dlog_sigma_primitives::p384::P384Group>::from_bytes(&p_bytes), Some(p_zero));
}

#[test]
fn exp_decryption_of_zero_and_of_missing_values() {
    let mut rng = rng(91);
    let params = ElGamalParams::<Curve>::new(&mut rng);
    let (_, pk) = KeyPair::<Curve>::new_from_params(&params, &mut rng).into_tuple();
    let table = DiscreteLogTable::<Curve>::new(vec![1, 2, 3]);
    let zero = ExtendedCiphertext::exp_new(&Curve::scalar_from_u64(0), &pk, &params, &mut rng);
    assert_eq!(
        zero.inner.exp_decrypt(&pk, &params, &table, zero.random_scalar.expose()),
        Ok(Curve::scalar_from_u64(0))
    );
    let missing = ExtendedCiphertext::exp_new(&Curve::scalar_from_u64(4), &pk, &params, &mut rng);
    assert_eq!(
        missing.inner.exp_decrypt(&pk, &params, &table, missing.random_scalar.expose()),
        Err(Error::ElementNotFound)
    );
    let found = ExtendedCiphertext::exp_new(&Curve::scalar_from_u64(3), &pk, &params, &mut rng);
    assert_eq!(
        found.inner.exp_decrypt(&pk, &params, &table, found.random_scalar.expose()),
        Ok(Curve::scalar_from_u64(3))
    );
}

#[test]
fn ranked_sum_keeps_an_opening() {
    let mut rng = rng(92);
    let params = ElGamalParams::<Curve>::new(&mut rng);
    let (_, pk) = KeyPair::<Curve>::new_from_params(&params, &mut rng).into_tuple();
    let table = DiscreteLogTable::<Curve>::new((1..20).collect());
    let cts: Vec<ExtendedCiphertext<Curve>> = (1..=3u64)
        .map(|v| ExtendedCiphertext::exp_new(&Curve::scalar_from_u64(v), &pk, &params, &mut rng))
        .collect();
    let sum = ExtendedCiphertext::ranked_sum(&cts);
    // 1*1 + 2*2 + 3*3 = 14
    assert_eq!(
        sum.inner.exp_decrypt(&pk, &params, &table, sum.random_scalar.expose()),
        Ok(Curve::scalar_from_u64(14))
    );
}
