use dlog_sigma_primitives::group::{Group, GroupPoint, GroupScalar};
use dlog_sigma_primitives::k256::K256Group;
use dlog_sigma_primitives::p384::P384Group;
use dlog_sigma_primitives::randomness::RandomBytesProvider;
use k256::elliptic_curve::sec1::ToEncodedPoint;
use k256::elliptic_curve::PrimeField;
use merlin::Transcript;
use rand::Rng;
use rand_chacha::ChaCha20Rng;
use rand_core::SeedableRng;

fn k256_bytes(s: &<K256Group as GroupScalar>::Scalar) -> [u8; 32] {
    let mut b = [0u8; 32];
    K256Group::scalar_to_bytes(&mut b, s);
    b
}

fn p384_bytes(s: &<P384Group as GroupScalar>::Scalar) -> [u8; 48] {
    let mut b = [0u8; 48];
    P384Group::scalar_to_bytes(&mut b, s);
    b
}

#[test]
fn k256_scalar_operations() {
    // the group's scalar operations agree with those of k256
    let mut rng = ChaCha20Rng::seed_from_u64(11);
    let r1: u64 = rng.gen();
    let r2: u64 = rng.gen();
    let a = K256Group::scalar_from_u64(r1);
    let b = K256Group::scalar_from_u64(r2);
    let (x, y) = (k256::Scalar::from(r1), k256::Scalar::from(r2));
    assert_eq!(k256_bytes(&K256Group::scalar_add(&a, &b)).as_slice(), (x + y).to_repr().as_slice());
    assert_eq!(k256_bytes(&K256Group::scalar_sub(&a, &b)).as_slice(), (x - y).to_repr().as_slice());
    assert_eq!(k256_bytes(&K256Group::scalar_mul(&a, &b)).as_slice(), (x * y).to_repr().as_slice());
}

#[test]
fn k256_point_isid() {
    let mut rng = ChaCha20Rng::seed_from_u64(12);
    let scalar = K256Group::scalar_random(&mut rng);
    let g = K256Group::generator();
    let p = K256Group::point_mul(&g, &scalar);
    let zero = K256Group::point_sub(&p, &p);
    assert_eq!(zero, K256Group::identity());
}

#[test]
fn k256_point_from_bytes() {
    let g = K256Group::generator();
    let mut bytes = [0u8; 33];
    K256Group::point_to_bytes(&mut bytes, &g);
    let g_from_bytes = K256Group::point_from_bytes(&bytes).unwrap();

    assert_eq!(g, g_from_bytes)
}

#[test]
fn k256_scalar_from_bytes() {
    let mut rng = ChaCha20Rng::seed_from_u64(13);
    let e = K256Group::scalar_random(&mut rng);
    let mut bytes = [0u8; 32];
    K256Group::scalar_to_bytes(&mut bytes, &e);
    let e_from_bytes = K256Group::scalar_from_bytes(&bytes).unwrap();

    assert_eq!(e, e_from_bytes)
}

#[test]
fn k256_sec1_forms_and_rejections() {
    // the generator serializes to its compressed SEC1 form
    let g = K256Group::generator();
    let mut bytes = [0u8; 33];
    K256Group::point_to_bytes(&mut bytes, &g);
    let expected = k256::ProjectivePoint::GENERATOR.to_affine().to_encoded_point(true);
    assert_eq!(bytes.as_slice(), expected.as_bytes());
    // the uncompressed form and the one-byte identity are accepted too
    let uncompressed = k256::ProjectivePoint::GENERATOR.to_affine().to_encoded_point(false);
    assert_eq!(K256Group::point_from_bytes(uncompressed.as_bytes()), Some(g));
    assert_eq!(K256Group::point_from_bytes(&[0u8]), Some(K256Group::identity()));
    // zero bytes of the point size are the serialized identity; a bad tag
    // encodes no point
    assert_eq!(K256Group::point_from_bytes(&[0u8; 33]), Some(K256Group::identity()));
    let mut bad = bytes;
    bad[0] = 7;
    assert_eq!(K256Group::point_from_bytes(&bad), None);
    // the order itself is no scalar
    let order = k256::Scalar::from(0u64) - k256::Scalar::from(1u64);
    let mut top = [0u8; 32];
    top.copy_from_slice(&order.to_repr());
    top[31] = top[31].wrapping_add(1);
    assert_eq!(K256Group::scalar_from_bytes(&top), None);
    assert_eq!(K256Group::scalar_from_bytes(&[1u8; 31]), None);
}

#[test]
fn k256_group_law_and_inverse() {
    let g = K256Group::generator();
    let two = K256Group::scalar_from_u64(2);
    let three = K256Group::scalar_from_u64(3);
    let g5 = K256Group::point_add(&K256Group::point_mul(&g, &two), &K256Group::point_mul(&g, &three));
    assert_eq!(g5, K256Group::point_mul(&g, &K256Group::scalar_from_u64(5)));
    assert_eq!(K256Group::point_add(&g, &K256Group::point_inv(g)), K256Group::identity());
    assert!(K256Group::is_id(&K256Group::identity()));
    assert!(!K256Group::is_id(&g));
    let inv = K256Group::scalar_inv(three);
    assert!(K256Group::scalar_eq(&K256Group::scalar_mul(&inv, &three), &K256Group::scalar_from_u64(1)));
    let scalars = [two, three];
    let points = [g, g];
    assert_eq!(K256Group::vartime_multi_mul(&scalars, &points), g5);
}

#[test]
fn k256_challenge_scalars_follow_the_transcript() {
    let mut t1 = Transcript::new(b"curves");
    let mut t2 = Transcript::new(b"curves");
    let a = K256Group::scalar_from_random_bytes(RandomBytesProvider::new(&mut t1, b"c"));
    let b = K256Group::scalar_from_random_bytes(RandomBytesProvider::new(&mut t2, b"c"));
    assert_eq!(a, b);
    let c = K256Group::scalar_from_random_bytes(RandomBytesProvider::new(&mut t1, b"c"));
    assert_ne!(a, c);
}

#[test]
fn p384_scalar_operations() {
    // the group's scalar operations agree with those of p384
    let mut rng = ChaCha20Rng::seed_from_u64(21);
    let r1: u64 = rng.gen();
    let r2: u64 = rng.gen();
    let a = P384Group::scalar_from_u64(r1);
    let b = P384Group::scalar_from_u64(r2);
    let (x, y) = (p384::Scalar::from(r1), p384::Scalar::from(r2));
    assert_eq!(p384_bytes(&P384Group::scalar_add(&a, &b)).as_slice(), (x + y).to_repr().as_slice());
    assert_eq!(p384_bytes(&P384Group::scalar_sub(&a, &b)).as_slice(), (x - y).to_repr().as_slice());
    assert_eq!(p384_bytes(&P384Group::scalar_mul(&a, &b)).as_slice(), (x * y).to_repr().as_slice());
}

#[test]
fn p384_point_from_bytes() {
    let g = P384Group::generator();
    let mut bytes = [0u8; 49];
    P384Group::point_to_bytes(&mut bytes, &g);
    let g_from_bytes = P384Group::point_from_bytes(&bytes).unwrap();

    assert_eq!(g, g_from_bytes)
}

#[test]
fn p384_scalar_from_bytes() {
    let mut rng = ChaCha20Rng::seed_from_u64(23);
    let e = P384Group::scalar_random(&mut rng);
    let mut bytes = [0u8; 48];
    P384Group::scalar_to_bytes(&mut bytes, &e);
    let e_from_bytes = P384Group::scalar_from_bytes(&bytes).unwrap();

    assert_eq!(e, e_from_bytes)
}

#[test]
fn p384_identity_serializes_to_zeros_and_reads_back() {
    let mut bytes = [1u8; 49];
    P384Group::point_to_bytes(&mut bytes, &P384Group::identity());
    assert_eq!(bytes, [0u8; 49]);
    assert_eq!(P384Group::point_from_bytes(&bytes), Some(P384Group::identity()));
    let mut rng = ChaCha20Rng::seed_from_u64(24);
    let p = P384Group::point_random(&mut rng);
    let q = P384Group::point_sub(&p, &p);
    assert!(P384Group::is_id(&q));
    assert!(P384Group::point_eq(&q, &P384Group::identity()));
}

#[test]
fn k256_identity_serializes_to_zeros_and_reads_back() {
    let mut bytes = [1u8; 33];
    K256Group::point_to_bytes(&mut bytes, &K256Group::identity());
    assert_eq!(bytes, [0u8; 33]);
    let back = K256Group::point_from_bytes(&bytes).unwrap();
    assert!(K256Group::is_id(&back));
    assert_eq!(back, K256Group::identity());
}

fn seeded_draws_match<G: Group>(seed: [u8; 32]) {
    let mut rng = ChaCha20Rng::from_seed(seed);
    let a = G::scalar_random(&mut rng);
    let b = G::scalar_random(&mut rng);
    let c = G::scalar_random(&mut rng);
    let (x, p1) = G::scalar_at(&seed, 0);
    let (y, p2) = G::scalar_at(&seed, p1);
    let (z, p3) = G::scalar_at(&seed, p2);
    assert_eq!(a, x);
    assert_eq!(b, y);
    assert_eq!(c, z);
    assert!(0 < p1 && p1 < p2 && p2 < p3);
    assert_eq!(p3, rng.get_word_pos());
    assert_ne!(x, y);
}

#[test]
fn seeded_draws_follow_the_generator() {
    let seed = [7u8; 32];
    seeded_draws_match::<K256Group>(seed);
    seeded_draws_match::<P384Group>(seed);
    seeded_draws_match::<dlog_sigma_primitives::ristretto::RistrettoGroup>(seed);
    // ristretto draws consume 64 bytes, that is 16 words, each
    let (_, p) = dlog_sigma_primitives::ristretto::RistrettoGroup::scalar_at(&seed, 0);
    assert_eq!(p, 16);
}

#[test]
fn random_bytes_come_from_the_transcript() {
    let mut t1 = Transcript::new(b"bytes");
    let mut t2 = Transcript::new(b"bytes");
    let mut a = [0u8; 40];
    RandomBytesProvider::new(&mut t1, b"r").fill_bytes(&mut a);
    let mut b = [0u8; 40];
    t2.challenge_bytes(b"r", &mut b);
    assert_eq!(a, b);
    assert_ne!(a, [0u8; 40]);
    // the generator is seeded with the next 32 challenge bytes
    let mut rng = K256Group::rng_from_random_bytes(RandomBytesProvider::new(&mut t1, b"s"));
    let mut seed = [0u8; 32];
    t2.challenge_bytes(b"s", &mut seed);
    let mut expected = ChaCha20Rng::from_seed(seed);
    assert_eq!(rand_core::RngCore::next_u64(&mut rng), rand_core::RngCore::next_u64(&mut expected));
}
