use curve25519_dalek::scalar::Scalar;
use dlog_sigma_primitives::group::{Group, GroupPoint, GroupScalar};
use dlog_sigma_primitives::ristretto::RistrettoGroup;
use rand::Rng;
use rand_chacha::ChaCha20Rng;
use rand_core::SeedableRng;

fn scalar_bytes(s: &<RistrettoGroup as GroupScalar>::Scalar) -> [u8; 32] {
    let mut b = [0u8; 32];
    RistrettoGroup::scalar_to_bytes(&mut b, s);
    b
}

#[test]
fn ristretto_scalar_operations() {
    // the group's scalar operations agree with those of curve25519-dalek
    let mut rng = ChaCha20Rng::seed_from_u64(1);
    let r1: u64 = rng.gen();
    let r2: u64 = rng.gen();
    let a = RistrettoGroup::scalar_from_u64(r1);
    let b = RistrettoGroup::scalar_from_u64(r2);
    assert_eq!(scalar_bytes(&RistrettoGroup::scalar_add(&a, &b)), (Scalar::from(r1) + Scalar::from(r2)).to_bytes());
    assert_eq!(scalar_bytes(&RistrettoGroup::scalar_sub(&a, &b)), (Scalar::from(r1) - Scalar::from(r2)).to_bytes());
    assert_eq!(scalar_bytes(&RistrettoGroup::scalar_mul(&a, &b)), (Scalar::from(r1) * Scalar::from(r2)).to_bytes());
}

#[test]
fn ristretto_point_isid() {
    let mut rng = ChaCha20Rng::seed_from_u64(2);
    let scalar = RistrettoGroup::scalar_random(&mut rng);
    let g = RistrettoGroup::generator();
    let p = RistrettoGroup::point_mul(&g, &scalar);
    let zero = RistrettoGroup::point_sub(&p, &p);
    assert_eq!(zero, RistrettoGroup::identity());
}

#[test]
fn ristretto_point_from_bytes() {
    let g = RistrettoGroup::generator();
    let mut bytes = [0u8; 32];
    RistrettoGroup::point_to_bytes(&mut bytes, &g);
    let g_from_bytes = RistrettoGroup::point_from_bytes(&bytes).unwrap();

    assert_eq!(g, g_from_bytes)
}

#[test]
fn ristretto_scalar_from_bytes() {
    let mut rng = ChaCha20Rng::seed_from_u64(3);
    let e = RistrettoGroup::scalar_random(&mut rng);
    let mut bytes = [0u8; 32];
    RistrettoGroup::scalar_to_bytes(&mut bytes, &e);
    let e_from_bytes = RistrettoGroup::scalar_from_bytes(&bytes).unwrap();

    assert_eq!(e, e_from_bytes)
}

#[test]
fn scalar_inverse_and_wide_reduction() {
    let seven = RistrettoGroup::scalar_from_u64(7);
    let inv = RistrettoGroup::scalar_inv(seven);
    assert_eq!(RistrettoGroup::scalar_mul(&inv, &seven), RistrettoGroup::scalar_from_u64(1));
    assert_eq!(scalar_bytes(&inv), Scalar::from(7u64).invert().to_bytes());
    assert!(RistrettoGroup::scalar_eq(&seven, &RistrettoGroup::scalar_from_u64(7)));
    assert!(!RistrettoGroup::scalar_eq(&seven, &RistrettoGroup::scalar_from_u64(8)));
}

#[test]
fn non_canonical_scalar_and_bad_point_are_refused() {
    // l itself is not a canonical scalar encoding
    let l_bytes: [u8; 32] = [
        0xed, 0xd3, 0xf5, 0x5c, 0x1a, 0x63, 0x12, 0x58, 0xd6, 0x9c, 0xf7, 0xa2, 0xde, 0xf9, 0xde, 0x14, 0, 0, 0, 0, 0, 0,
        0, 0, 0, 0, 0, 0, 0, 0, 0, 0x10,
    ];
    assert!(RistrettoGroup::scalar_from_bytes(&l_bytes).is_none());
    assert!(RistrettoGroup::scalar_from_bytes(&[1u8; 31]).is_none());
    assert!(RistrettoGroup::point_from_bytes(&[0xffu8; 32]).is_none());
    assert!(RistrettoGroup::point_from_bytes(&[0u8; 31]).is_none());
}

#[test]
fn group_law_and_identity() {
    let g = RistrettoGroup::generator();
    let two = RistrettoGroup::scalar_from_u64(2);
    let three = RistrettoGroup::scalar_from_u64(3);
    let five = RistrettoGroup::scalar_from_u64(5);
    let a = RistrettoGroup::point_mul(&g, &two);
    let b = RistrettoGroup::point_mul(&g, &three);
    assert_eq!(RistrettoGroup::point_add(&a, &b), RistrettoGroup::point_mul(&g, &five));
    assert!(RistrettoGroup::is_id(&RistrettoGroup::identity()));
    assert!(!RistrettoGroup::is_id(&g));
    assert_eq!(RistrettoGroup::point_add(&a, &RistrettoGroup::point_inv(a)), RistrettoGroup::identity());
    assert!(RistrettoGroup::point_eq(&a, &a));
    assert!(!RistrettoGroup::point_eq(&a, &b));
}

#[test]
fn multi_scalar_multiplication() {
    let g = RistrettoGroup::generator();
    let points = [g, RistrettoGroup::point_mul(&g, &RistrettoGroup::scalar_from_u64(10))];
    let scalars = [RistrettoGroup::scalar_from_u64(3), RistrettoGroup::scalar_from_u64(4)];
    let expected = RistrettoGroup::point_mul(&g, &RistrettoGroup::scalar_from_u64(43));
    assert_eq!(RistrettoGroup::vartime_multi_mul(&scalars, &points), expected);
    assert_eq!(RistrettoGroup::constime_multi_mul(&scalars, &points), expected);
    // the constant-time form stops at the shorter list
    assert_eq!(RistrettoGroup::constime_multi_mul(&scalars[..1], &points), RistrettoGroup::point_mul(&g, &scalars[0]));
}
