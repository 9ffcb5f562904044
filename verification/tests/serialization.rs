use dlog_sigma_primitives::elgamal::ciphertext::Ciphertext;
use dlog_sigma_primitives::group::{GroupPoint, GroupScalar};
use dlog_sigma_primitives::k256::K256Group;
use dlog_sigma_primitives::serialization::{
    deserialize_bytes, serialize_bytes, CiphertextHelper, Helper, HelperError, PointHelper, ScalarHelper,
    SerializedBytes, VecHelper,
};
use dlog_sigma_primitives::Curve;
use rand_chacha::ChaCha20Rng;
use rand_core::SeedableRng;

#[test]
fn bytes_as_text_or_raw() {
    assert_eq!(serialize_bytes(b"test", true), SerializedBytes::Text("dGVzdA".to_string()));
    assert_eq!(serialize_bytes(b"test", false), SerializedBytes::Raw(b"test".to_vec()));
    assert_eq!(serialize_bytes(&[0xfb, 0xff], true), SerializedBytes::Text("-_8".to_string()));
    assert_eq!(deserialize_bytes(&SerializedBytes::Text("dGVzdA".to_string())), Ok(b"test".to_vec()));
    assert_eq!(deserialize_bytes(&SerializedBytes::Text("-_8".to_string())), Ok(vec![0xfb, 0xff]));
    assert_eq!(deserialize_bytes(&SerializedBytes::Raw(vec![1, 2, 3])), Ok(vec![1, 2, 3]));
    assert_eq!(deserialize_bytes(&SerializedBytes::Text("d+/=".to_string())), Err(HelperError::InvalidBase64));
}

#[test]
fn scalar_helper_lengths_and_values() {
    let s = Curve::scalar_from_u64(12345);
    let bytes = ScalarHelper::<Curve>::serialize(&s);
    assert_eq!(bytes.len(), 32);
    assert_eq!(ScalarHelper::<Curve>::deserialize(&bytes), Ok(s));
    assert_eq!(
        ScalarHelper::<Curve>::deserialize(b"test"),
        Err(HelperError::InvalidLength { len: 4, expected: 32 })
    );
    assert_eq!(ScalarHelper::<Curve>::deserialize(&[0xFFu8; 32]), Err(HelperError::InvalidValue));
    assert_eq!(
        ScalarHelper::<K256Group>::deserialize(&[0u8; 31]),
        Err(HelperError::InvalidLength { len: 31, expected: 32 })
    );
    assert_eq!(<ScalarHelper<Curve> as Helper>::plural_description(), "group scalars");
}

#[test]
fn point_helper_lengths_and_values() {
    let mut rng = ChaCha20Rng::seed_from_u64(31);
    let p = Curve::point_random(&mut rng);
    let bytes = PointHelper::<Curve>::serialize(&p);
    assert_eq!(PointHelper::<Curve>::deserialize(&bytes), Ok(p));
    assert_eq!(
        PointHelper::<Curve>::deserialize(b"test"),
        Err(HelperError::InvalidLength { len: 4, expected: 32 })
    );
    assert_eq!(PointHelper::<Curve>::deserialize(&[0xFFu8; 32]), Err(HelperError::InvalidValue));
    assert_eq!(PointHelper::<K256Group>::deserialize(&[0xFFu8; 33]), Err(HelperError::InvalidValue));
}

#[test]
fn ciphertext_helper_lengths_and_values() {
    let g = Curve::generator();
    let ct = Ciphertext::<Curve> { random_point: g, random_point2: g, blinded_point: g };
    let bytes = CiphertextHelper::<Curve>::serialize(&ct);
    assert_eq!(bytes.len(), 96);
    assert_eq!(CiphertextHelper::<Curve>::deserialize(&bytes), Ok(ct));
    assert_eq!(
        CiphertextHelper::<Curve>::deserialize(b"test"),
        Err(HelperError::InvalidLength { len: 4, expected: 96 })
    );
    assert_eq!(CiphertextHelper::<Curve>::deserialize(&[0xFFu8; 96]), Err(HelperError::InvalidValue));
}

#[test]
fn vec_helper_minimum_length() {
    let values = vec![Curve::scalar_from_u64(7), Curve::scalar_from_u64(890)];
    let helpers = VecHelper::<ScalarHelper<Curve>, 2>::serialize(&values);
    assert_eq!(helpers.len(), 2);
    assert_eq!(VecHelper::<ScalarHelper<Curve>, 2>::deserialize(helpers), Ok(values.clone()));
    let one = VecHelper::<ScalarHelper<Curve>, 1>::serialize(&values[..1]);
    assert_eq!(
        VecHelper::<ScalarHelper<Curve>, 2>::deserialize(one),
        Err(HelperError::TooFewItems { len: 1, min: 2 })
    );
    assert_eq!(
        VecHelper::<ScalarHelper<Curve>, 2>::check_size_hint(Some(1)),
        Err(HelperError::TooFewItems { len: 1, min: 2 })
    );
    assert_eq!(VecHelper::<ScalarHelper<Curve>, 2>::check_size_hint(Some(2)), Ok(()));
    assert_eq!(VecHelper::<ScalarHelper<Curve>, 2>::check_size_hint(None), Ok(()));
}

fn text_of(bytes: &[u8]) -> SerializedBytes {
    serialize_bytes(bytes, true)
}

fn bytes_of(text: &str) -> Vec<u8> {
    deserialize_bytes(&SerializedBytes::Text(text.to_string())).unwrap()
}

#[test]
fn helpers_roundtrip_borrowed_and_owned() {
    let mut rng = ChaCha20Rng::seed_from_u64(41);
    let scalar = Curve::scalar_from_u64(12345);
    let point = Curve::point_mul(&Curve::generator(), &Curve::scalar_random(&mut rng));
    let more_scalars = vec![Curve::scalar_from_u64(7), Curve::scalar_from_u64(890)];
    // text forms, as a human-readable format holds them
    let scalar_text = text_of(&ScalarHelper::<Curve>::serialize(&scalar));
    let point_text = text_of(&PointHelper::<Curve>::serialize(&point));
    let items: Vec<SerializedBytes> = VecHelper::<ScalarHelper<Curve>, 2>::serialize(&more_scalars)
        .into_iter()
        .map(|h| text_of(&ScalarHelper::<Curve>::serialize(&h.into_target())))
        .collect();
    // read back
    let scalar_back = ScalarHelper::<Curve>::deserialize(&deserialize_bytes(&scalar_text).unwrap()).unwrap();
    let point_back = PointHelper::<Curve>::deserialize(&deserialize_bytes(&point_text).unwrap()).unwrap();
    let helpers: Vec<ScalarHelper<Curve>> = items
        .iter()
        .map(|t| ScalarHelper::from_target(&ScalarHelper::<Curve>::deserialize(&deserialize_bytes(t).unwrap()).unwrap()))
        .collect();
    let more_back = VecHelper::<ScalarHelper<Curve>, 2>::deserialize(helpers).unwrap();
    assert_eq!((scalar_back, point_back, more_back), (scalar, point, more_scalars));
}

#[test]
fn scalar_helper_invalid_scalar() {
    // too short: "test" -> 4 bytes
    let err = ScalarHelper::<Curve>::deserialize(&bytes_of("dGVzdA")).unwrap_err();
    assert_eq!(err, HelperError::InvalidLength { len: 4, expected: <Curve as GroupScalar>::SCALAR_SIZE });
    // wrong scalar value with correct length
    let bad = vec![0xFFu8; <Curve as GroupScalar>::SCALAR_SIZE];
    let bad_text = match serialize_bytes(&bad, true) {
        SerializedBytes::Text(t) => t,
        SerializedBytes::Raw(_) => unreachable!(),
    };
    assert_eq!(ScalarHelper::<Curve>::deserialize(&bytes_of(&bad_text)), Err(HelperError::InvalidValue));
}

#[test]
fn point_helper_invalid_point() {
    // too short: "test" -> 4 bytes
    let err = PointHelper::<Curve>::deserialize(&bytes_of("dGVzdA")).unwrap_err();
    assert_eq!(err, HelperError::InvalidLength { len: 4, expected: <Curve as GroupPoint>::POINT_SIZE });
    // wrong point value with correct length
    let bad = vec![0xFFu8; <Curve as GroupPoint>::POINT_SIZE];
    let bad_text = match serialize_bytes(&bad, true) {
        SerializedBytes::Text(t) => t,
        SerializedBytes::Raw(_) => unreachable!(),
    };
    assert_eq!(PointHelper::<Curve>::deserialize(&bytes_of(&bad_text)), Err(HelperError::InvalidValue));
}

#[test]
fn vec_helper_invalid_length() {
    let more_scalars = vec![Curve::scalar_from_u64(7)];
    let helpers = VecHelper::<ScalarHelper<Curve>, 2>::serialize(&more_scalars);
    assert_eq!(
        VecHelper::<ScalarHelper<Curve>, 2>::deserialize(helpers),
        Err(HelperError::TooFewItems { len: 1, min: 2 })
    );
    assert_eq!(<ScalarHelper<Curve> as Helper>::plural_description(), "group scalars");
}

#[test]
fn text_reads_back_for_every_length() {
    for len in 0..70usize {
        let value: Vec<u8> = (0..len).map(|i| (i * 37 + 11) as u8).collect();
        let written = serialize_bytes(&value, true);
        assert_eq!(deserialize_bytes(&written), Ok(value.clone()));
        let raw = serialize_bytes(&value, false);
        assert_eq!(deserialize_bytes(&raw), Ok(value));
    }
}
