//! What the (de)serialization helpers compute: the byte strings of scalars,
//! points and ciphertexts, their base64url text for human-readable formats,
//! and the checks that decoding makes. A serializer of a data format calls
//! these and reports their errors in its own terms.
use vstd::prelude::*;
use core::marker::PhantomData;
use base64ct::{Base64UrlUnpadded, Encoding};
use crate::group::{Group, scalar_to_vec, point_to_vec, reads_back};
use crate::bytes::extend_bytes;
use crate::elgamal::ciphertext::Ciphertext;

verus! {

/// The unpadded base64url text of a byte string, as `base64ct` writes it.
pub uninterp spec fn base64url_text(bytes: Seq<u8>) -> Seq<char>;

/// What `base64ct` decodes from unpadded base64url text: the bytes, or
/// `None` where the text is no such encoding.
pub uninterp spec fn base64url_bytes(text: Seq<char>) -> Option<Seq<u8>>;

/// `Base64UrlUnpadded::encode_string`: the text, which `decode_vec` reads
/// back as the bytes it was made from.
#[verifier::external_body]
fn base64url_encode(value: &[u8]) -> (r: String)
    ensures
        r@ == base64url_text(value@),
        base64url_bytes(r@) == Some(value@),
{
    Base64UrlUnpadded::encode_string(value)
}

/// `Base64UrlUnpadded::decode_vec`, with its error dropped.
#[verifier::external_body]
fn base64url_decode(text: &str) -> (r: Option<Vec<u8>>)
    ensures
        match r {
            Some(v) => base64url_bytes(text@) == Some(v@),
            None => base64url_bytes(text@) is None,
        },
{
    Base64UrlUnpadded::decode_vec(text).ok()
}

/// A byte string as a data format holds it: base64url text in a
/// human-readable format, raw bytes in a binary one.
#[derive(Debug, Clone, PartialEq, Eq)]
pub enum SerializedBytes {
    Text(String),
    Raw(Vec<u8>),
}

/// Why decoding a serialized value failed.
#[derive(Debug, Clone, Copy, PartialEq, Eq)]
pub enum HelperError {
    /// The text is no base64url encoding.
    InvalidBase64,
    /// `len` bytes where `expected` were expected.
    InvalidLength { len: usize, expected: usize },
    /// `len` items where at least `min` were expected.
    TooFewItems { len: usize, min: usize },
    /// The bytes have the right length but encode no value of the kind.
    InvalidValue,
}

/// The form of `value` in a format that is human-readable or not.
pub fn serialize_bytes(value: &[u8], human_readable: bool) -> (r: SerializedBytes)
    ensures
        human_readable ==> (r matches SerializedBytes::Text(t) && t@ == base64url_text(value@) && base64url_bytes(t@)
            == Some(value@)),
        !human_readable ==> (r matches SerializedBytes::Raw(v) && v@ == value@),
{
    if human_readable {
        SerializedBytes::Text(base64url_encode(value))
    } else {
        let mut raw: Vec<u8> = Vec::new();
        extend_bytes(&mut raw, value);
        SerializedBytes::Raw(raw)
    }
}

/// The bytes that a serialized form holds: base64url text is decoded, raw
/// bytes are taken as they are.
pub fn deserialize_bytes(input: &SerializedBytes) -> (r: Result<Vec<u8>, HelperError>)
    ensures
        match input {
            SerializedBytes::Text(t) => match base64url_bytes(t@) {
                Some(b) => r matches Ok(v) && v@ == b,
                None => r == Err::<Vec<u8>, HelperError>(HelperError::InvalidBase64),
            },
            SerializedBytes::Raw(b) => r matches Ok(v) && v@ == b@,
        },
{
    match input {
        SerializedBytes::Text(t) => match base64url_decode(t.as_str()) {
            Some(v) => Ok(v),
            None => Err(HelperError::InvalidBase64),
        },
        SerializedBytes::Raw(b) => Ok(b.clone()),
    }
}

/// A value that a serializer handles through a helper.
pub trait Helper: Sized {
    type Target;

    /// The value that the helper holds.
    spec fn target(&self) -> Self::Target;

    /// The description of several values, for error messages.
    fn plural_description() -> &'static str;

    fn from_target(target: &Self::Target) -> (r: Self)
        ensures
            r.target() == *target,
    ;

    fn into_target(self) -> (r: Self::Target)
        ensures
            r == self.target(),
    ;
}

/// (De)serialization of scalars by their serialized form.
#[derive(Debug)]
pub struct ScalarHelper<G: Group>(pub G::Scalar);

impl<G: Group> ScalarHelper<G> {
    /// The bytes that a scalar is serialized as.
    pub fn serialize(scalar: &G::Scalar) -> (r: Vec<u8>)
        ensures
            r@ == G::scalar_bytes(*scalar),
            G::scalar_decodes(r@),
    {
        scalar_to_vec::<G>(scalar)
    }

    /// The scalar that serialized bytes hold: `InvalidLength` for a length
    /// other than `SCALAR_SIZE`, `InvalidValue` where they encode no scalar.
    pub fn deserialize(bytes: &[u8]) -> (r: Result<G::Scalar, HelperError>)
        ensures
            bytes@.len() != G::SCALAR_SIZE ==> r == Err::<G::Scalar, HelperError>(
                HelperError::InvalidLength { len: bytes@.len() as usize, expected: G::SCALAR_SIZE },
            ),
            bytes@.len() == G::SCALAR_SIZE && !G::scalar_decodes(bytes@) ==> r == Err::<G::Scalar, HelperError>(
                HelperError::InvalidValue,
            ),
            bytes@.len() == G::SCALAR_SIZE && G::scalar_decodes(bytes@) ==> (r matches Ok(s) && G::scalar_bytes(s)
                == bytes@ && G::scalar_val(s) == G::decoded_scalar_val(bytes@)),
    {
        if bytes.len() != G::SCALAR_SIZE {
            return Err(HelperError::InvalidLength { len: bytes.len(), expected: G::SCALAR_SIZE });
        }
        match G::scalar_from_bytes(bytes) {
            Some(s) => Ok(s),
            None => Err(HelperError::InvalidValue),
        }
    }
}

impl<G: Group> Helper for ScalarHelper<G> {
    type Target = G::Scalar;

    open spec fn target(&self) -> G::Scalar {
        self.0
    }

    fn plural_description() -> (r: &'static str)
        ensures
            r@ == "group scalars"@,
    {
        "group scalars"
    }

    fn from_target(target: &G::Scalar) -> (r: Self) {
        ScalarHelper(*target)
    }

    fn into_target(self) -> (r: G::Scalar) {
        self.0
    }
}

/// (De)serialization of points by their serialized form.
#[derive(Debug)]
pub struct PointHelper<G: Group>(pub G::Point);

impl<G: Group> PointHelper<G> {
    /// The bytes that a point is serialized as.
    pub fn serialize(point: &G::Point) -> (r: Vec<u8>)
        ensures
            r@ == G::point_bytes(*point),
            reads_back::<G>(r@, G::point_val(*point)),
    {
        point_to_vec::<G>(point)
    }

    /// The point that serialized bytes hold: `InvalidLength` for a length
    /// other than `POINT_SIZE`, `InvalidValue` where they encode no point.
    pub fn deserialize(bytes: &[u8]) -> (r: Result<G::Point, HelperError>)
        ensures
            bytes@.len() != G::POINT_SIZE ==> r == Err::<G::Point, HelperError>(
                HelperError::InvalidLength { len: bytes@.len() as usize, expected: G::POINT_SIZE },
            ),
            bytes@.len() == G::POINT_SIZE && !G::point_decodes(bytes@) ==> r == Err::<G::Point, HelperError>(
                HelperError::InvalidValue,
            ),
            bytes@.len() == G::POINT_SIZE && G::point_decodes(bytes@) ==> (r matches Ok(p) && G::point_val(p)
                == G::decoded_val(bytes@) && (G::point_canonical(bytes@) ==> G::point_bytes(p) == bytes@)),
    {
        if bytes.len() != G::POINT_SIZE {
            return Err(HelperError::InvalidLength { len: bytes.len(), expected: G::POINT_SIZE });
        }
        match G::point_from_bytes(bytes) {
            Some(p) => Ok(p),
            None => Err(HelperError::InvalidValue),
        }
    }
}

impl<G: Group> Helper for PointHelper<G> {
    type Target = G::Point;

    open spec fn target(&self) -> G::Point {
        self.0
    }

    fn plural_description() -> (r: &'static str)
        ensures
            r@ == "group points"@,
    {
        "group points"
    }

    fn from_target(target: &G::Point) -> (r: Self) {
        PointHelper(*target)
    }

    fn into_target(self) -> (r: G::Point) {
        self.0
    }
}

/// (De)serialization of ElGamal ciphertexts by their serialized form.
#[derive(Debug)]
pub struct CiphertextHelper<G: Group>(pub Ciphertext<G>);

impl<G: Group> CiphertextHelper<G> {
    /// The bytes that a ciphertext is serialized as.
    pub fn serialize(ciphertext: &Ciphertext<G>) -> (r: Vec<u8>)
        ensures
            r@ == ciphertext.bytes_spec(),
            r@.len() == 3 * G::POINT_SIZE,
            reads_back::<G>(r@.subrange(0, G::POINT_SIZE as int), ciphertext@.0),
            reads_back::<G>(r@.subrange(G::POINT_SIZE as int, 2 * G::POINT_SIZE), ciphertext@.1),
            reads_back::<G>(r@.subrange(2 * G::POINT_SIZE, 3 * G::POINT_SIZE), ciphertext@.2),
    {
        ciphertext.to_bytes()
    }

    /// The ciphertext that serialized bytes hold: `InvalidLength` for a
    /// length other than three points, `InvalidValue` where a third encodes
    /// no point.
    pub fn deserialize(bytes: &[u8]) -> (r: Result<Ciphertext<G>, HelperError>)
        ensures
            bytes@.len() != 3 * G::POINT_SIZE ==> r == Err::<Ciphertext<G>, HelperError>(
                HelperError::InvalidLength { len: bytes@.len() as usize, expected: (3 * G::POINT_SIZE) as usize },
            ),
            bytes@.len() == 3 * G::POINT_SIZE ==> {
                let b1 = bytes@.subrange(0, G::POINT_SIZE as int);
                let b2 = bytes@.subrange(G::POINT_SIZE as int, 2 * G::POINT_SIZE);
                let b3 = bytes@.subrange(2 * G::POINT_SIZE, 3 * G::POINT_SIZE);
                &&& !(G::point_decodes(b1) && G::point_decodes(b2) && G::point_decodes(b3)) ==> r == Err::<
                    Ciphertext<G>,
                    HelperError,
                >(HelperError::InvalidValue)
                &&& (G::point_decodes(b1) && G::point_decodes(b2) && G::point_decodes(b3)) ==> (r matches Ok(c) && c@
                    == (G::decoded_val(b1), G::decoded_val(b2), G::decoded_val(b3)) && (G::point_canonical(b1)
                    && G::point_canonical(b2) && G::point_canonical(b3) ==> c.bytes_spec() == bytes@))
            },
    {
        proof {
            G::lemma_point_size();
        }
        if bytes.len() != 3 * G::POINT_SIZE {
            return Err(HelperError::InvalidLength { len: bytes.len(), expected: 3 * G::POINT_SIZE });
        }
        match Ciphertext::<G>::from_bytes(bytes) {
            Some(c) => Ok(c),
            None => Err(HelperError::InvalidValue),
        }
    }
}

impl<G: Group> Helper for CiphertextHelper<G> {
    type Target = Ciphertext<G>;

    open spec fn target(&self) -> Ciphertext<G> {
        self.0
    }

    fn plural_description() -> (r: &'static str)
        ensures
            r@ == "elgamal ciphertexts"@,
    {
        "elgamal ciphertexts"
    }

    fn from_target(target: &Ciphertext<G>) -> (r: Self) {
        CiphertextHelper(*target)
    }

    fn into_target(self) -> (r: Ciphertext<G>) {
        self.0
    }
}

/// (De)serialization of a list of values through helper `T`, with at
/// least `MIN` items.
pub struct VecHelper<T, const MIN: usize>(PhantomData<T>);

impl<T: Helper, const MIN: usize> VecHelper<T, MIN> {
    /// The helpers that a list is serialized through, one per item.
    pub fn serialize(values: &[T::Target]) -> (r: Vec<T>)
        ensures
            r@.len() == values@.len(),
            forall|i: int| 0 <= i < values@.len() ==> #[trigger] r@[i].target() == values@[i],
    {
        let mut out: Vec<T> = Vec::new();
        let mut i: usize = 0;
        while i < values.len()
            invariant
                i <= values@.len(),
                out@.len() == i,
                forall|j: int| 0 <= j < i ==> #[trigger] out@[j].target() == values@[j],
            decreases values@.len() - i,
        {
            out.push(T::from_target(&values[i]));
            i = i + 1;
        }
        out
    }

    /// A length announced before the items are read: fewer than `MIN` is
    /// refused at once.
    pub fn check_size_hint(hint: Option<usize>) -> (r: Result<(), HelperError>)
        ensures
            match hint {
                Some(n) => (n < MIN ==> r == Err::<(), HelperError>(HelperError::TooFewItems { len: n, min: MIN })) && (
                n >= MIN ==> r is Ok),
                None => r is Ok,
            },
    {
        match hint {
            Some(n) => if n < MIN {
                Err(HelperError::TooFewItems { len: n, min: MIN })
            } else {
                Ok(())
            },
            None => Ok(()),
        }
    }

    /// The list that the read helpers hold; `TooFewItems` for fewer than
    /// `MIN`.
    pub fn deserialize(items: Vec<T>) -> (r: Result<Vec<T::Target>, HelperError>)
        ensures
            items@.len() < MIN ==> r == Err::<Vec<T::Target>, HelperError>(
                HelperError::TooFewItems { len: items@.len() as usize, min: MIN },
            ),
            items@.len() >= MIN ==> (r matches Ok(v) && v@.len() == items@.len() && forall|i: int|
                0 <= i < items@.len() ==> #[trigger] v@[i] == items@[i].target()),
    {
        let n = items.len();
        let mut out: Vec<T::Target> = Vec::new();
        let mut rest = items;
        let ghost all = rest@;
        let mut i: usize = 0;
        while rest.len() > 0
            invariant
                n == all.len(),
                i + rest@.len() == n,
                rest@ == all.subrange(i as int, n as int),
                out@.len() == i,
                forall|j: int| 0 <= j < i ==> #[trigger] out@[j] == all[j].target(),
            decreases rest@.len(),
        {
            let item = rest.remove(0);
            out.push(item.into_target());
            i = i + 1;
            assert(rest@ =~= all.subrange(i as int, n as int));
        }
        if n < MIN {
            Err(HelperError::TooFewItems { len: n, min: MIN })
        } else {
            Ok(out)
        }
    }
}

/// Round trip of scalars through their helper: the serialized bytes of a
/// scalar deserialize to a scalar with the same residue and the same bytes.
pub proof fn lemma_scalar_helper_roundtrip<G: Group>(
    s: G::Scalar,
    bytes: Vec<u8>,
    slice: &[u8],
    r: Result<G::Scalar, HelperError>,
)
    requires
        call_ensures(ScalarHelper::<G>::serialize, (&s,), bytes),
        slice@ == bytes@,
        call_ensures(ScalarHelper::<G>::deserialize, (slice,), r),
    ensures
        r matches Ok(t) && G::scalar_val(t) == G::scalar_val(s) && G::scalar_bytes(t) == G::scalar_bytes(s),
{
    G::lemma_scalar_facts(s);
    if let Ok(t) = r {
        G::lemma_scalar_bytes_determine(t, s);
    }
}

/// Round trip of points through their helper: the serialized bytes of
/// every point, the identity included, deserialize to a point with the same
/// discrete logarithm and the same bytes.
pub proof fn lemma_point_helper_roundtrip<G: Group>(
    p: G::Point,
    bytes: Vec<u8>,
    slice: &[u8],
    r: Result<G::Point, HelperError>,
)
    requires
        call_ensures(PointHelper::<G>::serialize, (&p,), bytes),
        slice@ == bytes@,
        call_ensures(PointHelper::<G>::deserialize, (slice,), r),
    ensures
        r matches Ok(q) && G::point_val(q) == G::point_val(p) && G::point_bytes(q) == G::point_bytes(p),
{
    G::lemma_point_facts(p);
}

/// Round trip of ciphertexts through their helper: the serialized bytes of
/// every ciphertext, the identity among its components included,
/// deserialize to a ciphertext with the same values and the same bytes.
pub proof fn lemma_ciphertext_helper_roundtrip<G: Group>(
    ct: Ciphertext<G>,
    bytes: Vec<u8>,
    slice: &[u8],
    r: Result<Ciphertext<G>, HelperError>,
)
    requires
        call_ensures(CiphertextHelper::<G>::serialize, (&ct,), bytes),
        slice@ == bytes@,
        call_ensures(CiphertextHelper::<G>::deserialize, (slice,), r),
    ensures
        r matches Ok(c) && c@ == ct@ && c.bytes_spec() == ct.bytes_spec(),
{
}

/// Bytes read back as they were written, as base64url text in a
/// human-readable format and as raw bytes otherwise.
pub proof fn lemma_raw_bytes_roundtrip(
    value: &[u8],
    human_readable: bool,
    written: SerializedBytes,
    r: Result<Vec<u8>, HelperError>,
)
    requires
        call_ensures(serialize_bytes, (value, human_readable), written),
        call_ensures(deserialize_bytes, (&written,), r),
    ensures
        r matches Ok(v) && v@ == value@,
{
}

/// Round trip of scalars through a data format: the helper's bytes, written
/// as base64url text in a human-readable format or as raw bytes otherwise,
/// read back and decoded by the helper, give a scalar with the same residue and the same bytes.
pub proof fn lemma_scalar_format_roundtrip<G: Group>(
    s: G::Scalar,
    bytes: Vec<u8>,
    value: &[u8],
    human_readable: bool,
    written: SerializedBytes,
    read: Result<Vec<u8>, HelperError>,
    slice: &[u8],
    r: Result<G::Scalar, HelperError>,
)
    requires
        call_ensures(ScalarHelper::<G>::serialize, (&s,), bytes),
        value@ == bytes@,
        call_ensures(serialize_bytes, (value, human_readable), written),
        call_ensures(deserialize_bytes, (&written,), read),
        read matches Ok(b) && slice@ == b@,
        call_ensures(ScalarHelper::<G>::deserialize, (slice,), r),
    ensures
        r matches Ok(t) && G::scalar_val(t) == G::scalar_val(s) && G::scalar_bytes(t) == G::scalar_bytes(s),
{
    lemma_raw_bytes_roundtrip(value, human_readable, written, read);
    lemma_scalar_helper_roundtrip::<G>(s, bytes, slice, r);
}

/// Round trip of points through a data format: the helper's bytes, written
/// as base64url text in a human-readable format or as raw bytes otherwise,
/// read back and decoded by the helper, give a point with the same discrete logarithm and the same bytes.
pub proof fn lemma_point_format_roundtrip<G: Group>(
    p: G::Point,
    bytes: Vec<u8>,
    value: &[u8],
    human_readable: bool,
    written: SerializedBytes,
    read: Result<Vec<u8>, HelperError>,
    slice: &[u8],
    r: Result<G::Point, HelperError>,
)
    requires
        call_ensures(PointHelper::<G>::serialize, (&p,), bytes),
        value@ == bytes@,
        call_ensures(serialize_bytes, (value, human_readable), written),
        call_ensures(deserialize_bytes, (&written,), read),
        read matches Ok(b) && slice@ == b@,
        call_ensures(PointHelper::<G>::deserialize, (slice,), r),
    ensures
        r matches Ok(q) && G::point_val(q) == G::point_val(p) && G::point_bytes(q) == G::point_bytes(p),
{
    lemma_raw_bytes_roundtrip(value, human_readable, written, read);
    lemma_point_helper_roundtrip::<G>(p, bytes, slice, r);
}

/// Round trip of ciphertexts through a data format: the helper's bytes, written
/// as base64url text in a human-readable format or as raw bytes otherwise,
/// read back and decoded by the helper, give a ciphertext with the same values and the same bytes.
pub proof fn lemma_ciphertext_format_roundtrip<G: Group>(
    ct: Ciphertext<G>,
    bytes: Vec<u8>,
    value: &[u8],
    human_readable: bool,
    written: SerializedBytes,
    read: Result<Vec<u8>, HelperError>,
    slice: &[u8],
    r: Result<Ciphertext<G>, HelperError>,
)
    requires
        call_ensures(CiphertextHelper::<G>::serialize, (&ct,), bytes),
        value@ == bytes@,
        call_ensures(serialize_bytes, (value, human_readable), written),
        call_ensures(deserialize_bytes, (&written,), read),
        read matches Ok(b) && slice@ == b@,
        call_ensures(CiphertextHelper::<G>::deserialize, (slice,), r),
    ensures
        r matches Ok(c) && c@ == ct@ && c.bytes_spec() == ct.bytes_spec(),
{
    lemma_raw_bytes_roundtrip(value, human_readable, written, read);
    lemma_ciphertext_helper_roundtrip::<G>(ct, bytes, slice, r);
}

} // verus!
