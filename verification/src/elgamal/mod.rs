//! Modified ElGamal encryption over prime-order groups.
//!
//! Public parameters are two independent bases `G1, G2`; the secret key is a
//! pair `(sk1, sk2)` and the public key is `H = [sk1]G1 + [sk2]G2`. A point
//! `M` is encrypted with randomness `r` as `([r]G1, [r]G2, [r]H + M)` and
//! decrypted as `C - ([sk1]R1 + [sk2]R2)`.
pub mod ciphertext;
pub mod keys;

use vstd::prelude::*;
use crate::group::Group;
use crate::error::Error;
use rand_chacha::ChaCha20Rng;
use crate::elgamal::ciphertext::{
    Ciphertext, ExtendedCiphertext, table_entries, table_get, table_lookup, ranked_vals, ranked_rand, mod3,
};
use crate::elgamal::keys::{PublicKey, ElGamalParams};
use crate::elgamal::ciphertext::DiscreteLogTable;
use crate::zq::{
    add3, scale3, lemma_decompose, lemma_mod_eq_diff, lemma_add_mod_both, lemma_sub_mod_both, lemma_mul_mod_both,
    lemma_cong_add, is_unit, lemma_unit_keeps_nonzero, lemma_unit_cancel,
};
use crate::elgamal::ciphertext::enc_val;
use crate::elgamal::keys::{pk_val, dec_val};

verus! {

/// Decryption with the secret key inverts encryption under its public key:
/// for every message `m` and randomness `r`,
/// `decrypt(sk, enc(pk(sk), m; r)) = m`.
pub proof fn lemma_decrypt_inverts_encrypt<G: Group>(params: (int, int), sk: (int, int), m: int, r: int)
    ensures
        dec_val::<G>(sk, enc_val::<G>(params, pk_val::<G>(params, sk.0, sk.1), m, r)) == m % G::order() as int,
{
    G::lemma_order();
    let q = G::order() as int;
    let (g1, g2) = params;
    let (s1, s2) = sk;
    let h0 = g1 * s1 + g2 * s2;
    // ((g1 r) % q) s1 and ((g2 r) % q) s2, reduced, are (g1 r s1) and (g2 r s2), reduced
    lemma_mul_mod_both(g1 * r, s1, q);
    lemma_mul_mod_both(g2 * r, s2, q);
    let x = ((g1 * r) % q) * s1;
    let y = ((g2 * r) % q) * s2;
    let x0 = (g1 * r) * s1;
    let y0 = (g2 * r) * s2;
    lemma_add_mod_both(x, y, q);
    lemma_add_mod_both(x0, y0, q);
    assert((x + y) % q == (x0 + y0) % q);
    // the blinded component is (h0 r + m), reduced
    lemma_mul_mod_both(h0, r, q);
    lemma_add_mod_both((h0 % q) * r, m, q);
    lemma_add_mod_both(h0 * r, m, q);
    assert(((h0 % q) * r + m) % q == (h0 * r + m) % q);
    let e2 = ((h0 % q) * r + m) % q;
    lemma_sub_mod_both(e2, x + y, q);
    lemma_sub_mod_both(h0 * r + m, x0 + y0, q);
    lemma_sub_mod_both(h0 * r + m, x + y, q);
    assert((e2 - (x + y)) % q == (h0 * r + m - (x0 + y0)) % q);
    assert(h0 * r == x0 + y0) by (nonlinear_arith)
        requires
            h0 == g1 * s1 + g2 * s2,
            x0 == (g1 * r) * s1,
            y0 == (g2 * r) * s2,
    ;
}

/// Decryption with the encryption randomness recovers the message: the
/// randomness opens the ciphertext and `C - [r]H = M`.
pub proof fn lemma_decrypt_with_randomness<G: Group>(params: (int, int), pk: int, m: int, r: int)
    ensures
        ({
            let c = enc_val::<G>(params, pk, m, r);
            let q = G::order() as int;
            &&& c.0 == (params.0 * r) % q
            &&& c.1 == (params.1 * r) % q
            &&& (c.2 - pk * r) % q == m % q
        }),
{
    G::lemma_order();
    let q = G::order() as int;
    lemma_decompose(pk * r + m, q);
    let d = (pk * r + m) / q;
    assert(q * (-d) == -(q * d)) by (nonlinear_arith);
    lemma_mod_eq_diff((pk * r + m) % q - pk * r, m, -d, q);
}

/// Homomorphism: the componentwise sum of two encryptions under one key is
/// the encryption of the sum of the messages under the sum of the
/// randomness.
pub proof fn lemma_encryption_homomorphic<G: Group>(params: (int, int), pk: int, m1: int, r1: int, m2: int, r2: int)
    ensures
        add3(enc_val::<G>(params, pk, m1, r1), enc_val::<G>(params, pk, m2, r2), G::order() as int)
            == enc_val::<G>(params, pk, m1 + m2, r1 + r2),
{
    G::lemma_order();
    let q = G::order() as int;
    lemma_add_mod_both(params.0 * r1, params.0 * r2, q);
    lemma_add_mod_both(params.1 * r1, params.1 * r2, q);
    lemma_add_mod_both(pk * r1 + m1, pk * r2 + m2, q);
    assert(params.0 * r1 + params.0 * r2 == params.0 * (r1 + r2)) by (nonlinear_arith);
    assert(params.1 * r1 + params.1 * r2 == params.1 * (r1 + r2)) by (nonlinear_arith);
    assert(pk * r1 + m1 + (pk * r2 + m2) == pk * (r1 + r2) + (m1 + m2)) by (nonlinear_arith);
}

/// Scaling an encryption by `k` gives the encryption of `k` times the
/// message under `k` times the randomness.
pub proof fn lemma_encryption_scales<G: Group>(params: (int, int), pk: int, m: int, r: int, k: int)
    ensures
        scale3(enc_val::<G>(params, pk, m, r), k, G::order() as int) == enc_val::<G>(params, pk, m * k, r * k),
{
    G::lemma_order();
    let q = G::order() as int;
    lemma_mul_mod_both(params.0 * r, k, q);
    lemma_mul_mod_both(params.1 * r, k, q);
    lemma_mul_mod_both(pk * r + m, k, q);
    assert((params.0 * r) * k == params.0 * (r * k)) by (nonlinear_arith);
    assert((params.1 * r) * k == params.1 * (r * k)) by (nonlinear_arith);
    assert((pk * r + m) * k == pk * (r * k) + m * k) by (nonlinear_arith);
}

/// Re-randomization: adding an encryption of the identity keeps the
/// message and adds the randomness.
pub proof fn lemma_rerandomization_keeps_message<G: Group>(params: (int, int), pk: int, m: int, r: int, t: int)
    ensures
        add3(enc_val::<G>(params, pk, 0, t), enc_val::<G>(params, pk, m, r), G::order() as int)
            == enc_val::<G>(params, pk, m, t + r),
{
    lemma_encryption_homomorphic::<G>(params, pk, 0, t, m, r);
}

/// Serialization round trip of public keys: the bytes of a key other than
/// the identity deserialize to a key with the same value and the same bytes.
pub proof fn lemma_public_key_roundtrip<G: Group>(
    pk: PublicKey<G>,
    bytes: Vec<u8>,
    slice: &[u8],
    r: Result<PublicKey<G>, Error>,
)
    requires
        pk@ != 0,
        call_ensures(PublicKey::<G>::to_bytes, (&pk,), bytes),
        slice@ == bytes@,
        call_ensures(PublicKey::<G>::from_bytes, (slice,), r),
    ensures
        r matches Ok(k) && k@ == pk@ && G::point_bytes(k.h) == G::point_bytes(pk.h),
{
    G::lemma_point_facts(pk.h);
}

/// Serialization round trip of parameters: the bytes of parameters whose
/// bases are not the identity deserialize to parameters with the same
/// values and the same bytes.
pub proof fn lemma_params_roundtrip<G: Group>(
    params: ElGamalParams<G>,
    bytes: Vec<u8>,
    slice: &[u8],
    r: Result<ElGamalParams<G>, Error>,
)
    requires
        params@.0 != 0,
        params@.1 != 0,
        call_ensures(ElGamalParams::<G>::to_bytes, (&params,), bytes),
        slice@ == bytes@,
        call_ensures(ElGamalParams::<G>::from_bytes, (slice,), r),
    ensures
        r matches Ok(p) && p@ == params@ && p.bytes_spec() == params.bytes_spec(),
{
    let n = G::POINT_SIZE as int;
    assert(bytes@.subrange(n, bytes@.len() as int) == bytes@.subrange(n, 2 * n));
}

/// Serialization round trip of ciphertexts: the bytes of every ciphertext,
/// the identity among its components included, deserialize to a ciphertext
/// with the same values and the same bytes.
pub proof fn lemma_ciphertext_roundtrip<G: Group>(ct: Ciphertext<G>, bytes: Vec<u8>, slice: &[u8], r: Option<Ciphertext<G>>)
    requires
        call_ensures(Ciphertext::<G>::to_bytes, (&ct,), bytes),
        slice@ == bytes@,
        call_ensures(Ciphertext::<G>::from_bytes, (slice,), r),
    ensures
        r matches Some(c) && c@ == ct@ && c.bytes_spec() == ct.bytes_spec(),
{
}

/// Lookup inverts a discrete-log table: every value that a table is built
/// with, where the values lie below the group order, is found from a point
/// with that discrete logarithm.
pub proof fn lemma_table_finds<G: Group>(values: Seq<u64>, i: int)
    requires
        0 <= i < values.len(),
        forall|j: int| 0 <= j < values.len() ==> #[trigger] values[j] < G::order(),
    ensures
        table_get(table_entries::<G>(values), values[i] as int) == Some(values[i]),
    decreases values.len(),
{
    let q = G::order() as int;
    let n = values.len() as int;
    let v = values[n - 1];
    let rest = values.drop_last();
    assert(values[i] < q);
    assert(v < q);
    vstd::arithmetic::div_mod::lemma_small_mod(v as nat, q as nat);
    if values[i] != 0 {
        if i == n - 1 {
            assert(table_entries::<G>(values) == table_entries::<G>(rest).push((v as int % q, v)));
        } else {
            assert(rest[i] == values[i]);
            lemma_table_finds::<G>(rest, i);
            if v != 0 && v as int == values[i] as int {
                assert(table_entries::<G>(values) == table_entries::<G>(rest).push((v as int % q, v)));
            } else if v != 0 {
                let e = table_entries::<G>(rest).push((v as int % q, v));
                assert(e.drop_last() == table_entries::<G>(rest));
                assert(table_lookup(e, values[i] as int) == table_lookup(table_entries::<G>(rest), values[i] as int));
            }
        }
    }
}

/// Exponential ElGamal reads back what it wrote: a ciphertext of `[m]G`
/// made with randomness `r`, decrypted with `r` against a table built with
/// values that include `m`, all below the group order, gives `m`.
pub proof fn lemma_exp_decrypt_roundtrip<G: Group>(
    ct: Ciphertext<G>,
    params: (int, int),
    pk: int,
    values: Seq<u64>,
    i: int,
    r: int,
    res: Result<G::Scalar, Error>,
)
    requires
        0 <= i < values.len(),
        forall|j: int| 0 <= j < values.len() ==> #[trigger] values[j] < G::order(),
        ct@ == enc_val::<G>(params, pk, values[i] as int, r),
        ct.exp_decrypt_post(pk, params, table_entries::<G>(values), r, res),
    ensures
        res matches Ok(s) && G::scalar_val(s) == values[i] as int,
{
    let q = G::order() as int;
    let m = values[i];
    assert(m < q);
    lemma_decrypt_with_randomness::<G>(params, pk, m as int, r);
    vstd::arithmetic::div_mod::lemma_small_mod(m as nat, q as nat);
    lemma_table_finds::<G>(values, i);
}

/// What a table finds for a discrete logarithm `x` is a nonzero value it
/// was built with, whose residue is `x`.
proof fn lemma_table_lookup_sound<G: Group>(values: Seq<u64>, x: int)
    ensures
        table_lookup(table_entries::<G>(values), x) matches Some(v) ==> v != 0 && values.contains(v) && v as int
            % G::order() as int == x,
    decreases values.len(),
{
    if values.len() > 0 {
        let rest = values.drop_last();
        let v = values.last();
        lemma_table_lookup_sound::<G>(rest, x);
        match table_lookup(table_entries::<G>(rest), x) {
            Some(w) => {
                let k = choose|k: int| 0 <= k < rest.len() && rest[k] == w;
                assert(values[k] == w);
            },
            None => {},
        }
        assert(values[values.len() - 1] == v);
        if v != 0 {
            let e = table_entries::<G>(rest).push((v as int % G::order() as int, v));
            assert(e.drop_last() == table_entries::<G>(rest));
        }
    }
}

/// Lookup soundness of the discrete-log table: whatever value `v` a table
/// built from `values` finds for a point with discrete logarithm `x` has
/// `[v] generator` equal to that point, and is 0 (for the identity) or one
/// of the values.
pub proof fn lemma_table_sound<G: Group>(values: Seq<u64>, x: int)
    requires
        0 <= x < G::order(),
    ensures
        table_get(table_entries::<G>(values), x) matches Some(v) ==> v as int % G::order() as int == x && (v == 0
            || values.contains(v)),
{
    G::lemma_order();
    lemma_table_lookup_sound::<G>(values, x);
    if x == 0 {
        vstd::arithmetic::div_mod::lemma_small_mod(0, G::order());
    }
}

/// Exponential ElGamal decryption for every value below the group order: a
/// ciphertext of `[m]G` made with randomness `r`, decrypted with `r` against
/// a table built from `values` (all below the order), gives `m` where `m` is
/// 0 or one of the values, and `ElementNotFound` otherwise.
pub proof fn lemma_exp_decrypt_every_value<G: Group>(
    ct: Ciphertext<G>,
    params: (int, int),
    pk: int,
    values: Seq<u64>,
    m: u64,
    r: int,
    res: Result<G::Scalar, Error>,
)
    requires
        m < G::order(),
        forall|j: int| 0 <= j < values.len() ==> #[trigger] values[j] < G::order(),
        ct@ == enc_val::<G>(params, pk, m as int, r),
        ct.exp_decrypt_post(pk, params, table_entries::<G>(values), r, res),
    ensures
        m == 0 || values.contains(m) ==> (res matches Ok(s) && G::scalar_val(s) == m as int),
        !(m == 0 || values.contains(m)) ==> res == Err::<G::Scalar, Error>(Error::ElementNotFound),
{
    let q = G::order() as int;
    G::lemma_order();
    lemma_decrypt_with_randomness::<G>(params, pk, m as int, r);
    vstd::arithmetic::div_mod::lemma_small_mod(m as nat, q as nat);
    assert((ct@.2 - pk * r) % q == m as int);
    if m == 0 {
        vstd::arithmetic::div_mod::lemma_small_mod(0, q as nat);
    } else if values.contains(m) {
        let i = choose|i: int| 0 <= i < values.len() && values[i] == m;
        lemma_table_finds::<G>(values, i);
    } else {
        lemma_table_lookup_sound::<G>(values, m as int);
        match table_lookup(table_entries::<G>(values), m as int) {
            Some(v) => {
                let k = choose|k: int| 0 <= k < values.len() && values[k] == v;
                assert(values[k] < q);
                vstd::arithmetic::div_mod::lemma_small_mod(v as nat, q as nat);
            },
            None => {},
        }
    }
}

/// The ranked sum keeps an opening: where the randomness stored with each
/// extended ciphertext gives its first two components under `params`, the
/// weighted randomness of the ranked sum gives the first two components of
/// the ranked sum of the ciphertexts.
pub proof fn lemma_ranked_sum_opens<G: Group>(cts: Seq<ExtendedCiphertext<G>>, params: (int, int), n: int)
    requires
        0 <= n <= cts.len(),
        forall|i: int| 0 <= i < cts.len() ==> #[trigger] cts[i].inner.opened_by(params, cts[i].rand()),
    ensures
        ({
            let q = G::order() as int;
            let sum = mod3(ranked_vals::<G>(cts.map_values(|c: ExtendedCiphertext<G>| c.inner), n), q);
            let rr = ranked_rand::<G>(cts, n) % q;
            sum.0 == (params.0 * rr) % q && sum.1 == (params.1 * rr) % q
        }),
    decreases n,
{
    let q = G::order() as int;
    G::lemma_order();
    let inners = cts.map_values(|c: ExtendedCiphertext<G>| c.inner);
    if n == 0 {
        vstd::arithmetic::div_mod::lemma_small_mod(0, q as nat);
        assert(params.0 * 0 == 0 && params.1 * 0 == 0) by (nonlinear_arith);
    } else {
        lemma_ranked_sum_opens::<G>(cts, params, n - 1);
        let p = ranked_vals::<G>(inners, n - 1);
        let prev = ranked_rand::<G>(cts, n - 1);
        let w = n % q;
        let c = cts[n - 1];
        assert(c.inner.opened_by(params, c.rand()));
        assert(inners[n - 1] == c.inner);
        let rn = c.rand();
        lemma_mul_mod_both(params.0, prev, q);
        lemma_mul_mod_both(params.1, prev, q);
        lemma_mul_mod_both(params.0, ranked_rand::<G>(cts, n), q);
        lemma_mul_mod_both(params.1, ranked_rand::<G>(cts, n), q);
        lemma_mul_mod_both(params.0 * rn, w, q);
        lemma_mul_mod_both(params.1 * rn, w, q);
        lemma_cong_add(p.0, (params.0 * rn) % q * w, params.0 * prev, params.0 * rn * w, q);
        lemma_cong_add(p.1, (params.1 * rn) % q * w, params.1 * prev, params.1 * rn * w, q);
        assert(params.0 * prev + params.0 * rn * w == params.0 * (prev + w * rn)) by (nonlinear_arith);
        assert(params.1 * prev + params.1 * rn * w == params.1 * (prev + w * rn)) by (nonlinear_arith);
    }
}

/// What a discrete-log table answers, for values below the group order: 0
/// for the identity, `v` for `[v] generator` where `v` is one of the nonzero
/// values the table was built with, and `None` for every other point.
pub proof fn lemma_table_get<G: Group>(values: Vec<u64>, table: DiscreteLogTable<G>, x: int)
    requires
        0 <= x < G::order(),
        forall|j: int| 0 <= j < values@.len() ==> #[trigger] values@[j] < G::order(),
        call_ensures(DiscreteLogTable::<G>::new, (values,), table),
    ensures
        x == 0 ==> table_get(table@, x) == Some(0u64),
        x != 0 && x <= u64::MAX && values@.contains(x as u64) ==> table_get(table@, x) == Some(x as u64),
        x != 0 && !(x <= u64::MAX && values@.contains(x as u64)) ==> table_get(table@, x) is None,
{
    let q = G::order() as int;
    G::lemma_order();
    if x != 0 {
        if x <= u64::MAX && values@.contains(x as u64) {
            let i = choose|i: int| 0 <= i < values@.len() && values@[i] == x as u64;
            lemma_table_finds::<G>(values@, i);
        } else {
            lemma_table_lookup_sound::<G>(values@, x);
            match table_lookup(table_entries::<G>(values@), x) {
                Some(v) => {
                    let k = choose|k: int| 0 <= k < values@.len() && values@[k] == v;
                    assert(values@[k] < q);
                    vstd::arithmetic::div_mod::lemma_small_mod(v as nat, q as nat);
                },
                None => {},
            }
        }
    }
}

/// Decryption with the encryption randomness gives back the point that was
/// encrypted, for every point.
pub proof fn lemma_dec_with_rnd_roundtrip<G: Group>(
    pk: PublicKey<G>,
    params: ElGamalParams<G>,
    m: G::Point,
    ct: Ciphertext<G>,
    random_scalar: G::Scalar,
    r: Result<G::Point, Error>,
)
    requires
        ct@ == enc_val::<G>(params@, pk@, G::point_val(m), G::scalar_val(random_scalar)),
        call_ensures(PublicKey::<G>::dec_with_rnd, (&pk, &params, ct, &random_scalar), r),
    ensures
        r matches Ok(p) && G::point_val(p) == G::point_val(m),
{
    G::lemma_point_facts(m);
    lemma_decrypt_with_randomness::<G>(params@, pk@, G::point_val(m), G::scalar_val(random_scalar));
    vstd::arithmetic::div_mod::lemma_small_mod(G::point_val(m) as nat, G::order());
}

/// Exponential decryption with the encryption randomness, through a table
/// built from `values` (all below the group order), for every value `v` below
/// the order: `v` where `v` is 0 or one of the values, `ElementNotFound`
/// otherwise.
pub proof fn lemma_exp_dec_with_rnd_every_value<G: Group>(
    pk: PublicKey<G>,
    params: ElGamalParams<G>,
    values: Vec<u64>,
    table: DiscreteLogTable<G>,
    v: u64,
    ct: Ciphertext<G>,
    random_scalar: G::Scalar,
    r: Result<G::Scalar, Error>,
)
    requires
        v < G::order(),
        forall|j: int| 0 <= j < values@.len() ==> #[trigger] values@[j] < G::order(),
        call_ensures(DiscreteLogTable::<G>::new, (values,), table),
        ct@ == enc_val::<G>(params@, pk@, v as int, G::scalar_val(random_scalar)),
        call_ensures(PublicKey::<G>::exp_dec_with_rnd, (&pk, &params, &table, &ct, &random_scalar), r),
    ensures
        v == 0 || values@.contains(v) ==> (r matches Ok(s) && G::scalar_val(s) == v as int),
        !(v == 0 || values@.contains(v)) ==> r == Err::<G::Scalar, Error>(Error::ElementNotFound),
{
    lemma_exp_decrypt_every_value::<G>(ct, params@, pk@, values@, v, G::scalar_val(random_scalar), r);
}

/// The ranked sum of extended ciphertexts is the ranked sum of their
/// ciphertexts, with the randomness weighted alike; where each stored
/// scalar opens its ciphertext, the weighted scalar opens the sum, so
/// decryption with it succeeds.
pub proof fn lemma_extended_ranked_sum<G: Group>(
    cts: &[ExtendedCiphertext<G>],
    inners: &[Ciphertext<G>],
    sum: ExtendedCiphertext<G>,
    inner_sum: Ciphertext<G>,
    params: (int, int),
)
    requires
        inners@ == cts@.map_values(|c: ExtendedCiphertext<G>| c.inner),
        call_ensures(ExtendedCiphertext::<G>::ranked_sum, (cts,), sum),
        call_ensures(Ciphertext::<G>::ranked_sum, (inners,), inner_sum),
    ensures
        sum.inner@ == inner_sum@,
        sum.rand() == ranked_rand::<G>(cts@, cts@.len() as int) % G::order() as int,
        (forall|i: int| 0 <= i < cts@.len() ==> #[trigger] cts@[i].inner.opened_by(params, cts@[i].rand()))
            ==> sum.inner.opened_by(params, sum.rand()),
{
    if forall|i: int| 0 <= i < cts@.len() ==> #[trigger] cts@[i].inner.opened_by(params, cts@[i].rand()) {
        lemma_ranked_sum_opens::<G>(cts@, params, cts@.len() as int);
    }
}

/// Encryption hides the message behind nonzero randomness: every
/// ciphertext that `Ciphertext::new` makes is `enc(pk, M; t)` for an
/// invertible `t`, so its first two components are not the identity where
/// the bases are not, and they differ where the bases differ.
pub proof fn lemma_encryption_randomness_nonzero<G: Group>(
    pk: PublicKey<G>,
    params: ElGamalParams<G>,
    value: G::Point,
    rng: &mut ChaCha20Rng,
    ct: Ciphertext<G>,
)
    requires
        call_ensures(Ciphertext::<G>::new, (&pk, &params, value, rng), ct),
    ensures
        params@.0 != 0 ==> ct@.0 != 0,
        params@.1 != 0 ==> ct@.1 != 0,
        params@.0 != params@.1 ==> ct@.0 != ct@.1,
{
    G::lemma_order();
    G::lemma_point_facts(params.g1);
    G::lemma_point_facts(params.g2);
    let q = G::order() as int;
    let t = choose|t: int|
        0 < t < G::order() && is_unit(t, q) && #[trigger] enc_val::<G>(params@, pk@, G::point_val(value), t) == ct@;
    if params@.0 != 0 {
        lemma_unit_keeps_nonzero(params@.0, t, q);
    }
    if params@.1 != 0 {
        lemma_unit_keeps_nonzero(params@.1, t, q);
    }
    if ct@.0 == ct@.1 {
        lemma_unit_cancel(params@.0, params@.1, t, q);
    }
}

/// Fresh parameters have two distinct bases: `G1 != G2`.
pub proof fn lemma_params_bases_distinct<G: Group>(rng: &mut ChaCha20Rng, params: ElGamalParams<G>)
    requires
        call_ensures(ElGamalParams::<G>::new, (rng,), params),
    ensures
        params@.0 != params@.1,
{
}

} // verus!
