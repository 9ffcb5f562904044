//! Pedersen commitments over a prime-order group.
//!
//! For messages `m = (m_1, ..., m_n)` and randomness `r`, with public
//! blinding base `H` and independent generators `G_1, ..., G_n`, the
//! commitment is `C(m; r) = [r]H + sum_i [m_i]G_i`. It is homomorphic:
//! `C(m; r) + C(m'; r') = C(m + m'; r + r')` and `[k]C(m; r) = C(km; kr)`.
pub mod commitment;

use vstd::prelude::*;
use crate::error::Error;
use rand_chacha::ChaCha20Rng;
use crate::group::Group;
use crate::zq::{dot, seq_add, seq_scale, seq_mod, lemma_dot_add, lemma_dot_scale, lemma_dot_mod, lemma_add_mod_both, lemma_mul_mod_both};
use crate::pedersen::commitment::{Pedersen, ExtendedPedersen, Parameters, commit_val, verify_result};
use crate::group::GroupPoint;

verus! {

/// A commitment made with `(m, r)` verifies with `(m, r)`, for every list of
/// messages that the parameters allow.
pub proof fn lemma_commitment_opens<G: Group>(h: int, gens: Seq<int>, list_len: nat, msgs: Seq<int>, r: int)
    requires
        msgs.len() <= list_len,
    ensures
        verify_result::<G>(commit_val::<G>(h, gens, msgs, r), h, gens, list_len, msgs, r) == Ok::<(), Error>(()),
{
}

/// Homomorphism: the sum of two commitments is the commitment to the
/// pointwise sum of the messages under the sum of the randomness, all
/// reduced modulo the order.
pub proof fn lemma_commitment_homomorphic<G: Group>(h: int, gens: Seq<int>, m1: Seq<int>, r1: int, m2: Seq<int>, r2: int)
    requires
        m1.len() == m2.len(),
    ensures
        (commit_val::<G>(h, gens, m1, r1) + commit_val::<G>(h, gens, m2, r2)) % G::order() as int
            == commit_val::<G>(h, gens, seq_mod(seq_add(m1, m2), G::order() as int), (r1 + r2) % G::order() as int),
{
    G::lemma_order();
    let q = G::order() as int;
    let n = m1.len() as int;
    let s = seq_add(m1, m2);
    lemma_dot_add(m1, m2, gens, n);
    lemma_dot_mod(s, gens, q, n);
    let a = h * r1 + dot(m1, gens, n);
    let b = h * r2 + dot(m2, gens, n);
    lemma_add_mod_both(a, b, q);
    assert(a + b == h * (r1 + r2) + dot(s, gens, n)) by (nonlinear_arith)
        requires
            a == h * r1 + dot(m1, gens, n),
            b == h * r2 + dot(m2, gens, n),
            dot(m1, gens, n) + dot(m2, gens, n) == dot(s, gens, n),
    ;
    let x = h * ((r1 + r2) % q);
    let y = dot(seq_mod(s, q), gens, n);
    lemma_mul_mod_both(h, r1 + r2, q);
    lemma_add_mod_both(x, y, q);
    lemma_add_mod_both(h * (r1 + r2), dot(s, gens, n), q);
}

/// Scaling a commitment by `k` gives the commitment to `k` times the
/// messages under `k` times the randomness, all reduced modulo the order.
pub proof fn lemma_commitment_scales<G: Group>(h: int, gens: Seq<int>, m: Seq<int>, r: int, k: int)
    ensures
        (commit_val::<G>(h, gens, m, r) * k) % G::order() as int == commit_val::<G>(
            h,
            gens,
            seq_mod(seq_scale(m, k), G::order() as int),
            (r * k) % G::order() as int,
        ),
{
    G::lemma_order();
    let q = G::order() as int;
    let n = m.len() as int;
    let s = seq_scale(m, k);
    lemma_dot_scale(m, gens, k, n);
    lemma_dot_mod(s, gens, q, n);
    let a = h * r + dot(m, gens, n);
    lemma_mul_mod_both(a, k, q);
    assert(a * k == h * (r * k) + dot(s, gens, n)) by (nonlinear_arith)
        requires
            a == h * r + dot(m, gens, n),
            dot(m, gens, n) * k == dot(s, gens, n),
    ;
    let x = h * ((r * k) % q);
    let y = dot(seq_mod(s, q), gens, n);
    lemma_mul_mod_both(h, r * k, q);
    lemma_add_mod_both(x, y, q);
    lemma_add_mod_both(h * (r * k), dot(s, gens, n), q);
}

/// Serialization round trip of commitments: the bytes of a commitment other
/// than the identity deserialize to a commitment with the same value and the
/// same bytes.
pub proof fn lemma_commitment_roundtrip<G: Group>(c: Pedersen<G>, bytes: Vec<u8>, slice: &[u8], r: Option<Pedersen<G>>)
    requires
        c@ != 0,
        call_ensures(Pedersen::<G>::to_bytes, (&c,), bytes),
        slice@ == bytes@,
        call_ensures(Pedersen::<G>::from_bytes, (slice,), r),
    ensures
        r matches Some(d) && d@ == c@ && G::point_bytes(d.commitment) == G::point_bytes(c.commitment),
{
    G::lemma_point_facts(c.commitment);
    assert(bytes@.subrange(0, G::POINT_SIZE as int) =~= bytes@);
}

/// Homomorphism through committed values: where `c1` opens to `(m1, r1)`
/// and `c2` to `(m2, r2)` (as `var_commit` makes them), each verifies with its
/// own opening, and their sum `c1 + c2` verifies with the pointwise sum of
/// the messages and the sum of the randomness, reduced modulo the order.
pub proof fn lemma_sum_of_commitments_verifies<G: Group>(
    params: Parameters<G>,
    c1: ExtendedPedersen<G>,
    m1: Seq<int>,
    c2: ExtendedPedersen<G>,
    m2: Seq<int>,
    sum: ExtendedPedersen<G>,
)
    requires
        m1.len() == m2.len(),
        m1.len() <= params.list_len,
        c1.inner@ == commit_val::<G>(params.h_val(), params.gens_val(), m1, c1.randomness@),
        c2.inner@ == commit_val::<G>(params.h_val(), params.gens_val(), m2, c2.randomness@),
        call_ensures(ExtendedPedersen::<G>::add, (c1, c2), sum),
    ensures
        verify_result::<G>(c1.inner@, params.h_val(), params.gens_val(), params.list_len as nat, m1, c1.randomness@)
            == Ok::<(), Error>(()),
        verify_result::<G>(c2.inner@, params.h_val(), params.gens_val(), params.list_len as nat, m2, c2.randomness@)
            == Ok::<(), Error>(()),
        verify_result::<G>(
            sum.inner@,
            params.h_val(),
            params.gens_val(),
            params.list_len as nat,
            seq_mod(seq_add(m1, m2), G::order() as int),
            (c1.randomness@ + c2.randomness@) % G::order() as int,
        ) == Ok::<(), Error>(()),
{
    lemma_commitment_homomorphic::<G>(params.h_val(), params.gens_val(), m1, c1.randomness@, m2, c2.randomness@);
    assert(seq_mod(seq_add(m1, m2), G::order() as int).len() == m1.len());
}

/// Fresh parameters have distinct bases: every two generators differ, and
/// each differs from the blinding base `H`.
pub proof fn lemma_parameters_bases_distinct<G: Group>(list_len: usize, rng: &mut ChaCha20Rng, params: Parameters<G>)
    requires
        call_ensures(Parameters::<G>::new, (list_len, rng), params),
    ensures
        params.generators@.len() == list_len,
        forall|i: int, j: int|
            0 <= i < list_len && 0 <= j < list_len && i != j ==> G::point_val(#[trigger] params.generators@[i])
                != G::point_val(#[trigger] params.generators@[j]),
        forall|i: int| 0 <= i < list_len ==> G::point_val(#[trigger] params.generators@[i]) != G::point_val(params.point),
{
    assert forall|i: int, j: int|
        0 <= i < list_len && 0 <= j < list_len && i != j implies G::point_val(#[trigger] params.generators@[i])
            != G::point_val(#[trigger] params.generators@[j]) by {
        if i > j {
            assert(G::point_val(params.generators@[j]) != G::point_val(params.generators@[i]));
        }
    }
}

} // verus!
