//! Completeness of the shuffle of known content.
//!
//! The verifier folds the responses into `ff_{n-1}` and compares it with
//! `e prod_i (m_i - x)`. For an honest proof every intermediate fold equals
//! `e a_i + delta_i`, where `a_i` is the prover's running product over the
//! permuted list; the last mask is zero, and the product over a permutation
//! of the messages is the product over the messages.
use vstd::prelude::*;
use vstd::seq_lib::{commutative_foldl, lemma_fold_left_permutation, group_to_multiset_ensures};
use vstd::set_lib::{set_int_range, lemma_int_range, lemma_subset_equality};
use crate::error::Error;
use crate::group::{Group, scalars_val};
use crate::zq::{
    seq_add, seq_scale, seq_mod, lemma_cong_add, lemma_cong_sub, lemma_cong_mul, lemma_mod_mod, lemma_mul_mod_both,
    lemma_add_mod_both,
};
use crate::pedersen::commitment::{Pedersen, commit_val};
use crate::pedersen::{lemma_commitment_homomorphic, lemma_commitment_scales};
use crate::transcript::{TranscriptOp, merlin_challenge};
use crate::proofs::{challenge_op, msg_op, seeded_scalars, lemma_seeded_scalars_len};
use crate::proofs::labels::{LABEL_LAMBDA, LABEL_C_PRIME, LABEL_COMMIT, LABEL_COMMIT_D, LABEL_CHALLENGE};
use crate::proofs::shuffle::{
    KnownContentShuffle, Shuffle, fold_step, kcs_prefix, kcs_fold, kcs_f, kcs_f_delta, kcs_v_a, kcs_v_delta,
    permuted_vals, is_inverse, shuffle_messages, perm_vals, f_ops,
};

verus! {

/// One honest folding step: from `ff = e A + delta'` the verifier reaches
/// `e (A (pi_i - x)) + delta_i`.
proof fn lemma_fold_step_honest(
    a_prev: int,
    pii: int,
    x: int,
    e: int,
    ie: int,
    di: int,
    dlt_prev: int,
    dlt_i: int,
    q: int,
)
    requires
        q > 1,
        (ie * e) % q == 1,
    ensures
        ({
            let p = (pii - x) % q;
            let va = ((dlt_i - (p * dlt_prev) % q) % q - (a_prev * di) % q) % q;
            let fd = ((e * va) % q - (dlt_prev * di) % q) % q;
            fold_step((e * a_prev + dlt_prev) % q, ((e * pii) % q + di) % q, fd, e, x, ie, q)
        }) == (e * ((a_prev * ((pii - x) % q)) % q) + dlt_i) % q,
{
    let p = (pii - x) % q;
    let p0 = pii - x;
    let va = ((dlt_i - (p * dlt_prev) % q) % q - (a_prev * di) % q) % q;
    let fd = ((e * va) % q - (dlt_prev * di) % q) % q;
    let ff = (e * a_prev + dlt_prev) % q;
    let fi = ((e * pii) % q + di) % q;
    lemma_mod_mod(p0, q);
    lemma_mod_mod(e * a_prev + dlt_prev, q);
    // the response, less e x
    let g1 = (fi - (e * x) % q) % q;
    lemma_mod_mod(e * pii, q);
    lemma_mod_mod(e * x, q);
    lemma_mod_mod((e * pii) % q + di, q);
    lemma_cong_add((e * pii) % q, di, e * pii, di, q);
    lemma_mod_mod(e * pii + di, q);
    lemma_cong_sub(fi, (e * x) % q, e * pii + di, e * x, q);
    lemma_mod_mod(fi - (e * x) % q, q);
    assert(e * pii + di - e * x == e * p0 + di) by (nonlinear_arith)
        requires
            p0 == pii - x,
    ;
    // the product with the previous fold
    lemma_cong_mul(ff, g1, e * a_prev + dlt_prev, e * p0 + di, q);
    let prod = (ff * g1) % q;
    lemma_mod_mod(ff * g1, q);
    // the mask response
    lemma_mod_mod(p * dlt_prev, q);
    lemma_cong_mul(p, dlt_prev, p0, dlt_prev, q);
    lemma_mod_mod(p0 * dlt_prev, q);
    lemma_cong_sub(dlt_i, (p * dlt_prev) % q, dlt_i, p0 * dlt_prev, q);
    lemma_mod_mod(dlt_i - (p * dlt_prev) % q, q);
    lemma_mod_mod(a_prev * di, q);
    lemma_cong_sub((dlt_i - (p * dlt_prev) % q) % q, (a_prev * di) % q, dlt_i - p0 * dlt_prev, a_prev * di, q);
    lemma_mod_mod((dlt_i - (p * dlt_prev) % q) % q - (a_prev * di) % q, q);
    let va0 = dlt_i - p0 * dlt_prev - a_prev * di;
    assert(va % q == va0 % q);
    lemma_cong_mul(e, va, e, va0, q);
    lemma_mod_mod(e * va, q);
    lemma_mod_mod(dlt_prev * di, q);
    lemma_cong_sub((e * va) % q, (dlt_prev * di) % q, e * va0, dlt_prev * di, q);
    lemma_mod_mod((e * va) % q - (dlt_prev * di) % q, q);
    assert(fd % q == (e * va0 - dlt_prev * di) % q);
    // their sum is e times the next fold
    lemma_cong_add(prod, fd, (e * a_prev + dlt_prev) * (e * p0 + di), e * va0 - dlt_prev * di, q);
    let next = e * (a_prev * p0) + dlt_i;
    let u = e * a_prev;
    let w = e * p0;
    assert((u + dlt_prev) * (w + di) == u * w + u * di + dlt_prev * w + dlt_prev * di) by (nonlinear_arith);
    assert(u * di == e * (a_prev * di)) by (nonlinear_arith)
        requires
            u == e * a_prev,
    ;
    assert(dlt_prev * w == e * (p0 * dlt_prev)) by (nonlinear_arith)
        requires
            w == e * p0,
    ;
    assert(u * w == e * (e * (a_prev * p0))) by (nonlinear_arith)
        requires
            u == e * a_prev,
            w == e * p0,
    ;
    assert(e * va0 == e * dlt_i - e * (p0 * dlt_prev) - e * (a_prev * di)) by (nonlinear_arith)
        requires
            va0 == dlt_i - p0 * dlt_prev - a_prev * di,
    ;
    assert(e * next == e * (e * (a_prev * p0)) + e * dlt_i) by (nonlinear_arith)
        requires
            next == e * (a_prev * p0) + dlt_i,
    ;
    let sum = (prod + fd) % q;
    lemma_mod_mod(prod + fd, q);
    assert(sum % q == (e * next) % q);
    // times the inverse of e
    lemma_cong_mul(sum, ie, e * next, ie, q);
    assert((e * next) * ie == (ie * e) * next) by (nonlinear_arith);
    lemma_mod_mod(ie * e, q);
    lemma_cong_mul(ie * e, next, 1, next, q);
    assert(fold_step(ff, fi, fd, e, x, ie, q) == (sum * ie) % q);
    // and the next fold is e times the running product, plus the mask
    lemma_mod_mod(a_prev * p, q);
    lemma_cong_mul(a_prev, p, a_prev, p0, q);
    lemma_cong_mul(e, (a_prev * p) % q, e, a_prev * p0, q);
    lemma_cong_add(e * ((a_prev * p) % q), dlt_i, e * (a_prev * p0), dlt_i, q);
}

/// For an honest proof, the verifier's fold up to index `i` is
/// `e a_i + delta_i`.
proof fn lemma_fold_honest(pi: Seq<int>, x: int, d: Seq<int>, delta: Seq<int>, e: int, ie: int, q: int, i: int)
    requires
        q > 1,
        (ie * e) % q == 1,
        pi.len() == d.len(),
        delta.len() == d.len(),
        0 <= i < d.len(),
        delta[0] == d[0],
    ensures
        kcs_fold(kcs_f(pi, d, e, q), kcs_f_delta(pi, x, d, delta, e, q), e, x, ie, q, i) == (e * kcs_prefix(
            pi,
            x,
            q,
            i,
        ) + delta[i]) % q,
    decreases i,
{
    let f = kcs_f(pi, d, e, q);
    let fd = kcs_f_delta(pi, x, d, delta, e, q);
    if i == 0 {
        let p0 = pi[0] - x;
        lemma_mod_mod(e * pi[0], q);
        lemma_mod_mod(e * x, q);
        lemma_cong_add((e * pi[0]) % q, d[0], e * pi[0], d[0], q);
        lemma_mod_mod(e * pi[0] + d[0], q);
        lemma_cong_sub(f[0], (e * x) % q, e * pi[0] + d[0], e * x, q);
        assert(e * pi[0] + d[0] - e * x == e * p0 + d[0]) by (nonlinear_arith)
            requires
                p0 == pi[0] - x,
        ;
        lemma_mod_mod(p0, q);
        lemma_cong_mul(e, p0 % q, e, p0, q);
        lemma_cong_add(e * (p0 % q), d[0], e * p0, d[0], q);
    } else {
        lemma_fold_honest(pi, x, d, delta, e, ie, q, i - 1);
        let a_prev = kcs_prefix(pi, x, q, i - 1);
        assert(kcs_v_a(pi, x, d, delta, q)[i - 1] == ((delta[i] - (((pi[i] - x) % q) * delta[i - 1]) % q) % q
            - (a_prev * d[i]) % q) % q);
        lemma_fold_step_honest(a_prev, pi[i], x, e, ie, d[i], delta[i - 1], delta[i], q);
    }
}

/// With a zero inverse, every fold after the first is zero.
proof fn lemma_fold_zero(f: Seq<int>, fd: Seq<int>, e: int, x: int, q: int, i: int)
    requires
        q > 1,
        i > 0,
    ensures
        kcs_fold(f, fd, e, x, 0, q, i) == 0,
{
    let ff = kcs_fold(f, fd, e, x, 0, q, i - 1);
    assert(fold_step(ff, f[i], fd[i - 1], e, x, 0, q) == 0) by (nonlinear_arith)
        requires
            q > 1,
    ;
}

/// The step of the running product `acc (m - x)`, reduced.
pub open spec fn prefix_step(x: int, q: int) -> spec_fn(int, int) -> int {
    |acc: int, m: int| (acc * ((m - x) % q)) % q
}

/// The running product is a left fold of `prefix_step` from one.
proof fn lemma_prefix_is_fold(s: Seq<int>, x: int, q: int, i: int)
    requires
        q > 1,
        0 <= i < s.len(),
    ensures
        kcs_prefix(s, x, q, i) == s.take(i + 1).fold_left(1, prefix_step(x, q)),
    decreases i,
{
    let t = s.take(i + 1);
    let f = prefix_step(x, q);
    assert(t.drop_last() =~= s.take(i));
    assert(t.last() == s[i]);
    assert(t.fold_left(1, f) == f(s.take(i).fold_left(1, f), s[i]));
    if i == 0 {
        assert(s.take(0).fold_left(1, f) == 1);
        lemma_mod_mod(s[0] - x, q);
        assert(f(1, s[0]) == (1 * ((s[0] - x) % q)) % q);
    } else {
        lemma_prefix_is_fold(s, x, q, i - 1);
        assert(f(kcs_prefix(s, x, q, i - 1), s[i]) == kcs_prefix(s, x, q, i));
    }
}

/// The order of the factors does not change the running product.
proof fn lemma_prefix_step_commutes(x: int, q: int)
    requires
        q > 1,
    ensures
        commutative_foldl(prefix_step(x, q)),
{
    let f = prefix_step(x, q);
    assert forall|a: int, b: int, v: int| #[trigger] f(f(v, a), b) == f(f(v, b), a) by {
        let ta = (a - x) % q;
        let tb = (b - x) % q;
        lemma_mul_mod_both(v * ta, tb, q);
        lemma_mul_mod_both(v * tb, ta, q);
        assert((v * ta) * tb == (v * tb) * ta) by (nonlinear_arith);
    }
}

/// `perm` is a permutation of `0..n`.
pub open spec fn is_permutation(perm: Seq<usize>, n: nat) -> bool {
    &&& perm.len() == n
    &&& forall|i: int| 0 <= i < n ==> #[trigger] perm[i] < n
    &&& forall|i: int, j: int| 0 <= i < n && 0 <= j < n && i != j ==> #[trigger] perm[i] != #[trigger] perm[j]
}

/// A permutation of `0..n` takes every value below `n`.
proof fn lemma_permutation_onto(perm: Seq<usize>, n: nat, v: int)
    requires
        is_permutation(perm, n),
        0 <= v < n,
    ensures
        exists|k: int| 0 <= k < n && perm[k] as int == v,
{
    let s = Seq::new(n, |i: int| perm[i] as int);
    assert(s.no_duplicates()) by {
        assert forall|i: int, j: int| 0 <= i < s.len() && 0 <= j < s.len() && i != j implies s[i] != s[j] by {
            assert(perm[i] != perm[j]);
        }
    }
    s.unique_seq_to_set();
    lemma_int_range(0, n as int);
    assert(s.to_set().subset_of(set_int_range(0, n as int))) by {
        assert forall|w: int| s.to_set().contains(w) implies set_int_range(0, n as int).contains(w) by {
            let k = choose|k: int| 0 <= k < s.len() && s[k] == w;
            assert(perm[k] < n);
        }
    }
    vstd::seq_lib::seq_to_set_is_finite(s);
    lemma_subset_equality(s.to_set(), set_int_range(0, n as int));
    assert(set_int_range(0, n as int).contains(v));
    assert(s.to_set().contains(v));
    let k = choose|k: int| 0 <= k < s.len() && s[k] == v;
    assert(perm[k] as int == v);
}

/// Permuting a list keeps its multiset of values.
pub proof fn lemma_permuted_multiset(msgs: Seq<int>, perm: Seq<usize>)
    requires
        is_permutation(perm, msgs.len()),
    ensures
        permuted_vals(msgs, perm).to_multiset() =~= msgs.to_multiset(),
    decreases msgs.len(),
{
    broadcast use group_to_multiset_ensures;

    let n = msgs.len();
    let pv = permuted_vals(msgs, perm);
    if n == 0 {
        assert(pv =~= Seq::<int>::empty());
        assert(msgs =~= Seq::<int>::empty());
    } else {
        lemma_permutation_onto(perm, n, n - 1);
        let k = choose|k: int| 0 <= k < n && perm[k] as int == n - 1;
        let perm2 = perm.remove(k);
        let msgs2 = msgs.drop_last();
        assert(is_permutation(perm2, msgs2.len())) by {
            assert forall|i: int| 0 <= i < n - 1 implies #[trigger] perm2[i] < n - 1 by {
                let j = if i < k { i } else { i + 1 };
                assert(perm2[i] == perm[j]);
                assert(perm[j] != perm[k]);
            }
            assert forall|i: int, j: int| 0 <= i < n - 1 && 0 <= j < n - 1 && i != j implies #[trigger] perm2[i]
                != #[trigger] perm2[j] by {
                let i2 = if i < k { i } else { i + 1 };
                let j2 = if j < k { j } else { j + 1 };
                assert(perm2[i] == perm[i2]);
                assert(perm2[j] == perm[j2]);
                assert(perm[i2] != perm[j2]);
            }
        }
        lemma_permuted_multiset(msgs2, perm2);
        assert(permuted_vals(msgs2, perm2) =~= pv.remove(k)) by {
            assert forall|i: int| 0 <= i < n - 1 implies #[trigger] permuted_vals(msgs2, perm2)[i] == pv.remove(k)[i] by {
                let j = if i < k { i } else { i + 1 };
                assert(perm2[i] == perm[j]);
                assert(perm[j] != perm[k]);
            }
        }
        assert(pv[k] == msgs[n - 1]);
        assert(msgs2.push(msgs[n - 1]) =~= msgs);
        assert(pv.to_multiset().count(pv[k]) > 0) by {
            assert(pv.contains(pv[k]));
        }
        assert(pv.remove(k).to_multiset().insert(pv[k]) =~= pv.to_multiset());
    }
}

/// The running product over a permutation of a list is the running product
/// over the list.
pub proof fn lemma_prefix_permutation(msgs: Seq<int>, perm: Seq<usize>, x: int, q: int)
    requires
        q > 1,
        msgs.len() > 0,
        is_permutation(perm, msgs.len()),
    ensures
        kcs_prefix(permuted_vals(msgs, perm), x, q, msgs.len() - 1) == kcs_prefix(msgs, x, q, msgs.len() - 1),
{
    let n = msgs.len() as int;
    let pv = permuted_vals(msgs, perm);
    lemma_prefix_is_fold(pv, x, q, n - 1);
    lemma_prefix_is_fold(msgs, x, q, n - 1);
    assert(pv.take(n) =~= pv);
    assert(msgs.take(n) =~= msgs);
    lemma_permuted_multiset(msgs, perm);
    lemma_prefix_step_commutes(x, q);
    lemma_fold_left_permutation(pv, msgs, prefix_step(x, q), 1);
}

/// The first response equation of an honest proof holds:
/// `[e]C' + c_d = com(f; z)`.
proof fn lemma_kcs_first_equation<G: Group>(
    h: int,
    gens: Seq<int>,
    pi: Seq<int>,
    r_c: int,
    d: Seq<int>,
    rd: int,
    e: int,
)
    requires
        pi.len() == d.len(),
    ensures
        ((commit_val::<G>(h, gens, pi, r_c) * e) % G::order() as int + commit_val::<G>(h, gens, d, rd))
            % G::order() as int == commit_val::<G>(
            h,
            gens,
            kcs_f(pi, d, e, G::order() as int),
            ((e * r_c) % G::order() as int + rd) % G::order() as int,
        ),
{
    G::lemma_order();
    let q = G::order() as int;
    let m1 = seq_mod(seq_scale(pi, e), q);
    lemma_commitment_scales::<G>(h, gens, pi, r_c, e);
    lemma_commitment_homomorphic::<G>(h, gens, m1, (r_c * e) % q, d, rd);
    assert(seq_mod(seq_add(m1, d), q) =~= kcs_f(pi, d, e, q)) by {
        assert forall|i: int| 0 <= i < pi.len() implies #[trigger] seq_mod(seq_add(m1, d), q)[i] == kcs_f(
            pi,
            d,
            e,
            q,
        )[i] by {
            assert(pi[i] * e == e * pi[i]) by (nonlinear_arith);
        }
    }
    assert(r_c * e == e * r_c) by (nonlinear_arith);
}

/// The second response equation of an honest proof holds:
/// `[e]c_a + c_delta = com(f_delta; z_delta)`.
proof fn lemma_kcs_second_equation<G: Group>(
    h: int,
    gens: Seq<int>,
    pi: Seq<int>,
    x: int,
    d: Seq<int>,
    delta: Seq<int>,
    rdelta: int,
    ra: int,
    e: int,
)
    requires
        pi.len() == d.len(),
        delta.len() == d.len(),
        d.len() > 0,
    ensures
        ({
            let q = G::order() as int;
            ((commit_val::<G>(h, gens, kcs_v_a(pi, x, d, delta, q), ra) * e) % q + commit_val::<G>(
                h,
                gens,
                kcs_v_delta(d, delta, q),
                rdelta,
            )) % q == commit_val::<G>(h, gens, kcs_f_delta(pi, x, d, delta, e, q), ((e * ra) % q + rdelta) % q)
        }),
{
    G::lemma_order();
    let q = G::order() as int;
    let va = kcs_v_a(pi, x, d, delta, q);
    let vd = kcs_v_delta(d, delta, q);
    let m1 = seq_mod(seq_scale(va, e), q);
    lemma_commitment_scales::<G>(h, gens, va, ra, e);
    lemma_commitment_homomorphic::<G>(h, gens, m1, (ra * e) % q, vd, rdelta);
    assert(seq_mod(seq_add(m1, vd), q) =~= kcs_f_delta(pi, x, d, delta, e, q)) by {
        assert forall|i: int| 0 <= i < va.len() implies #[trigger] seq_mod(seq_add(m1, vd), q)[i] == kcs_f_delta(
            pi,
            x,
            d,
            delta,
            e,
            q,
        )[i] by {
            assert(va[i] * e == e * va[i]) by (nonlinear_arith);
            let b = (delta[i] * d[i + 1]) % q;
            lemma_add_mod_both((e * va[i]) % q, 0 - b, q);
        }
    }
    assert(ra * e == e * ra) by (nonlinear_arith);
}

/// Completeness of the shuffle of known content: a proof made honestly for a
/// commitment `C'` that opens to the messages permuted by a permutation
/// `perm` is accepted by the verifier for those messages, under the same
/// challenges.
pub proof fn lemma_kcs_complete<G: Group>(
    kcs: KnownContentShuffle<G>,
    h: int,
    gens: Seq<int>,
    c_prime: Pedersen<G>,
    r_c: int,
    msgs: Seq<int>,
    perm: Seq<usize>,
    x: int,
    e: int,
    ie: int,
    d: Seq<int>,
    delta: Seq<int>,
    rd: int,
    rdelta: int,
    ra: int,
)
    requires
        msgs.len() > 1,
        is_permutation(perm, msgs.len()),
        c_prime@ == commit_val::<G>(h, gens, permuted_vals(msgs, perm), r_c),
        kcs.made_with(h, gens, c_prime, r_c, permuted_vals(msgs, perm), x, e, d, delta, rd, rdelta, ra),
        is_inverse(e, ie, G::order() as int),
    ensures
        kcs.verify_result(h, gens, msgs.len(), msgs, x, e, ie) == Ok::<(), Error>(()),
{
    G::lemma_order();
    let q = G::order() as int;
    let n = msgs.len() as int;
    let pi = permuted_vals(msgs, perm);
    lemma_kcs_first_equation::<G>(h, gens, pi, r_c, d, rd, e);
    lemma_kcs_second_equation::<G>(h, gens, pi, x, d, delta, rdelta, ra, e);
    assert(kcs.f@.len() == n) by {
        assert(scalars_val::<G>(kcs.f@).len() == kcs.f@.len());
    }
    assert(kcs.f_delta@.len() == n - 1) by {
        assert(scalars_val::<G>(kcs.f_delta@).len() == kcs.f_delta@.len());
    }
    lemma_prefix_permutation(msgs, perm, x, q);
    let p = kcs_prefix(msgs, x, q, n - 1);
    if e % q == 0 {
        lemma_fold_zero(kcs_f(pi, d, e, q), kcs_f_delta(pi, x, d, delta, e, q), e, x, q, n - 1);
        lemma_mul_mod_both(p, e, q);
        assert(p * (e % q) == 0) by (nonlinear_arith)
            requires
                e % q == 0,
        ;
    } else {
        lemma_fold_honest(pi, x, d, delta, e, ie, q, n - 1);
        assert(e * p == p * e) by (nonlinear_arith);
    }
}

/// The reduced commitment of the shuffle opens to the permuted list `m'`:
/// with `c = com(perm; r_c)`, `c_d = com(d; r_d)` and `f_i = t_{perm(i)} - d_i`,
/// `[lambda]c + c_d + com(f; 0) = com(m'_{perm(i)}; lambda r_c + r_d)` where
/// `m'_j = j lambda + t_j`.
pub proof fn lemma_shuffle_opening<G: Group>(
    h: int,
    gens: Seq<int>,
    perm: Seq<usize>,
    r_c: int,
    d: Seq<int>,
    r_d: int,
    tv: Seq<int>,
    f: Seq<int>,
    lambda: int,
)
    requires
        is_permutation(perm, tv.len()),
        d.len() == tv.len(),
        f == Seq::new(tv.len(), |i: int| (tv[perm[i] as int] - d[i]) % G::order() as int),
    ensures
        ({
            let q = G::order() as int;
            let c = commit_val::<G>(h, gens, perm_vals(perm, q), r_c);
            let c_d = commit_val::<G>(h, gens, d, r_d);
            (((c * lambda) % q + c_d) % q + commit_val::<G>(h, gens, f, 0)) % q == commit_val::<G>(
                h,
                gens,
                permuted_vals(shuffle_messages(tv, lambda, q), perm),
                (((r_c * lambda) % q + r_d) % q + 0) % q,
            )
        }),
{
    G::lemma_order();
    let q = G::order() as int;
    let n = tv.len();
    let pv = perm_vals(perm, q);
    let m1 = seq_mod(seq_scale(pv, lambda), q);
    let m2 = seq_mod(seq_add(m1, d), q);
    lemma_commitment_scales::<G>(h, gens, pv, r_c, lambda);
    lemma_commitment_homomorphic::<G>(h, gens, m1, (r_c * lambda) % q, d, r_d);
    lemma_commitment_homomorphic::<G>(h, gens, m2, ((r_c * lambda) % q + r_d) % q, f, 0);
    let target = permuted_vals(shuffle_messages(tv, lambda, q), perm);
    assert(seq_mod(seq_add(m2, f), q) =~= target) by {
        assert forall|i: int| 0 <= i < n implies #[trigger] seq_mod(seq_add(m2, f), q)[i] == target[i] by {
            let j = perm[i] as int;
            let xv = ((j % q) * lambda) % q;
            assert(m1[i] == xv);
            lemma_mod_mod(xv + d[i], q);
            lemma_mod_mod(tv[j] - d[i], q);
            lemma_cong_add((xv + d[i]) % q, (tv[j] - d[i]) % q, xv + d[i], tv[j] - d[i], q);
            assert(xv + d[i] + (tv[j] - d[i]) == xv + tv[j]);
        }
    }
}

/// Completeness of the shuffle proof: when the prover and the verifier draw
/// the same `t`, a proof whose commitments `c`, `c_d` and list `f` were made
/// honestly for a permutation `perm`, and whose inner argument was made
/// honestly for the reduced commitment, is accepted.
pub proof fn lemma_shuffle_complete<G: Group>(
    s: Shuffle<G>,
    h: int,
    gens: Seq<int>,
    prefix: Seq<TranscriptOp>,
    tv: Seq<int>,
    perm: Seq<usize>,
    r_c: int,
    d: Seq<int>,
    r_d: int,
    dk: Seq<int>,
    deltak: Seq<int>,
    rdk: int,
    rdeltak: int,
    rak: int,
    res: Result<(), Error>,
    after: Seq<TranscriptOp>,
)
    requires
        tv.len() > 1,
        is_permutation(perm, tv.len()),
        d.len() == tv.len(),
        s.c@ == commit_val::<G>(h, gens, perm_vals(perm, G::order() as int), r_c),
        s.c_d@ == commit_val::<G>(h, gens, d, r_d),
        scalars_val::<G>(s.f@) == Seq::new(tv.len(), |i: int| (tv[perm[i] as int] - d[i]) % G::order() as int),
        ({
            let q = G::order() as int;
            let e0 = prefix + f_ops::<G>(s.f@);
            let lambda = G::spec_challenge(e0, LABEL_LAMBDA@);
            let e2 = e0.push(challenge_op::<G>(LABEL_LAMBDA@)).push(
                msg_op(LABEL_C_PRIME@, G::point_bytes(s.kcs.commitment.commitment)),
            );
            &&& s.kcs.commitment@ == s.reduced_commitment(h, gens, lambda)
            &&& s.kcs.made_with(
                h,
                gens,
                s.kcs.commitment,
                (((r_c * lambda) % q + r_d) % q + 0) % q,
                permuted_vals(shuffle_messages(tv, lambda, q), perm),
                s.kcs.challenge_x(e2),
                s.kcs.challenge_e(e2),
                dk,
                deltak,
                rdk,
                rdeltak,
                rak,
            )
        }),
        s.verified_with(h, gens, tv.len(), prefix, tv, res, after),
    ensures
        res == Ok::<(), Error>(()),
{
    G::lemma_order();
    let q = G::order() as int;
    let e0 = prefix + f_ops::<G>(s.f@);
    let lambda = G::spec_challenge(e0, LABEL_LAMBDA@);
    let e2 = e0.push(challenge_op::<G>(LABEL_LAMBDA@)).push(
        msg_op(LABEL_C_PRIME@, G::point_bytes(s.kcs.commitment.commitment)),
    );
    let msgs = shuffle_messages(tv, lambda, q);
    let r_open = (((r_c * lambda) % q + r_d) % q + 0) % q;
    lemma_shuffle_opening::<G>(h, gens, perm, r_c, d, r_d, tv, scalars_val::<G>(s.f@), lambda);
    assert(s.kcs.commitment@ == commit_val::<G>(h, gens, permuted_vals(msgs, perm), r_open));
    let ie = choose|ie: int|
        is_inverse(s.kcs.challenge_e(e2), ie, q) && res == #[trigger] s.kcs.verify_result(
            h,
            gens,
            tv.len(),
            msgs,
            s.kcs.challenge_x(e2),
            s.kcs.challenge_e(e2),
            ie,
        );
    lemma_kcs_complete::<G>(
        s.kcs,
        h,
        gens,
        s.kcs.commitment,
        r_open,
        msgs,
        perm,
        s.kcs.challenge_x(e2),
        s.kcs.challenge_e(e2),
        ie,
        dk,
        deltak,
        rdk,
        rdeltak,
        rak,
    );
}

/// The shuffle verifier returns the prover's `t`: when the verifier's
/// transcript held what the prover's held before `update_transcript1`, the
/// `t` that `verify` draws is the `t` that the prover's `compute_t` drew
/// after absorbing `c` and `c_d`, and a proof made honestly with that `t` is
/// accepted, so `verify` answers `Ok` with the prover's `t`.
pub proof fn lemma_shuffle_verifier_t<G: Group>(
    s: Shuffle<G>,
    h: int,
    gens: Seq<int>,
    prefix: Seq<TranscriptOp>,
    prover_t: Seq<int>,
    perm: Seq<usize>,
    r_c: int,
    d: Seq<int>,
    r_d: int,
    dk: Seq<int>,
    deltak: Seq<int>,
    rdk: int,
    rdeltak: int,
    rak: int,
    res: Result<(), Error>,
    after: Seq<TranscriptOp>,
)
    requires
        perm.len() > 1,
        prover_t == seeded_scalars::<G>(
            merlin_challenge(
                prefix.push(msg_op(LABEL_COMMIT@, G::point_bytes(s.c.commitment))).push(
                    msg_op(LABEL_COMMIT_D@, G::point_bytes(s.c_d.commitment)),
                ),
                LABEL_CHALLENGE@,
                32,
            ),
            0,
            perm.len() as nat,
        ),
        is_permutation(perm, perm.len()),
        d.len() == perm.len(),
        s.c@ == commit_val::<G>(h, gens, perm_vals(perm, G::order() as int), r_c),
        s.c_d@ == commit_val::<G>(h, gens, d, r_d),
        scalars_val::<G>(s.f@) == Seq::new(perm.len(), |i: int| (prover_t[perm[i] as int] - d[i]) % G::order() as int),
        ({
            let q = G::order() as int;
            let e0 = prefix + s.opening_ops() + f_ops::<G>(s.f@);
            let lambda = G::spec_challenge(e0, LABEL_LAMBDA@);
            let e2 = e0.push(challenge_op::<G>(LABEL_LAMBDA@)).push(
                msg_op(LABEL_C_PRIME@, G::point_bytes(s.kcs.commitment.commitment)),
            );
            &&& s.kcs.commitment@ == s.reduced_commitment(h, gens, lambda)
            &&& s.kcs.made_with(
                h,
                gens,
                s.kcs.commitment,
                (((r_c * lambda) % q + r_d) % q + 0) % q,
                permuted_vals(shuffle_messages(prover_t, lambda, q), perm),
                s.kcs.challenge_x(e2),
                s.kcs.challenge_e(e2),
                dk,
                deltak,
                rdk,
                rdeltak,
                rak,
            )
        }),
        s.verified_with(h, gens, perm.len(), prefix + s.opening_ops(), s.drawn_t(prefix, perm.len() as nat), res, after),
    ensures
        s.drawn_t(prefix, perm.len() as nat) == prover_t,
        res == Ok::<(), Error>(()),
{
    lemma_seeded_scalars_len::<G>(
        merlin_challenge(
            prefix.push(msg_op(LABEL_COMMIT@, G::point_bytes(s.c.commitment))).push(
                msg_op(LABEL_COMMIT_D@, G::point_bytes(s.c_d.commitment)),
            ),
            LABEL_CHALLENGE@,
            32,
        ),
        0,
        perm.len() as nat,
    );
    lemma_shuffle_complete::<G>(
        s,
        h,
        gens,
        prefix + s.opening_ops(),
        prover_t,
        perm,
        r_c,
        d,
        r_d,
        dk,
        deltak,
        rdk,
        rdeltak,
        rak,
        res,
        after,
    );
}

} // verus!
