//! Completeness of the re-encryption check of the shuffle proof.
//!
//! The check accumulates `E_d - sum_j [t_j] originals[j] + sum_i [f_i]
//! shuffled[i]` and compares it with an encryption of the identity. For
//! `shuffled[i] = originals[perm(i)] + Enc(0; rho_i)`,
//! `E_d = sum_i [d_i] shuffled[i] + Enc(0; r_d)` and
//! `f_i = t_{perm(i)} - d_i`, the masks cancel,
//! `sum_i t_{perm(i)} originals[perm(i)]` is `sum_j t_j originals[j]`
//! reordered, and the accumulator is `Enc(0; r_d + sum_i t_{perm(i)} rho_i)`.
use vstd::prelude::*;
use vstd::seq_lib::{commutative_foldl, lemma_fold_left_permutation};
use crate::group::{Group, scalars_val, points_val};
use crate::zq::{dot, seq_mod, add3, sub3, scale3, lemma_dot_mod, lemma_cong_add, lemma_cong_sub, lemma_mod_mod};
use crate::elgamal::ciphertext::{Ciphertext, enc_val, firsts, seconds, thirds};
use crate::proofs::shuffle::{Shuffle, reenc_acc, lin3, permuted_vals};
use crate::proofs::known_content::{is_permutation, lemma_permuted_multiset};

verus! {

/// Component `k` of a triple.
pub open spec fn comp(c: (int, int, int), k: int) -> int {
    if k == 0 {
        c.0
    } else if k == 1 {
        c.1
    } else {
        c.2
    }
}

/// Component `k` of each ciphertext of a list.
pub open spec fn ct_comps<G: Group>(cts: Seq<Ciphertext<G>>, k: int) -> Seq<int> {
    Seq::new(cts.len(), |i: int| comp(cts[i]@, k))
}

/// The re-encryption accumulator, read one component at a time.
#[verifier::spinoff_prover]
proof fn lemma_reenc_unroll<G: Group>(
    e_d: (int, int, int),
    t: Seq<int>,
    f: Seq<int>,
    o: Seq<Ciphertext<G>>,
    s: Seq<Ciphertext<G>>,
    i: int,
    k: int,
)
    requires
        0 <= i <= o.len(),
        o.len() <= s.len(),
        o.len() <= t.len(),
        o.len() <= f.len(),
        0 <= k < 3,
        0 <= comp(e_d, k) < G::order(),
    ensures
        comp(reenc_acc::<G>(e_d, t, f, o, s, i), k) == (comp(e_d, k) - dot(t, ct_comps::<G>(o, k), i) + dot(
            f,
            ct_comps::<G>(s, k),
            i,
        )) % G::order() as int,
    decreases i,
{
    G::lemma_order();
    let q = G::order() as int;
    let oc = ct_comps::<G>(o, k);
    let sc = ct_comps::<G>(s, k);
    if i == 0 {
        vstd::arithmetic::div_mod::lemma_small_mod(comp(e_d, k) as nat, q as nat);
    } else {
        lemma_reenc_unroll::<G>(e_d, t, f, o, s, i - 1, k);
        let prev = reenc_acc::<G>(e_d, t, f, o, s, i - 1);
        let x = comp(e_d, k) - dot(t, oc, i - 1) + dot(f, sc, i - 1);
        let ov = comp(o[i - 1]@, k);
        let sv = comp(s[i - 1]@, k);
        assert(oc[i - 1] == ov);
        assert(sc[i - 1] == sv);
        let a = sub3(prev, scale3(o[i - 1]@, t[i - 1], q), q);
        assert(comp(a, k) == (comp(prev, k) - (ov * t[i - 1]) % q) % q);
        assert(comp(add3(a, scale3(s[i - 1]@, f[i - 1], q), q), k) == (comp(a, k) + (sv * f[i - 1]) % q) % q);
        lemma_mod_mod(x, q);
        lemma_mod_mod(ov * t[i - 1], q);
        lemma_mod_mod(sv * f[i - 1], q);
        lemma_cong_sub(comp(prev, k), (ov * t[i - 1]) % q, x, ov * t[i - 1], q);
        lemma_mod_mod(comp(prev, k) - (ov * t[i - 1]) % q, q);
        lemma_cong_add(comp(a, k), (sv * f[i - 1]) % q, x - ov * t[i - 1], sv * f[i - 1], q);
        assert(ov * t[i - 1] == t[i - 1] * ov) by (nonlinear_arith);
    }
}

/// `sum_{j < n} (a[j] - b[j]) c[j] = sum_j a[j] c[j] - sum_j b[j] c[j]`.
proof fn lemma_dot_sub(a: Seq<int>, b: Seq<int>, c: Seq<int>, n: int)
    requires
        0 <= n,
    ensures
        dot(Seq::new(n as nat, |i: int| a[i] - b[i]), c, n) == dot(a, c, n) - dot(b, c, n),
    decreases n,
{
    if n > 0 {
        let g = Seq::new(n as nat, |i: int| a[i] - b[i]);
        let g1 = Seq::new((n - 1) as nat, |i: int| a[i] - b[i]);
        lemma_dot_sub(a, b, c, n - 1);
        crate::zq::lemma_dot_prefix(g, c, g1, c, n - 1);
        assert((a[n - 1] - b[n - 1]) * c[n - 1] == a[n - 1] * c[n - 1] - b[n - 1] * c[n - 1]) by (nonlinear_arith);
    }
}

/// A dot product is the sum of the products, folded from the left.
proof fn lemma_dot_is_sum(a: Seq<int>, b: Seq<int>, n: int)
    requires
        0 <= n,
    ensures
        dot(a, b, n) == Seq::new(n as nat, |i: int| a[i] * b[i]).fold_left(0, |acc: int, x: int| acc + x),
    decreases n,
{
    let p = Seq::new(n as nat, |i: int| a[i] * b[i]);
    if n > 0 {
        lemma_dot_is_sum(a, b, n - 1);
        assert(p.drop_last() =~= Seq::new((n - 1) as nat, |i: int| a[i] * b[i]));
    }
}

/// Reordering the terms of a dot product by a permutation keeps its value.
proof fn lemma_dot_permutation(t: Seq<int>, o: Seq<int>, perm: Seq<usize>)
    requires
        t.len() == o.len(),
        is_permutation(perm, o.len()),
    ensures
        dot(permuted_vals(t, perm), permuted_vals(o, perm), o.len() as int) == dot(t, o, o.len() as int),
{
    let n = o.len() as int;
    let add = |acc: int, x: int| acc + x;
    let p = Seq::new(n as nat, |j: int| t[j] * o[j]);
    let tp = permuted_vals(t, perm);
    let op = permuted_vals(o, perm);
    lemma_dot_is_sum(t, o, n);
    lemma_dot_is_sum(tp, op, n);
    assert(Seq::new(n as nat, |i: int| tp[i] * op[i]) =~= permuted_vals(p, perm));
    lemma_permuted_multiset(p, perm);
    assert(commutative_foldl(add));
    lemma_fold_left_permutation(permuted_vals(p, perm), p, add, 0);
}

/// `sum_{j < n} a[j] (x[j] + b y[j]) = sum_j a[j] x[j] + b sum_j a[j] y[j]`.
proof fn lemma_dot_affine(a: Seq<int>, x: Seq<int>, y: Seq<int>, b: int, n: int)
    requires
        0 <= n,
    ensures
        dot(a, Seq::new(n as nat, |i: int| x[i] + b * y[i]), n) == dot(a, x, n) + b * dot(a, y, n),
    decreases n,
{
    if n > 0 {
        let g = Seq::new(n as nat, |i: int| x[i] + b * y[i]);
        let g1 = Seq::new((n - 1) as nat, |i: int| x[i] + b * y[i]);
        lemma_dot_affine(a, x, y, b, n - 1);
        crate::zq::lemma_dot_prefix(a, g, a, g1, n - 1);
        let (u, v, w, p) = (a[n - 1], x[n - 1], y[n - 1], dot(a, y, n - 1));
        assert(u * (v + b * w) == u * v + b * (u * w)) by (nonlinear_arith);
        assert(b * p + b * (u * w) == b * (p + u * w)) by (nonlinear_arith);
    }
}

/// Reducing the second argument pointwise does not change the residue of
/// a dot product.
proof fn lemma_dot_mod_right(a: Seq<int>, c: Seq<int>, q: int, n: int)
    requires
        q > 0,
        0 <= n <= c.len(),
    ensures
        dot(a, seq_mod(c, q), n) % q == dot(a, c, n) % q,
    decreases n,
{
    if n > 0 {
        lemma_dot_mod_right(a, c, q, n - 1);
        let x = dot(a, seq_mod(c, q), n - 1);
        let y = dot(a, c, n - 1);
        crate::zq::lemma_mul_mod_both(a[n - 1], c[n - 1], q);
        lemma_mod_mod(a[n - 1] * (c[n - 1] % q), q);
        lemma_mod_mod(a[n - 1] * c[n - 1], q);
        lemma_cong_add(x, a[n - 1] * (c[n - 1] % q), y, a[n - 1] * c[n - 1], q);
    }
}

/// One component of the check: the masks cancel, the reordered sum meets
/// the plain one, and the re-randomization adds up to `b` times the
/// weighted randomness.
proof fn lemma_reenc_component(
    ed: int,
    b: int,
    r_d: int,
    o: Seq<int>,
    s: Seq<int>,
    rho: Seq<int>,
    t: Seq<int>,
    f: Seq<int>,
    d: Seq<int>,
    perm: Seq<usize>,
    q: int,
)
    requires
        q > 1,
        is_permutation(perm, o.len()),
        s == Seq::new(o.len(), |i: int| (o[perm[i] as int] + (b * rho[i]) % q) % q),
        rho.len() == o.len(),
        t.len() == o.len(),
        d.len() == o.len(),
        f == Seq::new(o.len(), |i: int| (t[perm[i] as int] - d[i]) % q),
        ed == (dot(d, s, o.len() as int) % q + (b * r_d) % q) % q,
    ensures
        (ed - dot(t, o, o.len() as int) + dot(f, s, o.len() as int)) % q == (b * (r_d + dot(
            permuted_vals(t, perm),
            rho,
            o.len() as int,
        ))) % q,
{
    let n = o.len() as int;
    let tp = permuted_vals(t, perm);
    let op = permuted_vals(o, perm);
    let g = Seq::new(n as nat, |i: int| tp[i] - d[i]);
    lemma_dot_permutation(t, o, perm);
    assert(f =~= seq_mod(g, q));
    lemma_dot_mod(g, s, q, n);
    lemma_dot_sub(tp, d, s, n);
    // the permuted sum over the re-randomized list
    let hm = Seq::new(n as nat, |i: int| op[i] + (b * rho[i]) % q);
    assert(s =~= seq_mod(hm, q));
    lemma_dot_mod_right(tp, hm, q, n);
    let bm = Seq::new(n as nat, |i: int| (b * rho[i]) % q);
    let br = Seq::new(n as nat, |i: int| b * rho[i]);
    lemma_dot_affine(tp, op, bm, 1, n);
    assert(hm =~= Seq::new(n as nat, |i: int| op[i] + 1 * bm[i]));
    assert(bm =~= seq_mod(br, q));
    lemma_dot_mod_right(tp, br, q, n);
    let zeros = Seq::new(n as nat, |i: int| 0int);
    lemma_dot_affine(tp, zeros, rho, b, n);
    assert(Seq::new(n as nat, |i: int| zeros[i] + b * rho[i]) =~= br);
    lemma_dot_zero(tp, n);
    let ds = dot(d, s, n);
    let to = dot(t, o, n);
    let ts = dot(tp, s, n);
    let tr = dot(tp, rho, n);
    // dot(tp, s) is congruent to dot(t, o) + b tr
    lemma_mod_mod(dot(tp, hm, n), q);
    lemma_cong_add(dot(tp, op, n), dot(tp, bm, n), dot(tp, op, n), dot(tp, br, n), q);
    assert(ts % q == (to + b * tr) % q);
    // and dot(f, s) to ts - ds
    assert(dot(f, s, n) % q == (ts - ds) % q);
    lemma_mod_mod(ds, q);
    lemma_mod_mod(b * r_d, q);
    lemma_mod_mod(ds % q + (b * r_d) % q, q);
    lemma_cong_add(ds % q, (b * r_d) % q, ds, b * r_d, q);
    lemma_cong_sub(ed, to, ds + b * r_d, to, q);
    lemma_cong_add(ed - to, dot(f, s, n), ds + b * r_d - to, ts - ds, q);
    lemma_cong_add(b * r_d - to, ts, b * r_d - to, to + b * tr, q);
    assert(ds + b * r_d - to + (ts - ds) == b * r_d - to + ts);
    assert(b * r_d - to + (to + b * tr) == b * (r_d + tr)) by (nonlinear_arith);
}

/// A dot product with zeros is zero.
proof fn lemma_dot_zero(a: Seq<int>, n: int)
    requires
        0 <= n,
    ensures
        dot(a, Seq::new(n as nat, |i: int| 0int), n) == 0,
    decreases n,
{
    if n > 0 {
        lemma_dot_zero(a, n - 1);
        crate::zq::lemma_dot_prefix(
            a,
            Seq::new(n as nat, |i: int| 0int),
            a,
            Seq::new((n - 1) as nat, |i: int| 0int),
            n - 1,
        );
        assert(a[n - 1] * 0 == 0) by (nonlinear_arith);
    }
}

/// Completeness of the re-encryption check: where `shuffled[i]` is
/// `originals[perm(i)]` re-randomized by `Enc(0; rho_i)`,
/// `E_d = sum_i [d_i] shuffled[i] + Enc(0; r_d)` and
/// `f_i = t_{perm(i)} - d_i`, the check reaches
/// `Enc(0; r_d + sum_i t_{perm(i)} rho_i)` for every `t`, so it passes with
/// that randomness as `z` (`z = r_d` for a shuffle without re-randomization).
pub proof fn lemma_reencryption_complete<G: Group>(
    s: Shuffle<G>,
    params: (int, int),
    pk: int,
    originals: Seq<Ciphertext<G>>,
    shuffled: Seq<Ciphertext<G>>,
    perm: Seq<usize>,
    rho: Seq<int>,
    d: Seq<int>,
    r_d: int,
    tv: Seq<int>,
    e_d: (int, int, int),
)
    requires
        is_permutation(perm, originals.len()),
        shuffled.len() == originals.len(),
        rho.len() == originals.len(),
        forall|i: int|
            0 <= i < shuffled.len() ==> #[trigger] shuffled[i]@ == add3(
                originals[perm[i] as int]@,
                enc_val::<G>(params, pk, 0, rho[i]),
                G::order() as int,
            ),
        d.len() == originals.len(),
        tv.len() == originals.len(),
        scalars_val::<G>(s.f@) == Seq::new(
            originals.len(),
            |i: int| (tv[perm[i] as int] - d[i]) % G::order() as int,
        ),
        e_d == add3(lin3::<G>(d, shuffled), enc_val::<G>(params, pk, 0, r_d), G::order() as int),
    ensures
        reenc_acc::<G>(e_d, tv, scalars_val::<G>(s.f@), originals, shuffled, originals.len() as int)
            == enc_val::<G>(params, pk, 0, r_d + dot(permuted_vals(tv, perm), rho, originals.len() as int)),
{
    G::lemma_order();
    let q = G::order() as int;
    let n = originals.len() as int;
    let f = scalars_val::<G>(s.f@);
    let z = r_d + dot(permuted_vals(tv, perm), rho, n);
    let e = enc_val::<G>(params, pk, 0, r_d);
    let ez = enc_val::<G>(params, pk, 0, z);
    assert(f.len() == n);
    assert forall|k: int| 0 <= k < 3 implies comp(reenc_acc::<G>(e_d, tv, f, originals, shuffled, n), k) == comp(
        ez,
        k,
    ) by {
        let b = if k == 0 {
            params.0
        } else if k == 1 {
            params.1
        } else {
            pk
        };
        let oc = ct_comps::<G>(originals, k);
        let sc = ct_comps::<G>(shuffled, k);
        assert(sc =~= Seq::new(n as nat, |i: int| (oc[perm[i] as int] + (b * rho[i]) % q) % q)) by {
            assert forall|i: int| 0 <= i < n implies sc[i] == (oc[perm[i] as int] + (b * rho[i]) % q) % q by {
                assert(shuffled[i]@ == add3(originals[perm[i] as int]@, enc_val::<G>(params, pk, 0, rho[i]), q));
            }
        }
        let lin = lin3::<G>(d, shuffled);
        let pts = if k == 0 {
            points_val::<G>(firsts::<G>(shuffled))
        } else if k == 1 {
            points_val::<G>(seconds::<G>(shuffled))
        } else {
            points_val::<G>(thirds::<G>(shuffled))
        };
        assert(pts =~= sc);
        assert(comp(lin, k) == dot(d, sc, n) % q);
        assert(comp(e, k) == (b * r_d) % q);
        assert(comp(ez, k) == (b * z) % q);
        lemma_mod_mod(b * r_d, q);
        lemma_mod_mod(comp(lin, k) + comp(e, k), q);
        lemma_reenc_unroll::<G>(e_d, tv, f, originals, shuffled, n, k);
        lemma_reenc_component(comp(e_d, k), b, r_d, oc, sc, rho, tv, f, d, perm, q);
    }
    assert(comp(reenc_acc::<G>(e_d, tv, f, originals, shuffled, n), 0) == comp(ez, 0));
    assert(comp(reenc_acc::<G>(e_d, tv, f, originals, shuffled, n), 1) == comp(ez, 1));
    assert(comp(reenc_acc::<G>(e_d, tv, f, originals, shuffled, n), 2) == comp(ez, 2));
}

} // verus!
