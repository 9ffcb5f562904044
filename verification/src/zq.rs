//! Arithmetic modulo the group order.
use vstd::prelude::*;
use vstd::arithmetic::div_mod::*;

verus! {

/// `(a % q + b % q) % q == (a + b) % q`, and the same with only one side reduced.
pub proof fn lemma_add_mod_both(a: int, b: int, q: int)
    requires
        q > 0,
    ensures
        ((a % q) + (b % q)) % q == (a + b) % q,
        ((a % q) + b) % q == (a + b) % q,
        (a + (b % q)) % q == (a + b) % q,
{
    lemma_add_mod_noop(a, b, q);
    lemma_add_mod_noop(a, b % q, q);
    lemma_add_mod_noop(a % q, b, q);
    lemma_mod_twice(a, q);
    lemma_mod_twice(b, q);
}


/// `(a % q - b % q) % q == (a - b) % q`, and the same with only one side reduced.
pub proof fn lemma_sub_mod_both(a: int, b: int, q: int)
    requires
        q > 0,
    ensures
        ((a % q) - (b % q)) % q == (a - b) % q,
        ((a % q) - b) % q == (a - b) % q,
        (a - (b % q)) % q == (a - b) % q,
{
    lemma_sub_mod_noop(a, b, q);
    lemma_sub_mod_noop(a, b % q, q);
    lemma_sub_mod_noop(a % q, b, q);
    lemma_mod_twice(a, q);
    lemma_mod_twice(b, q);
}

/// `((a % q) * b) % q == (a * b) % q`, on either side.
pub proof fn lemma_mul_mod_both(a: int, b: int, q: int)
    requires
        q > 0,
    ensures
        ((a % q) * b) % q == (a * b) % q,
        (a * (b % q)) % q == (a * b) % q,
        ((a % q) * (b % q)) % q == (a * b) % q,
{
    lemma_mul_mod_noop_general(a, b, q);
}

/// Adding a multiple of `q` does not change the residue.
pub proof fn lemma_mod_plus_multiple(x: int, k: int, q: int)
    requires
        q > 0,
    ensures
        (x + q * k) % q == x % q,
{
    lemma_mod_multiples_vanish(k, x, q);
}

/// `x == q * (x / q) + x % q`, with `0 <= x % q < q`.
pub proof fn lemma_decompose(x: int, q: int)
    requires
        q > 0,
    ensures
        x == q * (x / q) + x % q,
        0 <= x % q < q,
{
    lemma_fundamental_div_mod(x, q);
    lemma_mod_bound(x, q);
}

/// A residue in `[0, q)` is its own residue.
pub proof fn lemma_mod_small(x: int, q: int)
    requires
        0 <= x < q,
    ensures
        x % q == x,
{
    lemma_small_mod(x as nat, q as nat);
}

/// The residues of `x` and `x % q` agree.
pub proof fn lemma_mod_mod(x: int, q: int)
    requires
        q > 0,
    ensures
        (x % q) % q == x % q,
        0 <= x % q < q,
{
    lemma_mod_twice(x, q);
    lemma_mod_bound(x, q);
}

/// Residues agree when the difference is a multiple of `q`.
pub proof fn lemma_mod_eq_diff(x: int, y: int, k: int, q: int)
    requires
        q > 0,
        x == y + q * k,
    ensures
        x % q == y % q,
{
    lemma_mod_multiples_vanish(k, y, q);
}

/// Sums of congruent terms are congruent.
pub proof fn lemma_cong_add(a: int, b: int, a2: int, b2: int, q: int)
    requires
        q > 0,
        a % q == a2 % q,
        b % q == b2 % q,
    ensures
        (a + b) % q == (a2 + b2) % q,
{
    lemma_add_mod_both(a, b, q);
    lemma_add_mod_both(a2, b2, q);
}

/// Differences of congruent terms are congruent.
pub proof fn lemma_cong_sub(a: int, b: int, a2: int, b2: int, q: int)
    requires
        q > 0,
        a % q == a2 % q,
        b % q == b2 % q,
    ensures
        (a - b) % q == (a2 - b2) % q,
{
    lemma_sub_mod_both(a, b, q);
    lemma_sub_mod_both(a2, b2, q);
}

/// Products of congruent terms are congruent.
pub proof fn lemma_cong_mul(a: int, b: int, a2: int, b2: int, q: int)
    requires
        q > 0,
        a % q == a2 % q,
        b % q == b2 % q,
    ensures
        (a * b) % q == (a2 * b2) % q,
{
    lemma_mul_mod_both(a, b, q);
    lemma_mul_mod_both(a2, b2, q);
}

/// Componentwise sum of triples modulo `q`.
pub open spec fn add3(a: (int, int, int), b: (int, int, int), q: int) -> (int, int, int) {
    ((a.0 + b.0) % q, (a.1 + b.1) % q, (a.2 + b.2) % q)
}

/// Componentwise difference of triples modulo `q`.
pub open spec fn sub3(a: (int, int, int), b: (int, int, int), q: int) -> (int, int, int) {
    ((a.0 - b.0) % q, (a.1 - b.1) % q, (a.2 - b.2) % q)
}

/// Componentwise product of a triple with `k` modulo `q`.
pub open spec fn scale3(a: (int, int, int), k: int, q: int) -> (int, int, int) {
    ((a.0 * k) % q, (a.1 * k) % q, (a.2 * k) % q)
}

/// Componentwise negation of a triple modulo `q`.
pub open spec fn neg3(a: (int, int, int), q: int) -> (int, int, int) {
    ((-a.0) % q, (-a.1) % q, (-a.2) % q)
}

/// `sum_{i < n} a[i] * b[i]`.
pub open spec fn dot(a: Seq<int>, b: Seq<int>, n: int) -> int
    decreases n,
{
    if n <= 0 {
        0
    } else {
        dot(a, b, n - 1) + a[n - 1] * b[n - 1]
    }
}

/// Pointwise sum of two sequences, over the length of the first.
pub open spec fn seq_add(a: Seq<int>, b: Seq<int>) -> Seq<int> {
    Seq::new(a.len(), |i: int| a[i] + b[i])
}

/// Pointwise product of a sequence with `k`.
pub open spec fn seq_scale(a: Seq<int>, k: int) -> Seq<int> {
    Seq::new(a.len(), |i: int| a[i] * k)
}

/// Pointwise residues of a sequence.
pub open spec fn seq_mod(a: Seq<int>, q: int) -> Seq<int> {
    Seq::new(a.len(), |i: int| a[i] % q)
}

/// The dot product is additive in its first argument.
pub proof fn lemma_dot_add(a1: Seq<int>, a2: Seq<int>, b: Seq<int>, n: int)
    requires
        0 <= n <= a1.len(),
        a1.len() == a2.len(),
    ensures
        dot(a1, b, n) + dot(a2, b, n) == dot(seq_add(a1, a2), b, n),
    decreases n,
{
    if n > 0 {
        lemma_dot_add(a1, a2, b, n - 1);
        let (x, y, z) = (a1[n - 1], a2[n - 1], b[n - 1]);
        assert((x + y) * z == x * z + y * z) by (nonlinear_arith);
    }
}

/// The dot product is homogeneous in its first argument.
pub proof fn lemma_dot_scale(a: Seq<int>, b: Seq<int>, k: int, n: int)
    requires
        0 <= n <= a.len(),
    ensures
        dot(a, b, n) * k == dot(seq_scale(a, k), b, n),
    decreases n,
{
    if n > 0 {
        lemma_dot_scale(a, b, k, n - 1);
        let (d, x, z) = (dot(a, b, n - 1), a[n - 1], b[n - 1]);
        assert((d + x * z) * k == d * k + (x * k) * z) by (nonlinear_arith);
    }
}

/// Reducing the first argument pointwise does not change the residue.
pub proof fn lemma_dot_mod(a: Seq<int>, b: Seq<int>, q: int, n: int)
    requires
        q > 0,
        0 <= n <= a.len(),
    ensures
        dot(seq_mod(a, q), b, n) % q == dot(a, b, n) % q,
    decreases n,
{
    if n > 0 {
        lemma_dot_mod(a, b, q, n - 1);
        let x = dot(seq_mod(a, q), b, n - 1);
        let y = dot(a, b, n - 1);
        lemma_mul_mod_both(a[n - 1], b[n - 1], q);
        lemma_add_mod_both(x, (a[n - 1] % q) * b[n - 1], q);
        lemma_add_mod_both(x, a[n - 1] * b[n - 1], q);
        lemma_add_mod_both(y, a[n - 1] * b[n - 1], q);
    }
}

/// The dot product over the first `n` entries reads only those entries.
pub proof fn lemma_dot_prefix(a: Seq<int>, b: Seq<int>, a2: Seq<int>, b2: Seq<int>, n: int)
    requires
        forall|i: int| 0 <= i < n ==> a[i] == a2[i] && b[i] == b2[i],
    ensures
        dot(a, b, n) == dot(a2, b2, n),
    decreases n,
{
    if n > 0 {
        lemma_dot_prefix(a, b, a2, b2, n - 1);
    }
}

/// A dot product over sequences with one leading entry each.
pub proof fn lemma_dot_cons(x: int, y: int, a: Seq<int>, b: Seq<int>, n: int)
    requires
        0 <= n <= a.len(),
        n <= b.len(),
    ensures
        dot(seq![x] + a, seq![y] + b, n + 1) == x * y + dot(a, b, n),
    decreases n,
{
    let c = seq![x] + a;
    let d = seq![y] + b;
    if n > 0 {
        lemma_dot_cons(x, y, a, b, n - 1);
        assert(c[n] == a[n - 1]);
        assert(d[n] == b[n - 1]);
        assert(dot(c, d, n + 1) == dot(c, d, n) + c[n] * d[n]);
    } else {
        assert(c[0] == x && d[0] == y);
        assert(dot(c, d, 0) == 0);
        assert(dot(c, d, 1) == dot(c, d, 0) + c[0] * d[0]);
    }
}

/// The Schnorr response identity: for a response `z = c w + t`,
/// `[z]b = [t]b + [c]([w]b)` over residues.
pub proof fn lemma_response(b: int, w: int, t: int, c: int, q: int)
    requires
        q > 0,
    ensures
        (b * ((c * w + t) % q)) % q == ((b * t) % q + ((b * w) % q * c) % q) % q,
{
    lemma_mul_mod_both(b, c * w + t, q);
    lemma_mul_mod_both(b * w, c, q);
    lemma_add_mod_both(b * t, (b * w) * c, q);
    assert(b * (c * w + t) == b * t + (b * w) * c) by (nonlinear_arith);
}

/// The Schnorr response identity for two bases at once: for responses
/// `z1 = c w + t1` and `z2 = c m + t2`,
/// `[z1]b + [z2]d = ([t1]b + [t2]d) + [c]([w]b + [m]d)` over residues.
pub proof fn lemma_response_pair(b: int, d: int, w: int, m: int, t1: int, t2: int, c: int, q: int)
    requires
        q > 0,
    ensures
        ((b * ((c * w + t1) % q)) % q + (d * ((c * m + t2) % q)) % q) % q == (((b * t1) % q + (d * t2) % q) % q
            + ((b * w + d * m) % q * c) % q) % q,
{
    let x1 = c * w + t1;
    let x2 = c * m + t2;
    lemma_mul_mod_both(b, x1, q);
    lemma_mul_mod_both(d, x2, q);
    lemma_add_mod_both(b * x1, d * x2, q);
    lemma_add_mod_both(b * t1, d * t2, q);
    lemma_mul_mod_both(b * w + d * m, c, q);
    lemma_add_mod_both(b * t1 + d * t2, (b * w + d * m) * c, q);
    assert(b * x1 + d * x2 == b * t1 + d * t2 + (b * w + d * m) * c) by (nonlinear_arith)
        requires
            x1 == c * w + t1,
            x2 == c * m + t2,
    ;
}

/// A triple with its last component shifted by `d`, modulo `q`.
pub open spec fn shift3(a: (int, int, int), d: int, q: int) -> (int, int, int) {
    (a.0, a.1, (a.2 + d) % q)
}

/// `[r1]b - [r2]b = [r1 - r2]b` over residues.
pub proof fn lemma_sub_scaled(b: int, r1: int, r2: int, q: int)
    requires
        q > 0,
    ensures
        ((b * r1) % q - (b * r2) % q) % q == (b * ((r1 - r2) % q)) % q,
{
    lemma_sub_mod_both(b * r1, b * r2, q);
    lemma_mul_mod_both(b, r1 - r2, q);
    assert(b * r1 - b * r2 == b * (r1 - r2)) by (nonlinear_arith);
}

/// `[t](-y) = [-t]y` over residues.
pub proof fn lemma_neg_scaled(y: int, t: int, q: int)
    requires
        q > 0,
    ensures
        (((-y) % q) * t) % q == (y * (-t)) % q,
{
    lemma_mul_mod_both(-y, t, q);
    assert((-y) * t == y * (-t)) by (nonlinear_arith);
}

/// `[t r]b + [t](-([r]b + m)) = [-t]m` over residues.
pub proof fn lemma_cancel(b: int, r: int, t: int, m: int, q: int)
    requires
        q > 0,
    ensures
        ((b * ((r * t) % q)) % q + (((-((b * r + m) % q)) % q) * t) % q) % q == (-(t * m)) % q,
{
    let e = b * r + m;
    lemma_mul_mod_both(b, r * t, q);
    lemma_neg_scaled(e % q, t, q);
    lemma_mul_mod_both(e, -t, q);
    lemma_add_mod_both(b * (r * t), e * (-t), q);
    assert(b * (r * t) + e * (-t) == -(t * m)) by (nonlinear_arith)
        requires
            e == b * r + m,
    ;
}

/// `sum_{i < n, i != skip} s[i]`.
pub open spec fn sum_except(s: Seq<int>, skip: int, n: int) -> int
    decreases n,
{
    if n <= 0 {
        0
    } else {
        sum_except(s, skip, n - 1) + if n - 1 == skip {
            0
        } else {
            s[n - 1]
        }
    }
}

/// `sum_{i < n} s[i]`.
pub open spec fn seq_sum(s: Seq<int>, n: int) -> int {
    sum_except(s, -1, n)
}

/// Skipping an index at or past `n` skips nothing.
pub proof fn lemma_sum_except_none(s: Seq<int>, skip: int, n: int)
    requires
        skip >= n || skip < 0,
    ensures
        sum_except(s, skip, n) == seq_sum(s, n),
    decreases n,
{
    if n > 0 {
        lemma_sum_except_none(s, skip, n - 1);
    }
}

/// The full sum is the sum without one entry plus that entry.
pub proof fn lemma_sum_split(s: Seq<int>, j: int, n: int)
    requires
        0 <= j < n,
    ensures
        seq_sum(s, n) == sum_except(s, j, n) + s[j],
    decreases n,
{
    if n - 1 == j {
        lemma_sum_except_none(s, j, n - 1);
    } else {
        lemma_sum_split(s, j, n - 1);
    }
}

/// Subtracting and adding back a residue gives the residue back.
pub proof fn lemma_sub_add_cancel(a: int, b: int, q: int)
    requires
        0 <= a < q,
        0 <= b < q,
    ensures
        (((a - b) % q) + b) % q == a,
{
    lemma_add_mod_both(a - b, b, q);
    lemma_mod_small(a, q);
    lemma_mod_small(b, q);
}

/// The sum without entry `j` does not read entry `j`.
pub proof fn lemma_sum_except_agree(s1: Seq<int>, s2: Seq<int>, j: int, n: int)
    requires
        forall|i: int| 0 <= i < n && i != j ==> s1[i] == s2[i],
    ensures
        sum_except(s1, j, n) == sum_except(s2, j, n),
    decreases n,
{
    if n > 0 {
        lemma_sum_except_agree(s1, s2, j, n - 1);
    }
}

/// Whether `s` has a multiplicative inverse modulo `q`.
pub open spec fn is_unit(s: int, q: int) -> bool {
    exists|i: int| #[trigger] ((i * s) % q) == 1
}

/// Multiplying by a unit keeps a nonzero residue nonzero.
pub proof fn lemma_unit_keeps_nonzero(a: int, s: int, q: int)
    requires
        q > 1,
        0 < a < q,
        is_unit(s, q),
    ensures
        (a * s) % q != 0,
{
    let i = choose|i: int| #[trigger] ((i * s) % q) == 1;
    if (a * s) % q == 0 {
        lemma_mul_mod_both(a * s, i, q);
        assert((a * s) * i == a * (i * s)) by (nonlinear_arith);
        lemma_mul_mod_both(a, i * s, q);
        assert(((a * s) % q) * i == 0) by (nonlinear_arith)
            requires
                (a * s) % q == 0,
        ;
        lemma_mod_small(0, q);
        assert(a * 1 == a);
        lemma_mod_small(a, q);
        assert(false);
    }
}

/// Multiplying by a unit is injective on residues.
pub proof fn lemma_unit_cancel(x: int, y: int, s: int, q: int)
    requires
        q > 1,
        0 <= x < q,
        0 <= y < q,
        is_unit(s, q),
        (x * s) % q == (y * s) % q,
    ensures
        x == y,
{
    let i = choose|i: int| #[trigger] ((i * s) % q) == 1;
    lemma_mul_mod_both(x * s, i, q);
    lemma_mul_mod_both(y * s, i, q);
    assert((x * s) * i == x * (i * s)) by (nonlinear_arith);
    assert((y * s) * i == y * (i * s)) by (nonlinear_arith);
    lemma_mul_mod_both(x, i * s, q);
    lemma_mul_mod_both(y, i * s, q);
    assert(x * 1 == x && y * 1 == y);
    lemma_mod_small(x, q);
    lemma_mod_small(y, q);
}

} // verus!
