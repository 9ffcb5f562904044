use vstd::prelude::*;
use vstd::arithmetic::div_mod::*;

verus! {

/// The natural number that a byte string denotes in little-endian order.
pub open spec fn le_nat(b: Seq<u8>) -> nat
    decreases b.len(),
{
    if b.len() == 0 {
        0
    } else {
        b[0] as nat + 256 * le_nat(b.drop_first())
    }
}

/// The `len`-byte little-endian encoding of `n` (truncated to `len` bytes).
pub open spec fn le_bytes(n: nat, len: nat) -> Seq<u8>
    decreases len,
{
    if len == 0 {
        Seq::empty()
    } else {
        seq![(n % 256) as u8] + le_bytes(n / 256, (len - 1) as nat)
    }
}

/// `256^len`.
pub open spec fn byte_bound(len: nat) -> nat
    decreases len,
{
    if len == 0 {
        1
    } else {
        256 * byte_bound((len - 1) as nat)
    }
}

pub proof fn lemma_le_nat_bound(b: Seq<u8>)
    ensures
        le_nat(b) < byte_bound(b.len()),
    decreases b.len(),
{
    if b.len() > 0 {
        lemma_le_nat_bound(b.drop_first());
        let r = le_nat(b.drop_first());
        let k = byte_bound(b.drop_first().len());
        assert(b[0] as nat + 256 * r < 256 * k) by (nonlinear_arith)
            requires
                r < k,
                b[0] < 256,
        ;
    }
}

/// Encoding the number that a byte string denotes gives the byte string back.
pub proof fn lemma_le_roundtrip(b: Seq<u8>)
    ensures
        le_bytes(le_nat(b), b.len()) == b,
    decreases b.len(),
{
    if b.len() > 0 {
        let rest = b.drop_first();
        let n = le_nat(b);
        lemma_le_roundtrip(rest);
        lemma_fundamental_div_mod_converse(n as int, 256, le_nat(rest) as int, b[0] as int);
        assert(le_bytes(n, b.len()) =~= b);
    }
}

/// Decoding the encoding of a number that fits gives the number back.
pub proof fn lemma_le_bytes_value(n: nat, len: nat)
    requires
        n < byte_bound(len),
    ensures
        le_nat(le_bytes(n, len)) == n,
        le_bytes(n, len).len() == len,
    decreases len,
{
    if len > 0 {
        let k = byte_bound((len - 1) as nat);
        assert(n / 256 < k) by {
            lemma_fundamental_div_mod(n as int, 256);
            assert(n as int / 256 < k) by (nonlinear_arith)
                requires
                    n < 256 * k,
                    n as int == 256 * (n as int / 256) + n as int % 256,
                    0 <= n as int % 256,
            ;
        }
        lemma_le_bytes_value(n / 256, (len - 1) as nat);
        let s = le_bytes(n, len);
        assert(s.drop_first() =~= le_bytes(n / 256, (len - 1) as nat));
        lemma_fundamental_div_mod(n as int, 256);
    }
}

/// Two byte strings of one length that denote one number are equal.
pub proof fn lemma_le_injective(a: Seq<u8>, b: Seq<u8>)
    requires
        a.len() == b.len(),
        le_nat(a) == le_nat(b),
    ensures
        a == b,
{
    lemma_le_roundtrip(a);
    lemma_le_roundtrip(b);
}

/// The natural number that a byte string denotes in big-endian order.
pub open spec fn be_nat(b: Seq<u8>) -> nat {
    le_nat(b.reverse())
}

/// Two byte strings of one length that denote one number in big-endian
/// order are equal.
pub proof fn lemma_be_injective(a: Seq<u8>, b: Seq<u8>)
    requires
        a.len() == b.len(),
        be_nat(a) == be_nat(b),
    ensures
        a == b,
{
    lemma_le_injective(a.reverse(), b.reverse());
    assert(a.reverse().reverse() =~= a);
    assert(b.reverse().reverse() =~= b);
}

/// A byte string is the big-endian encoding of the number it denotes.
pub proof fn lemma_be_roundtrip(b: Seq<u8>)
    ensures
        le_bytes(be_nat(b), b.len()).reverse() == b,
{
    lemma_le_roundtrip(b.reverse());
    assert(b.reverse().reverse() =~= b);
}

} // verus!

verus! {

/// Append the bytes of `s` to `v`.
pub fn extend_bytes(v: &mut Vec<u8>, s: &[u8])
    ensures
        final(v)@ == old(v)@ + s@,
{
    let mut i: usize = 0;
    while i < s.len()
        invariant
            0 <= i <= s@.len(),
            v@ == old(v)@ + s@.subrange(0, i as int),
        decreases s@.len() - i,
    {
        v.push(s[i]);
        i = i + 1;
        assert(v@ =~= old(v)@ + s@.subrange(0, i as int));
    }
    assert(s@.subrange(0, s@.len() as int) =~= s@);
}


/// The eight little-endian bytes of `n`.
pub fn u64_le_bytes(n: u64) -> (r: Vec<u8>)
    ensures
        r@ == le_bytes(n as nat, 8),
        r@.len() == 8,
{
    let mut r: Vec<u8> = Vec::new();
    let mut x: u64 = n;
    let mut i: usize = 0;
    while i < 8
        invariant
            i <= 8,
            r@.len() == i,
            r@ + le_bytes(x as nat, (8 - i) as nat) == le_bytes(n as nat, 8),
        decreases 8 - i,
    {
        let ghost prev = r@;
        let b = (x % 256) as u8;
        r.push(b);
        proof {
            let k = (8 - i) as nat;
            assert(le_bytes(x as nat, k) == seq![(x as nat % 256) as u8] + le_bytes(x as nat / 256, (k - 1) as nat));
            assert(r@ + le_bytes((x / 256) as nat, (k - 1) as nat) =~= prev + le_bytes(x as nat, k));
        }
        x = x / 256;
        i = i + 1;
    }
    assert(le_bytes(x as nat, 0) =~= Seq::<u8>::empty());
    assert(r@ + Seq::<u8>::empty() =~= r@);
    r
}

/// `n` zero bytes.
pub open spec fn zero_bytes(n: nat) -> Seq<u8> {
    Seq::new(n, |_i: int| 0u8)
}

/// Whether `b` is `n` zero bytes.
pub fn is_zero_bytes(b: &[u8], n: usize) -> (r: bool)
    ensures
        r == (b@ == zero_bytes(n as nat)),
{
    if b.len() != n {
        return false;
    }
    let mut i: usize = 0;
    while i < n
        invariant
            i <= n,
            b@.len() == n,
            forall|j: int| 0 <= j < i ==> b@[j] == 0u8,
        decreases n - i,
    {
        if b[i] != 0 {
            assert(b@[i as int] != zero_bytes(n as nat)[i as int]);
            return false;
        }
        i = i + 1;
    }
    assert(b@ =~= zero_bytes(n as nat));
    true
}

} // verus!
