//! Minimal big-endian byte strings for unsigned integers: the scalar number
//! format used by the wire encoding (no leading zero bytes, empty means zero).

use vstd::prelude::*;

verus! {

/// Minimal big-endian bytes of `n`: empty for zero, no leading zero byte.
pub open spec fn be(n: nat) -> Seq<u8>
    decreases n,
{
    if n == 0 {
        Seq::empty()
    } else {
        be(n / 256).push((n % 256) as u8)
    }
}

/// Value of a big-endian byte string.
pub open spec fn be_val(b: Seq<u8>) -> nat
    decreases b.len(),
{
    if b.len() == 0 {
        0
    } else {
        (be_val(b.drop_last()) * 256 + b.last()) as nat
    }
}

/// 256 to the `k`-th power.
pub open spec fn pow256(k: nat) -> nat
    decreases k,
{
    if k == 0 {
        1
    } else {
        256 * pow256((k - 1) as nat)
    }
}

/// Reading back the minimal big-endian bytes of `n` yields `n`.
pub proof fn lemma_be_val_of_be(n: nat)
    ensures
        be_val(be(n)) == n,
    decreases n,
{
    if n > 0 {
        lemma_be_val_of_be(n / 256);
        assert(be(n).drop_last() =~= be(n / 256));
        assert(be_val(be(n)) == be_val(be(n / 256)) * 256 + (n % 256));
        assert(n / 256 * 256 + n % 256 == n) by (nonlinear_arith);
    }
}

/// The minimal big-endian bytes of a nonzero number start with a nonzero byte.
pub proof fn lemma_be_canonical(n: nat)
    ensures
        n == 0 ==> be(n).len() == 0,
        n > 0 ==> be(n).len() > 0 && be(n)[0] != 0,
    decreases n,
{
    if n > 0 {
        lemma_be_canonical(n / 256);
        if n / 256 == 0 {
            assert(be(n) =~= seq![(n % 256) as u8]);
            assert(n % 256 == n) by (nonlinear_arith)
                requires n > 0 && n / 256 == 0;
        } else {
            assert(be(n)[0] == be(n / 256)[0]);
        }
    }
}

/// A value below `pow256(k)` takes at most `k` big-endian bytes.
pub proof fn lemma_be_len(n: nat, k: nat)
    requires
        n < pow256(k),
    ensures
        be(n).len() <= k,
    decreases n,
{
    if n > 0 {
        assert(k > 0);
        assert(n / 256 < pow256((k - 1) as nat)) by (nonlinear_arith)
            requires n < pow256(k) && pow256(k) == 256 * pow256((k - 1) as nat);
        lemma_be_len(n / 256, (k - 1) as nat);
    }
}

/// A big-endian byte string of length `k` holds a value below `pow256(k)`.
pub proof fn lemma_be_val_bound(b: Seq<u8>)
    ensures
        be_val(b) < pow256(b.len()),
    decreases b.len(),
{
    if b.len() > 0 {
        lemma_be_val_bound(b.drop_last());
        assert(be_val(b.drop_last()) * 256 + b.last() < 256 * pow256((b.len() - 1) as nat))
            by (nonlinear_arith)
            requires
                be_val(b.drop_last()) < pow256((b.len() - 1) as nat),
                b.last() < 256;
    }
}

/// `pow256` is monotonic in the exponent.
pub proof fn lemma_pow256_le(j: nat, k: nat)
    requires
        j <= k,
    ensures
        pow256(j) <= pow256(k),
    decreases k,
{
    if j < k {
        lemma_pow256_le(j, (k - 1) as nat);
        assert(pow256((k - 1) as nat) <= 256 * pow256((k - 1) as nat)) by (nonlinear_arith)
            requires pow256((k - 1) as nat) >= 0;
        assert(pow256(j) >= 1) by {
            lemma_pow256_pos(j);
        }
    }
}

/// `pow256` is positive.
pub proof fn lemma_pow256_pos(k: nat)
    ensures
        pow256(k) >= 1,
    decreases k,
{
    if k > 0 {
        lemma_pow256_pos((k - 1) as nat);
    }
}

/// Eight big-endian bytes fit a 64-bit value.
pub proof fn lemma_pow256_8()
    ensures
        pow256(8) == 0x1_0000_0000_0000_0000,
{
    reveal_with_fuel(pow256, 9);
}

/// Minimal big-endian bytes of a 64-bit value.
pub fn u64_to_be(n: u64) -> (r: Vec<u8>)
    ensures
        r@ == be(n as nat),
    decreases n,
{
    if n == 0 {
        Vec::new()
    } else {
        let mut r = u64_to_be(n / 256);
        r.push((n % 256) as u8);
        r
    }
}

/// Value of at most eight big-endian bytes, as a 64-bit integer.
pub fn be_to_u64(b: &Vec<u8>) -> (r: u64)
    requires
        b@.len() <= 8,
    ensures
        r == be_val(b@),
{
    let mut r: u64 = 0;
    let mut i: usize = 0;
    while i < b.len()
        invariant
            i <= b@.len() <= 8,
            r == be_val(b@.subrange(0, i as int)),
            r < pow256(i as nat),
        decreases b@.len() - i,
    {
        proof {
            lemma_pow256_le((i + 1) as nat, 8);
            lemma_pow256_8();
            assert(r * 256 + b@[i as int] < 256 * pow256(i as nat)) by (nonlinear_arith)
                requires r < pow256(i as nat) && b@[i as int] < 256;
            assert(256 * pow256(i as nat) == pow256((i + 1) as nat));
            assert(b@.subrange(0, (i + 1) as int).drop_last() =~= b@.subrange(0, i as int));
        }
        r = r * 256 + (b[i] as u64);
        i = i + 1;
    }
    proof {
        assert(b@.subrange(0, b@.len() as int) =~= b@);
    }
    r
}

} // verus!
