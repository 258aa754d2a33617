//! Powers of two and binary lengths of natural numbers.

use vstd::prelude::*;

verus! {

use vstd::arithmetic::power2::{
    lemma2_to64, lemma2_to64_rest, lemma_pow2_adds, lemma_pow2_pos,
    lemma_pow2_strictly_increases, lemma_pow2_unfold, pow2,
};

/// Number of binary digits needed to write `x`; zero needs none.
pub open spec fn bit_len(x: nat) -> nat
    decreases x,
{
    if x == 0 {
        0
    } else {
        (1 + bit_len(x / 2)) as nat
    }
}

/// Concrete powers of two at the widths this crate works with.
pub proof fn lemma_pow2_facts()
    ensures
        pow2(1) == 2,
        pow2(31) == 0x80000000,
        pow2(32) == 0x100000000,
        pow2(63) == 0x8000000000000000,
        pow2(64) == 0x10000000000000000,
        pow2(127) == 0x80000000000000000000000000000000,
        pow2(128) == 0x100000000000000000000000000000000,
{
    lemma2_to64();
    lemma2_to64_rest();
    lemma_pow2_adds(64, 63);
    lemma_pow2_adds(64, 64);
}

/// Powers of two never decrease with the exponent.
pub proof fn lemma_pow2_le(e1: nat, e2: nat)
    requires
        e1 <= e2,
    ensures
        pow2(e1) <= pow2(e2),
{
    if e1 < e2 {
        lemma_pow2_strictly_increases(e1, e2);
    }
}

/// A number below `pow2(k)` has at most `k` binary digits.
pub proof fn lemma_bit_len_below(x: nat, k: nat)
    requires
        x < pow2(k),
    ensures
        bit_len(x) <= k,
    decreases x,
{
    if x > 0 {
        if k == 0 {
            assert(pow2(0) == 1) by {
                lemma2_to64();
            }
        } else {
            lemma_pow2_unfold(k);
            lemma_bit_len_below(x / 2, (k - 1) as nat);
        }
    }
}

/// A positive number lies between the two powers of two its length names.
pub proof fn lemma_bit_len_range(x: nat)
    requires
        x > 0,
    ensures
        bit_len(x) >= 1,
        pow2((bit_len(x) - 1) as nat) <= x < pow2(bit_len(x)),
    decreases x,
{
    lemma2_to64();
    if x == 1 {
        assert(bit_len(0) == 0);
        assert(bit_len(1) == 1);
    } else {
        lemma_bit_len_range(x / 2);
        let l = bit_len(x / 2);
        lemma_pow2_unfold((l + 1) as nat);
        assert(bit_len(x) == l + 1);
        assert(x == 2 * (x / 2) + x % 2);
        assert(pow2(l) <= x) by {
            lemma_pow2_unfold(l);
        }
        assert(x < pow2((l + 1) as nat));
    }
}

/// A number between two adjacent powers of two has exactly the length those
/// powers name.
pub proof fn lemma_bit_len_exact(x: nat, k: nat)
    requires
        k >= 1,
        pow2((k - 1) as nat) <= x < pow2(k),
    ensures
        bit_len(x) == k,
{
    lemma_pow2_pos((k - 1) as nat);
    lemma_bit_len_range(x);
    let l = bit_len(x);
    if l < k {
        lemma_pow2_le(l, (k - 1) as nat);
        assert(false);
    }
    if l > k {
        lemma_pow2_le(k, (l - 1) as nat);
        assert(false);
    }
}

/// Binary length of a `u128`.
pub fn bit_len_u128(x: u128) -> (r: u8)
    ensures
        r as nat == bit_len(x as nat),
{
    proof {
        lemma_pow2_facts();
        lemma_bit_len_below(x as nat, 128);
    }
    let mut v: u128 = x;
    let mut b: u8 = 0;
    while v > 0
        invariant
            bit_len(x as nat) == b as nat + bit_len(v as nat),
            b as nat + bit_len(v as nat) <= 128,
        decreases v,
    {
        v = v / 2;
        b = b + 1;
    }
    b
}

/// Computes `pow2(k) - 1`, the largest value writable in `k` binary digits.
pub fn pow2_minus_one(k: u8) -> (r: u128)
    requires
        k <= 128,
    ensures
        r as nat == pow2(k as nat) - 1,
{
    proof {
        lemma2_to64();
    }
    let mut i: u8 = 0;
    let mut r: u128 = 0;
    while i < k
        invariant
            i <= k,
            k <= 128,
            r as nat == pow2(i as nat) - 1,
        decreases k - i,
    {
        proof {
            lemma_pow2_unfold((i + 1) as nat);
            lemma_pow2_facts();
            if i + 1 < 128 {
                lemma_pow2_strictly_increases((i + 1) as nat, 128);
            }
        }
        r = 2 * r + 1;
        i = i + 1;
    }
    r
}

} // verus!
