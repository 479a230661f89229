//! The bit width of a number, and the all-ones mask of a bit width: what
//! decides how many bits a bitpacked value takes.
use vstd::arithmetic::power2::{lemma2_to64, lemma_pow2_pos, lemma_pow2_unfold, pow2};
use vstd::prelude::*;

verus! {

/// The number of bits needed to write `n`: 0 for 0.
pub open spec fn bit_len(n: nat) -> nat
    decreases n,
{
    if n == 0 {
        0
    } else {
        1 + bit_len(n / 2)
    }
}

/// A number below `2^k` needs at most `k` bits.
pub proof fn lemma_bit_len_bound(n: nat, k: nat)
    requires
        n < pow2(k),
    ensures
        bit_len(n) <= k,
    decreases k,
{
    if n > 0 {
        if k == 0 {
            lemma2_to64();
        } else {
            lemma_pow2_unfold(k);
            lemma_bit_len_bound(n / 2, (k - 1) as nat);
        }
    }
}

/// The bit width of `n`, from 0 to 64.
pub fn bit_width(n: u64) -> (r: u64)
    ensures
        r == bit_len(n as nat),
        r <= 64,
{
    proof {
        lemma2_to64();
        lemma_bit_len_bound(n as nat, 64);
    }
    let mut a = n;
    let mut bits: u64 = 0;
    while a > 0
        invariant
            bits + bit_len(a as nat) == bit_len(n as nat),
            bit_len(n as nat) <= 64,
        decreases a,
    {
        a = a / 2;
        bits = bits + 1;
    }
    bits
}

/// `2^nb - 1`: the lowest `nb` bits set, for `nb` up to 64.
pub fn low_bits_mask(nb: u64) -> (r: u64)
    requires
        nb <= 64,
    ensures
        r == pow2(nb as nat) - 1,
{
    proof {
        lemma2_to64();
    }
    let mut m: u64 = 0;
    let mut i: u64 = 0;
    while i < nb
        invariant
            i <= nb <= 64,
            m == pow2(i as nat) - 1,
            pow2(64) == 0x1_0000_0000_0000_0000nat,
        decreases nb - i,
    {
        proof {
            lemma_pow2_unfold((i + 1) as nat);
            if i + 1 < 64 {
                vstd::arithmetic::power2::lemma_pow2_strictly_increases((i + 1) as nat, 64);
            }
        }
        m = 2 * m + 1;
        i = i + 1;
    }
    proof {
        lemma_pow2_pos(nb as nat);
    }
    m
}

} // verus!
