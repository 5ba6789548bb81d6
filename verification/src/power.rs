//! Powers of two on machine integers.

use vstd::arithmetic::power2::{lemma2_to64, lemma_pow2_adds, lemma_pow2_strictly_increases, lemma_pow2_unfold, pow2};
use vstd::prelude::*;

verus! {

/// The value of two to the 128th.
pub proof fn lemma_pow2_128()
    ensures
        pow2(128) == 0x1_0000_0000_0000_0000_0000_0000_0000_0000,
{
    lemma2_to64();
    lemma_pow2_adds(64, 64);
}

/// Powers of two grow with the exponent.
pub proof fn lemma_pow2_monotone(a: nat, b: nat)
    requires
        a <= b,
    ensures
        pow2(a) <= pow2(b),
{
    if a < b {
        lemma_pow2_strictly_increases(a, b);
    }
}

/// Two to the `k`, for an exponent that fits a `u64`.
pub fn pow2_u64(k: u8) -> (r: u64)
    requires
        k < 64,
    ensures
        r == pow2(k as nat),
{
    let mut r: u64 = 1;
    let mut i: u8 = 0;
    proof {
        lemma2_to64();
    }
    while i < k
        invariant
            i <= k < 64,
            r == pow2(i as nat),
        decreases k - i,
    {
        proof {
            lemma_pow2_unfold((i + 1) as nat);
            lemma_pow2_monotone((i + 1) as nat, 63);
            lemma_pow2_strictly_increases(63, 64);
            lemma2_to64();
        }
        r = r * 2;
        i = i + 1;
    }
    r
}

/// The number whose lowest `h` bits are set: two to the `h`, less one.
pub fn low_mask(h: u8) -> (m: u128)
    requires
        h <= 128,
    ensures
        m == pow2(h as nat) - 1,
{
    let mut m: u128 = 0;
    let mut i: u8 = 0;
    proof {
        lemma2_to64();
    }
    while i < h
        invariant
            i <= h <= 128,
            m == pow2(i as nat) - 1,
        decreases h - i,
    {
        proof {
            lemma_pow2_unfold((i + 1) as nat);
            lemma_pow2_monotone((i + 1) as nat, 128);
            lemma_pow2_128();
        }
        m = m * 2 + 1;
        i = i + 1;
    }
    m
}

} // verus!
