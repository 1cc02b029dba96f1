//! Integer square root: the floor of the real square root, as a spec
//! function with its characterizing bounds, and an executable binary search
//! that computes it.

use vstd::prelude::*;

verus! {

/// Floor of the square root of `n`.
pub open spec fn sqrt_floor(n: nat) -> nat
    decreases n,
{
    if n == 0 {
        0
    } else {
        let r = sqrt_floor((n - 1) as nat);
        if (r + 1) * (r + 1) <= n {
            r + 1
        } else {
            r
        }
    }
}

/// The characterizing bounds of the floor square root.
pub proof fn lemma_sqrt_floor_bounds(n: nat)
    ensures
        sqrt_floor(n) * sqrt_floor(n) <= n,
        n < (sqrt_floor(n) + 1) * (sqrt_floor(n) + 1),
    decreases n,
{
    if n > 0 {
        lemma_sqrt_floor_bounds((n - 1) as nat);
        let r = sqrt_floor((n - 1) as nat);
        reveal_with_fuel(sqrt_floor, 2);
        if (r + 1) * (r + 1) <= n {
            assert(sqrt_floor(n) == r + 1);
            assert((r + 2) * (r + 2) > (r + 1) * (r + 1)) by (nonlinear_arith);
            assert(sqrt_floor(n) * sqrt_floor(n) <= n);
            assert(n < (sqrt_floor(n) + 1) * (sqrt_floor(n) + 1));
        } else {
            assert(sqrt_floor(n) == r);
            assert(sqrt_floor(n) * sqrt_floor(n) <= n);
            assert(n < (sqrt_floor(n) + 1) * (sqrt_floor(n) + 1));
        }
    } else {
        assert(sqrt_floor(n) == 0);
        let s = sqrt_floor(n);
        assert(s * s <= n && n < (s + 1) * (s + 1)) by (nonlinear_arith)
            requires n == 0, s == 0,
        ;
    }
}

/// Any value within the characterizing bounds is the floor square root.
pub proof fn lemma_sqrt_floor_unique(n: nat, r: nat)
    requires
        r * r <= n,
        n < (r + 1) * (r + 1),
    ensures
        r == sqrt_floor(n),
{
    let s = sqrt_floor(n);
    lemma_sqrt_floor_bounds(n);
    if r < s {
        assert((r + 1) * (r + 1) <= s * s) by (nonlinear_arith)
            requires r + 1 <= s,
        ;
    } else if s < r {
        assert((s + 1) * (s + 1) <= r * r) by (nonlinear_arith)
            requires s + 1 <= r,
        ;
    }
}

/// The floor square root is monotone.
pub proof fn lemma_sqrt_floor_monotone(a: nat, b: nat)
    requires
        a <= b,
    ensures
        sqrt_floor(a) <= sqrt_floor(b),
{
    let ra = sqrt_floor(a);
    let rb = sqrt_floor(b);
    lemma_sqrt_floor_bounds(a);
    lemma_sqrt_floor_bounds(b);
    if rb < ra {
        assert((rb + 1) * (rb + 1) <= ra * ra) by (nonlinear_arith)
            requires rb + 1 <= ra,
        ;
    }
}

/// Floor square root of a `u64`, by binary search.
pub fn isqrt_u64(n: u64) -> (r: u64)
    ensures
        r == sqrt_floor(n as nat),
{
    if n >= 0xFFFF_FFFE_0000_0001 {
        proof {
            assert(0xFFFF_FFFFnat * 0xFFFF_FFFF == 0xFFFF_FFFE_0000_0001) by (nonlinear_arith);
            assert(0x1_0000_0000nat * 0x1_0000_0000 == 0x1_0000_0000_0000_0000) by (nonlinear_arith);
            lemma_sqrt_floor_unique(n as nat, 0xFFFF_FFFF as nat);
        }
        return 0xFFFF_FFFF;
    }
    let mut lo: u64 = 0;
    let mut hi: u64 = 0xFFFF_FFFF;
    proof {
        assert(0x1_0000_0000nat * 0x1_0000_0000 == 0x1_0000_0000_0000_0000) by (nonlinear_arith);
    }
    while lo < hi
        invariant
            lo <= hi <= 0xFFFF_FFFF,
            lo * lo <= n,
            n < (hi + 1) * (hi + 1),
        decreases hi - lo,
    {
        let mid: u64 = lo + (hi - lo + 1) / 2;
        proof {
            assert(mid * mid <= 0x1_0000_0000_0000_0000u128) by (nonlinear_arith)
                requires mid <= 0xFFFF_FFFFu64,
            ;
        }
        let sq: u128 = (mid as u128) * (mid as u128);
        if sq <= n as u128 {
            lo = mid;
        } else {
            hi = mid - 1;
        }
    }
    proof {
        lemma_sqrt_floor_unique(n as nat, lo as nat);
    }
    lo
}

} // verus!
