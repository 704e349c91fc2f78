//! Integer square roots, rounded up.

use vstd::prelude::*;

verus! {

/// `r` is the least natural number whose square is at least `v`.
pub open spec fn is_ceil_sqrt(v: nat, r: nat) -> bool {
    &&& r * r >= v
    &&& (r == 0 || (r - 1) * (r - 1) < v)
}

/// The square root of `v`, rounded up to a whole number.
pub open spec fn ceil_sqrt(v: nat) -> nat {
    choose|r: nat| is_ceil_sqrt(v, r)
}

/// At most one number is the rounded-up root of `v`.
pub proof fn lemma_ceil_sqrt_unique(v: nat, a: nat, b: nat)
    requires
        is_ceil_sqrt(v, a),
        is_ceil_sqrt(v, b),
    ensures
        a == b,
{
    if a < b {
        assert(a * a <= (b - 1) * (b - 1)) by (nonlinear_arith)
            requires
                0 <= a <= b - 1,
        ;
    } else if b < a {
        assert(b * b <= (a - 1) * (a - 1)) by (nonlinear_arith)
            requires
                0 <= b <= a - 1,
        ;
    }
}

/// Every natural number has a rounded-up root.
pub proof fn lemma_ceil_sqrt_exists(v: nat)
    ensures
        is_ceil_sqrt(v, ceil_sqrt(v)),
    decreases v,
{
    if v == 0 {
        assert(is_ceil_sqrt(0, 0));
    } else {
        lemma_ceil_sqrt_exists((v - 1) as nat);
        let r = ceil_sqrt((v - 1) as nat);
        if r * r >= v {
            assert(is_ceil_sqrt(v, r));
        } else {
            assert((r + 1) * (r + 1) >= v) by (nonlinear_arith)
                requires
                    r * r >= v - 1,
                    r >= 0,
            ;
            assert(((r + 1) - 1) * ((r + 1) - 1) == r * r);
            assert(is_ceil_sqrt(v, r + 1));
        }
    }
}

/// A number that passes `is_ceil_sqrt` is the rounded-up root.
pub proof fn lemma_ceil_sqrt_is(v: nat, r: nat)
    requires
        is_ceil_sqrt(v, r),
    ensures
        ceil_sqrt(v) == r,
{
    lemma_ceil_sqrt_unique(v, r, ceil_sqrt(v));
}

/// Squaring is monotone on the naturals.
pub proof fn lemma_square_monotone(a: nat, b: nat)
    requires
        a <= b,
    ensures
        a * a <= b * b,
{
    assert(a * a <= b * b) by (nonlinear_arith)
        requires
            0 <= a <= b,
    ;
}

/// Computes the square root of `v`, rounded up.
pub fn ceil_sqrt_u128(v: u128) -> (r: u128)
    ensures
        r == ceil_sqrt(v as nat),
        is_ceil_sqrt(v as nat, r as nat),
        r <= 0x1_0000_0000_0000_0000,
{
    if v == 0 {
        proof {
            lemma_ceil_sqrt_is(0, 0);
        }
        return 0;
    }
    let mut lo: u128 = 0;
    let mut hi: u128 = 0x1_0000_0000_0000_0000;
    assert(hi * hi > v) by (nonlinear_arith)
        requires
            hi == 0x1_0000_0000_0000_0000,
            v <= u128::MAX,
    ;
    while hi - lo > 1
        invariant
            lo < hi <= 0x1_0000_0000_0000_0000,
            lo * lo < v,
            hi * hi >= v,
        decreases hi - lo,
    {
        let mid: u128 = lo + (hi - lo) / 2;
        assert(mid * mid <= u128::MAX) by (nonlinear_arith)
            requires
                mid <= 0xffff_ffff_ffff_ffff,
        ;
        if mid * mid >= v {
            hi = mid;
        } else {
            lo = mid;
        }
    }
    proof {
        lemma_ceil_sqrt_is(v as nat, hi as nat);
    }
    hi
}

} // verus!
