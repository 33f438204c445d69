//! Exact integer arithmetic for the pool formulas.
use vstd::prelude::*;

verus! {

/// Two to the sixty-fourth, the radix of one limb.
pub open spec fn limb() -> int {
    0x1_0000_0000_0000_0000
}

/// `r` is the integer square root of `n`.
pub open spec fn is_isqrt(n: int, r: int) -> bool {
    0 <= r && r * r <= n && n < (r + 1) * (r + 1)
}

/// The integer square root of a non-negative `n`.
pub open spec fn sqrt_floor(n: int) -> int {
    choose|r: int| is_isqrt(n, r)
}

/// An integer square root, where there is one, is unique.
pub proof fn lemma_isqrt_unique(n: int, r: int)
    requires
        is_isqrt(n, r),
    ensures
        sqrt_floor(n) == r,
{
    let s = sqrt_floor(n);
    assert(is_isqrt(n, s));
    if s < r {
        assert((s + 1) * (s + 1) <= r * r) by (nonlinear_arith)
            requires
                0 <= s < r,
        ;
    }
    if r < s {
        assert((r + 1) * (r + 1) <= s * s) by (nonlinear_arith)
            requires
                0 <= r < s,
        ;
    }
}

/// Floor of the square root of `n`, found by bisection.
pub fn isqrt(n: u128) -> (r: u64)
    ensures
        is_isqrt(n as int, r as int),
        r == sqrt_floor(n as int),
{
    let mut lo: u128 = 0;
    let mut hi: u128 = 0x1_0000_0000_0000_0000;
    proof {
        assert((hi as int) * (hi as int) == limb() * limb());
        assert(limb() * limb() == 0x1_0000_0000_0000_0000_0000_0000_0000_0000);
    }
    while hi - lo > 1
        invariant
            lo < hi <= limb(),
            (lo as int) * (lo as int) <= n as int,
            (n as int) < (hi as int) * (hi as int),
        decreases hi - lo,
    {
        let mid: u128 = lo + (hi - lo) / 2;
        assert(mid < limb());
        proof {
            assert((mid as int) * (mid as int) < limb() * limb()) by (nonlinear_arith)
                requires
                    0 <= mid < limb(),
            ;
        }
        if mid * mid <= n {
            lo = mid;
        } else {
            hi = mid;
        }
    }
    assert(hi == lo + 1);
    proof {
        lemma_isqrt_unique(n as int, lo as int);
    }
    lo as u64
}

/// The exact product of two 64-bit amounts.
pub fn mul_wide(a: u64, b: u64) -> (r: u128)
    ensures
        r as int == (a as int) * (b as int),
{
    proof {
        assert((a as int) * (b as int) < limb() * limb()) by (nonlinear_arith)
            requires
                0 <= a < limb(),
                0 <= b < limb(),
        ;
    }
    (a as u128) * (b as u128)
}

/// `x * c` split into a high part and a low limb.
fn wide_mul(x: u128, c: u64) -> (r: (u128, u64))
    ensures
        (r.0 as int) * limb() + (r.1 as int) == (x as int) * (c as int),
{
    let hi: u128 = x / 0x1_0000_0000_0000_0000;
    let lo: u128 = x % 0x1_0000_0000_0000_0000;
    assert(hi < limb());
    proof {
        assert((lo as int) * (c as int) < limb() * limb()) by (nonlinear_arith)
            requires
                0 <= lo < limb(),
                0 <= c < limb(),
        ;
    }
    let low_product: u128 = lo * (c as u128);
    proof {
        assert((hi as int) * (c as int) <= (limb() - 1) * (limb() - 1)) by (nonlinear_arith)
            requires
                0 <= hi < limb(),
                0 <= c < limb(),
        ;
    }
    let high_product: u128 = hi * (c as u128) + low_product / 0x1_0000_0000_0000_0000;
    let rem: u128 = low_product % 0x1_0000_0000_0000_0000;
    proof {
        let (xi, ci, h, l) = (x as int, c as int, hi as int, lo as int);
        assert(xi == h * limb() + l);
        assert(xi * ci == h * ci * limb() + l * ci) by (nonlinear_arith)
            requires
                xi == h * limb() + l,
        ;
        assert(l * ci == (low_product as int / limb()) * limb() + rem as int);
        assert(xi * ci == (h * ci + low_product as int / limb()) * limb() + rem as int)
            by (nonlinear_arith)
            requires
                xi * ci == h * ci * limb() + l * ci,
                l * ci == (low_product as int / limb()) * limb() + rem as int,
        ;
    }
    (high_product, rem as u64)
}

/// Compares `x * c` with `y * d` exactly, though the products may not fit in
/// 128 bits.
pub fn product_gt(x: u128, c: u64, y: u128, d: u64) -> (r: bool)
    ensures
        r == ((x as int) * (c as int) > (y as int) * (d as int)),
{
    let (h1, l1) = wide_mul(x, c);
    let (h2, l2) = wide_mul(y, d);
    proof {
        let (a, b, p, q) = (h1 as int, l1 as int, h2 as int, l2 as int);
        assert(a > p ==> a * limb() + b > p * limb() + q) by (nonlinear_arith)
            requires
                0 <= b < limb(),
                0 <= q < limb(),
        ;
        assert(a < p ==> a * limb() + b < p * limb() + q) by (nonlinear_arith)
            requires
                0 <= b < limb(),
                0 <= q < limb(),
        ;
    }
    h1 > h2 || (h1 == h2 && l1 > l2)
}

} // verus!
