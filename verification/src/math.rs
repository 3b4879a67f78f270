//! Elementary functions on fixed-point numbers.
use crate::fixed::{fx, is_floor_sqrt, Fixed, SCALE};
use vstd::prelude::*;

verus! {

/// The raw value of the largest whole number that is not above `a`.
pub open spec fn floor_raw(a: int) -> int {
    (a / (SCALE as int)) * SCALE
}

/// The raw value of the smallest whole number that is not below `a`.
pub open spec fn ceil_raw(a: int) -> int {
    -floor_raw(-a)
}

/// The raw value of the square root of `a`, rounded down; zero for a negative
/// `a`.
pub open spec fn sqrt_raw(a: int) -> int {
    if a <= 0 {
        0
    } else {
        choose|r: int| #[trigger] is_floor_sqrt(a * SCALE, r)
    }
}

/// Two rounded-down square roots of one number are the same.
pub proof fn lemma_floor_sqrt_unique(n: int, r: int, s: int)
    requires
        is_floor_sqrt(n, r),
        is_floor_sqrt(n, s),
    ensures
        r == s,
{
    if r < s {
        assert((r + 1) * (r + 1) <= s * s) by (nonlinear_arith)
            requires
                0 <= r + 1 <= s,
        ;
    } else if s < r {
        assert((s + 1) * (s + 1) <= r * r) by (nonlinear_arith)
            requires
                0 <= s + 1 <= r,
        ;
    }
}

/// The magnitude of `n`; the magnitude of the smallest number is clamped.
pub fn abs(n: Fixed) -> (r: Fixed)
    ensures
        r == fx(if n@ < 0 { -n@ } else { n@ }),
{
    if n.raw < 0 {
        n.neg()
    } else {
        n
    }
}

/// The largest whole number that is not above `n`.
pub fn floor_f(n: Fixed) -> (r: Fixed)
    ensures
        r == fx(floor_raw(n@)),
        r@ == floor_raw(n@),
{
    let t: i64 = (n.raw / SCALE) * SCALE;
    if n.raw >= 0 || t == n.raw {
        Fixed { raw: t }
    } else {
        Fixed { raw: t - SCALE }
    }
}

/// The smallest whole number that is not below `n`, clamped.
pub fn ceil_f(n: Fixed) -> (r: Fixed)
    ensures
        r == fx(ceil_raw(n@)),
{
    let t: i64 = (n.raw / SCALE) * SCALE;
    if n.raw <= 0 || t == n.raw {
        Fixed { raw: t }
    } else {
        Fixed::from_wide(t as i128 + SCALE as i128)
    }
}

/// The square root of `n`, rounded down to a multiple of `2^-32`; zero for a
/// negative `n`.
pub fn sqrt_f(n: Fixed) -> (r: Fixed)
    ensures
        r@ == sqrt_raw(n@),
        n@ > 0 ==> is_floor_sqrt(n@ * SCALE, r@),
{
    if n.raw <= 0 {
        return Fixed::zero();
    }
    let target: u128 = (n.raw as u128) * (SCALE as u128);
    let mut lo: u128 = 0;
    let mut hi: u128 = 0x1_0000_0000_0000;
    assert(target < hi * hi) by (nonlinear_arith)
        requires
            hi == 0x1_0000_0000_0000,
            target < 0x8000_0000_0000_0000_0000_0000,
    ;
    while hi - lo > 1
        invariant
            lo < hi <= 0x1_0000_0000_0000,
            lo * lo <= target,
            target < hi * hi,
        decreases hi - lo,
    {
        let mid: u128 = lo + (hi - lo) / 2;
        assert(mid * mid < 0x1_0000_0000_0000_0000_0000_0000) by (nonlinear_arith)
            requires
                mid < 0x1_0000_0000_0000,
        ;
        if mid * mid <= target {
            lo = mid;
        } else {
            hi = mid;
        }
    }
    proof {
        let witness = lo as int;
        assert(is_floor_sqrt(n@ * SCALE, witness));
        let chosen = sqrt_raw(n@);
        assert(is_floor_sqrt(n@ * SCALE, chosen));
        lemma_floor_sqrt_unique(n@ * SCALE, witness, chosen);
    }
    Fixed { raw: lo as i64 }
}

} // verus!
