//! Saturating fixed-point numbers.
//!
//! Every quantity of the pipeline (coordinates, matrix entries, distances,
//! inverse depths) is a [`Fixed`]: a signed number with 32 integer bits and 32
//! fractional bits, held in an `i64`. The number that a `Fixed` stands for is
//! `raw / 2^32`.
//!
//! Arithmetic never fails. A result that does not fit is clamped to the nearest
//! representable number, so the two ends of the range act as plus and minus
//! infinity. Products and quotients are rounded toward zero.
use vstd::prelude::*;

verus! {

/// The raw value of the number one: `2^32`.
pub const SCALE: i64 = 0x1_0000_0000;

/// The raw value of the largest number, which stands for plus infinity.
pub const INFINITY_RAW: i64 = 0x7fff_ffff_ffff_ffff;

/// A fixed-point number; `raw` counts units of `2^-32`.
#[derive(Clone, Copy, Debug)]
pub struct Fixed {
    pub raw: i64,
}

impl View for Fixed {
    type V = int;

    open spec fn view(&self) -> int {
        self.raw as int
    }
}

/// The nearest `i64` to `v`.
pub open spec fn clamp(v: int) -> int {
    if v < i64::MIN {
        i64::MIN as int
    } else if v > i64::MAX {
        i64::MAX as int
    } else {
        v
    }
}

/// The number nearest to the raw value `v`.
pub open spec fn fx(v: int) -> Fixed {
    Fixed { raw: clamp(v) as i64 }
}

/// The quotient `n / d` rounded toward zero, for a positive `d`.
pub open spec fn trunc_div(n: int, d: int) -> int
    recommends
        d > 0,
{
    if n >= 0 {
        n / d
    } else {
        -((-n) / d)
    }
}

/// The product of two raw values, scaled back and rounded toward zero.
pub open spec fn prod(a: int, b: int) -> int {
    trunc_div(a * b, SCALE as int)
}

/// The quotient of two raw values, rounded toward zero. The sign of a zero
/// divisor is taken as positive, and the quotient by zero is as large as the
/// type allows.
pub open spec fn quot(a: int, b: int) -> int {
    if b > 0 {
        trunc_div(a * SCALE, b)
    } else if b < 0 {
        trunc_div(-a * SCALE, -b)
    } else if a > 0 {
        i64::MAX as int
    } else if a < 0 {
        i64::MIN as int
    } else {
        0
    }
}

/// The whole part of a raw value, rounded toward zero.
pub open spec fn whole(a: int) -> int {
    trunc_div(a, SCALE as int)
}

/// The largest `r >= 0` with `r * r <= n`, for `n >= 0`.
pub open spec fn is_floor_sqrt(n: int, r: int) -> bool {
    &&& 0 <= r
    &&& r * r <= n
    &&& n < (r + 1) * (r + 1)
}

/// The product of two raw values, exact or rounded, stays far inside the
/// range of a 128-bit integer.
pub proof fn lemma_prod_bounds(a: int, b: int)
    requires
        i64::MIN <= a <= i64::MAX,
        i64::MIN <= b <= i64::MAX,
    ensures
        -0x8000_0000_0000_0000_0000_0000 <= prod(a, b) <= 0x8000_0000_0000_0000_0000_0000,
        -0x4000_0000_0000_0000_0000_0000_0000_0000 <= a * b
            <= 0x4000_0000_0000_0000_0000_0000_0000_0000,
{
    assert(-0x4000_0000_0000_0000_0000_0000_0000_0000 <= a * b
        <= 0x4000_0000_0000_0000_0000_0000_0000_0000) by (nonlinear_arith)
        requires
            -0x8000_0000_0000_0000 <= a <= 0x8000_0000_0000_0000,
            -0x8000_0000_0000_0000 <= b <= 0x8000_0000_0000_0000,
    ;
}

/// Rounding a product loses less than one unit: `prod(a, b) * 2^32` and `a * b`
/// differ by less than `2^32`, and the rounded product is never larger in
/// magnitude than the exact one.
pub proof fn lemma_prod_error(a: int, b: int)
    ensures
        -(SCALE as int) < prod(a, b) * SCALE - a * b < SCALE as int,
        a * b >= 0 ==> 0 <= prod(a, b) * SCALE <= a * b,
        a * b <= 0 ==> a * b <= prod(a, b) * SCALE <= 0,
{
    lemma_trunc_div_error(a * b, SCALE as int);
}

/// Rounding toward zero loses less than one divisor.
pub proof fn lemma_trunc_div_error(n: int, d: int)
    requires
        d > 0,
    ensures
        -d < trunc_div(n, d) * d - n < d,
        n >= 0 ==> 0 <= trunc_div(n, d) * d <= n,
        n <= 0 ==> n <= trunc_div(n, d) * d <= 0,
{
    if n >= 0 {
        vstd::arithmetic::div_mod::lemma_fundamental_div_mod(n, d);
        vstd::arithmetic::div_mod::lemma_mod_bound(n, d);
        assert(d * (n / d) == (n / d) * d) by (nonlinear_arith);
    } else {
        let m = -n;
        vstd::arithmetic::div_mod::lemma_fundamental_div_mod(m, d);
        vstd::arithmetic::div_mod::lemma_mod_bound(m, d);
        assert(d * (m / d) == (m / d) * d) by (nonlinear_arith);
        assert((-(m / d)) * d == -((m / d) * d)) by (nonlinear_arith);
    }
}

/// `trunc_div` does not decrease when its numerator grows.
pub proof fn lemma_trunc_div_monotonic(m: int, n: int, d: int)
    requires
        d > 0,
        m <= n,
    ensures
        trunc_div(m, d) <= trunc_div(n, d),
{
    if m >= 0 {
        vstd::arithmetic::div_mod::lemma_div_is_ordered(m, n, d);
    } else if n < 0 {
        vstd::arithmetic::div_mod::lemma_div_is_ordered(-n, -m, d);
    } else {
        vstd::arithmetic::div_mod::lemma_div_pos_is_pos(-m, d);
        vstd::arithmetic::div_mod::lemma_div_pos_is_pos(n, d);
    }
}

/// A multiple of the divisor is divided exactly.
pub proof fn lemma_trunc_div_exact(q: int, d: int)
    requires
        d > 0,
    ensures
        trunc_div(q * d, d) == q,
{
    if q >= 0 {
        assert(q * d >= 0) by (nonlinear_arith)
            requires
                q >= 0,
                d > 0,
        ;
        vstd::arithmetic::div_mod::lemma_div_by_multiple(q, d);
    } else {
        assert(q * d < 0 && -(q * d) == (-q) * d) by (nonlinear_arith)
            requires
                q < 0,
                d > 0,
        ;
        vstd::arithmetic::div_mod::lemma_div_by_multiple(-q, d);
    }
}

/// Rounds a wide value to the nearest `i64`.
pub fn saturate(v: i128) -> (r: i64)
    ensures
        r == clamp(v as int),
{
    if v < i64::MIN as i128 {
        i64::MIN
    } else if v > i64::MAX as i128 {
        i64::MAX
    } else {
        v as i64
    }
}

/// The rounded product of two raw values, not yet clamped.
pub fn wide_prod(a: i64, b: i64) -> (r: i128)
    ensures
        r == prod(a as int, b as int),
        -0x8000_0000_0000_0000_0000_0000 <= r <= 0x8000_0000_0000_0000_0000_0000,
{
    proof {
        lemma_prod_bounds(a as int, b as int);
    }
    let p: i128 = (a as i128) * (b as i128);
    p / (SCALE as i128)
}

impl Fixed {
    /// Zero.
    pub fn zero() -> (r: Fixed)
        ensures
            r@ == 0,
    {
        Fixed { raw: 0 }
    }

    /// One.
    pub fn one() -> (r: Fixed)
        ensures
            r@ == SCALE,
    {
        Fixed { raw: SCALE }
    }

    /// The largest number; it stands for plus infinity.
    pub fn infinity() -> (r: Fixed)
        ensures
            r@ == INFINITY_RAW,
    {
        Fixed { raw: INFINITY_RAW }
    }

    /// The number nearest to a wide raw value.
    pub fn from_wide(v: i128) -> (r: Fixed)
        ensures
            r == fx(v as int),
    {
        Fixed { raw: saturate(v) }
    }

    /// The number with the given raw value.
    pub fn from_raw(raw: i64) -> (r: Fixed)
        ensures
            r@ == raw,
    {
        Fixed { raw }
    }

    /// The whole number `n`.
    pub fn from_int(n: i32) -> (r: Fixed)
        ensures
            r@ == n * SCALE,
    {
        Fixed { raw: (n as i64) * SCALE }
    }

    /// The whole number `n`, clamped.
    pub fn from_usize(n: usize) -> (r: Fixed)
        ensures
            r == fx(n * SCALE),
    {
        if n > 0x7fff_ffff {
            Fixed { raw: i64::MAX }
        } else {
            Fixed { raw: (n as i64) * SCALE }
        }
    }

    /// The fraction `num / den`, rounded toward zero and clamped; see [`quot`]
    /// for a zero denominator.
    pub fn from_ratio(num: i32, den: i32) -> (r: Fixed)
        ensures
            r == fx(quot(num * SCALE, den * SCALE)),
    {
        Fixed::from_int(num).div(Fixed::from_int(den))
    }

    /// The sum, clamped.
    pub fn add(self, other: Fixed) -> (r: Fixed)
        ensures
            r == fx(self@ + other@),
    {
        Fixed { raw: saturate(self.raw as i128 + other.raw as i128) }
    }

    /// The difference, clamped.
    pub fn sub(self, other: Fixed) -> (r: Fixed)
        ensures
            r == fx(self@ - other@),
    {
        Fixed { raw: saturate(self.raw as i128 - other.raw as i128) }
    }

    /// The negation, clamped.
    pub fn neg(self) -> (r: Fixed)
        ensures
            r == fx(-self@),
    {
        Fixed { raw: saturate(-(self.raw as i128)) }
    }

    /// The product, rounded toward zero and clamped.
    pub fn mul(self, other: Fixed) -> (r: Fixed)
        ensures
            r == fx(prod(self@, other@)),
    {
        Fixed { raw: saturate(wide_prod(self.raw, other.raw)) }
    }

    /// The quotient, rounded toward zero and clamped. Dividing a positive
    /// number by zero gives the largest number, a negative one the smallest,
    /// and zero by zero is zero.
    pub fn div(self, other: Fixed) -> (r: Fixed)
        ensures
            r == fx(quot(self@, other@)),
    {
        let n: i128 = (self.raw as i128) * (SCALE as i128);
        assert(n == self@ * SCALE);
        if other.raw > 0 {
            Fixed { raw: saturate(n / (other.raw as i128)) }
        } else if other.raw < 0 {
            Fixed { raw: saturate((-n) / (-(other.raw as i128))) }
        } else if self.raw > 0 {
            Fixed { raw: i64::MAX }
        } else if self.raw < 0 {
            Fixed { raw: i64::MIN }
        } else {
            Fixed { raw: 0 }
        }
    }

    /// The whole part, rounded toward zero.
    pub fn trunc(self) -> (r: i32)
        ensures
            r == whole(self@),
    {
        (self.raw / SCALE) as i32
    }

    /// Whether `self` is smaller than `other`.
    pub fn lt(self, other: Fixed) -> (r: bool)
        ensures
            r == (self@ < other@),
    {
        self.raw < other.raw
    }

    /// Whether `self` is larger than `other`.
    pub fn gt(self, other: Fixed) -> (r: bool)
        ensures
            r == (self@ > other@),
    {
        self.raw > other.raw
    }

    /// Whether the two numbers are the same.
    pub fn eq(self, other: Fixed) -> (r: bool)
        ensures
            r == (self@ == other@),
    {
        self.raw == other.raw
    }
}

} // verus!
