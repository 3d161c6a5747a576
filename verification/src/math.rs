use vstd::prelude::*;
use vstd::arithmetic::div_mod::{
    lemma_div_by_multiple, lemma_div_is_ordered, lemma_div_nonincreasing, lemma_div_pos_is_pos,
};

verus! {

/// Integer square root: the largest r with r * r <= n, and 0 for n <= 0.
pub open spec fn sqrt_floor(n: int) -> int
    decreases n,
{
    if n <= 0 {
        0
    } else {
        let r = sqrt_floor(n - 1);
        if (r + 1) * (r + 1) <= n {
            r + 1
        } else {
            r
        }
    }
}

/// sqrt_floor(n) is the floor of the square root of n.
pub proof fn lemma_sqrt_floor_bounds(n: int)
    requires
        0 <= n,
    ensures
        0 <= sqrt_floor(n),
        sqrt_floor(n) * sqrt_floor(n) <= n,
        n < (sqrt_floor(n) + 1) * (sqrt_floor(n) + 1),
    decreases n,
{
    if n == 0 {
    } else {
        lemma_sqrt_floor_bounds(n - 1);
        let r = sqrt_floor(n - 1);
        if (r + 1) * (r + 1) <= n {
            assert(sqrt_floor(n) == r + 1);
            assert(n < (r + 2) * (r + 2)) by (nonlinear_arith)
                requires
                    n - 1 < (r + 1) * (r + 1),
                    0 <= r,
            ;
        } else {
            assert(sqrt_floor(n) == r);
        }
    }
}

/// Any r in the floor-square-root position for n equals sqrt_floor(n).
pub proof fn lemma_sqrt_floor_unique(n: int, r: int)
    requires
        0 <= n,
        0 <= r,
        r * r <= n,
        n < (r + 1) * (r + 1),
    ensures
        r == sqrt_floor(n),
{
    lemma_sqrt_floor_bounds(n);
    let s = sqrt_floor(n);
    assert(r == s) by (nonlinear_arith)
        requires
            0 <= r,
            0 <= s,
            r * r <= n,
            n < (r + 1) * (r + 1),
            s * s <= n,
            n < (s + 1) * (s + 1),
    ;
}

/// Quotient of a by b rounded toward zero, for b > 0.
pub open spec fn div_tz(a: int, b: int) -> int
    recommends
        b > 0,
{
    if a >= 0 {
        a / b
    } else {
        -((-a) / b)
    }
}

/// Rounding toward zero commutes with negation of the dividend.
pub proof fn lemma_div_tz_neg(a: int, b: int)
    requires
        b > 0,
    ensures
        div_tz(-a, b) == -div_tz(a, b),
{
    if a == 0 {
        lemma_div_pos_is_pos(0, b);
        lemma_div_nonincreasing(0, b);
        assert(0int / b == 0);
    }
}

/// The magnitude of a quotient rounded toward zero never exceeds the
/// magnitude of the dividend.
pub proof fn lemma_div_tz_mag(a: int, b: int)
    requires
        b > 0,
    ensures
        a >= 0 ==> 0 <= div_tz(a, b) <= a,
        a < 0 ==> a <= div_tz(a, b) <= 0,
{
    if a >= 0 {
        lemma_div_pos_is_pos(a, b);
        lemma_div_nonincreasing(a, b);
    } else {
        lemma_div_pos_is_pos(-a, b);
        lemma_div_nonincreasing(-a, b);
    }
}

/// A nonnegative dividend below a multiple of the divisor divides to at
/// most that multiplier: 0 <= a <= q * b implies a / b <= q.
pub proof fn lemma_div_le_multiple(a: int, b: int, q: int)
    requires
        b > 0,
        0 <= a,
        a <= q * b,
    ensures
        0 <= a / b <= q,
{
    lemma_div_pos_is_pos(a, b);
    lemma_div_is_ordered(a, q * b, b);
    assert(0 <= q) by (nonlinear_arith)
        requires
            0 <= a,
            a <= q * b,
            b > 0,
    ;
    lemma_div_by_multiple(q, b);
}

/// A dividend bounded in magnitude by q * b divides (toward zero) to a
/// quotient bounded in magnitude by q.
pub proof fn lemma_div_tz_le(a: int, b: int, q: int)
    requires
        b > 0,
        0 <= q,
        -(q * b) <= a <= q * b,
    ensures
        -q <= div_tz(a, b) <= q,
{
    if a >= 0 {
        lemma_div_le_multiple(a, b, q);
    } else {
        lemma_div_le_multiple(-a, b, q);
    }
}

/// Integer square root of n, for n below 2^126.
pub fn isqrt_u128(n: u128) -> (r: u128)
    requires
        n < 0x40000000000000000000000000000000u128,
    ensures
        r as int == sqrt_floor(n as int),
        r < 0x8000000000000000u128,
        r * r <= n,
        n < (r + 1) * (r + 1),
{
    let mut lo: u128 = 0;
    let mut hi: u128 = 0x8000000000000000u128;
    assert(hi * hi == 0x40000000000000000000000000000000);
    while lo + 1 < hi
        invariant
            lo < hi,
            hi <= 0x8000000000000000u128,
            lo * lo <= n,
            n < hi * hi,
        decreases hi - lo,
    {
        let mid = lo + (hi - lo) / 2;
        assert(lo < mid < hi);
        assert(mid * mid <= 0x40000000000000000000000000000000) by (nonlinear_arith)
            requires
                mid <= 0x8000000000000000u128,
        ;
        if mid * mid <= n {
            lo = mid;
        } else {
            hi = mid;
        }
    }
    proof {
        lemma_sqrt_floor_unique(n as int, lo as int);
    }
    lo
}

/// Integer square root on signed values, for 0 <= n below 2^126.
pub fn isqrt(n: i128) -> (r: i128)
    requires
        0 <= n,
        n < 0x40000000000000000000000000000000i128,
    ensures
        r as int == sqrt_floor(n as int),
        0 <= r,
        r * r <= n,
        n < (r + 1) * (r + 1),
{
    let r = isqrt_u128(n as u128);
    r as i128
}

/// Quotient rounded toward zero, as div_tz states it.
pub fn div_trunc(a: i128, b: i128) -> (q: i128)
    requires
        0 < b,
        -0x7fffffffffffffffffffffffffffffffi128 <= a,
    ensures
        q as int == div_tz(a as int, b as int),
{
    if a >= 0 {
        let q = (a as u128) / (b as u128);
        proof {
            lemma_div_pos_is_pos(a as int, b as int);
            lemma_div_nonincreasing(a as int, b as int);
        }
        q as i128
    } else {
        let m = ((-a) as u128) / (b as u128);
        proof {
            lemma_div_pos_is_pos(-(a as int), b as int);
            lemma_div_nonincreasing(-(a as int), b as int);
        }
        -(m as i128)
    }
}

} // verus!
