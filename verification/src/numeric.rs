//! Exact arithmetic on ratios of whole numbers.

use vstd::prelude::*;

verus! {

/// The larger of two numbers.
pub open spec fn larger(a: int, b: int) -> int {
    if a >= b {
        a
    } else {
        b
    }
}

/// The smaller of two numbers.
pub open spec fn smaller(a: int, b: int) -> int {
    if a <= b {
        a
    } else {
        b
    }
}

/// The largest whole number whose square is at most `n`.
pub open spec fn floor_root(n: nat) -> nat
    decreases n,
{
    if n == 0 {
        0
    } else {
        let r = floor_root((n - 1) as nat);
        if (r + 1) * (r + 1) <= n {
            r + 1
        } else {
            r
        }
    }
}

/// What makes [`floor_root`] what it is.
pub proof fn lemma_floor_root(n: nat)
    ensures
        floor_root(n) * floor_root(n) <= n,
        n < (floor_root(n) + 1) * (floor_root(n) + 1),
    decreases n,
{
    if n == 0 {
        assert(floor_root(n) == 0);
        assert((0nat + 1) * (0nat + 1) == 1) by (nonlinear_arith);
    } else {
        lemma_floor_root((n - 1) as nat);
        let r = floor_root((n - 1) as nat);
        assert(r * r <= n - 1);
        if (r + 1) * (r + 1) <= n {
            assert(n < (r + 1 + 1) * (r + 1 + 1)) by (nonlinear_arith)
                requires
                    n - 1 < (r + 1) * (r + 1),
            ;
            assert(floor_root(n) == r + 1);
        } else {
            assert(floor_root(n) == r);
        }
    }
}

/// Only one number is the root.
pub proof fn lemma_floor_root_unique(n: nat, r: nat)
    requires
        r * r <= n,
        n < (r + 1) * (r + 1),
    ensures
        r == floor_root(n),
{
    lemma_floor_root(n);
    let s = floor_root(n);
    if r < s {
        assert((r + 1) * (r + 1) <= s * s) by (nonlinear_arith)
            requires
                r + 1 <= s,
        ;
    }
    if s < r {
        assert((s + 1) * (s + 1) <= r * r) by (nonlinear_arith)
            requires
                s + 1 <= r,
        ;
    }
}

/// The largest whole number whose square is at most `n`, where it is below `limit`.
fn root_below(n: u128, limit: u64) -> (r: u64)
    requires
        limit > 0,
        n < limit * limit,
    ensures
        r == floor_root(n as nat),
        r < limit,
{
    let mut lo: u64 = 0;
    let mut hi: u64 = limit;
    while hi - lo > 1
        invariant
            lo < hi <= limit,
            lo * lo <= n,
            n < hi * hi,
        decreases hi - lo,
    {
        let mid: u64 = lo + (hi - lo) / 2;
        assert(mid * mid <= 0xffff_ffff_ffff_ffff * 0xffff_ffff_ffff_ffff) by (nonlinear_arith)
            requires
                0 <= mid <= 0xffff_ffff_ffff_ffff,
        ;
        if (mid as u128) * (mid as u128) <= n {
            lo = mid;
        } else {
            hi = mid;
        }
    }
    proof {
        assert(hi == lo + 1);
        lemma_floor_root_unique(n as nat, lo as nat);
    }
    lo
}

/// The largest whole number whose square is at most `n`, for `n` below two to the power of 96.
pub fn integer_root(n: u128) -> (r: u64)
    requires
        n < 0x1_0000_0000_0000_0000_0000_0000,
    ensures
        r == floor_root(n as nat),
        r < 0x1_0000_0000_0000,
{
    root_below(n, 0x1_0000_0000_0000)
}

/// Whether `a / b` is less than `c / d`.
pub fn ratio_less(a: u128, b: u128, c: u128, d: u128) -> (r: bool)
    requires
        b > 0,
        d > 0,
    ensures
        r == (a * d < c * b),
        r == less_ratio(a as int, b as int, c as int, d as int),
    decreases b + d,
{
    let q1: u128 = a / b;
    let q2: u128 = c / d;
    let r1: u128 = a % b;
    let r2: u128 = c % d;
    proof {
        let (a, b, c, d) = (a as int, b as int, c as int, d as int);
        let (q1, q2, r1, r2) = (q1 as int, q2 as int, r1 as int, r2 as int);
        assert(a == q1 * b + r1 && 0 <= r1 < b) by (nonlinear_arith)
            requires
                b > 0,
                q1 == a / b,
                r1 == a % b,
        ;
        assert(c == q2 * d + r2 && 0 <= r2 < d) by (nonlinear_arith)
            requires
                d > 0,
                q2 == c / d,
                r2 == c % d,
        ;
        assert(a * d == q1 * (b * d) + r1 * d) by (nonlinear_arith)
            requires
                a == q1 * b + r1,
        ;
        assert(c * b == q2 * (b * d) + r2 * b) by (nonlinear_arith)
            requires
                c == q2 * d + r2,
        ;
        assert(0 <= r1 * d < b * d && 0 <= r2 * b < b * d) by (nonlinear_arith)
            requires
                0 <= r1 < b,
                0 <= r2 < d,
        ;
        if q1 < q2 {
            assert(q1 * (b * d) + b * d <= q2 * (b * d)) by (nonlinear_arith)
                requires
                    q1 + 1 <= q2,
                    b * d >= 0,
            ;
        }
        if q2 < q1 {
            assert(q2 * (b * d) + b * d <= q1 * (b * d)) by (nonlinear_arith)
                requires
                    q2 + 1 <= q1,
                    b * d >= 0,
            ;
        }
    }
    if q1 != q2 {
        return q1 < q2;
    }
    if r2 == 0 {
        assert(r2 * b == 0) by (nonlinear_arith)
            requires
                r2 == 0,
        ;
        return false;
    }
    if r1 == 0 {
        assert(r1 * d == 0) by (nonlinear_arith)
            requires
                r1 == 0,
        ;
        assert(r2 * b > 0) by (nonlinear_arith)
            requires
                r2 > 0,
                b > 0,
        ;
        return true;
    }
    let less = ratio_less(d, r2, b, r1);
    assert(d * r1 == r1 * d) by (nonlinear_arith);
    assert(b * r2 == r2 * b) by (nonlinear_arith);
    less
}

/// `num / den` rounded to the nearest whole number, and to the even one of two that are as near.
pub open spec fn rounded(num: int, den: int) -> int
    recommends
        num >= 0,
        den > 0,
{
    let q = num / den;
    let r = num % den;
    if 2 * r > den || (2 * r == den && q % 2 == 1) {
        q + 1
    } else {
        q
    }
}

/// `num / den` rounded to the nearest whole number, and to the even one of two that are as near.
pub fn py_round(num: u128, den: u128) -> (r: u128)
    requires
        den > 0,
    ensures
        r == rounded(num as int, den as int),
{
    let q: u128 = num / den;
    let r: u128 = num % den;
    let rest: u128 = den - r;
    if r > rest || (r == rest && q % 2 == 1) {
        proof {
            assert(q < 0xffff_ffff_ffff_ffff_ffff_ffff_ffff_ffff) by (nonlinear_arith)
                requires
                    q == num / den,
                    r == num % den,
                    den > 0,
                    num <= 0xffff_ffff_ffff_ffff_ffff_ffff_ffff_ffff,
                    r > 0,
            ;
        }
        q + 1
    } else {
        q
    }
}

/// The rounded number is at most half away.
pub proof fn law_rounding_is_nearest(num: int, den: int)
    requires
        num >= 0,
        den > 0,
    ensures
        2 * rounded(num, den) * den - den <= 2 * num <= 2 * rounded(num, den) * den + den,
{
    let q = num / den;
    let r = num % den;
    assert(num == q * den + r && 0 <= r < den) by (nonlinear_arith)
        requires
            den > 0,
            q == num / den,
            r == num % den,
    ;
    assert((q + 1) * den == q * den + den) by (nonlinear_arith);
    assert(2 * q * den == 2 * (q * den)) by (nonlinear_arith);
    assert(2 * (q + 1) * den == 2 * ((q + 1) * den)) by (nonlinear_arith);
}

/// Whether a ratio is less than another.
pub open spec fn less_ratio(a: int, b: int, c: int, d: int) -> bool {
    a * d < c * b
}

/// A ratio is not less than itself, of two ratios at most one is less, and one with a larger numerator over
/// the same denominator is larger.
pub proof fn law_ratios_are_ordered(a: int, b: int, c: int, d: int)
    requires
        b > 0,
        d > 0,
    ensures
        !less_ratio(a, b, a, b),
        less_ratio(a, b, c, d) ==> !less_ratio(c, d, a, b),
        less_ratio(a, b, c, b) <==> a < c,
        less_ratio(a * d, b * d, c, d) <==> less_ratio(a, b, c, d),
{
    assert((a * b < c * b) == (a < c)) by (nonlinear_arith)
        requires
            b > 0,
    ;
    assert((a * d) * d < c * (b * d) <==> a * d < c * b) by (nonlinear_arith)
        requires
            d > 0,
    ;
}

/// The rounded quotient is the nearest whole number, and halfway between two the even one.
pub proof fn law_rounded_is_nearest(num: int, den: int)
    requires
        num >= 0,
        den > 0,
    ensures
        2 * (rounded(num, den) * den - num) <= den,
        2 * (num - rounded(num, den) * den) <= den,
        2 * (rounded(num, den) * den - num) == den || 2 * (num - rounded(num, den) * den) == den
            ==> rounded(num, den) % 2 == 0,
{
    let q = num / den;
    let m = num % den;
    assert(num == q * den + m && 0 <= m < den) by (nonlinear_arith)
        requires
            den > 0,
            q == num / den,
            m == num % den,
    ;
    assert((q + 1) * den == q * den + den) by (nonlinear_arith);
}

} // verus!
