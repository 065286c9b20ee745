//! Integer division with a chosen rounding, and integer square roots.

use crate::products::lemma_mul_neg;
use crate::products::lemma_square_order;
use vstd::arithmetic::div_mod::lemma_fundamental_div_mod;
use vstd::arithmetic::div_mod::lemma_fundamental_div_mod_converse;
use vstd::prelude::*;

verus! {

/// Largest magnitude of a dividend that the division helpers accept.
pub(crate) const DIVIDEND_MAX: i128 = 0x6000_0000_0000_0000_0000_0000_0000_0000;

/// Largest divisor that the division helpers accept.
pub(crate) const DIVISOR_MAX: i128 = 0x2000_0000_0000_0000_0000_0000_0000_0000;

/// Largest argument of the integer square root.
pub(crate) const SQRT_MAX: u128 = 0x0fff_ffff_ffff_ffff_ffff_ffff_ffff_ffff;

/// The absolute value of an integer.
pub open spec fn abs(a: int) -> int {
    if a < 0 {
        -a
    } else {
        a
    }
}

/// The nearest integer to `a / b`, a tie going up.
pub open spec fn round_div(a: int, b: int) -> int
    recommends
        b > 0,
{
    (2 * a + b) / (2 * b)
}

/// The least integer that is not below `a / b`.
pub open spec fn ceil_div(a: int, b: int) -> int
    recommends
        b > 0,
{
    -((-a) / b)
}

/// A number brought into `[-w / 2, w / 2)` by whole multiples of `w`.
pub open spec fn centred_wrap(x: int, w: int) -> int
    recommends
        w > 0,
{
    x - w * ((2 * x + w) / (2 * w))
}

/// Whether `x / w` lies half-way between two whole numbers.
pub open spec fn on_half(x: int, w: int) -> bool
    recommends
        w > 0,
{
    (2 * x + w) % (2 * w) == 0
}

/// `r` is the integer square root of `n`.
pub open spec fn is_sqrt(n: int, r: int) -> bool {
    0 <= r && r * r <= n < (r + 1) * (r + 1)
}

/// The integer square root of `n`: the largest `r` with `r * r <= n`.
pub open spec fn isqrt(n: int) -> int {
    choose|r: int| is_sqrt(n, r)
}

/// The integer square root rounded up: the least `r` with `n <= r * r`.
pub open spec fn isqrt_up(n: int) -> int {
    if isqrt(n) * isqrt(n) == n {
        isqrt(n)
    } else {
        isqrt(n) + 1
    }
}

/// The quotient `q` and remainder `r` of a floor division determine it.
pub proof fn lemma_floor_div_is(a: int, b: int, q: int, r: int)
    requires
        b > 0,
        a == q * b + r,
        0 <= r < b,
    ensures
        a / b == q,
        a % b == r,
{
    lemma_fundamental_div_mod_converse(a, b, q, r);
}

/// A quotient of non-negative integers is between zero and the dividend.
pub proof fn lemma_quotient_bound(a: int, b: int)
    requires
        a >= 0,
        b > 0,
    ensures
        0 <= a / b <= a,
{
    lemma_fundamental_div_mod(a, b);
    let q = a / b;
    let r = a % b;
    assert(0 <= q <= a) by (nonlinear_arith)
        requires
            a == b * q + r,
            0 <= r < b,
            a >= 0,
            b > 0,
    ;
}

/// A common positive factor of dividend and divisor cancels.
pub proof fn lemma_div_cancel(x: int, y: int, e: int)
    requires
        y > 0,
        e > 0,
    ensures
        (e * x) / (e * y) == x / y,
{
    lemma_fundamental_div_mod(x, y);
    let q = x / y;
    let r = x % y;
    assert(e * y > 0) by (nonlinear_arith)
        requires
            e > 0,
            y > 0,
    ;
    assert(e * x == q * (e * y) + e * r) by (nonlinear_arith)
        requires
            x == y * q + r,
    ;
    assert(0 <= e * r < e * y) by (nonlinear_arith)
        requires
            0 <= r < y,
            e > 0,
    ;
    lemma_floor_div_is(e * x, e * y, q, e * r);
}

/// The quotient rounded up, times the divisor, is not below the dividend.
pub proof fn lemma_ceil_div_reaches(x: int, v: int)
    requires
        v > 0,
    ensures
        ceil_div(x, v) * v >= x,
{
    lemma_fundamental_div_mod(-x, v);
    let q = (-x) / v;
    lemma_mul_neg(q, v);
    lemma_mul_neg(v, q);
}

/// The remainder that rounding to the nearest whole number leaves is in
/// `[-1 / 2, 1 / 2)`.
pub proof fn lemma_round_residual(a: int, b: int)
    requires
        b > 0,
    ensures
        -b <= 2 * (a - round_div(a, b) * b) < b,
{
    let k = (2 * a + b) / (2 * b);
    lemma_fundamental_div_mod(2 * a + b, 2 * b);
    assert((2 * b) * k == 2 * (k * b)) by (nonlinear_arith);
}

/// A common positive factor of the two parts of a ratio does not change
/// what it rounds to.
pub proof fn lemma_round_cancel(a: int, b: int, e: int)
    requires
        b > 0,
        e > 0,
    ensures
        round_div(e * a, e * b) == round_div(a, b),
{
    assert(2 * (e * b) == e * (2 * b)) by (nonlinear_arith);
    assert(2 * (e * a) + e * b == e * (2 * a + b)) by (nonlinear_arith);
    lemma_div_cancel(2 * a + b, 2 * b, e);
}

/// A ratio moved by a whole number rounds to the number it rounded to,
/// moved as far.
pub proof fn lemma_round_shift(a: int, b: int, n: int)
    requires
        b > 0,
    ensures
        round_div(a + n * b, b) == round_div(a, b) + n,
{
    let y = 2 * a + b;
    lemma_fundamental_div_mod(y, 2 * b);
    let q = y / (2 * b);
    let r = y % (2 * b);
    assert(2 * (a + n * b) + b == (q + n) * (2 * b) + r) by (nonlinear_arith)
        requires
            2 * a + b == (2 * b) * q + r,
    ;
    lemma_floor_div_is(2 * (a + n * b) + b, 2 * b, q + n, r);
}

/// Off the half-way points, the opposite ratio rounds to the opposite
/// number.
pub proof fn lemma_round_neg(a: int, b: int)
    requires
        b > 0,
        !on_half(a, b),
    ensures
        round_div(-a, b) == -round_div(a, b),
{
    let y = 2 * a + b;
    let d = 2 * b;
    lemma_fundamental_div_mod(y, d);
    let q = y / d;
    let r = y % d;
    assert(d * q == q * d) by (nonlinear_arith);
    assert((-q) * d == -(q * d)) by (nonlinear_arith);
    lemma_floor_div_is(d - y, d, -q, d - r);
    assert(2 * (-a) + b == d - y);
}

/// A number less its nearest multiple of `w` is the number brought into
/// `[-w / 2, w / 2)`.
pub proof fn lemma_round_is_centred(x: int, w: int)
    requires
        w > 0,
    ensures
        x - round_div(x, w) * w == centred_wrap(x, w),
        x - w * round_div(x, w) == centred_wrap(x, w),
{
    let k = round_div(x, w);
    assert(k * w == w * k) by (nonlinear_arith);
}

/// A centred number lies in `[-w / 2, w / 2)`.
pub proof fn lemma_centred_wrap_range(x: int, w: int)
    requires
        w > 0,
    ensures
        -w <= 2 * centred_wrap(x, w) < w,
{
    lemma_fundamental_div_mod(2 * x + w, 2 * w);
    let q = (2 * x + w) / (2 * w);
    assert((2 * w) * q == 2 * (w * q)) by (nonlinear_arith);
}

/// Two integers squaring around the same number are equal.
pub proof fn lemma_sqrt_unique(n: int, r: int, s: int)
    requires
        is_sqrt(n, r),
        is_sqrt(n, s),
    ensures
        r == s,
{
    assert(r == s) by (nonlinear_arith)
        requires
            0 <= r,
            0 <= s,
            r * r <= n < (r + 1) * (r + 1),
            s * s <= n < (s + 1) * (s + 1),
    ;
}

/// An integer that squares around `n` is its integer square root.
pub proof fn lemma_isqrt_is(n: int, r: int)
    requires
        is_sqrt(n, r),
    ensures
        isqrt(n) == r,
{
    lemma_sqrt_unique(n, r, isqrt(n));
}

/// Every number that is not negative has an integer square root.
pub proof fn lemma_isqrt_exists(n: int)
    requires
        n >= 0,
    ensures
        is_sqrt(n, isqrt(n)),
    decreases n,
{
    if n == 0 {
        assert(is_sqrt(0, 0));
    } else {
        lemma_isqrt_exists(n - 1);
        let r = isqrt(n - 1);
        if (r + 1) * (r + 1) <= n {
            assert(n < (r + 2) * (r + 2)) by (nonlinear_arith)
                requires
                    n - 1 < (r + 1) * (r + 1),
                    r >= 0,
            ;
            assert(is_sqrt(n, r + 1));
        } else {
            assert(is_sqrt(n, r));
        }
    }
}

/// The square root rounded up squares to at least the number, and is at most
/// one above the square root rounded down.
pub proof fn lemma_isqrt_up(n: int)
    requires
        n >= 0,
    ensures
        0 <= isqrt(n) <= isqrt_up(n) <= isqrt(n) + 1,
        n <= isqrt_up(n) * isqrt_up(n),
        n > 0 ==> isqrt_up(n) > 0,
{
    lemma_isqrt_exists(n);
    let r = isqrt(n);
    if n > 0 && isqrt_up(n) == 0 {
        assert(r * r == 0) by (nonlinear_arith)
            requires
                r == 0,
        ;
    }
}

/// The integer square root of `s * s * n` is the `s`-fold integer square
/// root of `n` or up to `s - 1` more.
pub proof fn lemma_isqrt_scaled(n: int, s: int)
    requires
        n >= 0,
        s > 0,
    ensures
        s * isqrt(n) <= isqrt(s * s * n) < s * (isqrt(n) + 1),
{
    let r = isqrt(n);
    let m = s * s * n;
    assert(m >= 0) by (nonlinear_arith)
        requires
            m == s * s * n,
            n >= 0,
    ;
    lemma_isqrt_exists(n);
    lemma_isqrt_exists(m);
    let q = isqrt(m);
    assert((s * r) * (s * r) <= m) by (nonlinear_arith)
        requires
            m == s * s * n,
            r * r <= n,
            s > 0,
    ;
    assert(m < (s * (r + 1)) * (s * (r + 1))) by (nonlinear_arith)
        requires
            m == s * s * n,
            n < (r + 1) * (r + 1),
            s > 0,
    ;
    assert(0 <= s * r && 0 <= s * (r + 1)) by (nonlinear_arith)
        requires
            s > 0,
            r >= 0,
    ;
    lemma_square_order(s * r, q + 1);
    lemma_square_order(q, s * (r + 1));
}

/// The integer square root of a number below `b * b` is below `b`.
pub proof fn lemma_sqrt_below(n: int, r: int, b: int)
    by (nonlinear_arith)
    requires
        is_sqrt(n, r),
        0 <= b,
        n < b * b,
    ensures
        r < b,
{
}

/// The integer square root of a positive number is positive.
pub proof fn lemma_sqrt_positive(n: int, r: int)
    by (nonlinear_arith)
    requires
        is_sqrt(n, r),
        n >= 1,
    ensures
        r >= 1,
{
}

/// Floor division: the largest integer not above `a / b`.
pub(crate) fn floor_div(a: i128, b: i128) -> (q: i128)
    requires
        0 < b <= DIVISOR_MAX,
        -DIVIDEND_MAX <= a <= DIVIDEND_MAX,
    ensures
        q == (a as int) / (b as int),
        abs(q as int) <= abs(a as int),
        a >= 0 ==> q >= 0,
        a <= 0 ==> q <= 0,
{
    if a >= 0 {
        proof {
            lemma_quotient_bound(a as int, b as int);
        }
        a / b
    } else {
        let m: i128 = -a;
        let t: i128 = (m + (b - 1)) / b;
        proof {
            // t is the ceiling of m / b, so -t is the floor of a / b
            let k = (m + (b - 1)) as int;
            lemma_fundamental_div_mod(k, b as int);
            let r = k % (b as int);
            assert(k == (b as int) * (k / (b as int)) + r);
            assert((b as int) * (k / (b as int)) == (k / (b as int)) * (b as int))
                by (nonlinear_arith);
            assert(0 <= r < b);
            assert(a as int == (-(t as int)) * (b as int) + ((b as int) - 1 - r))
                by (nonlinear_arith)
                requires
                    k == (t as int) * (b as int) + r,
                    k == -(a as int) + (b as int) - 1,
            ;
            lemma_floor_div_is(a as int, b as int, -(t as int), (b as int) - 1 - r);
            lemma_quotient_bound(k, b as int);
            assert(t <= m) by (nonlinear_arith)
                requires
                    k == (t as int) * (b as int) + r,
                    k == m + b - 1,
                    0 <= r < b,
                    m > 0,
                    t >= 0,
            ;
        }
        -t
    }
}

/// The remainder of floor division, in `0..b`.
pub(crate) fn floor_mod(a: i128, b: i128) -> (r: i128)
    requires
        0 < b <= DIVISOR_MAX,
        -DIVIDEND_MAX <= a <= DIVIDEND_MAX,
    ensures
        r == (a as int) % (b as int),
        0 <= r < b,
{
    let q: i128 = floor_div(a, b);
    proof {
        lemma_fundamental_div_mod(a as int, b as int);
        assert((b as int) * ((a as int) / (b as int)) == ((a as int) / (b as int)) * (b as int))
            by (nonlinear_arith);
        assert(0 <= (a as int) % (b as int) < b);
        assert(-DIVIDEND_MAX - DIVISOR_MAX <= (q as int) * (b as int) <= DIVIDEND_MAX
            + DIVISOR_MAX);
    }
    a - q * b
}

/// Division rounded to the nearest integer, a tie going up.
pub(crate) fn round_div_exec(a: i128, b: i128) -> (q: i128)
    requires
        0 < b <= 0x1000_0000_0000_0000_0000_0000_0000_0000,
        -0x1000_0000_0000_0000_0000_0000_0000_0000 <= a
            <= 0x1000_0000_0000_0000_0000_0000_0000_0000,
    ensures
        q == round_div(a as int, b as int),
        abs(q as int) <= 2 * abs(a as int) + b,
{
    floor_div(2 * a + b, 2 * b)
}

/// Division rounded up to the next integer.
pub(crate) fn ceil_div_exec(a: i128, b: i128) -> (q: i128)
    requires
        0 < b <= DIVISOR_MAX,
        -DIVIDEND_MAX <= a <= DIVIDEND_MAX,
    ensures
        q == ceil_div(a as int, b as int),
        abs(q as int) <= abs(a as int),
        a >= 0 ==> q >= 0,
{
    -floor_div(-a, b)
}

/// The integer square root of `n`, by bisection.
pub(crate) fn isqrt_exec(n: u128) -> (r: u64)
    requires
        n <= SQRT_MAX,
    ensures
        is_sqrt(n as int, r as int),
        r == isqrt(n as int),
{
    let mut lo: u128 = 0;
    let mut hi: u128 = 0x4000_0000_0000_0000;
    while hi - lo > 1
        invariant
            0 <= lo < hi <= 0x4000_0000_0000_0000,
            lo * lo <= n,
            n < hi * hi,
        decreases hi - lo,
    {
        let mid: u128 = lo + (hi - lo) / 2;
        assert(mid * mid <= 0x4000_0000_0000_0000 * 0x4000_0000_0000_0000) by (nonlinear_arith)
            requires
                0 <= mid <= 0x4000_0000_0000_0000,
        ;
        if mid * mid <= n {
            lo = mid;
        } else {
            hi = mid;
        }
    }
    proof {
        assert(hi == lo + 1);
        lemma_isqrt_is(n as int, lo as int);
    }
    lo as u64
}

/// The integer square root of `n`, rounded up.
pub(crate) fn isqrt_up_exec(n: u128) -> (r: u64)
    requires
        n <= SQRT_MAX,
    ensures
        r == isqrt_up(n as int),
        n <= r * r,
{
    let root: u64 = isqrt_exec(n);
    proof {
        lemma_isqrt_up(n as int);
        lemma_sqrt_below(n as int, root as int, 0x4000_0000_0000_0000);
        assert(root * root <= 0x4000_0000_0000_0000 * 0x4000_0000_0000_0000) by (nonlinear_arith)
            requires
                0 <= root <= 0x4000_0000_0000_0000,
        ;
    }
    if (root as u128) * (root as u128) == n {
        root
    } else {
        root + 1
    }
}

} // verus!
