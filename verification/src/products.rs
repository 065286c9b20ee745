//! Identities and inequalities of products of integers, each small enough
//! for the solver to settle at once. The proofs of the geometry are built
//! from them.

use crate::arith::abs;
use vstd::prelude::*;

verus! {

/// A product changes sign with either factor.
pub proof fn lemma_mul_neg(x: int, y: int)
    by (nonlinear_arith)
    ensures
        (-x) * y == -(x * y),
        x * (-y) == -(x * y),
        x * y == y * x,
{
}

/// The product of three numbers does not depend on their order or grouping.
pub proof fn lemma_mul3(x: int, y: int, z: int)
    by (nonlinear_arith)
    ensures
        x * (y * z) == x * (z * y),
        x * (y * z) == (y * z) * x,
        x * (y * z) == (z * y) * x,
        x * (y * z) == y * (x * z),
        x * (y * z) == y * (z * x),
        x * (y * z) == (x * z) * y,
        x * (y * z) == (z * x) * y,
        x * (y * z) == z * (x * y),
        x * (y * z) == z * (y * x),
        x * (y * z) == (x * y) * z,
        x * (y * z) == (y * x) * z,
{
}

/// A product of two products can be regrouped.
pub proof fn lemma_mul4(a: int, b: int, c: int, d: int)
    by (nonlinear_arith)
    ensures
        (a * b) * (c * d) == (a * c) * (b * d),
        (a * b) * (c * d) == (a * d) * (c * b),
        (a * b) * (c * d) == (a * d) * (b * c),
        (a * b) * (c * d) == (c * b) * (a * d),
{
}

/// Multiplication distributes over a sum.
pub proof fn lemma_dist_add(k: int, p: int, q: int)
    by (nonlinear_arith)
    ensures
        k * (p + q) == k * p + k * q,
        (p + q) * k == k * p + k * q,
{
}

/// Multiplication distributes over a difference.
pub proof fn lemma_dist_sub(k: int, p: int, q: int)
    by (nonlinear_arith)
    ensures
        k * (p - q) == k * p - k * q,
        (p - q) * k == k * p - k * q,
{
}

/// Multiplication distributes over a sum of three.
pub proof fn lemma_dist3(k: int, p: int, q: int, r: int)
    by (nonlinear_arith)
    ensures
        k * (p + q + r) == k * p + k * q + k * r,
        (p + q + r) * k == k * p + k * q + k * r,
{
}

/// Multiplication distributes over the six terms of a determinant.
pub proof fn lemma_dist6(k: int, p: int, q: int, r: int, s: int, t: int, u: int)
    by (nonlinear_arith)
    ensures
        k * (p + q + r - s - t - u) == k * p + k * q + k * r - k * s - k * t - k * u,
{
}

/// The square of a sum of three.
pub proof fn lemma_square3(u: int, v: int, w: int)
    by (nonlinear_arith)
    ensures
        (u + v + w) * (u + v + w) == u * u + v * v + w * w + 2 * (u * v) + 2 * (u * w) + 2 * (v
            * w),
{
}

/// The square of a difference.
pub proof fn lemma_square_diff(u: int, v: int)
    by (nonlinear_arith)
    ensures
        (u - v) * (u - v) == u * u - 2 * (u * v) + v * v,
        u * v == v * u,
{
}

/// A product with one factor multiplied by `k` is `k` times the product.
pub proof fn lemma_scale1(x: int, y: int, z: int, k: int)
    by (nonlinear_arith)
    ensures
        (x * k) * (y * z) == k * (x * (y * z)),
        x * ((y * k) * z) == k * (x * (y * z)),
        x * (y * (z * k)) == k * (x * (y * z)),
{
}

/// A product of two multiples of `k` is `k` squared times the product.
pub proof fn lemma_scale2(x: int, y: int, k: int)
    by (nonlinear_arith)
    ensures
        (x * k) * (y * k) == (k * k) * (x * y),
{
}

/// A product of three multiples of `k` is `k` cubed times the product.
pub proof fn lemma_scale3(x: int, y: int, z: int, k: int)
    by (nonlinear_arith)
    ensures
        (x * k) * ((y * k) * (z * k)) == (k * k * k) * (x * (y * z)),
{
}

/// Multiplying a scalar product and two squared lengths by `k > 0` changes
/// neither the sign of the scalar product nor the square of the cosine, the
/// ratio of its square to the product of the squared lengths.
pub proof fn lemma_same_cosine(d: int, u: int, v: int, k: int)
    by (nonlinear_arith)
    requires
        k > 0,
    ensures
        ((k * d) * (k * d)) * (u * v) == (d * d) * ((k * u) * (k * v)),
        (k * d > 0) == (d > 0),
        (k * d < 0) == (d < 0),
{
}

/// The magnitude of a product is the product of the magnitudes.
pub proof fn lemma_abs_mul(x: int, y: int)
    by (nonlinear_arith)
    ensures
        abs(x * y) == abs(x) * abs(y),
        abs(x) * abs(x) == x * x,
{
}

/// A positive factor can be taken off both sides of an inequality.
pub proof fn lemma_cancel_le(x: int, y: int, c: int)
    by (nonlinear_arith)
    requires
        c > 0,
        x * c <= y * c,
    ensures
        x <= y,
{
}

/// A product with a zero factor is zero.
pub proof fn lemma_zero_mul(x: int, y: int)
    by (nonlinear_arith)
    ensures
        (x == 0 || y == 0) ==> x * y == 0,
{
}

/// A product of three numbers of which one is zero is zero.
pub proof fn lemma_zero_mul3(x: int, y: int, z: int)
    by (nonlinear_arith)
    requires
        x == 0 || y == 0 || z == 0,
    ensures
        x * (y * z) == 0,
{
}

/// A product of non-zero numbers is not zero.
pub proof fn lemma_nonzero_product(x: int, y: int)
    by (nonlinear_arith)
    requires
        x != 0,
        y != 0,
    ensures
        x * y != 0,
{
}

/// The product of two positive numbers within a bound is positive and within
/// the bound's square.
pub proof fn lemma_positive_product(x: int, y: int, bound: int)
    by (nonlinear_arith)
    requires
        0 < x <= bound,
        0 < y <= bound,
    ensures
        0 < x * y <= bound * bound,
{
}

/// Products of numbers that are not negative keep their order.
pub proof fn lemma_mul_le_both(a: int, b: int, c: int, d: int)
    by (nonlinear_arith)
    requires
        0 <= a <= b,
        0 <= c <= d,
    ensures
        0 <= a * c <= b * d,
{
}

/// A product is bounded by the product of the bounds of its factors.
pub proof fn lemma_mul_bound(x: int, bx: int, y: int, by: int)
    by (nonlinear_arith)
    requires
        -bx <= x <= bx,
        -by <= y <= by,
    ensures
        -(bx * by) <= x * y <= bx * by,
{
}

/// A product is bounded by the magnitude of one factor times a bound of the
/// other.
pub proof fn lemma_mul_abs_bound(m: int, r: int, bound: int)
    by (nonlinear_arith)
    requires
        -bound <= r <= bound,
    ensures
        -(abs(m) * bound) <= m * r <= abs(m) * bound,
{
}

/// A combination of three bounded numbers is bounded by the sum of the
/// magnitudes of its coefficients times the bound.
pub proof fn lemma_combination_bound(
    m1: int,
    m2: int,
    m3: int,
    r1: int,
    r2: int,
    r3: int,
    bound: int,
)
    requires
        -bound <= r1 <= bound,
        -bound <= r2 <= bound,
        -bound <= r3 <= bound,
    ensures
        -((abs(m1) + abs(m2) + abs(m3)) * bound) <= m1 * r1 + m2 * r2 + m3 * r3 <= (abs(m1) + abs(
            m2,
        ) + abs(m3)) * bound,
{
    lemma_mul_abs_bound(m1, r1, bound);
    lemma_mul_abs_bound(m2, r2, bound);
    lemma_mul_abs_bound(m3, r3, bound);
    lemma_dist3(bound, abs(m1), abs(m2), abs(m3));
    broadcast use vstd::arithmetic::mul::lemma_mul_is_commutative;
}

/// A number whose multiple by `d > 0` is within `s * d` is itself within `s`.
pub proof fn lemma_cancel_bound(d: int, t: int, s: int)
    by (nonlinear_arith)
    requires
        d > 0,
        -(s * d) <= d * t <= s * d,
    ensures
        -s <= t <= s,
{
}

/// A whole multiple of `v > 0`, other than zero, is at least `v` in
/// magnitude; one by more than `n` is at least `(n + 1) * v`.
pub proof fn lemma_multiple_far(k: int, v: int, n: int)
    by (nonlinear_arith)
    requires
        v > 0,
        n >= 0,
        k > n || k < -n,
    ensures
        k * v >= n * v + v || k * v <= -(n * v) - v,
{
}

/// A square is at least the square of a lower bound of the magnitude.
pub proof fn lemma_square_lower(x: int, b: int)
    by (nonlinear_arith)
    requires
        0 <= b,
        x >= b || x <= -b,
    ensures
        x * x >= b * b,
{
}

/// A square is at most the square of a bound of the magnitude, and not
/// negative.
pub proof fn lemma_square_upper(x: int, b: int)
    by (nonlinear_arith)
    requires
        -b <= x <= b,
    ensures
        0 <= x * x <= b * b,
{
}

/// Of two numbers that are not negative, the one with the smaller square is
/// the smaller.
pub proof fn lemma_square_order(x: int, y: int)
    by (nonlinear_arith)
    requires
        0 <= x,
        0 <= y,
        x * x < y * y,
    ensures
        x < y,
{
}

/// A number whose square is at most the square of `b >= 0` is within `b`.
pub proof fn lemma_within_from_square(t: int, b: int)
    by (nonlinear_arith)
    requires
        b >= 0,
        t * t <= b * b,
    ensures
        -b <= t <= b,
{
}

/// A coordinate within half of `|m|` does not shrink in magnitude when a
/// whole multiple of `m` is added to it.
pub proof fn lemma_centred_square(e: int, m: int, j: int)
    requires
        -abs(m) <= 2 * e <= abs(m),
    ensures
        (e + m * j) * (e + m * j) >= e * e,
{
    if j == 0 {
        lemma_zero_mul(m, j);
    } else {
        assert(m * j >= abs(m) || m * j <= -abs(m)) by (nonlinear_arith)
            requires
                j != 0,
        ;
        lemma_square_lower(e + m * j, abs(e));
        assert(abs(e) * abs(e) == e * e) by (nonlinear_arith);
    }
}

/// A length that grew by `s` up to a rounding of less than `s` grew by `s`
/// within a millionth, where it was a million or more.
pub proof fn lemma_rounding_is_small(len: int, longer: int, s: int)
    by (nonlinear_arith)
    requires
        s > 0,
        len >= 1_000_000,
        s * len <= longer < s * (len + 1),
    ensures
        (longer - s * len) * 1_000_000 < s * len,
{
}

} // verus!
