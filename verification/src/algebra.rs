//! Vectors and matrices over the mathematical integers.
//!
//! These are the models in which every contract of the crate is stated.

use crate::arith::abs;
use crate::products::lemma_dist3;
use crate::products::lemma_dist6;
use crate::products::lemma_dist_add;
use crate::products::lemma_dist_sub;
use crate::products::lemma_mul3;
use crate::products::lemma_mul4;
use crate::products::lemma_mul_neg;
use crate::products::lemma_scale1;
use crate::products::lemma_scale2;
use crate::products::lemma_scale3;
use crate::products::lemma_square3;
use crate::products::lemma_square_diff;
use vstd::prelude::*;

verus! {

/// A vector with three integer coordinates.
pub struct V3 {
    pub x: int,
    pub y: int,
    pub z: int,
}

/// A 3x3 integer matrix, given by its columns.
pub struct M3 {
    pub a: V3,
    pub b: V3,
    pub c: V3,
}

impl V3 {
    /// The zero vector.
    pub open spec fn zero() -> V3 {
        V3 { x: 0, y: 0, z: 0 }
    }

    /// The sum of two vectors.
    pub open spec fn plus(self, o: V3) -> V3 {
        V3 { x: self.x + o.x, y: self.y + o.y, z: self.z + o.z }
    }

    /// The difference of two vectors.
    pub open spec fn minus(self, o: V3) -> V3 {
        V3 { x: self.x - o.x, y: self.y - o.y, z: self.z - o.z }
    }

    /// The opposite vector.
    pub open spec fn neg(self) -> V3 {
        V3 { x: -self.x, y: -self.y, z: -self.z }
    }

    /// The vector multiplied by a number.
    pub open spec fn times(self, k: int) -> V3 {
        V3 { x: self.x * k, y: self.y * k, z: self.z * k }
    }

    /// The scalar product.
    pub open spec fn dot(self, o: V3) -> int {
        self.x * o.x + self.y * o.y + self.z * o.z
    }

    /// The vector product.
    pub open spec fn cross(self, o: V3) -> V3 {
        V3 {
            x: self.y * o.z - self.z * o.y,
            y: self.z * o.x - self.x * o.z,
            z: self.x * o.y - self.y * o.x,
        }
    }

    /// The square of the Euclidean length.
    pub open spec fn norm_sq(self) -> int {
        self.dot(self)
    }

    /// The coordinate along an axis: 0 for x, 1 for y, 2 for z.
    pub open spec fn coordinate(self, axis: int) -> int {
        if axis == 0 {
            self.x
        } else if axis == 1 {
            self.y
        } else {
            self.z
        }
    }

    /// Whether each coordinate is at most that of `bound` in absolute value.
    pub open spec fn within_each(self, bound: V3) -> bool {
        &&& -bound.x <= self.x <= bound.x
        &&& -bound.y <= self.y <= bound.y
        &&& -bound.z <= self.z <= bound.z
    }

    /// Whether every coordinate is at most `bound` in absolute value.
    pub open spec fn within(self, bound: int) -> bool {
        &&& -bound <= self.x <= bound
        &&& -bound <= self.y <= bound
        &&& -bound <= self.z <= bound
    }
}

impl M3 {
    /// The matrix applied to a vector: the combination of the columns that
    /// the vector's coordinates give.
    pub open spec fn apply(self, v: V3) -> V3 {
        V3 {
            x: self.a.x * v.x + self.b.x * v.y + self.c.x * v.z,
            y: self.a.y * v.x + self.b.y * v.y + self.c.y * v.z,
            z: self.a.z * v.x + self.b.z * v.y + self.c.z * v.z,
        }
    }

    /// The determinant: the scalar triple product of the columns.
    pub open spec fn det(self) -> int {
        self.a.dot(self.b.cross(self.c))
    }

    /// The transposed matrix.
    pub open spec fn transpose(self) -> M3 {
        M3 {
            a: V3 { x: self.a.x, y: self.b.x, z: self.c.x },
            b: V3 { x: self.a.y, y: self.b.y, z: self.c.y },
            c: V3 { x: self.a.z, y: self.b.z, z: self.c.z },
        }
    }

    /// The adjugate matrix. Its rows are the vector products of the columns
    /// taken in pairs; divided by the determinant it is the inverse.
    pub open spec fn adjugate(self) -> M3 {
        M3 {
            a: self.b.cross(self.c),
            b: self.c.cross(self.a),
            c: self.a.cross(self.b),
        }.transpose()
    }

    /// The adjugate applied to a vector.
    pub open spec fn adj_apply(self, v: V3) -> V3 {
        V3 {
            x: self.b.cross(self.c).dot(v),
            y: self.c.cross(self.a).dot(v),
            z: self.a.cross(self.b).dot(v),
        }
    }

    /// Every column multiplied by a number.
    pub open spec fn times(self, k: int) -> M3 {
        M3 { a: self.a.times(k), b: self.b.times(k), c: self.c.times(k) }
    }

    /// For each row, the sum of the magnitudes of its entries.
    pub open spec fn row_sums(self) -> V3 {
        V3 {
            x: abs(self.a.x) + abs(self.b.x) + abs(self.c.x),
            y: abs(self.a.y) + abs(self.b.y) + abs(self.c.y),
            z: abs(self.a.z) + abs(self.b.z) + abs(self.c.z),
        }
    }

    /// Whether the matrix is diagonal.
    pub open spec fn is_diagonal(self) -> bool {
        &&& self.a.y == 0 && self.a.z == 0
        &&& self.b.x == 0 && self.b.z == 0
        &&& self.c.x == 0 && self.c.y == 0
    }
}

/// The scalar triple product written out in its six terms.
pub open spec fn triple(a: V3, b: V3, c: V3) -> int {
    a.x * (b.y * c.z) + a.y * (b.z * c.x) + a.z * (b.x * c.y) - a.x * (b.z * c.y) - a.y * (b.x
        * c.z) - a.z * (b.y * c.x)
}

/// The scalar product is additive in its second argument.
pub proof fn lemma_dot_plus(w: V3, u: V3, v: V3)
    ensures
        w.dot(u.plus(v)) == w.dot(u) + w.dot(v),
{
    lemma_dist_add(w.x, u.x, v.x);
    lemma_dist_add(w.y, u.y, v.y);
    lemma_dist_add(w.z, u.z, v.z);
}

/// The scalar product with a multiple of a vector is the multiple of the
/// scalar product.
pub proof fn lemma_dot_scale(r: V3, p: V3, k: int)
    ensures
        r.dot(p.times(k)) == k * r.dot(p),
{
    lemma_mul3(r.x, p.x, k);
    lemma_mul3(r.y, p.y, k);
    lemma_mul3(r.z, p.z, k);
    lemma_dist3(k, r.x * p.x, r.y * p.y, r.z * p.z);
}

/// The scalar product of two vectors multiplied by `k` is `k` squared times
/// their scalar product.
pub proof fn lemma_dot_times(u: V3, v: V3, k: int)
    ensures
        u.times(k).dot(v.times(k)) == (k * k) * u.dot(v),
{
    lemma_scale2(u.x, v.x, k);
    lemma_scale2(u.y, v.y, k);
    lemma_scale2(u.z, v.z, k);
    lemma_dist3(k * k, u.x * v.x, u.y * v.y, u.z * v.z);
}

/// The scalar product is linear in a combination of columns.
pub proof fn lemma_dot_apply(w: V3, m: M3, n: V3)
    ensures
        w.dot(m.apply(n)) == w.dot(m.a) * n.x + w.dot(m.b) * n.y + w.dot(m.c) * n.z,
{
    lemma_dist3(w.x, m.a.x * n.x, m.b.x * n.y, m.c.x * n.z);
    lemma_dist3(w.y, m.a.y * n.x, m.b.y * n.y, m.c.y * n.z);
    lemma_dist3(w.z, m.a.z * n.x, m.b.z * n.y, m.c.z * n.z);
    lemma_mul3(w.x, m.a.x, n.x);
    lemma_mul3(w.x, m.b.x, n.y);
    lemma_mul3(w.x, m.c.x, n.z);
    lemma_mul3(w.y, m.a.y, n.x);
    lemma_mul3(w.y, m.b.y, n.y);
    lemma_mul3(w.y, m.c.y, n.z);
    lemma_mul3(w.z, m.a.z, n.x);
    lemma_mul3(w.z, m.b.z, n.y);
    lemma_mul3(w.z, m.c.z, n.z);
    lemma_dist3(n.x, w.x * m.a.x, w.y * m.a.y, w.z * m.a.z);
    lemma_dist3(n.y, w.x * m.b.x, w.y * m.b.y, w.z * m.b.z);
    lemma_dist3(n.z, w.x * m.c.x, w.y * m.c.y, w.z * m.c.z);
}

/// The square of a length is not negative.
pub proof fn lemma_norm_sq_nonnegative(v: V3)
    ensures
        v.norm_sq() >= 0,
{
    assert(v.x * v.x >= 0) by (nonlinear_arith);
    assert(v.y * v.y >= 0) by (nonlinear_arith);
    assert(v.z * v.z >= 0) by (nonlinear_arith);
}

/// The square of the length of a vector other than zero is at least 1.
pub proof fn lemma_norm_sq_positive(v: V3)
    requires
        v != V3::zero(),
    ensures
        v.norm_sq() >= 1,
{
    let (x, y, z) = (v.x, v.y, v.z);
    assert(x * x + y * y + z * z >= 1) by (nonlinear_arith)
        requires
            x != 0 || y != 0 || z != 0,
    ;
}

/// A vector and its opposite have the same length.
pub proof fn lemma_norm_sq_neg(v: V3)
    ensures
        v.neg().norm_sq() == v.norm_sq(),
{
    lemma_mul_neg(v.x, v.x);
    lemma_mul_neg(-v.x, v.x);
    lemma_mul_neg(v.y, v.y);
    lemma_mul_neg(-v.y, v.y);
    lemma_mul_neg(v.z, v.z);
    lemma_mul_neg(-v.z, v.z);
}

/// Lagrange's identity: the squares of the scalar product and of the length
/// of the vector product add up to the product of the squared lengths.
pub proof fn lemma_lagrange(x: V3, y: V3)
    ensures
        x.dot(y) * x.dot(y) + x.cross(y).norm_sq() == x.norm_sq() * y.norm_sq(),
{
    let p11 = x.x * y.x;
    let p12 = x.x * y.y;
    let p13 = x.x * y.z;
    let p21 = x.y * y.x;
    let p22 = x.y * y.y;
    let p23 = x.y * y.z;
    let p31 = x.z * y.x;
    let p32 = x.z * y.y;
    let p33 = x.z * y.z;
    lemma_square3(p11, p22, p33);
    lemma_square_diff(p23, p32);
    lemma_square_diff(p31, p13);
    lemma_square_diff(p12, p21);
    lemma_mul4(x.x, y.x, x.y, y.y);
    lemma_mul4(x.x, y.x, x.z, y.z);
    lemma_mul4(x.y, y.y, x.z, y.z);
    assert(p11 * p22 == p12 * p21);
    assert(p11 * p33 == p13 * p31);
    assert(p22 * p33 == p23 * p32);
    let sx = x.norm_sq();
    let sy = y.norm_sq();
    lemma_dist3(sy, x.x * x.x, x.y * x.y, x.z * x.z);
    lemma_dist3(x.x * x.x, y.x * y.x, y.y * y.y, y.z * y.z);
    lemma_dist3(x.y * x.y, y.x * y.x, y.y * y.y, y.z * y.z);
    lemma_dist3(x.z * x.z, y.x * y.x, y.y * y.y, y.z * y.z);
    lemma_mul4(x.x, x.x, y.x, y.x);
    lemma_mul4(x.x, x.x, y.y, y.y);
    lemma_mul4(x.x, x.x, y.z, y.z);
    lemma_mul4(x.y, x.y, y.x, y.x);
    lemma_mul4(x.y, x.y, y.y, y.y);
    lemma_mul4(x.y, x.y, y.z, y.z);
    lemma_mul4(x.z, x.z, y.x, y.x);
    lemma_mul4(x.z, x.z, y.y, y.y);
    lemma_mul4(x.z, x.z, y.z, y.z);
    assert(sx * sy == p11 * p11 + p12 * p12 + p13 * p13 + p21 * p21 + p22 * p22 + p23 * p23 + p31
        * p31 + p32 * p32 + p33 * p33);
}

/// The inequality of Cauchy and Schwarz, and its companion for the vector
/// product: neither the scalar product nor the vector product of two vectors
/// is longer than the product of their lengths.
pub proof fn lemma_cauchy_schwarz(x: V3, y: V3)
    ensures
        x.dot(y) * x.dot(y) <= x.norm_sq() * y.norm_sq(),
        x.cross(y).norm_sq() <= x.norm_sq() * y.norm_sq(),
{
    lemma_lagrange(x, y);
    lemma_norm_sq_nonnegative(x.cross(y));
    assert(x.dot(y) * x.dot(y) >= 0) by (nonlinear_arith);
}

/// Applying a matrix is linear.
pub proof fn lemma_apply_linear(m: M3, n: V3, k: V3, s: int)
    ensures
        m.apply(n.plus(k.times(s))) == m.apply(n).plus(m.apply(k).times(s)),
{
    lemma_dist_add(m.a.x, n.x, k.x * s);
    lemma_dist_add(m.b.x, n.y, k.y * s);
    lemma_dist_add(m.c.x, n.z, k.z * s);
    lemma_dist_add(m.a.y, n.x, k.x * s);
    lemma_dist_add(m.b.y, n.y, k.y * s);
    lemma_dist_add(m.c.y, n.z, k.z * s);
    lemma_dist_add(m.a.z, n.x, k.x * s);
    lemma_dist_add(m.b.z, n.y, k.y * s);
    lemma_dist_add(m.c.z, n.z, k.z * s);
    lemma_mul3(m.a.x, k.x, s);
    lemma_mul3(m.b.x, k.y, s);
    lemma_mul3(m.c.x, k.z, s);
    lemma_mul3(m.a.y, k.x, s);
    lemma_mul3(m.b.y, k.y, s);
    lemma_mul3(m.c.y, k.z, s);
    lemma_mul3(m.a.z, k.x, s);
    lemma_mul3(m.b.z, k.y, s);
    lemma_mul3(m.c.z, k.z, s);
    lemma_dist3(s, m.a.x * k.x, m.b.x * k.y, m.c.x * k.z);
    lemma_dist3(s, m.a.y * k.x, m.b.y * k.y, m.c.y * k.z);
    lemma_dist3(s, m.a.z * k.x, m.b.z * k.y, m.c.z * k.z);
}

/// Applying a matrix to the opposite vector gives the opposite result.
pub proof fn lemma_apply_neg(m: M3, n: V3)
    ensures
        m.apply(n.neg()) == m.apply(n).neg(),
{
    lemma_mul_neg(m.a.x, n.x);
    lemma_mul_neg(m.b.x, n.y);
    lemma_mul_neg(m.c.x, n.z);
    lemma_mul_neg(m.a.y, n.x);
    lemma_mul_neg(m.b.y, n.y);
    lemma_mul_neg(m.c.y, n.z);
    lemma_mul_neg(m.a.z, n.x);
    lemma_mul_neg(m.b.z, n.y);
    lemma_mul_neg(m.c.z, n.z);
}

/// `a . (b x c)` is the scalar triple product.
pub proof fn lemma_triple(a: V3, b: V3, c: V3)
    ensures
        a.dot(b.cross(c)) == triple(a, b, c),
        b.cross(c).dot(a) == triple(a, b, c),
{
    lemma_dist_sub(a.x, b.y * c.z, b.z * c.y);
    lemma_dist_sub(a.y, b.z * c.x, b.x * c.z);
    lemma_dist_sub(a.z, b.x * c.y, b.y * c.x);
}

/// The scalar triple product is unchanged when its arguments rotate.
pub proof fn lemma_triple_cyclic(a: V3, b: V3, c: V3)
    ensures
        triple(b, c, a) == triple(a, b, c),
        triple(c, a, b) == triple(a, b, c),
{
    lemma_mul3(a.x, b.y, c.z);
    lemma_mul3(a.y, b.z, c.x);
    lemma_mul3(a.z, b.x, c.y);
    lemma_mul3(a.x, b.z, c.y);
    lemma_mul3(a.y, b.x, c.z);
    lemma_mul3(a.z, b.y, c.x);
}

/// The scalar triple product changes sign when two of its arguments are
/// exchanged.
pub proof fn lemma_triple_exchange(a: V3, b: V3, c: V3)
    ensures
        triple(b, a, c) == -triple(a, b, c),
        triple(a, c, b) == -triple(a, b, c),
        triple(c, b, a) == -triple(a, b, c),
{
    lemma_mul3(a.x, b.y, c.z);
    lemma_mul3(a.y, b.z, c.x);
    lemma_mul3(a.z, b.x, c.y);
    lemma_mul3(a.x, b.z, c.y);
    lemma_mul3(a.y, b.x, c.z);
    lemma_mul3(a.z, b.y, c.x);
}

/// The scalar triple product vanishes when two of its arguments agree.
pub proof fn lemma_triple_repeat(a: V3, b: V3)
    ensures
        triple(a, a, b) == 0,
        triple(a, b, a) == 0,
        triple(b, a, a) == 0,
{
    lemma_mul3(a.x, a.y, b.z);
    lemma_mul3(a.y, a.z, b.x);
    lemma_mul3(a.z, a.x, b.y);
    lemma_mul3(a.x, a.z, b.y);
    lemma_mul3(a.y, a.x, b.z);
    lemma_mul3(a.z, a.y, b.x);
    lemma_mul3(b.x, a.y, a.z);
    lemma_mul3(b.y, a.z, a.x);
    lemma_mul3(b.z, a.x, a.y);
}

/// A matrix and its transpose have the same determinant.
pub proof fn lemma_det_transpose(m: M3)
    ensures
        m.transpose().det() == m.det(),
{
    let t = m.transpose();
    lemma_triple(m.a, m.b, m.c);
    lemma_triple(t.a, t.b, t.c);
    lemma_mul3(m.a.x, m.b.y, m.c.z);
    lemma_mul3(m.a.y, m.b.z, m.c.x);
    lemma_mul3(m.a.z, m.b.x, m.c.y);
    lemma_mul3(m.a.x, m.b.z, m.c.y);
    lemma_mul3(m.a.y, m.b.x, m.c.z);
    lemma_mul3(m.a.z, m.b.y, m.c.x);
    lemma_mul3(m.a.x, m.c.y, m.b.z);
    lemma_mul3(m.b.x, m.a.y, m.c.z);
    lemma_mul3(m.b.x, m.c.y, m.a.z);
    lemma_mul3(m.c.x, m.a.y, m.b.z);
    lemma_mul3(m.c.x, m.b.y, m.a.z);
}

/// The determinant of a matrix multiplied by `k` is `k` cubed times the
/// determinant.
pub proof fn lemma_det_times(m: M3, k: int)
    ensures
        m.times(k).det() == (k * k * k) * m.det(),
{
    let (a, b, c) = (m.a, m.b, m.c);
    let s = m.times(k);
    lemma_triple(a, b, c);
    lemma_triple(s.a, s.b, s.c);
    lemma_scale3(a.x, b.y, c.z, k);
    lemma_scale3(a.y, b.z, c.x, k);
    lemma_scale3(a.z, b.x, c.y, k);
    lemma_scale3(a.x, b.z, c.y, k);
    lemma_scale3(a.y, b.x, c.z, k);
    lemma_scale3(a.z, b.y, c.x, k);
    lemma_dist6(
        k * k * k,
        a.x * (b.y * c.z),
        a.y * (b.z * c.x),
        a.z * (b.x * c.y),
        a.x * (b.z * c.y),
        a.y * (b.x * c.z),
        a.z * (b.y * c.x),
    );
}

/// The determinant is linear in each column: with one column multiplied by
/// `k` it is `k` times the determinant.
pub proof fn lemma_det_column_times(m: M3, k: int)
    ensures
        (M3 { a: m.a.times(k), b: m.b, c: m.c }).det() == k * m.det(),
        (M3 { a: m.a, b: m.b.times(k), c: m.c }).det() == k * m.det(),
        (M3 { a: m.a, b: m.b, c: m.c.times(k) }).det() == k * m.det(),
{
    let (a, b, c) = (m.a, m.b, m.c);
    lemma_triple(a, b, c);
    lemma_triple(a.times(k), b, c);
    lemma_triple(a, b.times(k), c);
    lemma_triple(a, b, c.times(k));
    lemma_scale1(a.x, b.y, c.z, k);
    lemma_scale1(a.y, b.z, c.x, k);
    lemma_scale1(a.z, b.x, c.y, k);
    lemma_scale1(a.x, b.z, c.y, k);
    lemma_scale1(a.y, b.x, c.z, k);
    lemma_scale1(a.z, b.y, c.x, k);
    lemma_dist6(
        k,
        a.x * (b.y * c.z),
        a.y * (b.z * c.x),
        a.z * (b.x * c.y),
        a.x * (b.z * c.y),
        a.y * (b.x * c.z),
        a.z * (b.y * c.x),
    );
}

/// Applying the adjugate is additive.
pub proof fn lemma_adj_plus(m: M3, u: V3, v: V3)
    ensures
        m.adj_apply(u.plus(v)) == m.adj_apply(u).plus(m.adj_apply(v)),
{
    lemma_dot_plus(m.b.cross(m.c), u, v);
    lemma_dot_plus(m.c.cross(m.a), u, v);
    lemma_dot_plus(m.a.cross(m.b), u, v);
}

/// Applying the adjugate to a multiple of a vector gives the multiple of
/// the result.
pub proof fn lemma_adj_times(m: M3, u: V3, k: int)
    ensures
        m.adj_apply(u.times(k)) == m.adj_apply(u).times(k),
{
    lemma_dot_scale(m.b.cross(m.c), u, k);
    lemma_dot_scale(m.c.cross(m.a), u, k);
    lemma_dot_scale(m.a.cross(m.b), u, k);
    lemma_mul_neg(k, m.b.cross(m.c).dot(u));
    lemma_mul_neg(k, m.c.cross(m.a).dot(u));
    lemma_mul_neg(k, m.a.cross(m.b).dot(u));
}

/// Applying the adjugate matrix is taking scalar products with its rows.
pub proof fn lemma_adjugate_apply(m: M3, v: V3)
    ensures
        m.adjugate().apply(v) == m.adj_apply(v),
{
}

/// The adjugate times the matrix is the determinant times the identity.
pub proof fn lemma_adj_apply(m: M3, v: V3)
    ensures
        m.adj_apply(m.apply(v)) == v.times(m.det()),
{
    let (a, b, c) = (m.a, m.b, m.c);
    broadcast use vstd::arithmetic::mul::lemma_mul_is_commutative;
    lemma_dot_apply(b.cross(c), m, v);
    lemma_dot_apply(c.cross(a), m, v);
    lemma_dot_apply(a.cross(b), m, v);
    lemma_triple(a, b, c);
    lemma_triple(b, b, c);
    lemma_triple(c, b, c);
    lemma_triple(a, c, a);
    lemma_triple(b, c, a);
    lemma_triple(c, c, a);
    lemma_triple(a, a, b);
    lemma_triple(b, a, b);
    lemma_triple(c, a, b);
    lemma_triple_cyclic(a, b, c);
    lemma_triple_repeat(b, c);
    lemma_triple_repeat(c, b);
    lemma_triple_repeat(a, c);
    lemma_triple_repeat(c, a);
    lemma_triple_repeat(a, b);
    lemma_triple_repeat(b, a);
    assert(b.cross(c).dot(a) == m.det());
    assert(b.cross(c).dot(b) == 0);
    assert(b.cross(c).dot(c) == 0);
    assert(c.cross(a).dot(a) == 0);
    assert(c.cross(a).dot(b) == m.det());
    assert(c.cross(a).dot(c) == 0);
    assert(a.cross(b).dot(a) == 0);
    assert(a.cross(b).dot(b) == 0);
    assert(a.cross(b).dot(c) == m.det());
}

/// The matrix times its adjugate is the determinant times the identity.
pub proof fn lemma_apply_adj(m: M3, v: V3)
    ensures
        m.apply(m.adj_apply(v)) == v.times(m.det()),
{
    let t = m.transpose();
    let g = m.adjugate();
    let (p, q, r) = (t.a, t.b, t.c);
    broadcast use vstd::arithmetic::mul::lemma_mul_is_commutative;
    lemma_adjugate_apply(m, v);
    // the columns of the adjugate are the vector products of the rows
    assert(g.a == q.cross(r));
    assert(g.b == r.cross(p));
    assert(g.c == p.cross(q));
    lemma_dot_apply(p, g, v);
    lemma_dot_apply(q, g, v);
    lemma_dot_apply(r, g, v);
    lemma_triple(p, q, r);
    lemma_triple(p, r, p);
    lemma_triple(p, p, q);
    lemma_triple(q, q, r);
    lemma_triple(q, r, p);
    lemma_triple(q, p, q);
    lemma_triple(r, q, r);
    lemma_triple(r, r, p);
    lemma_triple(r, p, q);
    lemma_triple_cyclic(p, q, r);
    lemma_triple_repeat(p, q);
    lemma_triple_repeat(q, p);
    lemma_triple_repeat(p, r);
    lemma_triple_repeat(r, p);
    lemma_triple_repeat(q, r);
    lemma_triple_repeat(r, q);
    lemma_det_transpose(m);
    let n = m.adj_apply(v);
    assert(m.apply(n).x == p.dot(g.apply(v)));
    assert(m.apply(n).y == q.dot(g.apply(v)));
    assert(m.apply(n).z == r.dot(g.apply(v)));
}

} // verus!
