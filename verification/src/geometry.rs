//! Facts about the model of a cell on which the lattice's operations rest.

use crate::algebra::M3;
use crate::algebra::V3;
use crate::algebra::lemma_adj_apply;
use crate::algebra::lemma_adj_plus;
use crate::algebra::lemma_apply_adj;
use crate::algebra::lemma_apply_linear;
use crate::algebra::lemma_apply_neg;
use crate::algebra::lemma_cauchy_schwarz;
use crate::algebra::lemma_norm_sq_nonnegative;
use crate::algebra::lemma_norm_sq_positive;
use crate::algebra::lemma_triple;
use crate::algebra::lemma_triple_cyclic;
use crate::arith::abs;
use crate::arith::is_sqrt;
use crate::arith::isqrt;
use crate::arith::lemma_ceil_div_reaches;
use crate::arith::lemma_floor_div_is;
use crate::arith::lemma_isqrt_exists;
use crate::arith::lemma_isqrt_is;
use crate::arith::lemma_isqrt_up;
use crate::arith::lemma_quotient_bound;
use crate::arith::lemma_round_cancel;
use crate::arith::lemma_round_neg;
use crate::arith::lemma_round_residual;
use crate::arith::lemma_round_shift;
use crate::arith::lemma_sqrt_below;
use crate::arith::on_half;
use crate::arith::round_div;
use crate::cell::Cell;
use crate::cell::Q3;
use crate::cell::first_min;
use crate::cell::norm;
use crate::cell::norm_up;
use crate::optimal::lemma_row_bound;
use crate::products::lemma_abs_mul;
use crate::products::lemma_cancel_bound;
use crate::products::lemma_cancel_le;
use crate::products::lemma_combination_bound;
use crate::products::lemma_dist3;
use crate::products::lemma_dist_add;
use crate::products::lemma_mul3;
use crate::products::lemma_mul4;
use crate::products::lemma_mul_le_both;
use crate::products::lemma_mul_neg;
use crate::products::lemma_positive_product;
use crate::products::lemma_square_order;
use crate::products::lemma_square_upper;
use crate::products::lemma_zero_mul3;
use crate::products::lemma_zero_mul;
use vstd::arithmetic::div_mod::lemma_fundamental_div_mod;
use vstd::prelude::*;

verus! {

/// No lattice vector of a valid cell is zero.
pub proof fn lemma_vector_nonzero(cell: Cell, axis: int)
    requires
        cell.valid(),
        0 <= axis < 3,
    ensures
        cell.vector(axis) != V3::zero(),
{
    let (a, b, c) = (cell.basis.a, cell.basis.b, cell.basis.c);
    if cell.vector(axis) == V3::zero() {
        lemma_triple(a, b, c);
        lemma_zero_mul3(a.x, b.y, c.z);
        lemma_zero_mul3(a.y, b.z, c.x);
        lemma_zero_mul3(a.z, b.x, c.y);
        lemma_zero_mul3(a.x, b.z, c.y);
        lemma_zero_mul3(a.y, b.x, c.z);
        lemma_zero_mul3(a.z, b.y, c.x);
    }
}

/// The length of a vector, rounded up, is not negative, and its square is
/// not below the square of the length.
pub proof fn lemma_norm_up(v: V3)
    ensures
        norm_up(v) >= 0,
        v.norm_sq() <= norm_up(v) * norm_up(v),
{
    lemma_norm_sq_nonnegative(v);
    lemma_isqrt_up(v.norm_sq());
}

/// A vector with coordinates within `bound` has a length, rounded up, of at
/// most twice the bound.
pub proof fn lemma_norm_up_bound(v: V3, bound: int)
    requires
        v.within(bound),
    ensures
        0 <= norm_up(v) <= 2 * bound,
        0 <= v.norm_sq() <= 3 * (bound * bound),
{
    lemma_square_upper(v.x, bound);
    lemma_square_upper(v.y, bound);
    lemma_square_upper(v.z, bound);
    lemma_isqrt_up(v.norm_sq());
    lemma_isqrt_exists(v.norm_sq());
    assert((2 * bound) * (2 * bound) == 4 * (bound * bound)) by (nonlinear_arith);
    assert(0 <= 2 * bound);
    if v.norm_sq() < (2 * bound) * (2 * bound) {
        lemma_sqrt_below(v.norm_sq(), isqrt(v.norm_sq()), 2 * bound);
    } else {
        assert(bound * bound == 0);
        assert(bound == 0) by (nonlinear_arith)
            requires
                bound * bound == 0,
        ;
        assert(is_sqrt(0, 0));
        lemma_isqrt_is(v.norm_sq(), 0);
    }
}

/// In a cell with coordinates within `bound`, no face exceeds the square of
/// twice the bound.
pub proof fn lemma_face_bound(cell: Cell, axis: int, bound: int)
    requires
        cell.basis.a.within(bound),
        cell.basis.b.within(bound),
        cell.basis.c.within(bound),
    ensures
        0 <= cell.face(axis) <= (2 * bound) * (2 * bound),
{
    let x = cell.length_up((axis + 1) % 3);
    let y = cell.length_up((axis + 2) % 3);
    lemma_norm_up_bound(cell.vector((axis + 1) % 3), bound);
    lemma_norm_up_bound(cell.vector((axis + 2) % 3), bound);
    lemma_mul_le_both(x, 2 * bound, y, 2 * bound);
}

/// The product of the lengths of two lattice vectors is not negative.
pub proof fn lemma_face_nonnegative(cell: Cell, axis: int)
    ensures
        cell.face(axis) >= 0,
{
    let x = cell.length_up((axis + 1) % 3);
    let y = cell.length_up((axis + 2) % 3);
    lemma_norm_up(cell.vector((axis + 1) % 3));
    lemma_norm_up(cell.vector((axis + 2) % 3));
    assert(x * y >= 0) by (nonlinear_arith)
        requires
            x >= 0,
            y >= 0,
    ;
}

/// The length of a vector along the first axis is the magnitude of its
/// coordinate; so it is along the other axes.
pub proof fn lemma_axis_length(v: V3)
    requires
        (v.y == 0 && v.z == 0) || (v.x == 0 && v.z == 0) || (v.x == 0 && v.y == 0),
    ensures
        norm(v) == abs(v.x) + abs(v.y) + abs(v.z),
        norm_up(v) == abs(v.x) + abs(v.y) + abs(v.z),
{
    let r = abs(v.x) + abs(v.y) + abs(v.z);
    lemma_zero_mul(v.x, v.x);
    lemma_zero_mul(v.y, v.y);
    lemma_zero_mul(v.z, v.z);
    assert(v.norm_sq() == r * r) by (nonlinear_arith)
        requires
            v.norm_sq() == v.x * v.x + v.y * v.y + v.z * v.z,
            (v.y == 0 && v.z == 0) || (v.x == 0 && v.z == 0) || (v.x == 0 && v.y == 0),
            r == abs(v.x) + abs(v.y) + abs(v.z),
    ;
    assert(r * r < (r + 1) * (r + 1)) by (nonlinear_arith)
        requires
            r >= 0,
    ;
    lemma_isqrt_is(v.norm_sq(), r);
}

/// The basis applied to the fractional coordinates of a vector gives the
/// vector back, times the denominator.
pub proof fn lemma_frac_apply(cell: Cell, u: V3)
    requires
        cell.valid(),
    ensures
        cell.frac_of(u).den > 0,
        cell.basis.apply(cell.frac_of(u).num) == u.times(cell.frac_of(u).den),
{
    let m = cell.basis;
    lemma_apply_adj(m, u);
    if cell.volume() < 0 {
        lemma_apply_neg(m, m.adj_apply(u));
        lemma_mul_neg(u.x, m.det());
        lemma_mul_neg(u.y, m.det());
        lemma_mul_neg(u.z, m.det());
    }
}

/// Fractional coordinates moved by whole numbers `k` are those of the
/// vector moved by the lattice translation of `k`, and converting them back
/// involves no rounding.
pub proof fn lemma_shift_exact(cell: Cell, u: V3, k: V3)
    requires
        cell.valid(),
    ensures
        cell.basis.apply(cell.frac_of(u).shifted(k).num) == u.plus(cell.translation(k)).times(
            cell.frac_of(u).den,
        ),
        cell.to_cart(cell.frac_of(u).shifted(k)) == u.plus(cell.translation(k)).plus(cell.origin),
{
    let f = cell.frac_of(u);
    let m = cell.basis;
    let t = u.plus(m.apply(k));
    lemma_frac_apply(cell, u);
    lemma_apply_linear(m, f.num, k, f.den);
    lemma_dist_add(f.den, u.x, m.apply(k).x);
    lemma_dist_add(f.den, u.y, m.apply(k).y);
    lemma_dist_add(f.den, u.z, m.apply(k).z);
    lemma_mul_neg(u.x, f.den);
    lemma_mul_neg(u.y, f.den);
    lemma_mul_neg(u.z, f.den);
    lemma_mul_neg(m.apply(k).x, f.den);
    lemma_mul_neg(m.apply(k).y, f.den);
    lemma_mul_neg(m.apply(k).z, f.den);
    let w = m.apply(f.shifted(k).num);
    assert(w == t.times(f.den));
    lemma_floor_div_is(w.x, f.den, t.x, 0);
    lemma_floor_div_is(w.y, f.den, t.y, 0);
    lemma_floor_div_is(w.z, f.den, t.z, 0);
}

/// The fractional coordinates of a vector moved by a lattice translation
/// are those of the vector, moved by the whole numbers of the translation.
pub proof fn lemma_frac_of_translate(cell: Cell, u: V3, k: V3)
    requires
        cell.valid(),
    ensures
        cell.frac_of(u.plus(cell.translation(k))) == cell.frac_of(u).shifted(k),
{
    let m = cell.basis;
    lemma_adj_plus(m, u, m.apply(k));
    lemma_adj_apply(m, k);
    lemma_mul_neg(k.x, m.det());
    lemma_mul_neg(k.y, m.det());
    lemma_mul_neg(k.z, m.det());
}

/// Coordinates less their floors are the coordinates moved by whole numbers.
pub proof fn lemma_wrapped_is_shifted(f: Q3)
    requires
        f.den > 0,
    ensures
        f.wrapped() == f.shifted(f.floors().neg()),
        f.wrapped().in_unit_cell(),
{
    lemma_fundamental_div_mod(f.num.x, f.den);
    lemma_fundamental_div_mod(f.num.y, f.den);
    lemma_fundamental_div_mod(f.num.z, f.den);
    lemma_mul_neg(f.num.x / f.den, f.den);
    lemma_mul_neg(f.num.y / f.den, f.den);
    lemma_mul_neg(f.num.z / f.den, f.den);
}

/// A vector whose `c`-fold fractional numerators are within the denominator
/// has Cartesian coordinates within the row sums of the basis, over `c`.
pub proof fn lemma_image_bound(m: M3, r: V3, t: V3, den: int, c: int)
    requires
        den > 0,
        c > 0,
        m.apply(r) == t.times(den),
        r.times(c).within(den),
    ensures
        t.times(c).within_each(m.row_sums()),
{
    lemma_combination_bound(m.a.x, m.b.x, m.c.x, r.x * c, r.y * c, r.z * c, den);
    lemma_combination_bound(m.a.y, m.b.y, m.c.y, r.x * c, r.y * c, r.z * c, den);
    lemma_combination_bound(m.a.z, m.b.z, m.c.z, r.x * c, r.y * c, r.z * c, den);
    lemma_mul3(m.a.x, r.x, c);
    lemma_mul3(m.b.x, r.y, c);
    lemma_mul3(m.c.x, r.z, c);
    lemma_mul3(m.a.y, r.x, c);
    lemma_mul3(m.b.y, r.y, c);
    lemma_mul3(m.c.y, r.z, c);
    lemma_mul3(m.a.z, r.x, c);
    lemma_mul3(m.b.z, r.y, c);
    lemma_mul3(m.c.z, r.z, c);
    lemma_dist3(c, m.a.x * r.x, m.b.x * r.y, m.c.x * r.z);
    lemma_dist3(c, m.a.y * r.x, m.b.y * r.y, m.c.y * r.z);
    lemma_dist3(c, m.a.z * r.x, m.b.z * r.y, m.c.z * r.z);
    lemma_mul3(c, t.x, den);
    lemma_mul3(c, t.y, den);
    lemma_mul3(c, t.z, den);
    lemma_cancel_bound(den, t.x * c, m.row_sums().x);
    lemma_cancel_bound(den, t.y * c, m.row_sums().y);
    lemma_cancel_bound(den, t.z * c, m.row_sums().z);
}

/// A wrapped point lies in the cell: less the origin, its coordinates are
/// within the row sums of the basis.
pub proof fn lemma_wrap_bound(cell: Cell, u: V3)
    requires
        cell.valid(),
    ensures
        cell.to_cart(cell.frac_of(u).wrapped()) == u.plus(
            cell.translation(cell.frac_of(u).floors().neg()),
        ).plus(cell.origin),
        u.plus(cell.translation(cell.frac_of(u).floors().neg())).within_each(
            cell.basis.row_sums(),
        ),
{
    let f = cell.frac_of(u);
    let k = f.floors().neg();
    lemma_frac_apply(cell, u);
    lemma_wrapped_is_shifted(f);
    lemma_shift_exact(cell, u, k);
    let t = u.plus(cell.translation(k));
    lemma_image_bound(cell.basis, f.wrapped().num, t, f.den, 1);
}

/// In a diagonal basis, the volume, the adjugate and the lattice
/// translations are products along the diagonal.
pub proof fn lemma_diagonal(m: M3, u: V3)
    requires
        m.is_diagonal(),
    ensures
        m.det() == m.a.x * (m.b.y * m.c.z),
        m.adj_apply(u) == (V3 {
            x: (m.b.y * m.c.z) * u.x,
            y: (m.c.z * m.a.x) * u.y,
            z: (m.a.x * m.b.y) * u.z,
        }),
        m.apply(u) == (V3 { x: m.a.x * u.x, y: m.b.y * u.y, z: m.c.z * u.z }),
{
    let (a, b, c) = (m.a, m.b, m.c);
    lemma_zero_mul(b.z, c.y);
    lemma_zero_mul(b.z, c.x);
    lemma_zero_mul(b.x, c.z);
    lemma_zero_mul(b.x, c.y);
    lemma_zero_mul(b.y, c.x);
    lemma_zero_mul(c.y, a.z);
    lemma_zero_mul(c.z, a.y);
    lemma_zero_mul(c.x, a.z);
    lemma_zero_mul(c.x, a.y);
    lemma_zero_mul(c.y, a.x);
    lemma_zero_mul(a.y, b.z);
    lemma_zero_mul(a.z, b.y);
    lemma_zero_mul(a.z, b.x);
    lemma_zero_mul(a.x, b.z);
    lemma_zero_mul(a.y, b.x);
    lemma_zero_mul(a.y, b.z * c.x - b.x * c.z);
    lemma_zero_mul(a.z, b.x * c.y - b.y * c.x);
    lemma_zero_mul(b.z * c.x - b.x * c.z, u.y);
    lemma_zero_mul(b.x * c.y - b.y * c.x, u.z);
    lemma_zero_mul(c.y * a.z - c.z * a.y, u.x);
    lemma_zero_mul(c.x * a.y - c.y * a.x, u.z);
    lemma_zero_mul(a.y * b.z - a.z * b.y, u.x);
    lemma_zero_mul(a.z * b.x - a.x * b.z, u.y);
    lemma_zero_mul(b.x, u.y);
    lemma_zero_mul(c.x, u.z);
    lemma_zero_mul(a.y, u.x);
    lemma_zero_mul(c.y, u.z);
    lemma_zero_mul(a.z, u.x);
    lemma_zero_mul(b.z, u.y);
}

/// Where the least key stands: within the list, at a key that none
/// undercuts, and after only larger keys.
pub proof fn lemma_first_min(keys: Seq<int>)
    requires
        keys.len() > 0,
    ensures
        0 <= first_min(keys) < keys.len(),
        forall|j: int| 0 <= j < keys.len() ==> keys[first_min(keys)] <= #[trigger] keys[j],
        forall|j: int| 0 <= j < first_min(keys) ==> keys[first_min(keys)] < #[trigger] keys[j],
    decreases keys.len(),
{
    if keys.len() > 1 {
        let front = keys.drop_last();
        lemma_first_min(front);
        let i = first_min(front);
        assert(forall|j: int| 0 <= j < front.len() ==> front[j] == keys[j]);
    }
}

/// The least key of a list with one more key at its end.
pub proof fn lemma_first_min_push(keys: Seq<int>, k: int)
    requires
        keys.len() > 0,
    ensures
        first_min(keys.push(k)) == if k < keys[first_min(keys)] {
            keys.len() as int
        } else {
            first_min(keys)
        },
{
    lemma_first_min(keys);
    assert(keys.push(k).drop_last() =~= keys);
}

/// A radius within 2^31 times a face within 2^62 is within 2^93.
pub proof fn lemma_radius_face(radius: int, face: int)
    by (nonlinear_arith)
    requires
        0 <= radius <= 0x8000_0000,
        0 <= face <= 0x4000_0000_0000_0000,
    ensures
        0 <= radius * face <= 0x2000_0000_0000_0000_0000_0000,
{
}

/// The estimate of the minimum image differs from the displacement by a
/// lattice translation, and lies in the cell centred on zero: twice its
/// coordinates are within the row sums of the basis.
pub proof fn lemma_estimate_bound(cell: Cell, d: V3)
    requires
        cell.valid(),
    ensures
        cell.mic_estimate(d) == d.plus(cell.translation(cell.frac_of(d).rounded().neg())),
        cell.basis.apply(cell.frac_of(d).centred().num) == cell.mic_estimate(d).times(
            cell.frac_of(d).den,
        ),
        cell.frac_of(d).centred().num.times(2).within(cell.frac_of(d).den),
        cell.mic_estimate(d).times(2).within_each(cell.basis.row_sums()),
{
    let f = cell.frac_of(d);
    let k = f.rounded().neg();
    lemma_frac_apply(cell, d);
    lemma_shift_exact(cell, d, k);
    let t = d.plus(cell.translation(k));
    lemma_round_residual(f.num.x, f.den);
    lemma_round_residual(f.num.y, f.den);
    lemma_round_residual(f.num.z, f.den);
    lemma_mul_neg(round_div(f.num.x, f.den), f.den);
    lemma_mul_neg(round_div(f.num.y, f.den), f.den);
    lemma_mul_neg(round_div(f.num.z, f.den), f.den);
    lemma_image_bound(cell.basis, f.centred().num, t, f.den, 2);
}

/// The estimate of the minimum image does not change when the
/// displacement is moved by a lattice translation.
pub proof fn lemma_estimate_shift(cell: Cell, d: V3, n: V3)
    requires
        cell.valid(),
    ensures
        cell.mic_estimate(d.plus(cell.translation(n))) == cell.mic_estimate(d),
{
    let m = cell.basis;
    let f = cell.frac_of(d);
    let e = d.plus(cell.translation(n));
    let g = cell.frac_of(e);
    lemma_frac_apply(cell, d);
    lemma_frac_of_translate(cell, d, n);
    lemma_round_shift(f.num.x, f.den, n.x);
    lemma_round_shift(f.num.y, f.den, n.y);
    lemma_round_shift(f.num.z, f.den, n.z);
    assert(g.rounded() == f.rounded().plus(n));
    lemma_estimate_bound(cell, d);
    lemma_estimate_bound(cell, e);
    let k = f.rounded().neg();
    assert(g.rounded().neg() == k.plus(n.times(-1)));
    lemma_apply_linear(m, k, n, -1);
}

/// Along one axis of a diagonal basis with entry `m`, where `q` is the
/// product of the other two entries: the entry times the nearest whole
/// number to the fractional coordinate is the nearest multiple of `|m|` to
/// the Cartesian coordinate `d`. Where the entry is negative, a coordinate
/// half-way between two multiples is left out: it goes the other way.
pub proof fn lemma_axis_round(d: int, m: int, q: int)
    requires
        m != 0,
        q != 0,
        m > 0 || !on_half(d, abs(m)),
    ensures
        m * q != 0,
        m * q < 0 ==> m * round_div(-(q * d), -(m * q)) == abs(m) * round_div(d, abs(m)),
        m * q > 0 ==> m * round_div(q * d, m * q) == abs(m) * round_div(d, abs(m)),
{
    lemma_mul_neg(q, d);
    lemma_mul_neg(m, q);
    lemma_mul_neg(q, m);
    lemma_mul_neg(-q, m);
    lemma_mul_neg(-q, d);
    lemma_mul_neg(q, -m);
    if m > 0 && q > 0 {
        assert(m * q > 0) by (nonlinear_arith)
            requires
                m > 0,
                q > 0,
        ;
        lemma_round_cancel(d, m, q);
    } else if m > 0 && q < 0 {
        assert(m * q < 0) by (nonlinear_arith)
            requires
                m > 0,
                q < 0,
        ;
        lemma_round_cancel(d, m, -q);
    } else if m < 0 && q > 0 {
        assert(m * q < 0) by (nonlinear_arith)
            requires
                m < 0,
                q > 0,
        ;
        lemma_round_cancel(-d, -m, q);
        lemma_round_neg(d, -m);
        lemma_mul_neg(m, round_div(d, -m));
        lemma_mul_neg(-m, round_div(d, -m));
    } else {
        assert(m * q > 0) by (nonlinear_arith)
            requires
                m < 0,
                q < 0,
        ;
        lemma_mul_neg(-q, -d);
        lemma_mul_neg(-q, -m);
        lemma_round_cancel(-d, -m, -q);
        lemma_round_neg(d, -m);
        lemma_mul_neg(m, round_div(d, -m));
        lemma_mul_neg(-m, round_div(d, -m));
    }
}

/// The number of images along an axis is at most the radius times the face.
pub proof fn lemma_n_images_bound(cell: Cell, radius: int, axis: int)
    requires
        cell.valid(),
        radius >= 0,
    ensures
        0 <= cell.n_images(radius, axis) <= radius * cell.face(axis),
        cell.n_images(radius, axis) * cell.abs_volume() >= radius * cell.face(axis),
{
    lemma_face_nonnegative(cell, axis);
    let x = radius * cell.face(axis);
    let v = cell.abs_volume();
    assert(0 <= x) by (nonlinear_arith)
        requires
            x == radius * cell.face(axis),
            radius >= 0,
            cell.face(axis) >= 0,
    ;
    if radius > 0 {
        // ceil(x / v) = -floor(-x / v), and -x = (-q) * v + r
        lemma_fundamental_div_mod(-x, v);
        let q = (-x) / v;
        let r = (-x) % v;
        assert(-x <= q <= 0) by (nonlinear_arith)
            requires
                -x == v * q + r,
                0 <= r < v,
                x >= 0,
                v >= 1,
        ;
        lemma_ceil_div_reaches(x, v);
    } else {
        lemma_zero_mul(cell.n_images(radius, axis), v);
    }
}

/// No perpendicular width is negative or above the length of its lattice
/// vector: the volume is at most the product of the three lengths.
pub proof fn lemma_width_bound(cell: Cell, axis: int)
    requires
        cell.valid(),
        0 <= axis < 3,
    ensures
        0 <= cell.width(axis) <= cell.length(axis),
        cell.face(axis) > 0,
{
    let u = cell.vector(axis);
    let r = cell.row(axis);
    let f = cell.face(axis);
    let vol = cell.volume();
    let big = cell.abs_volume();
    let (a, b, c) = (cell.basis.a, cell.basis.b, cell.basis.c);
    // the volume is the lattice vector of the axis times its row
    lemma_triple(a, b, c);
    lemma_triple(b, c, a);
    lemma_triple(c, a, b);
    lemma_triple_cyclic(a, b, c);
    assert(vol == u.dot(r));
    // the face is positive
    let l1 = cell.length_up((axis + 1) % 3);
    let l2 = cell.length_up((axis + 2) % 3);
    lemma_vector_nonzero(cell, (axis + 1) % 3);
    lemma_vector_nonzero(cell, (axis + 2) % 3);
    lemma_norm_sq_positive(cell.vector((axis + 1) % 3));
    lemma_norm_sq_positive(cell.vector((axis + 2) % 3));
    lemma_isqrt_up(cell.vector((axis + 1) % 3).norm_sq());
    lemma_isqrt_up(cell.vector((axis + 2) % 3).norm_sq());
    lemma_positive_product(l1, l2, l1 + l2);
    // the square of the volume is at most that of the length times the face
    lemma_row_bound(cell, u, axis);
    lemma_cauchy_schwarz(u, r);
    lemma_norm_sq_nonnegative(u);
    lemma_norm_sq_nonnegative(r);
    lemma_mul_le_both(u.norm_sq(), u.norm_sq(), r.norm_sq(), f * f);
    lemma_abs_mul(vol, vol);
    assert(big * big <= u.norm_sq() * (f * f));
    // so is the square of the width times the face
    let w = cell.width(axis);
    lemma_fundamental_div_mod(big, f);
    lemma_quotient_bound(big, f);
    lemma_mul_neg(f, w);
    assert(w * f <= big);
    lemma_mul_le_both(w, w, f, f);
    lemma_mul_le_both(w * f, big, w * f, big);
    lemma_mul4(w, f, w, f);
    lemma_mul_le_both(0, f, 0, f);
    lemma_positive_product(f, f, f);
    lemma_cancel_le(w * w, u.norm_sq(), f * f);
    lemma_isqrt_exists(u.norm_sq());
    lemma_square_order(w, cell.length(axis) + 1);
}

} // verus!
