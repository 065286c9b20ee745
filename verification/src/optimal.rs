//! Why the minimum image is the shortest one: the estimate is certified by
//! the safe radius, the search box holds every image that could be shorter,
//! and in an orthorhombic cell every axis can be rounded on its own.

use crate::algebra::V3;
use crate::algebra::lemma_adj_apply;
use crate::algebra::lemma_cauchy_schwarz;
use crate::algebra::lemma_dot_plus;
use crate::algebra::lemma_dot_scale;
use crate::algebra::lemma_norm_sq_nonnegative;
use crate::cell::Cell;
use crate::cell::norm_up;
use crate::geometry::lemma_diagonal;
use crate::geometry::lemma_estimate_bound;
use crate::geometry::lemma_frac_apply;
use crate::geometry::lemma_n_images_bound;
use crate::geometry::lemma_norm_up;
use crate::products::lemma_centred_square;
use crate::products::lemma_mul4;
use crate::products::lemma_mul_le_both;
use crate::products::lemma_mul_neg;
use crate::products::lemma_multiple_far;
use crate::products::lemma_square_lower;
use crate::products::lemma_within_from_square;
use vstd::arithmetic::div_mod::lemma_fundamental_div_mod;
use vstd::prelude::*;

verus! {

/// A vector `w` that projects on `r` further out than `b`, where `b` bounds
/// the projection of every vector as long as `v`, is longer than `v`.
/// Stated over the squares `a` and `w` of the two lengths, the square `r2`
/// of the length of `r`, and the projection `s` of the longer vector.
pub proof fn lemma_projection_longer(a: int, w: int, r2: int, s: int, b: int)
    requires
        0 <= r2,
        s * s <= r2 * w,
        b >= 0,
        r2 * a <= b * b,
        s > b || s < -b,
    ensures
        w > a,
{
    lemma_square_lower(s, b + 1);
    assert((b + 1) * (b + 1) > b * b) by (nonlinear_arith)
        requires
            b >= 0,
    ;
    if w <= a {
        assert(r2 * w <= r2 * a) by (nonlinear_arith)
            requires
                w <= a,
                r2 >= 0,
        ;
    }
}

/// The row of an axis is no longer than the face of the axis, and the
/// projection on it of a vector no longer than the length of the vector,
/// rounded up, times the face.
pub proof fn lemma_row_bound(cell: Cell, v: V3, axis: int)
    requires
        0 <= axis < 3,
    ensures
        norm_up(v) * cell.face(axis) >= 0,
        cell.row(axis).norm_sq() >= 0,
        cell.row(axis).norm_sq() <= cell.face(axis) * cell.face(axis),
        cell.row(axis).norm_sq() * v.norm_sq() <= (norm_up(v) * cell.face(axis)) * (norm_up(v)
            * cell.face(axis)),
        -(norm_up(v) * cell.face(axis)) <= cell.row(axis).dot(v) <= norm_up(v) * cell.face(axis),
{
    let u1 = cell.vector((axis + 1) % 3);
    let u2 = cell.vector((axis + 2) % 3);
    let l1 = norm_up(u1);
    let l2 = norm_up(u2);
    let r = cell.row(axis);
    let f = cell.face(axis);
    let ru = norm_up(v);
    lemma_norm_up(u1);
    lemma_norm_up(u2);
    lemma_norm_up(v);
    lemma_norm_sq_nonnegative(u1);
    lemma_norm_sq_nonnegative(u2);
    lemma_norm_sq_nonnegative(v);
    lemma_norm_sq_nonnegative(r);
    lemma_cauchy_schwarz(u1, u2);
    lemma_mul_le_both(u1.norm_sq(), l1 * l1, u2.norm_sq(), l2 * l2);
    lemma_mul4(l1, l1, l2, l2);
    assert(r.norm_sq() <= f * f);
    lemma_mul_le_both(r.norm_sq(), f * f, v.norm_sq(), ru * ru);
    lemma_mul4(f, f, ru, ru);
    lemma_mul_neg(f, ru);
    assert((f * f) * (ru * ru) == (ru * f) * (ru * f));
    lemma_mul_le_both(0, ru, 0, f);
    lemma_cauchy_schwarz(r, v);
    lemma_within_from_square(r.dot(v), ru * f);
}

/// The projection of a lattice translation on the row of an axis is the
/// image's index along the axis times the volume.
pub proof fn lemma_row_projection(cell: Cell, n: V3, axis: int)
    requires
        0 <= axis < 3,
    ensures
        cell.row(axis).dot(cell.translation(n)) == n.coordinate(axis) * cell.volume(),
{
    lemma_adj_apply(cell.basis, n);
}

/// The projection of a lattice translation by a whole number `k != 0` of
/// lattice vectors along an axis, on the row of that axis, is at least the
/// magnitude of the volume; by more than `count >= 0` of them, more than
/// `count` times as much.
pub proof fn lemma_projection_far(cell: Cell, n: V3, axis: int, count: int)
    requires
        cell.valid(),
        0 <= axis < 3,
        count >= 0,
        n.coordinate(axis) > count || n.coordinate(axis) < -count,
    ensures
        cell.row(axis).dot(cell.translation(n)) >= count * cell.abs_volume() + cell.abs_volume()
            || cell.row(axis).dot(cell.translation(n)) <= -(count * cell.abs_volume())
            - cell.abs_volume(),
{
    let k = n.coordinate(axis);
    lemma_row_projection(cell, n, axis);
    if cell.volume() > 0 {
        lemma_multiple_far(k, cell.volume(), count);
    } else {
        lemma_mul_neg(k, cell.volume());
        lemma_mul_neg(-k, cell.volume());
        lemma_multiple_far(-k, -cell.volume(), count);
    }
}

/// The certificate of the safe radius: a vector shorter than half of every
/// perpendicular width is shorter than each of its other periodic images.
pub proof fn lemma_certificate(cell: Cell, v: V3, n: V3)
    requires
        cell.valid(),
        cell.within_safe_radius(v),
        n != V3::zero(),
    ensures
        v.plus(cell.translation(n)).norm_sq() > v.norm_sq(),
{
    let axis: int = if n.x != 0 {
        0
    } else if n.y != 0 {
        1
    } else {
        2
    };
    let r = cell.row(axis);
    let w = v.plus(cell.translation(n));
    let b = norm_up(v) * cell.face(axis);
    let vol = cell.abs_volume();
    lemma_row_bound(cell, v, axis);
    lemma_row_bound(cell, w, axis);
    lemma_cauchy_schwarz(r, w);
    lemma_dot_plus(r, v, cell.translation(n));
    assert(2 * norm_up(v) * cell.face(axis) == 2 * b) by (nonlinear_arith)
        requires
            b == norm_up(v) * cell.face(axis),
    ;
    assert(2 * b < vol);
    lemma_projection_far(cell, n, axis, 0);
    lemma_projection_longer(v.norm_sq(), w.norm_sq(), r.norm_sq(), r.dot(w), b);
}

/// An image beyond the search box along some axis gives no shorter vector
/// than the estimate itself, provided the estimate projects on the row of
/// that axis within half the volume.
pub proof fn lemma_outside_box(cell: Cell, p: V3, n: V3, axis: int)
    requires
        cell.valid(),
        0 <= axis < 3,
        -cell.abs_volume() <= 2 * cell.row(axis).dot(p) <= cell.abs_volume(),
        n.coordinate(axis) > cell.n_images(norm_up(p), axis) || n.coordinate(axis)
            < -cell.n_images(norm_up(p), axis),
    ensures
        p.plus(cell.translation(n)).norm_sq() >= p.norm_sq(),
{
    let r = cell.row(axis);
    let w = p.plus(cell.translation(n));
    let ru = norm_up(p);
    let b = ru * cell.face(axis);
    let count = cell.n_images(ru, axis);
    lemma_norm_up(p);
    lemma_norm_sq_nonnegative(p);
    lemma_norm_sq_nonnegative(w);
    if ru == 0 {
        assert(ru * ru == 0) by (nonlinear_arith)
            requires
                ru == 0,
        ;
    } else {
        lemma_row_bound(cell, p, axis);
        lemma_cauchy_schwarz(r, w);
        lemma_dot_plus(r, p, cell.translation(n));
        lemma_n_images_bound(cell, ru, axis);
        lemma_projection_far(cell, n, axis, count);
        lemma_projection_longer(p.norm_sq(), w.norm_sq(), r.norm_sq(), r.dot(w), b);
    }
}

/// The estimate is centred: its projection on the row of each axis is
/// within half the volume.
pub proof fn lemma_estimate_centred(cell: Cell, d: V3, axis: int)
    requires
        cell.valid(),
        0 <= axis < 3,
    ensures
        -cell.abs_volume() <= 2 * cell.row(axis).dot(cell.mic_estimate(d)) <= cell.abs_volume(),
{
    let f = cell.frac_of(d);
    let g = f.centred();
    let p = cell.mic_estimate(d);
    let r = cell.row(axis);
    let vol = cell.volume();
    let den = f.den;
    lemma_frac_apply(cell, d);
    lemma_estimate_bound(cell, d);
    lemma_row_projection(cell, g.num, axis);
    lemma_dot_scale(r, p, den);
    let t = r.dot(p);
    let c = g.num.coordinate(axis);
    assert(den * t == c * vol);
    if vol > 0 {
        assert(t == c) by (nonlinear_arith)
            requires
                vol * t == c * vol,
                vol > 0,
        ;
    } else {
        assert(t == -c) by (nonlinear_arith)
            requires
                (-vol) * t == c * vol,
                vol < 0,
        ;
    }
}

/// In an orthorhombic cell no periodic image of the estimate is shorter
/// than the estimate.
pub proof fn lemma_orthorhombic_min(cell: Cell, d: V3, j: V3)
    requires
        cell.valid(),
        cell.is_orthorhombic(),
    ensures
        cell.mic_estimate(d).plus(cell.translation(j)).norm_sq() >= cell.mic_estimate(d).norm_sq(),
{
    let e = cell.mic_estimate(d);
    let m = cell.basis;
    lemma_estimate_bound(cell, d);
    lemma_diagonal(m, j);
    lemma_centred_square(e.x, m.a.x, j.x);
    lemma_centred_square(e.y, m.b.y, j.y);
    lemma_centred_square(e.z, m.c.z, j.z);
}

} // verus!
