//! What holds of every lattice: the laws that relate its operations.

use crate::algebra::V3;
use crate::algebra::lemma_adj_apply;
use crate::algebra::lemma_adj_plus;
use crate::algebra::lemma_adj_times;
use crate::algebra::lemma_apply_linear;
use crate::algebra::lemma_apply_neg;
use crate::algebra::lemma_det_column_times;
use crate::algebra::lemma_det_times;
use crate::algebra::lemma_dot_times;
use crate::algebra::lemma_norm_sq_neg;
use crate::algebra::lemma_norm_sq_nonnegative;
use crate::algebra::lemma_triple;
use crate::algebra::lemma_triple_exchange;
use crate::arith::abs;
use crate::arith::centred_wrap;
use crate::arith::is_sqrt;
use crate::arith::lemma_centred_wrap_range;
use crate::arith::lemma_floor_div_is;
use crate::arith::lemma_isqrt_exists;
use crate::arith::lemma_isqrt_is;
use crate::arith::lemma_isqrt_scaled;
use crate::arith::lemma_round_cancel;
use crate::arith::lemma_round_is_centred;
use crate::arith::lemma_round_residual;
use crate::arith::on_half;
use crate::cell::Cell;
use crate::cell::Q3;
use crate::cell::box_images;
use crate::cell::first_min;
use crate::cell::norm;
use crate::cell::norm_up;
use crate::geometry::lemma_axis_length;
use crate::geometry::lemma_axis_round;
use crate::geometry::lemma_diagonal;
use crate::geometry::lemma_estimate_bound;
use crate::geometry::lemma_estimate_shift;
use crate::geometry::lemma_first_min;
use crate::geometry::lemma_frac_apply;
use crate::geometry::lemma_frac_of_translate;
use crate::geometry::lemma_n_images_bound;
use crate::geometry::lemma_norm_up;
use crate::geometry::lemma_shift_exact;
use crate::geometry::lemma_width_bound;
use crate::geometry::lemma_wrap_bound;
use crate::geometry::lemma_wrapped_is_shifted;
use crate::images::box_place;
use crate::images::lemma_box_holds;
use crate::optimal::lemma_certificate;
use crate::optimal::lemma_estimate_centred;
use crate::optimal::lemma_orthorhombic_min;
use crate::optimal::lemma_outside_box;
use crate::products::lemma_abs_mul;
use crate::products::lemma_mul3;
use crate::products::lemma_mul_neg;
use crate::products::lemma_positive_product;
use crate::products::lemma_rounding_is_small;
use crate::products::lemma_same_cosine;
use crate::products::lemma_zero_mul;
use vstd::arithmetic::div_mod::lemma_fundamental_div_mod;
use vstd::arithmetic::div_mod::lemma_small_mod;
use vstd::prelude::*;

verus! {

/// Round trip: the Cartesian point of the fractional coordinates of a point
/// is the point itself.
pub proof fn law_round_trip(cell: Cell, p: V3)
    requires
        cell.valid(),
    ensures
        cell.to_cart(cell.to_frac(p)) == p,
{
    let u = p.minus(cell.origin);
    let f = cell.frac_of(u);
    lemma_shift_exact(cell, u, V3::zero());
    assert(f.shifted(V3::zero()) == f);
    assert(cell.translation(V3::zero()) == V3::zero());
}

/// Round trip the other way: the fractional coordinates of the Cartesian
/// point of fractional coordinates `f` are `f`, as a ratio, less what the
/// grid rounds away. Where the point of `f` lies on the grid, nothing is
/// rounded away and the two are the same ratios. The origin itself has the
/// fractional coordinates zero.
pub proof fn law_frac_round_trip(cell: Cell, f: Q3)
    requires
        cell.valid(),
        f.den > 0,
    ensures
        cell.to_frac(cell.to_cart(f)).num.times(f.den).plus(
            cell.frac_of(cell.grid_remainder(f)).num,
        ) == f.num.times(cell.to_frac(cell.to_cart(f)).den),
        cell.grid_remainder(f) == V3::zero() ==> cell.to_frac(cell.to_cart(f)).num.times(f.den)
            == f.num.times(cell.to_frac(cell.to_cart(f)).den),
        cell.to_frac(cell.origin).num == V3::zero(),
{
    let m = cell.basis;
    let w = m.apply(f.num);
    let t = cell.to_vector(f);
    let r = cell.grid_remainder(f);
    let vol = cell.volume();
    lemma_fundamental_div_mod(w.x, f.den);
    lemma_fundamental_div_mod(w.y, f.den);
    lemma_fundamental_div_mod(w.z, f.den);
    lemma_mul_neg(t.x, f.den);
    lemma_mul_neg(t.y, f.den);
    lemma_mul_neg(t.z, f.den);
    assert(w == t.times(f.den).plus(r));
    assert(cell.to_cart(f).minus(cell.origin) == t);
    lemma_adj_apply(m, f.num);
    lemma_adj_plus(m, t.times(f.den), r);
    lemma_adj_times(m, t, f.den);
    let at = m.adj_apply(t);
    let ar = m.adj_apply(r);
    assert(at.times(f.den).plus(ar) == f.num.times(vol));
    lemma_mul_neg(at.x, f.den);
    lemma_mul_neg(at.y, f.den);
    lemma_mul_neg(at.z, f.den);
    lemma_mul_neg(f.num.x, vol);
    lemma_mul_neg(f.num.y, vol);
    lemma_mul_neg(f.num.z, vol);
    assert(m.adj_apply(V3::zero()) == V3::zero());
    assert(cell.origin.minus(cell.origin) == V3::zero());
}

/// Wrapping: a wrapped point differs from the point by a lattice
/// translation, it has every fractional coordinate in `[0, 1)`, and wrapping
/// it again leaves it where it is.
pub proof fn law_wrap_idempotent(cell: Cell, p: V3)
    requires
        cell.valid(),
    ensures
        cell.wrap(p) == p.plus(cell.translation(cell.to_frac(p).floors().neg())),
        cell.to_frac(cell.wrap(p)).in_unit_cell(),
        cell.wrap(cell.wrap(p)) == cell.wrap(p),
{
    let u = p.minus(cell.origin);
    let f = cell.frac_of(u);
    let k = f.floors().neg();
    let w = cell.wrap(p);
    lemma_frac_apply(cell, u);
    lemma_wrap_bound(cell, u);
    lemma_wrapped_is_shifted(f);
    lemma_frac_of_translate(cell, u, k);
    assert(w.minus(cell.origin) == u.plus(cell.translation(k)));
    assert(cell.to_frac(w) == f.wrapped());
    let g = f.wrapped();
    lemma_small_mod(g.num.x as nat, g.den as nat);
    lemma_small_mod(g.num.y as nat, g.den as nat);
    lemma_small_mod(g.num.z as nat, g.den as nat);
    assert(g.wrapped() == g);
}

/// Widths: no perpendicular width is negative, and none is above the
/// length of its lattice vector. In an orthorhombic cell each width is the
/// length of its lattice vector.
pub proof fn law_widths(cell: Cell)
    requires
        cell.valid(),
    ensures
        forall|axis: int| 0 <= axis < 3 ==> 0 <= #[trigger] cell.width(axis) <= cell.length(axis),
        cell.is_orthorhombic() ==> forall|axis: int|
            0 <= axis < 3 ==> #[trigger] cell.width(axis) == cell.length(axis),
{
    assert forall|axis: int| 0 <= axis < 3 implies 0 <= #[trigger] cell.width(axis)
        <= cell.length(axis) by {
        lemma_width_bound(cell, axis);
    }
    if cell.is_orthorhombic() {
        let m = cell.basis;
        let (ax, by, cz) = (m.a.x, m.b.y, m.c.z);
        lemma_diagonal(m, V3::zero());
        lemma_axis_length(m.a);
        lemma_axis_length(m.b);
        lemma_axis_length(m.c);
        lemma_abs_mul(by, cz);
        lemma_abs_mul(ax, by * cz);
        lemma_mul3(abs(ax), abs(by), abs(cz));
        lemma_zero_mul(ax, by * cz);
        lemma_zero_mul(by, cz);
        lemma_positive_product(abs(by), abs(cz), abs(by) + abs(cz));
        lemma_positive_product(abs(cz), abs(ax), abs(cz) + abs(ax));
        lemma_positive_product(abs(ax), abs(by), abs(ax) + abs(by));
        lemma_floor_div_is(cell.abs_volume(), abs(by) * abs(cz), abs(ax), 0);
        lemma_floor_div_is(cell.abs_volume(), abs(cz) * abs(ax), abs(by), 0);
        lemma_floor_div_is(cell.abs_volume(), abs(ax) * abs(by), abs(cz), 0);
        assert forall|axis: int| 0 <= axis < 3 implies #[trigger] cell.width(axis) == cell.length(
            axis,
        ) by {}
    }
}

/// Zero displacement: the minimum image of the zero vector is the zero
/// vector by the zero image, and a point is at distance zero from itself.
pub proof fn law_zero_displacement(cell: Cell, p: V3)
    requires
        cell.valid(),
    ensures
        cell.apply_mic(V3::zero()) == V3::zero(),
        cell.mic_shift(V3::zero()) == V3::zero(),
        cell.distance(p, p) == 0,
{
    let zero = V3::zero();
    let f = cell.frac_of(zero);
    assert(p.minus(p) == zero);
    lemma_frac_apply(cell, zero);
    assert(f.num == zero);
    lemma_floor_div_is(f.den, 2 * f.den, 0, f.den);
    assert(f.rounded() == zero);
    lemma_estimate_bound(cell, zero);
    assert(cell.translation(zero) == zero);
    assert(cell.mic_estimate(zero) == zero);
    assert(is_sqrt(0, 0));
    lemma_isqrt_is(0, 0);
    assert(norm_up(zero) == 0);
    assert(norm(zero) == 0);
    let images = cell.relevant_images(0);
    assert(images.len() == 1);
    let keys = cell.translate_keys(zero, images);
    lemma_first_min(keys);
    assert(first_min(keys) == 0);
    assert(images[0] == zero);
}

/// Congruence: the minimum image of a displacement differs from it by the
/// lattice translation of a periodic image.
pub proof fn law_mic_is_image(cell: Cell, d: V3)
    requires
        cell.valid(),
    ensures
        cell.apply_mic(d) == d.plus(cell.translation(cell.mic_shift(d))),
        cell.mic_estimate(d) == d.plus(cell.translation(cell.frac_of(d).rounded().neg())),
{
    let k = cell.frac_of(d).rounded().neg();
    let n = cell.mic_image(d);
    lemma_estimate_bound(cell, d);
    lemma_apply_linear(cell.basis, k, n, 1);
    assert(n.times(1) == n);
    assert(cell.translation(n).times(1) == cell.translation(n));
}

/// Exhaustive search: among the translates of the estimate by the images
/// within reach, the search gives a shortest one, and gives it by the first
/// image that makes one so short. The image (0, 0, 0) is within reach, so
/// that the result is never longer than the estimate.
pub proof fn law_search_takes_first_minimum(cell: Cell, d: V3)
    requires
        cell.valid(),
    ensures
        ({
            let p = cell.mic_estimate(d);
            let images = cell.relevant_images(norm_up(p));
            let keys = cell.translate_keys(p, images);
            let found = first_min(keys);
            &&& 0 <= found < images.len()
            &&& cell.mic_image(d) == images[found]
            &&& cell.mic_search(d).norm_sq() == keys[found]
            &&& forall|i: int| 0 <= i < images.len() ==> keys[found] <= #[trigger] keys[i]
            &&& forall|i: int| 0 <= i < found ==> keys[found] < #[trigger] keys[i]
            &&& cell.mic_search(d).norm_sq() <= p.norm_sq()
        }),
{
    let p = cell.mic_estimate(d);
    let radius = norm_up(p);
    let na = cell.n_images(radius, 0);
    let nb = cell.n_images(radius, 1);
    let nc = cell.n_images(radius, 2);
    lemma_norm_up(p);
    lemma_n_images_bound(cell, radius, 0);
    lemma_n_images_bound(cell, radius, 1);
    lemma_n_images_bound(cell, radius, 2);
    let images = box_images(na, nb, nc);
    let keys = cell.translate_keys(p, images);
    lemma_box_holds(na, nb, nc, V3::zero());
    lemma_first_min(keys);
    let home = box_place(na, nb, nc, V3::zero());
    assert(cell.translation(V3::zero()) == V3::zero());
    assert(keys[home] == p.norm_sq());
}

/// Minimum image: no periodic image of a displacement is shorter than its
/// minimum image. It holds in every valid cell, whatever its handedness and
/// wherever its origin lies.
pub proof fn law_minimum_image(cell: Cell, d: V3, n: V3)
    requires
        cell.valid(),
    ensures
        cell.apply_mic(d).norm_sq() <= d.plus(cell.translation(n)).norm_sq(),
{
    let m = cell.basis;
    let k = cell.frac_of(d).rounded().neg();
    let p = cell.mic_estimate(d);
    let j = n.minus(k);
    law_mic_is_image(cell, d);
    lemma_apply_linear(m, n, k, -1);
    assert(n.plus(k.times(-1)) == j);
    assert(d.plus(cell.translation(n)) == p.plus(cell.translation(j)));
    if cell.is_orthorhombic() {
        lemma_orthorhombic_min(cell, d, j);
    } else if cell.within_safe_radius(p) {
        if j == V3::zero() {
            assert(cell.translation(j) == V3::zero());
        } else {
            lemma_certificate(cell, p, j);
        }
    } else {
        let radius = norm_up(p);
        let na = cell.n_images(radius, 0);
        let nb = cell.n_images(radius, 1);
        let nc = cell.n_images(radius, 2);
        lemma_norm_up(p);
        lemma_n_images_bound(cell, radius, 0);
        lemma_n_images_bound(cell, radius, 1);
        lemma_n_images_bound(cell, radius, 2);
        let images = box_images(na, nb, nc);
        let keys = cell.translate_keys(p, images);
        lemma_box_holds(na, nb, nc, V3::zero());
        lemma_first_min(keys);
        let least = keys[first_min(keys)];
        assert(cell.mic_search(d).norm_sq() == least);
        let home = box_place(na, nb, nc, V3::zero());
        assert(cell.translation(V3::zero()) == V3::zero());
        assert(keys[home] == p.norm_sq());
        if -na <= j.x <= na && -nb <= j.y <= nb && -nc <= j.z <= nc {
            lemma_box_holds(na, nb, nc, j);
            let place = box_place(na, nb, nc, j);
            assert(keys[place] == p.plus(cell.translation(j)).norm_sq());
        } else {
            let axis: int = if !(-na <= j.x <= na) {
                0
            } else if !(-nb <= j.y <= nb) {
                1
            } else {
                2
            };
            lemma_estimate_centred(cell, d, axis);
            lemma_outside_box(cell, p, j, axis);
        }
    }
}

/// Periodicity: a displacement moved by a lattice translation has the same
/// minimum image.
pub proof fn law_mic_is_periodic(cell: Cell, d: V3, n: V3)
    requires
        cell.valid(),
    ensures
        cell.apply_mic(d.plus(cell.translation(n))) == cell.apply_mic(d),
{
    lemma_estimate_shift(cell, d, n);
}

/// Same lattice: two cells that span the same lattice, as a cell and the
/// cell with two of its lattice vectors exchanged do, give minimum images
/// of the same length.
pub proof fn law_mic_of_same_lattice(cell: Cell, other: Cell, d: V3)
    requires
        cell.valid(),
        other.valid(),
        cell.same_lattice(other),
    ensures
        cell.apply_mic(d).norm_sq() == other.apply_mic(d).norm_sq(),
        cell.distance(V3::zero(), d) == other.distance(V3::zero(), d),
{
    law_mic_is_image(cell, d);
    law_mic_is_image(other, d);
    let k = cell.mic_shift(d);
    let l = other.mic_shift(d);
    assert(other.spans(cell.translation(k)));
    let kk = choose|n: V3| #[trigger] other.translation(n) == cell.translation(k);
    assert(cell.spans(other.translation(l)));
    let ll = choose|n: V3| #[trigger] cell.translation(n) == other.translation(l);
    law_minimum_image(other, d, kk);
    law_minimum_image(cell, d, ll);
    assert(d.minus(V3::zero()) == d);
}

/// Handedness: the cell with two of its lattice vectors exchanged has the
/// opposite volume and spans the same lattice, so that it gives minimum
/// images of the same length, and the same distances.
pub proof fn law_handedness(cell: Cell, axis: int, pi: V3, pj: V3)
    requires
        cell.valid(),
        0 <= axis < 3,
    ensures
        cell.exchanged(axis).volume() == -cell.volume(),
        cell.exchanged(axis).valid(),
        cell.same_lattice(cell.exchanged(axis)),
        cell.exchanged(axis).apply_mic(pj.minus(pi)).norm_sq() == cell.apply_mic(
            pj.minus(pi),
        ).norm_sq(),
        cell.exchanged(axis).distance(pi, pj) == cell.distance(pi, pj),
{
    let other = cell.exchanged(axis);
    let (a, b, c) = (cell.basis.a, cell.basis.b, cell.basis.c);
    lemma_triple(a, b, c);
    lemma_triple(a, c, b);
    lemma_triple(c, b, a);
    lemma_triple(b, a, c);
    lemma_triple_exchange(a, b, c);
    assert forall|n: V3| other.spans(#[trigger] cell.translation(n)) by {
        let m = if axis == 0 {
            V3 { x: n.x, y: n.z, z: n.y }
        } else if axis == 1 {
            V3 { x: n.z, y: n.y, z: n.x }
        } else {
            V3 { x: n.y, y: n.x, z: n.z }
        };
        assert(other.translation(m) == cell.translation(n));
    }
    assert forall|n: V3| cell.spans(#[trigger] other.translation(n)) by {
        let m = if axis == 0 {
            V3 { x: n.x, y: n.z, z: n.y }
        } else if axis == 1 {
            V3 { x: n.z, y: n.y, z: n.x }
        } else {
            V3 { x: n.y, y: n.x, z: n.z }
        };
        assert(cell.translation(m) == other.translation(n));
    }
    law_mic_of_same_lattice(cell, other, pj.minus(pi));
}

/// Shortest distance: the distance between two points is not above the
/// distance between the one and any periodic image of the other, nor above
/// their plain distance.
pub proof fn law_distance_is_least(cell: Cell, pi: V3, pj: V3, n: V3)
    requires
        cell.valid(),
    ensures
        cell.distance(pi, pj) * cell.distance(pi, pj) <= pj.plus(cell.translation(n)).minus(
            pi,
        ).norm_sq(),
        0 <= cell.distance(pi, pj) <= norm(pj.plus(cell.translation(n)).minus(pi)),
{
    let d = pj.minus(pi);
    let v = cell.apply_mic(d);
    let w = pj.plus(cell.translation(n)).minus(pi);
    assert(w == d.plus(cell.translation(n)));
    law_minimum_image(cell, d, n);
    lemma_norm_sq_nonnegative(v);
    lemma_norm_sq_nonnegative(w);
    lemma_isqrt_exists(v.norm_sq());
    lemma_isqrt_exists(w.norm_sq());
    let r = norm(v);
    let t = norm(w);
    if r > t {
        assert(r * r >= (t + 1) * (t + 1)) by (nonlinear_arith)
            requires
                r >= t + 1,
                t >= 0,
        ;
    }
}

/// Symmetry: the distance from one point to another is the distance back.
pub proof fn law_distance_symmetric(cell: Cell, pi: V3, pj: V3)
    requires
        cell.valid(),
    ensures
        cell.distance(pi, pj) == cell.distance(pj, pi),
{
    let m = cell.basis;
    let d = pj.minus(pi);
    let e = pi.minus(pj);
    assert(e == d.neg());
    let v = cell.apply_mic(d);
    let w = cell.apply_mic(e);
    law_mic_is_image(cell, d);
    law_mic_is_image(cell, e);
    let k = cell.mic_shift(d);
    let l = cell.mic_shift(e);
    law_minimum_image(cell, d, l.neg());
    law_minimum_image(cell, e, k.neg());
    lemma_apply_neg(m, k);
    lemma_apply_neg(m, l);
    assert(d.plus(cell.translation(l.neg())) == w.neg());
    assert(e.plus(cell.translation(k.neg())) == v.neg());
    lemma_norm_sq_neg(v);
    lemma_norm_sq_neg(w);
}

/// Orthorhombic agreement: in an orthorhombic cell the minimum image of a
/// displacement is the displacement with each coordinate brought into
/// `[-w / 2, w / 2)`, where `w` is the perpendicular width along that
/// axis, the length of the lattice vector. It holds wherever the lattice
/// vector points up its axis. Where it points down, its fractional
/// coordinate runs the other way, and a coordinate half-way between two
/// multiples of `w` comes out as `+w / 2`: such a coordinate is left out.
pub proof fn law_orthorhombic(cell: Cell, d: V3)
    requires
        cell.valid(),
        cell.is_orthorhombic(),
        cell.basis.a.x > 0 || !on_half(d.x, cell.width(0)),
        cell.basis.b.y > 0 || !on_half(d.y, cell.width(1)),
        cell.basis.c.z > 0 || !on_half(d.z, cell.width(2)),
    ensures
        cell.apply_mic(d) == (V3 {
            x: centred_wrap(d.x, cell.width(0)),
            y: centred_wrap(d.y, cell.width(1)),
            z: centred_wrap(d.z, cell.width(2)),
        }),
        -cell.width(0) <= 2 * cell.apply_mic(d).x < cell.width(0),
        -cell.width(1) <= 2 * cell.apply_mic(d).y < cell.width(1),
        -cell.width(2) <= 2 * cell.apply_mic(d).z < cell.width(2),
{
    let m = cell.basis;
    let (ax, by, cz) = (m.a.x, m.b.y, m.c.z);
    let f = cell.frac_of(d);
    let k = f.rounded();
    law_widths(cell);
    lemma_axis_length(m.a);
    lemma_axis_length(m.b);
    lemma_axis_length(m.c);
    lemma_estimate_bound(cell, d);
    lemma_diagonal(m, d);
    lemma_diagonal(m, k.neg());
    lemma_mul3(ax, by, cz);
    lemma_mul3(by, cz, ax);
    lemma_mul3(cz, ax, by);
    lemma_zero_mul(ax, by * cz);
    lemma_zero_mul(by, cz);
    lemma_zero_mul(cz, ax);
    lemma_zero_mul(ax, by);
    lemma_axis_round(d.x, ax, by * cz);
    lemma_axis_round(d.y, by, cz * ax);
    lemma_axis_round(d.z, cz, ax * by);
    lemma_mul_neg(ax, k.x);
    lemma_mul_neg(by, k.y);
    lemma_mul_neg(cz, k.z);
    lemma_round_is_centred(d.x, abs(ax));
    lemma_round_is_centred(d.y, abs(by));
    lemma_round_is_centred(d.z, abs(cz));
    lemma_centred_wrap_range(d.x, abs(ax));
    lemma_centred_wrap_range(d.y, abs(by));
    lemma_centred_wrap_range(d.z, abs(cz));
}

/// Orthorhombic cells, whichever way their lattice vectors point: each
/// coordinate of the minimum image differs from that of the displacement by
/// a whole multiple of the width along its axis, and is at most half the
/// width in magnitude.
pub proof fn law_orthorhombic_range(cell: Cell, d: V3)
    requires
        cell.valid(),
        cell.is_orthorhombic(),
    ensures
        (d.x - cell.apply_mic(d).x) % cell.width(0) == 0,
        (d.y - cell.apply_mic(d).y) % cell.width(1) == 0,
        (d.z - cell.apply_mic(d).z) % cell.width(2) == 0,
        -cell.width(0) <= 2 * cell.apply_mic(d).x <= cell.width(0),
        -cell.width(1) <= 2 * cell.apply_mic(d).y <= cell.width(1),
        -cell.width(2) <= 2 * cell.apply_mic(d).z <= cell.width(2),
{
    let m = cell.basis;
    let (ax, by, cz) = (m.a.x, m.b.y, m.c.z);
    let k = cell.frac_of(d).rounded();
    law_widths(cell);
    lemma_axis_length(m.a);
    lemma_axis_length(m.b);
    lemma_axis_length(m.c);
    lemma_estimate_bound(cell, d);
    lemma_diagonal(m, k.neg());
    lemma_zero_mul(ax, by * cz);
    lemma_zero_mul(by, cz);
    lemma_mul_neg(ax, k.x);
    lemma_mul_neg(by, k.y);
    lemma_mul_neg(cz, k.z);
    lemma_mul_neg(k.x, ax);
    lemma_mul_neg(k.y, by);
    lemma_mul_neg(k.z, cz);
    lemma_mul_neg(-k.x, ax);
    lemma_mul_neg(-k.y, by);
    lemma_mul_neg(-k.z, cz);
    lemma_floor_div_is(d.x - cell.apply_mic(d).x, abs(ax), if ax > 0 { k.x } else { -k.x }, 0);
    lemma_floor_div_is(d.y - cell.apply_mic(d).y, abs(by), if by > 0 { k.y } else { -k.y }, 0);
    lemma_floor_div_is(d.z - cell.apply_mic(d).z, abs(cz), if cz > 0 { k.z } else { -k.z }, 0);
}

/// Scaling: a basis multiplied by `s > 0` has `s * s * s` times the
/// volume. The squares of the lengths and the scalar products of the lattice
/// vectors all grow by `s * s`, so that the lengths grow by `s` and the
/// angles between the lattice vectors stay as they are. The lengths rounded
/// down to the grid grow by `s` up to the rounding, which is less than a
/// millionth of a length of a million grid units or more.
pub proof fn law_scale(cell: Cell, s: int)
    requires
        s > 0,
    ensures
        cell.scaled(s).volume() == s * s * s * cell.volume(),
        forall|axis: int| 0 <= axis < 3 ==> #[trigger] cell.scaled(s).same_angle(cell, axis),
        forall|axis: int|
            0 <= axis < 3 ==> #[trigger] cell.scaled(s).vector(axis).norm_sq() == s * s
                * cell.vector(axis).norm_sq(),
        forall|axis: int|
            0 <= axis < 3 ==> #[trigger] cell.scaled(s).dot_opposite(axis) == s * s
                * cell.dot_opposite(axis),
        forall|axis: int|
            0 <= axis < 3 ==> s * cell.length(axis) <= #[trigger] cell.scaled(s).length(axis) < s
                * (cell.length(axis) + 1),
        forall|axis: int|
            0 <= axis < 3 && cell.length(axis) >= 1_000_000 ==> (#[trigger] cell.scaled(s).length(
                axis,
            ) - s * cell.length(axis)) * 1_000_000 < s * cell.length(axis),
{
    lemma_det_times(cell.basis, s);
    let (a, b, c) = (cell.basis.a, cell.basis.b, cell.basis.c);
    lemma_dot_times(a, a, s);
    lemma_dot_times(b, b, s);
    lemma_dot_times(c, c, s);
    lemma_dot_times(b, c, s);
    lemma_dot_times(c, a, s);
    lemma_dot_times(a, b, s);
    lemma_norm_sq_nonnegative(a);
    lemma_norm_sq_nonnegative(b);
    lemma_norm_sq_nonnegative(c);
    lemma_isqrt_scaled(a.norm_sq(), s);
    lemma_isqrt_scaled(b.norm_sq(), s);
    lemma_isqrt_scaled(c.norm_sq(), s);
    assert(s * s > 0) by (nonlinear_arith)
        requires
            s > 0,
    ;
    lemma_same_cosine(b.dot(c), b.norm_sq(), c.norm_sq(), s * s);
    lemma_same_cosine(c.dot(a), c.norm_sq(), a.norm_sq(), s * s);
    lemma_same_cosine(a.dot(b), a.norm_sq(), b.norm_sq(), s * s);
    assert forall|axis: int| 0 <= axis < 3 implies #[trigger] cell.scaled(s).same_angle(
        cell,
        axis,
    ) by {}
    assert forall|axis: int| 0 <= axis < 3 implies #[trigger] cell.scaled(s).vector(
        axis,
    ).norm_sq() == s * s * cell.vector(axis).norm_sq() by {}
    assert forall|axis: int| 0 <= axis < 3 implies #[trigger] cell.scaled(s).dot_opposite(axis)
        == s * s * cell.dot_opposite(axis) by {}
    assert forall|axis: int| 0 <= axis < 3 implies s * cell.length(axis) <= #[trigger] cell.scaled(
        s,
    ).length(axis) < s * (cell.length(axis) + 1) by {}
    assert forall|axis: int| 0 <= axis < 3 && cell.length(axis) >= 1_000_000 implies (
    #[trigger] cell.scaled(s).length(axis) - s * cell.length(axis)) * 1_000_000 < s * cell.length(
        axis,
    ) by {
        lemma_rounding_is_small(cell.length(axis), cell.scaled(s).length(axis), s);
    }
}

/// Scaling along one axis: with the lattice vector of one axis multiplied
/// by `s > 0`, the volume is `s` times what it was and the square of that
/// vector's length `s * s` times; the other lattice vectors stay as they
/// are.
pub proof fn law_scale_along(cell: Cell, axis: int, s: int)
    requires
        s > 0,
        0 <= axis < 3,
    ensures
        cell.scaled_along(axis, s).volume() == s * cell.volume(),
        cell.scaled_along(axis, s).vector(axis).norm_sq() == s * s * cell.vector(axis).norm_sq(),
        s * cell.length(axis) <= cell.scaled_along(axis, s).length(axis) < s * (cell.length(axis)
            + 1),
        forall|other: int|
            0 <= other < 3 && other != axis ==> #[trigger] cell.scaled_along(axis, s).vector(other)
                == cell.vector(other),
{
    let v = cell.vector(axis);
    lemma_det_column_times(cell.basis, s);
    lemma_dot_times(v, v, s);
    lemma_norm_sq_nonnegative(v);
    lemma_isqrt_scaled(v.norm_sq(), s);
}

/// Scaling by a ratio: every coordinate of the scaled lattice vectors is
/// within half a grid unit of the exact multiple. The ratio `s / 1` scales
/// as the whole factor `s` does, and a ratio scales as it does in lower
/// terms.
pub proof fn law_scale_by_ratio(cell: Cell, axis: int, num: int, den: int, k: int)
    requires
        num > 0,
        den > 0,
        k > 0,
        0 <= axis <= 3,
    ensures
        cell.scaled_by_ratio(3, num, 1) == cell.scaled(num),
        0 <= axis < 3 ==> cell.scaled_by_ratio(axis, num, 1) == cell.scaled_along(axis, num),
        cell.scaled_by_ratio(axis, k * num, k * den) == cell.scaled_by_ratio(axis, num, den),
        forall|v: V3|
            #![trigger Cell::ratio_of(v, num, den)]
            {
                let r = Cell::ratio_of(v, num, den);
                &&& -den <= 2 * (v.x * num - r.x * den) < den
                &&& -den <= 2 * (v.y * num - r.y * den) < den
                &&& -den <= 2 * (v.z * num - r.z * den) < den
            },
{
    assert forall|v: V3| #![trigger Cell::ratio_of(v, num, den)] Cell::ratio_of(v, num, 1)
        == v.times(num) && Cell::ratio_of(v, k * num, k * den) == Cell::ratio_of(v, num, den) && ({
        let r = Cell::ratio_of(v, num, den);
        &&& -den <= 2 * (v.x * num - r.x * den) < den
        &&& -den <= 2 * (v.y * num - r.y * den) < den
        &&& -den <= 2 * (v.z * num - r.z * den) < den
    }) by {
        lemma_floor_div_is(2 * (v.x * num) + 1, 2, v.x * num, 1);
        lemma_floor_div_is(2 * (v.y * num) + 1, 2, v.y * num, 1);
        lemma_floor_div_is(2 * (v.z * num) + 1, 2, v.z * num, 1);
        lemma_mul3(v.x, k, num);
        lemma_mul3(v.y, k, num);
        lemma_mul3(v.z, k, num);
        lemma_round_cancel(v.x * num, den, k);
        lemma_round_cancel(v.y * num, den, k);
        lemma_round_cancel(v.z * num, den, k);
        lemma_round_residual(v.x * num, den);
        lemma_round_residual(v.y * num, den);
        lemma_round_residual(v.z * num, den);
    }
    let (a, b, c) = (cell.basis.a, cell.basis.b, cell.basis.c);
    assert(Cell::ratio_of(a, num, 1) == a.times(num));
    assert(Cell::ratio_of(b, num, 1) == b.times(num));
    assert(Cell::ratio_of(c, num, 1) == c.times(num));
    assert(Cell::ratio_of(a, k * num, k * den) == Cell::ratio_of(a, num, den));
    assert(Cell::ratio_of(b, k * num, k * den) == Cell::ratio_of(b, num, den));
    assert(Cell::ratio_of(c, k * num, k * den) == Cell::ratio_of(c, num, den));
}

} // verus!
