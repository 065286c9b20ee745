//! The mathematical model of a lattice: a basis, an origin, and the
//! quantities that spring from them, over the unbounded integers.

use crate::algebra::M3;
use crate::algebra::V3;
use crate::arith::abs;
use crate::arith::ceil_div;
use crate::arith::isqrt;
use crate::arith::isqrt_up;
use crate::arith::round_div;
use vstd::prelude::*;

verus! {

/// A vector of three ratios with a common positive denominator: fractional
/// coordinates.
pub struct Q3 {
    pub num: V3,
    pub den: int,
}

/// A unit cell: three lattice vectors, the columns of `basis`, and the
/// Cartesian point that has the fractional coordinates (0, 0, 0).
pub struct Cell {
    pub basis: M3,
    pub origin: V3,
}

/// The Euclidean length of a vector, rounded down to a whole number.
pub open spec fn norm(v: V3) -> int {
    isqrt(v.norm_sq())
}

/// The Euclidean length of a vector, rounded up to a whole number.
pub open spec fn norm_up(v: V3) -> int {
    isqrt_up(v.norm_sq())
}

impl Q3 {
    /// Each coordinate less its floor, which leaves it in `[0, 1)`.
    pub open spec fn wrapped(self) -> Q3 {
        Q3 {
            num: V3 {
                x: self.num.x % self.den,
                y: self.num.y % self.den,
                z: self.num.z % self.den,
            },
            den: self.den,
        }
    }

    /// The floor of each coordinate.
    pub open spec fn floors(self) -> V3 {
        V3 { x: self.num.x / self.den, y: self.num.y / self.den, z: self.num.z / self.den }
    }

    /// The nearest whole number to each coordinate, a tie going up.
    pub open spec fn rounded(self) -> V3 {
        V3 {
            x: round_div(self.num.x, self.den),
            y: round_div(self.num.y, self.den),
            z: round_div(self.num.z, self.den),
        }
    }

    /// The coordinates moved by a whole number `n` on each axis.
    pub open spec fn shifted(self, n: V3) -> Q3 {
        Q3 { num: self.num.plus(n.times(self.den)), den: self.den }
    }

    /// Each coordinate less its nearest whole number.
    pub open spec fn centred(self) -> Q3 {
        self.shifted(self.rounded().neg())
    }

    /// Whether every coordinate lies in `[0, 1)`.
    pub open spec fn in_unit_cell(self) -> bool {
        &&& 0 <= self.num.x < self.den
        &&& 0 <= self.num.y < self.den
        &&& 0 <= self.num.z < self.den
    }
}

/// The whole numbers from `-n` to `n`, in rising order.
pub open spec fn symmetric_range(n: int) -> Seq<int> {
    Seq::new((2 * n + 1) as nat, |i: int| i - n)
}

/// The product of three index lists in lexicographic order: the first
/// index changes slowest, the last one quickest.
pub open spec fn product_images(ra: Seq<int>, rb: Seq<int>, rc: Seq<int>) -> Seq<V3> {
    Seq::new(
        ra.len() * rb.len() * rc.len(),
        |i: int|
            V3 {
                x: ra[i / (rb.len() * rc.len()) as int],
                y: rb[(i / rc.len() as int) % rb.len() as int],
                z: rc[i % rc.len() as int],
            },
    )
}

/// The images of the box `[-na, na] x [-nb, nb] x [-nc, nc]` in
/// lexicographic order.
pub open spec fn box_images(na: int, nb: int, nc: int) -> Seq<V3> {
    product_images(symmetric_range(na), symmetric_range(nb), symmetric_range(nc))
}

/// The index of the least key, the first one where several are least.
pub open spec fn first_min(keys: Seq<int>) -> int
    decreases keys.len(),
{
    if keys.len() <= 1 {
        0
    } else {
        let i = first_min(keys.drop_last());
        if keys.last() < keys[i] {
            keys.len() - 1
        } else {
            i
        }
    }
}

impl Cell {
    /// The lattice vector of an axis: 0 for a, 1 for b, 2 for c.
    pub open spec fn vector(self, axis: int) -> V3 {
        if axis == 0 {
            self.basis.a
        } else if axis == 1 {
            self.basis.b
        } else {
            self.basis.c
        }
    }

    /// The vector product of the two lattice vectors other than `axis`'s,
    /// which stands at right angles to both: a row of the adjugate.
    pub open spec fn row(self, axis: int) -> V3 {
        self.vector((axis + 1) % 3).cross(self.vector((axis + 2) % 3))
    }

    /// The signed volume: the scalar triple product of a, b and c.
    pub open spec fn volume(self) -> int {
        self.basis.det()
    }

    /// The magnitude of the volume.
    pub open spec fn abs_volume(self) -> int {
        abs(self.volume())
    }

    /// A cell is valid when its basis is not singular.
    pub open spec fn valid(self) -> bool {
        self.volume() != 0
    }

    /// The length of a lattice vector, rounded down.
    pub open spec fn length(self, axis: int) -> int {
        norm(self.vector(axis))
    }

    /// The scalar product of the two lattice vectors other than `axis`'s.
    pub open spec fn dot_opposite(self, axis: int) -> int {
        self.vector((axis + 1) % 3).dot(self.vector((axis + 2) % 3))
    }

    /// The length of a lattice vector, rounded up.
    pub open spec fn length_up(self, axis: int) -> int {
        norm_up(self.vector(axis))
    }

    /// The product of the lengths, each rounded up, of the two lattice
    /// vectors other than `axis`'s. The volume over this number is the
    /// perpendicular width along the axis, or a little less.
    pub open spec fn face(self, axis: int) -> int {
        self.length_up((axis + 1) % 3) * self.length_up((axis + 2) % 3)
    }

    /// The perpendicular width along an axis: the magnitude of the volume
    /// over the product of the lengths of the other two lattice vectors,
    /// with every rounding downwards.
    pub open spec fn width(self, axis: int) -> int {
        self.abs_volume() / self.face(axis)
    }

    /// Whether the basis is diagonal.
    pub open spec fn is_orthorhombic(self) -> bool {
        self.basis.is_diagonal()
    }

    /// The inverse basis applied to a vector, over the denominator `|volume|`.
    pub open spec fn frac_of(self, u: V3) -> Q3 {
        let n = self.basis.adj_apply(u);
        if self.volume() < 0 {
            Q3 { num: n.neg(), den: -self.volume() }
        } else {
            Q3 { num: n, den: self.volume() }
        }
    }

    /// Fractional coordinates of a Cartesian point: the inverse basis applied
    /// to the point less the origin.
    pub open spec fn to_frac(self, p: V3) -> Q3 {
        self.frac_of(p.minus(self.origin))
    }

    /// The Cartesian vector of fractional coordinates: the basis applied to
    /// them. Each coordinate is rounded down to the grid.
    pub open spec fn to_vector(self, f: Q3) -> V3 {
        let w = self.basis.apply(f.num);
        V3 { x: w.x / f.den, y: w.y / f.den, z: w.z / f.den }
    }

    /// What `to_vector` rounds away, in units of one over the denominator:
    /// the remainders of the basis applied to the coordinates.
    pub open spec fn grid_remainder(self, f: Q3) -> V3 {
        let w = self.basis.apply(f.num);
        V3 { x: w.x % f.den, y: w.y % f.den, z: w.z % f.den }
    }

    /// The cell with the two lattice vectors other than `axis`'s exchanged:
    /// the same lattice in the other hand.
    pub open spec fn exchanged(self, axis: int) -> Cell {
        let (a, b, c) = (self.basis.a, self.basis.b, self.basis.c);
        Cell {
            basis: if axis == 0 {
                M3 { a: a, b: c, c: b }
            } else if axis == 1 {
                M3 { a: c, b: b, c: a }
            } else {
                M3 { a: b, b: a, c: c }
            },
            origin: self.origin,
        }
    }

    /// Whether a vector is a lattice translation.
    pub open spec fn spans(self, v: V3) -> bool {
        exists|n: V3| #[trigger] self.translation(n) == v
    }

    /// Whether two cells span the same lattice: whether every lattice
    /// translation of the one is a lattice translation of the other.
    pub open spec fn same_lattice(self, other: Cell) -> bool {
        &&& forall|n: V3| other.spans(#[trigger] self.translation(n))
        &&& forall|n: V3| self.spans(#[trigger] other.translation(n))
    }

    /// The Cartesian point of fractional coordinates: the basis applied to
    /// them, plus the origin. Each coordinate is rounded down to the grid.
    pub open spec fn to_cart(self, f: Q3) -> V3 {
        self.to_vector(f).plus(self.origin)
    }

    /// The point brought into the unit cell by lattice translations.
    pub open spec fn wrap(self, p: V3) -> V3 {
        self.to_cart(self.to_frac(p).wrapped())
    }

    /// The lattice translation of an image.
    pub open spec fn translation(self, image: V3) -> V3 {
        self.basis.apply(image)
    }

    /// The closed-form estimate of the minimum image of a displacement:
    /// the displacement in the basis of the lattice vectors, each
    /// coordinate less its nearest whole number. A displacement has no
    /// origin, so that the origin of the cell does not enter.
    pub open spec fn mic_estimate(self, d: V3) -> V3 {
        self.to_vector(self.frac_of(d).centred())
    }

    /// Whether a vector is shorter than half of every perpendicular width:
    /// whether twice its length, rounded up, is less than the magnitude of
    /// the volume over each face.
    pub open spec fn within_safe_radius(self, v: V3) -> bool {
        forall|axis: int|
            0 <= axis < 3 ==> 2 * norm_up(v) * #[trigger] self.face(axis) < self.abs_volume()
    }

    /// The number of images to look at on each side along an axis, for a
    /// search radius: the radius over the width, rounded up.
    pub open spec fn n_images(self, radius: int, axis: int) -> int {
        if radius > 0 {
            ceil_div(radius * self.face(axis), self.abs_volume())
        } else {
            0
        }
    }

    /// The images to look at for a search radius.
    pub open spec fn relevant_images(self, radius: int) -> Seq<V3> {
        box_images(self.n_images(radius, 0), self.n_images(radius, 1), self.n_images(radius, 2))
    }

    /// The squared lengths of the translates of `p` by a list of images.
    pub open spec fn translate_keys(self, p: V3, images: Seq<V3>) -> Seq<int> {
        Seq::new(images.len(), |i: int| p.plus(self.translation(images[i])).norm_sq())
    }

    /// The image, among those within reach of the estimate, whose translate
    /// of the estimate is shortest: the first such image. The search radius
    /// is the length of the estimate, rounded up.
    pub open spec fn mic_image(self, d: V3) -> V3 {
        let p = self.mic_estimate(d);
        let images = self.relevant_images(norm_up(p));
        images[first_min(self.translate_keys(p, images))]
    }

    /// The minimum image of a displacement by exhaustive search round the
    /// estimate.
    pub open spec fn mic_search(self, d: V3) -> V3 {
        self.mic_estimate(d).plus(self.translation(self.mic_image(d)))
    }

    /// The image by whose lattice translation the minimum image differs
    /// from the displacement.
    pub open spec fn mic_shift(self, d: V3) -> V3 {
        let k = self.frac_of(d).rounded().neg();
        if self.is_orthorhombic() || self.within_safe_radius(self.mic_estimate(d)) {
            k
        } else {
            k.plus(self.mic_image(d))
        }
    }

    /// The minimum image of a displacement: the estimate where it is known
    /// to be exact, the result of the search elsewhere.
    pub open spec fn apply_mic(self, d: V3) -> V3 {
        let v = self.mic_estimate(d);
        if self.is_orthorhombic() || self.within_safe_radius(v) {
            v
        } else {
            self.mic_search(d)
        }
    }

    /// The distance between two points under the minimum image convention.
    pub open spec fn distance(self, pi: V3, pj: V3) -> int {
        norm(self.apply_mic(pj.minus(pi)))
    }

    /// The Cartesian position of an image: where the cell's origin goes when
    /// the cell is moved by the image's lattice translation.
    pub open spec fn image_position(self, image: V3) -> V3 {
        self.to_cart(Q3 { num: image, den: 1 })
    }

    /// The points of a supercell: for each image in turn, every point in
    /// turn, moved by the position of the image.
    pub open spec fn replicated(self, points: Seq<V3>, images: Seq<V3>) -> Seq<V3> {
        Seq::new(
            images.len() * points.len(),
            |i: int|
                points[i % points.len() as int].plus(
                    self.image_position(images[i / points.len() as int]),
                ),
        )
    }

    /// Whether the angle between the two lattice vectors other than
    /// `axis`'s is the same in two cells: whether their scalar products have
    /// the same sign and the same ratio to the product of their lengths.
    pub open spec fn same_angle(self, other: Cell, axis: int) -> bool {
        let (u, v) = (self.vector((axis + 1) % 3), self.vector((axis + 2) % 3));
        let (p, q) = (other.vector((axis + 1) % 3), other.vector((axis + 2) % 3));
        &&& (u.dot(v) > 0) == (p.dot(q) > 0)
        &&& (u.dot(v) < 0) == (p.dot(q) < 0)
        &&& (u.dot(v) * u.dot(v)) * (p.norm_sq() * q.norm_sq()) == (p.dot(q) * p.dot(q)) * (
        u.norm_sq() * v.norm_sq())
    }

    /// The cell with its basis multiplied by `k`.
    pub open spec fn scaled(self, k: int) -> Cell {
        Cell { basis: self.basis.times(k), origin: self.origin }
    }

    /// A vector multiplied by the ratio `num / den`, each coordinate rounded
    /// to the nearest grid point, a tie going up.
    pub open spec fn ratio_of(v: V3, num: int, den: int) -> V3 {
        V3 {
            x: round_div(v.x * num, den),
            y: round_div(v.y * num, den),
            z: round_div(v.z * num, den),
        }
    }

    /// The cell with its lattice vectors multiplied by the ratio
    /// `num / den` and rounded to the grid: all three where `axis` is 3,
    /// else the one of the axis.
    pub open spec fn scaled_by_ratio(self, axis: int, num: int, den: int) -> Cell {
        Cell {
            basis: M3 {
                a: if axis == 0 || axis == 3 {
                    Self::ratio_of(self.basis.a, num, den)
                } else {
                    self.basis.a
                },
                b: if axis == 1 || axis == 3 {
                    Self::ratio_of(self.basis.b, num, den)
                } else {
                    self.basis.b
                },
                c: if axis == 2 || axis == 3 {
                    Self::ratio_of(self.basis.c, num, den)
                } else {
                    self.basis.c
                },
            },
            origin: self.origin,
        }
    }

    /// The cell with the lattice vector of one axis multiplied by `k`.
    pub open spec fn scaled_along(self, axis: int, k: int) -> Cell {
        Cell {
            basis: M3 {
                a: if axis == 0 { self.basis.a.times(k) } else { self.basis.a },
                b: if axis == 1 { self.basis.b.times(k) } else { self.basis.b },
                c: if axis == 2 { self.basis.c.times(k) } else { self.basis.c },
            },
            origin: self.origin,
        }
    }
}

} // verus!
