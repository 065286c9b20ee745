//! The periodic lattice: its basis, its origin, and the quantities that
//! follow from them.

use crate::algebra::M3;
use crate::algebra::V3;
use crate::algebra::lemma_det_column_times;
use crate::algebra::lemma_det_times;
use crate::algebra::lemma_norm_sq_positive;
use crate::arith::abs;
use crate::arith::floor_div;
use crate::arith::floor_mod;
use crate::arith::isqrt_exec;
use crate::arith::lemma_isqrt_up;
use crate::arith::lemma_sqrt_below;
use crate::arith::lemma_sqrt_positive;
use crate::arith::round_div_exec;
use crate::cell::Cell;
use crate::geometry::lemma_norm_up_bound;
use crate::geometry::lemma_vector_nonzero;
use crate::geometry::lemma_wrap_bound;
use crate::laws::law_widths;
use crate::laws::law_wrap_idempotent;
use crate::products::lemma_nonzero_product;
use crate::products::lemma_positive_product;
use crate::vector::Frac3;
use crate::vector::Inverse3;
use crate::vector::LatticeError;
use crate::vector::Long3;
use crate::vector::Matrix3;
use crate::vector::Vector3;
use crate::vector::on_grid;
use crate::wide::Wide3;
use crate::wide::apply_bounded;
use crate::wide::cross_bounded;
use crate::wide::dot_bounded;
use crate::wide::mul_bounded;
use vstd::pervasive::unreached;
use vstd::prelude::*;

verus! {

/// Largest extent of a cell: along each Cartesian axis, the magnitudes of
/// the three lattice vectors' coordinates and of the origin's may add up to
/// this much.
pub const CELL_MAX: i64 = 0x4000_0000;

/// A periodic 3D lattice.
#[derive(Clone, Copy, Debug)]
pub struct Lattice {
    /// The lattice vectors a, b and c, as columns.
    pub(crate) matrix: Matrix3,
    /// The Cartesian point with fractional coordinates (0, 0, 0).
    pub(crate) origin: Vector3,
}

impl View for Lattice {
    type V = Cell;

    closed spec fn view(&self) -> Cell {
        Cell { basis: self.matrix@, origin: self.origin@ }
    }
}

/// The extent of a cell along the three Cartesian axes: for each, the sum of
/// the magnitudes of the origin's and the lattice vectors' coordinates.
pub open spec fn extent(cell: Cell) -> V3 {
    V3 {
        x: abs(cell.origin.x) + abs(cell.basis.a.x) + abs(cell.basis.b.x) + abs(cell.basis.c.x),
        y: abs(cell.origin.y) + abs(cell.basis.a.y) + abs(cell.basis.b.y) + abs(cell.basis.c.y),
        z: abs(cell.origin.z) + abs(cell.basis.a.z) + abs(cell.basis.b.z) + abs(cell.basis.c.z),
    }
}

/// Whether a cell is small enough for a `Lattice` to hold.
pub open spec fn fits(cell: Cell) -> bool {
    extent(cell).within(CELL_MAX as int)
}

impl Default for Lattice {
    /// The lattice of the unit cube, with its origin at zero.
    fn default() -> (l: Lattice)
        ensures
            l@.basis.a == (V3 { x: 1, y: 0, z: 0 }),
            l@.basis.b == (V3 { x: 0, y: 1, z: 0 }),
            l@.basis.c == (V3 { x: 0, y: 0, z: 1 }),
            l@.origin == V3::zero(),
    {
        Lattice { matrix: Matrix3::identity(), origin: Vector3::zeros() }
    }
}

impl Lattice {
    /// Every lattice holds a cell that is valid and small enough.
    #[verifier::type_invariant]
    pub(crate) open spec fn inv(self) -> bool {
        fits(self@) && self@.valid()
    }

    /// The model of a lattice is made of its matrix and its origin.
    pub(crate) proof fn lemma_view(&self)
        ensures
            self@ == (Cell { basis: self.matrix@, origin: self.origin@ }),
    {
    }

    /// Whether a cell can be held: it is valid and small enough.
    pub open spec fn holds(cell: Cell) -> bool {
        fits(cell) && cell.valid()
    }

    /// The lattice with the three given lattice vectors and its origin at
    /// zero. A basis that is too large is refused as `OutOfRange`, a singular
    /// one as `InvalidBasis`.
    pub fn new(tvs: [Vector3; 3]) -> (r: Result<Lattice, LatticeError>)
        ensures
            match r {
                Ok(l) => l@ == (Cell {
                    basis: M3 { a: tvs[0]@, b: tvs[1]@, c: tvs[2]@ },
                    origin: V3::zero(),
                }) && Self::holds(l@),
                Err(e) => {
                    let cell = Cell {
                        basis: M3 { a: tvs[0]@, b: tvs[1]@, c: tvs[2]@ },
                        origin: V3::zero(),
                    };
                    if fits(cell) {
                        e == LatticeError::InvalidBasis && !cell.valid()
                    } else {
                        e == LatticeError::OutOfRange
                    }
                },
            },
    {
        Self::from_matrix(Matrix3 { a: tvs[0], b: tvs[1], c: tvs[2] })
    }

    /// The lattice whose lattice vectors are the columns of a matrix, with
    /// its origin at zero. A basis that is too large is refused as
    /// `OutOfRange`, a singular one as `InvalidBasis`.
    pub fn from_matrix(tvs: Matrix3) -> (r: Result<Lattice, LatticeError>)
        ensures
            match r {
                Ok(l) => l@ == (Cell { basis: tvs@, origin: V3::zero() }) && Self::holds(l@),
                Err(e) => {
                    let cell = Cell { basis: tvs@, origin: V3::zero() };
                    if fits(cell) {
                        e == LatticeError::InvalidBasis && !cell.valid()
                    } else {
                        e == LatticeError::OutOfRange
                    }
                },
            },
    {
        let origin = Vector3 { x: 0, y: 0, z: 0 };
        if !fits_exec(&tvs, &origin) {
            return Err(LatticeError::OutOfRange);
        }
        if determinant(&tvs) == 0 {
            return Err(LatticeError::InvalidBasis);
        }
        Ok(Lattice { matrix: tvs, origin })
    }

    /// The volume of the unit cell, with its sign: positive for a
    /// right-handed basis. It is never zero.
    pub fn volume(&self) -> (v: i128)
        ensures
            v == self@.volume(),
            Self::holds(self@),
    {
        proof {
            use_type_invariant(self);
        }
        determinant(&self.matrix)
    }

    /// Moves the origin. The cell must stay within range: where it would
    /// not, the lattice is left as it was.
    pub fn set_origin(&mut self, loc: Vector3) -> (r: Result<(), LatticeError>)
        ensures
            match r {
                Ok(_) => final(self)@ == (Cell { basis: old(self)@.basis, origin: loc@ }) && fits(
                    final(self)@,
                ),
                Err(e) => e == LatticeError::OutOfRange && final(self)@ == old(self)@ && !fits(
                    Cell { basis: old(self)@.basis, origin: loc@ },
                ),
            },
    {
        proof {
            use_type_invariant(&*self);
        }
        if fits_exec(&self.matrix, &loc) {
            self.origin = loc;
            Ok(())
        } else {
            Err(LatticeError::OutOfRange)
        }
    }

    /// Multiplies the whole basis by a positive factor. A factor that is
    /// zero or negative is refused as `InvalidArgument`, a scaled cell that
    /// is too large as `OutOfRange`; the lattice is then left as it was.
    pub fn scale_by(&mut self, v: i64) -> (r: Result<(), LatticeError>)
        ensures
            match r {
                Ok(_) => v > 0 && final(self)@ == old(self)@.scaled(v as int) && fits(
                    final(self)@,
                ),
                Err(e) => final(self)@ == old(self)@ && if v <= 0 {
                    e == LatticeError::InvalidArgument
                } else {
                    e == LatticeError::OutOfRange && !fits(old(self)@.scaled(v as int))
                },
            },
    {
        proof {
            use_type_invariant(&*self);
        }
        if v <= 0 {
            return Err(LatticeError::InvalidArgument);
        }
        let a = scale_vector(&self.matrix.a, v);
        let b = scale_vector(&self.matrix.b, v);
        let c = scale_vector(&self.matrix.c, v);
        if a.is_none() || b.is_none() || c.is_none() {
            return Err(LatticeError::OutOfRange);
        }
        let m = Matrix3 { a: a.unwrap(), b: b.unwrap(), c: c.unwrap() };
        if !fits_exec(&m, &self.origin) {
            return Err(LatticeError::OutOfRange);
        }
        proof {
            lemma_det_times(self@.basis, v as int);
            lemma_nonzero_product(v as int, v as int);
            lemma_nonzero_product(v * v, v as int);
            lemma_nonzero_product(v * v * v, self@.basis.det());
        }
        self.matrix = m;
        Ok(())
    }

    /// Multiplies one lattice vector by a positive factor: `axis` is 0 for
    /// a, 1 for b, 2 for c.
    fn scale_by_abc(&mut self, v: i64, axis: usize) -> (r: Result<(), LatticeError>)
        requires
            axis < 3,
        ensures
            match r {
                Ok(_) => v > 0 && final(self)@ == old(self)@.scaled_along(axis as int, v as int)
                    && fits(final(self)@),
                Err(e) => final(self)@ == old(self)@ && if v <= 0 {
                    e == LatticeError::InvalidArgument
                } else {
                    e == LatticeError::OutOfRange && !fits(
                        old(self)@.scaled_along(axis as int, v as int),
                    )
                },
            },
    {
        proof {
            use_type_invariant(&*self);
        }
        if v <= 0 {
            return Err(LatticeError::InvalidArgument);
        }
        let column = if axis == 0 {
            self.matrix.a
        } else if axis == 1 {
            self.matrix.b
        } else {
            self.matrix.c
        };
        let scaled = scale_vector(&column, v);
        if scaled.is_none() {
            return Err(LatticeError::OutOfRange);
        }
        let m = Matrix3 {
            a: if axis == 0 { scaled.unwrap() } else { self.matrix.a },
            b: if axis == 1 { scaled.unwrap() } else { self.matrix.b },
            c: if axis == 2 { scaled.unwrap() } else { self.matrix.c },
        };
        if !fits_exec(&m, &self.origin) {
            return Err(LatticeError::OutOfRange);
        }
        proof {
            lemma_det_column_times(self@.basis, v as int);
            lemma_nonzero_product(v as int, self@.basis.det());
        }
        self.matrix = m;
        Ok(())
    }

    /// Multiplies lattice vector a by a positive factor. A factor that is
    /// zero or negative is refused as `InvalidArgument`, a scaled cell that
    /// is too large as `OutOfRange`; the lattice is then left as it was.
    pub fn scale_by_a(&mut self, v: i64) -> (r: Result<(), LatticeError>)
        ensures
            match r {
                Ok(_) => v > 0 && final(self)@ == old(self)@.scaled_along(0, v as int) && fits(
                    final(self)@,
                ),
                Err(e) => final(self)@ == old(self)@ && if v <= 0 {
                    e == LatticeError::InvalidArgument
                } else {
                    e == LatticeError::OutOfRange && !fits(old(self)@.scaled_along(0, v as int))
                },
            },
    {
        self.scale_by_abc(v, 0)
    }

    /// Multiplies lattice vector b by a positive factor. A factor that is
    /// zero or negative is refused as `InvalidArgument`, a scaled cell that
    /// is too large as `OutOfRange`; the lattice is then left as it was.
    pub fn scale_by_b(&mut self, v: i64) -> (r: Result<(), LatticeError>)
        ensures
            match r {
                Ok(_) => v > 0 && final(self)@ == old(self)@.scaled_along(1, v as int) && fits(
                    final(self)@,
                ),
                Err(e) => final(self)@ == old(self)@ && if v <= 0 {
                    e == LatticeError::InvalidArgument
                } else {
                    e == LatticeError::OutOfRange && !fits(old(self)@.scaled_along(1, v as int))
                },
            },
    {
        self.scale_by_abc(v, 1)
    }

    /// Multiplies lattice vector c by a positive factor. A factor that is
    /// zero or negative is refused as `InvalidArgument`, a scaled cell that
    /// is too large as `OutOfRange`; the lattice is then left as it was.
    pub fn scale_by_c(&mut self, v: i64) -> (r: Result<(), LatticeError>)
        ensures
            match r {
                Ok(_) => v > 0 && final(self)@ == old(self)@.scaled_along(2, v as int) && fits(
                    final(self)@,
                ),
                Err(e) => final(self)@ == old(self)@ && if v <= 0 {
                    e == LatticeError::InvalidArgument
                } else {
                    e == LatticeError::OutOfRange && !fits(old(self)@.scaled_along(2, v as int))
                },
            },
    {
        self.scale_by_abc(v, 2)
    }

    /// Multiplies lattice vectors by the ratio `num / den` and rounds them
    /// to the grid: all three where `axis` is 3, else the one of the axis.
    fn scale_by_abc_ratio(&mut self, num: i64, den: i64, axis: usize) -> (r: Result<
        (),
        LatticeError,
    >)
        requires
            axis <= 3,
        ensures
            match r {
                Ok(_) => num > 0 && den > 0 && final(self)@ == old(self)@.scaled_by_ratio(
                    axis as int,
                    num as int,
                    den as int,
                ) && Self::holds(final(self)@),
                Err(e) => final(self)@ == old(self)@ && if num <= 0 || den <= 0 {
                    e == LatticeError::InvalidArgument
                } else if !fits(old(self)@.scaled_by_ratio(axis as int, num as int, den as int)) {
                    e == LatticeError::OutOfRange
                } else {
                    e == LatticeError::InvalidBasis && !old(self)@.scaled_by_ratio(
                        axis as int,
                        num as int,
                        den as int,
                    ).valid()
                },
            },
    {
        proof {
            use_type_invariant(&*self);
        }
        if num <= 0 || den <= 0 {
            return Err(LatticeError::InvalidArgument);
        }
        let a = if axis == 0 || axis == 3 {
            scale_vector_ratio(&self.matrix.a, num, den)
        } else {
            Some(self.matrix.a)
        };
        let b = if axis == 1 || axis == 3 {
            scale_vector_ratio(&self.matrix.b, num, den)
        } else {
            Some(self.matrix.b)
        };
        let c = if axis == 2 || axis == 3 {
            scale_vector_ratio(&self.matrix.c, num, den)
        } else {
            Some(self.matrix.c)
        };
        if a.is_none() || b.is_none() || c.is_none() {
            return Err(LatticeError::OutOfRange);
        }
        let m = Matrix3 { a: a.unwrap(), b: b.unwrap(), c: c.unwrap() };
        if !fits_exec(&m, &self.origin) {
            return Err(LatticeError::OutOfRange);
        }
        if determinant(&m) == 0 {
            return Err(LatticeError::InvalidBasis);
        }
        self.matrix = m;
        Ok(())
    }

    /// Multiplies the whole basis by the positive ratio `num / den`, each
    /// coordinate rounded to the nearest grid point, a tie going up. A
    /// numerator or denominator that is zero or negative is refused as
    /// `InvalidArgument`, a scaled cell that is too large as `OutOfRange`,
    /// one that the rounding has made singular as `InvalidBasis`; the
    /// lattice is then left as it was.
    pub fn scale_by_ratio(&mut self, num: i64, den: i64) -> (r: Result<(), LatticeError>)
        ensures
            match r {
                Ok(_) => num > 0 && den > 0 && final(self)@ == old(self)@.scaled_by_ratio(
                    3,
                    num as int,
                    den as int,
                ) && Self::holds(final(self)@),
                Err(e) => final(self)@ == old(self)@ && if num <= 0 || den <= 0 {
                    e == LatticeError::InvalidArgument
                } else if !fits(old(self)@.scaled_by_ratio(3, num as int, den as int)) {
                    e == LatticeError::OutOfRange
                } else {
                    e == LatticeError::InvalidBasis && !old(self)@.scaled_by_ratio(
                        3,
                        num as int,
                        den as int,
                    ).valid()
                },
            },
    {
        self.scale_by_abc_ratio(num, den, 3)
    }

    /// Multiplies lattice vector a by the positive ratio `num / den`, as
    /// `scale_by_ratio` does the whole basis.
    pub fn scale_by_a_ratio(&mut self, num: i64, den: i64) -> (r: Result<(), LatticeError>)
        ensures
            match r {
                Ok(_) => num > 0 && den > 0 && final(self)@ == old(self)@.scaled_by_ratio(
                    0,
                    num as int,
                    den as int,
                ) && Self::holds(final(self)@),
                Err(e) => final(self)@ == old(self)@ && if num <= 0 || den <= 0 {
                    e == LatticeError::InvalidArgument
                } else if !fits(old(self)@.scaled_by_ratio(0, num as int, den as int)) {
                    e == LatticeError::OutOfRange
                } else {
                    e == LatticeError::InvalidBasis && !old(self)@.scaled_by_ratio(
                        0,
                        num as int,
                        den as int,
                    ).valid()
                },
            },
    {
        self.scale_by_abc_ratio(num, den, 0)
    }

    /// Multiplies lattice vector b by the positive ratio `num / den`, as
    /// `scale_by_ratio` does the whole basis.
    pub fn scale_by_b_ratio(&mut self, num: i64, den: i64) -> (r: Result<(), LatticeError>)
        ensures
            match r {
                Ok(_) => num > 0 && den > 0 && final(self)@ == old(self)@.scaled_by_ratio(
                    1,
                    num as int,
                    den as int,
                ) && Self::holds(final(self)@),
                Err(e) => final(self)@ == old(self)@ && if num <= 0 || den <= 0 {
                    e == LatticeError::InvalidArgument
                } else if !fits(old(self)@.scaled_by_ratio(1, num as int, den as int)) {
                    e == LatticeError::OutOfRange
                } else {
                    e == LatticeError::InvalidBasis && !old(self)@.scaled_by_ratio(
                        1,
                        num as int,
                        den as int,
                    ).valid()
                },
            },
    {
        self.scale_by_abc_ratio(num, den, 1)
    }

    /// Multiplies lattice vector c by the positive ratio `num / den`, as
    /// `scale_by_ratio` does the whole basis.
    pub fn scale_by_c_ratio(&mut self, num: i64, den: i64) -> (r: Result<(), LatticeError>)
        ensures
            match r {
                Ok(_) => num > 0 && den > 0 && final(self)@ == old(self)@.scaled_by_ratio(
                    2,
                    num as int,
                    den as int,
                ) && Self::holds(final(self)@),
                Err(e) => final(self)@ == old(self)@ && if num <= 0 || den <= 0 {
                    e == LatticeError::InvalidArgument
                } else if !fits(old(self)@.scaled_by_ratio(2, num as int, den as int)) {
                    e == LatticeError::OutOfRange
                } else {
                    e == LatticeError::InvalidBasis && !old(self)@.scaled_by_ratio(
                        2,
                        num as int,
                        den as int,
                    ).valid()
                },
            },
    {
        self.scale_by_abc_ratio(num, den, 2)
    }

    /// The origin in Cartesian coordinates.
    pub fn origin(&self) -> (o: Vector3)
        ensures
            o@ == self@.origin,
    {
        self.origin
    }

    /// Lattice vector a.
    pub fn vector_a(&self) -> (v: Vector3)
        ensures
            v@ == self@.vector(0),
    {
        self.matrix.a
    }

    /// Lattice vector b.
    pub fn vector_b(&self) -> (v: Vector3)
        ensures
            v@ == self@.vector(1),
    {
        self.matrix.b
    }

    /// Lattice vector c.
    pub fn vector_c(&self) -> (v: Vector3)
        ensures
            v@ == self@.vector(2),
    {
        self.matrix.c
    }

    /// The three lattice vectors.
    pub fn vectors(&self) -> (v: [Vector3; 3])
        ensures
            v[0]@ == self@.vector(0),
            v[1]@ == self@.vector(1),
            v[2]@ == self@.vector(2),
    {
        [self.matrix.a, self.matrix.b, self.matrix.c]
    }

    /// The lattice vectors as the columns of a matrix.
    pub fn matrix(&self) -> (m: Matrix3)
        ensures
            m@ == self@.basis,
    {
        self.matrix
    }

    /// The length of one lattice vector, rounded down. It is at least 1.
    pub(crate) fn length_of(&self, v: &Vector3, Ghost(axis): Ghost<int>) -> (n: u64)
        requires
            0 <= axis < 3,
            v@ == self@.vector(axis),
        ensures
            n == self@.length(axis),
            1 <= n < 0x8000_0000,
    {
        proof {
            use_type_invariant(self);
            lemma_vector_nonzero(self@, axis);
        }
        let sq: u64 = v.norm_sq();
        let n: u64 = isqrt_exec(sq as u128);
        proof {
            lemma_norm_sq_positive(v@);
            lemma_norm_up_bound(v@, 0x4000_0000);
            lemma_sqrt_below(sq as int, n as int, 0x8000_0000);
            lemma_sqrt_positive(sq as int, n as int);
        }
        n
    }

    /// The lengths of the lattice vectors a, b and c, each rounded down to a
    /// whole number of grid units.
    pub fn lengths(&self) -> (r: [u64; 3])
        ensures
            r[0] == self@.length(0),
            r[1] == self@.length(1),
            r[2] == self@.length(2),
    {
        let la: u64 = self.length_of(&self.matrix.a, Ghost(0));
        let lb: u64 = self.length_of(&self.matrix.b, Ghost(1));
        let lc: u64 = self.length_of(&self.matrix.c, Ghost(2));
        [la, lb, lc]
    }

    /// The length of one lattice vector, rounded up. It is at least 1.
    pub(crate) fn length_up_of(&self, v: &Vector3, Ghost(axis): Ghost<int>) -> (n: u64)
        requires
            0 <= axis < 3,
            v@ == self@.vector(axis),
        ensures
            n == self@.length_up(axis),
            1 <= n <= 0x8000_0000,
    {
        proof {
            use_type_invariant(self);
            lemma_vector_nonzero(self@, axis);
            lemma_norm_up_bound(v@, 0x4000_0000);
            lemma_norm_sq_positive(v@);
            lemma_isqrt_up(v@.norm_sq());
        }
        v.norm_up()
    }

    /// For each axis, the product of the lengths, rounded up, of the other
    /// two lattice vectors: the number that divides the volume to give the
    /// width.
    pub(crate) fn faces(&self) -> (r: [i128; 3])
        ensures
            r[0] == self@.face(0),
            r[1] == self@.face(1),
            r[2] == self@.face(2),
            0 < r[0] <= 0x4000_0000_0000_0000,
            0 < r[1] <= 0x4000_0000_0000_0000,
            0 < r[2] <= 0x4000_0000_0000_0000,
    {
        let la: i128 = self.length_up_of(&self.matrix.a, Ghost(0)) as i128;
        let lb: i128 = self.length_up_of(&self.matrix.b, Ghost(1)) as i128;
        let lc: i128 = self.length_up_of(&self.matrix.c, Ghost(2)) as i128;
        proof {
            lemma_positive_product(lb as int, lc as int, 0x8000_0000);
            lemma_positive_product(lc as int, la as int, 0x8000_0000);
            lemma_positive_product(la as int, lb as int, 0x8000_0000);
        }
        [lb * lc, lc * la, la * lb]
    }

    /// The magnitude of the volume of the unit cell. It is at least 1.
    pub(crate) fn abs_volume(&self) -> (v: i128)
        ensures
            v == self@.abs_volume(),
            0 < v <= 0x1_0000_0000_0000_0000_0000_0000,
    {
        proof {
            use_type_invariant(self);
        }
        let volume: i128 = determinant(&self.matrix);
        if volume < 0 {
            -volume
        } else {
            volume
        }
    }

    /// The perpendicular widths of the cell along a, b and c: the magnitude
    /// of the volume over the product of the lengths of the other two
    /// lattice vectors. Every rounding is downwards, so that no width is
    /// given too large. No width is negative or above the length of its
    /// lattice vector, and in an orthorhombic cell each is that length.
    pub fn widths(&self) -> (r: [i128; 3])
        ensures
            r[0] == self@.width(0),
            r[1] == self@.width(1),
            r[2] == self@.width(2),
            0 <= r[0] <= self@.length(0),
            0 <= r[1] <= self@.length(1),
            0 <= r[2] <= self@.length(2),
            self@.is_orthorhombic() ==> r[0] == self@.length(0) && r[1] == self@.length(1)
                && r[2] == self@.length(2),
    {
        proof {
            use_type_invariant(self);
            law_widths(self@);
        }
        let volume: i128 = self.abs_volume();
        let faces: [i128; 3] = self.faces();
        [floor_div(volume, faces[0]), floor_div(volume, faces[1]), floor_div(volume, faces[2])]
    }

    /// The scalar products of the lattice vectors in pairs: b with c, a with
    /// c, a with b. With the lengths they give the angles of the cell.
    pub fn dot_products(&self) -> (r: [i64; 3])
        ensures
            r[0] == self@.dot_opposite(0),
            r[1] == self@.dot_opposite(1),
            r[2] == self@.dot_opposite(2),
    {
        proof {
            use_type_invariant(self);
        }
        let a: Wide3 = widen(&self.matrix.a);
        let b: Wide3 = widen(&self.matrix.b);
        let c: Wide3 = widen(&self.matrix.c);
        let bc: i128 = dot_bounded(&b, &c, Ghost(0x4000_0000), Ghost(0x4000_0000));
        let ca: i128 = dot_bounded(&c, &a, Ghost(0x4000_0000), Ghost(0x4000_0000));
        let ab: i128 = dot_bounded(&a, &b, Ghost(0x4000_0000), Ghost(0x4000_0000));
        [bc as i64, ca as i64, ab as i64]
    }

    /// The squares of the lengths of the lattice vectors a, b and c.
    pub fn lengths_sq(&self) -> (r: [u64; 3])
        ensures
            r[0] == self@.vector(0).norm_sq(),
            r[1] == self@.vector(1).norm_sq(),
            r[2] == self@.vector(2).norm_sq(),
    {
        [self.matrix.a.norm_sq(), self.matrix.b.norm_sq(), self.matrix.c.norm_sq()]
    }

    /// The inverse of the basis: the adjugate matrix over the determinant.
    pub fn inv_matrix(&self) -> (r: Inverse3)
        ensures
            r.num() == self@.basis.adjugate(),
            r.den == self@.volume(),
    {
        proof {
            use_type_invariant(self);
        }
        let a: Wide3 = widen(&self.matrix.a);
        let b: Wide3 = widen(&self.matrix.b);
        let c: Wide3 = widen(&self.matrix.c);
        let ra: Wide3 = cross_bounded(&b, &c, Ghost(0x4000_0000), Ghost(0x4000_0000));
        let rb: Wide3 = cross_bounded(&c, &a, Ghost(0x4000_0000), Ghost(0x4000_0000));
        let rc: Wide3 = cross_bounded(&a, &b, Ghost(0x4000_0000), Ghost(0x4000_0000));
        Inverse3 {
            a: Long3 { x: ra.x as i64, y: rb.x as i64, z: rc.x as i64 },
            b: Long3 { x: ra.y as i64, y: rb.y as i64, z: rc.y as i64 },
            c: Long3 { x: ra.z as i64, y: rb.z as i64, z: rc.z as i64 },
            den: determinant(&self.matrix),
        }
    }

    /// The inverse basis applied to a vector, as exact ratios.
    pub(crate) fn to_frac_wide(&self, u: &Wide3) -> (f: Frac3)
        requires
            u@.within(0x1_4000_0000),
        ensures
            f@ == self@.frac_of(u@),
    {
        proof {
            use_type_invariant(self);
        }
        let a: Wide3 = widen(&self.matrix.a);
        let b: Wide3 = widen(&self.matrix.b);
        let c: Wide3 = widen(&self.matrix.c);
        let ra: Wide3 = cross_bounded(&b, &c, Ghost(0x4000_0000), Ghost(0x4000_0000));
        let rb: Wide3 = cross_bounded(&c, &a, Ghost(0x4000_0000), Ghost(0x4000_0000));
        let rc: Wide3 = cross_bounded(&a, &b, Ghost(0x4000_0000), Ghost(0x4000_0000));
        let det: i128 = dot_bounded(&a, &ra, Ghost(0x4000_0000), Ghost(0x2000_0000_0000_0000));
        let nx: i128 = dot_bounded(&ra, u, Ghost(0x2000_0000_0000_0000), Ghost(0x1_4000_0000));
        let ny: i128 = dot_bounded(&rb, u, Ghost(0x2000_0000_0000_0000), Ghost(0x1_4000_0000));
        let nz: i128 = dot_bounded(&rc, u, Ghost(0x2000_0000_0000_0000), Ghost(0x1_4000_0000));
        if det < 0 {
            Frac3::from_parts(-nx, -ny, -nz, -det)
        } else {
            Frac3::from_parts(nx, ny, nz, det)
        }
    }

    /// The fractional coordinates of a Cartesian point: the inverse basis
    /// applied to the point less the origin. They are exact ratios over the
    /// magnitude of the volume.
    pub fn to_frac(&self, p: Vector3) -> (f: Frac3)
        ensures
            f@ == self@.to_frac(p@),
    {
        proof {
            use_type_invariant(self);
        }
        let u = Wide3 {
            x: p.x as i128 - self.origin.x as i128,
            y: p.y as i128 - self.origin.y as i128,
            z: p.z as i128 - self.origin.z as i128,
        };
        self.to_frac_wide(&u)
    }

    /// The Cartesian vector of fractional coordinates: the basis applied to
    /// them, each coordinate rounded down to the grid.
    pub(crate) fn to_vector_wide(&self, f: &Frac3) -> (r: Wide3)
        ensures
            r@ == self@.to_vector(f@),
            r@.within(0x6000_0000_0000_0000_0000_0000_0000_0000),
    {
        proof {
            use_type_invariant(self);
        }
        let (x, y, z) = f.num();
        let den: i128 = f.den();
        let a: Wide3 = widen(&self.matrix.a);
        let b: Wide3 = widen(&self.matrix.b);
        let c: Wide3 = widen(&self.matrix.c);
        let n = Wide3 { x, y, z };
        let w: Wide3 = apply_bounded(
            &a,
            &b,
            &c,
            &n,
            Ghost(0x4000_0000),
            Ghost(0x8000_0000_0000_0000_0000_0000),
        );
        Wide3 { x: floor_div(w.x, den), y: floor_div(w.y, den), z: floor_div(w.z, den) }
    }

    /// The Cartesian point of fractional coordinates: the basis applied to
    /// them, plus the origin, each coordinate rounded down to the grid. A
    /// point off the grid is refused as `OutOfRange`.
    pub fn to_cart(&self, f: &Frac3) -> (r: Result<Vector3, LatticeError>)
        ensures
            match r {
                Ok(v) => v@ == self@.to_cart(f@),
                Err(e) => e == LatticeError::OutOfRange,
            },
            r.is_ok() <==> on_grid(self@.to_cart(f@)),
    {
        proof {
            use_type_invariant(self);
        }
        let w: Wide3 = self.to_vector_wide(f);
        let rx: i128 = w.x + self.origin.x as i128;
        let ry: i128 = w.y + self.origin.y as i128;
        let rz: i128 = w.z + self.origin.z as i128;
        if -0x8000_0000 <= rx && rx <= 0x7fff_ffff && -0x8000_0000 <= ry && ry <= 0x7fff_ffff
            && -0x8000_0000 <= rz && rz <= 0x7fff_ffff {
            Ok(Vector3 { x: rx as i32, y: ry as i32, z: rz as i32 })
        } else {
            Err(LatticeError::OutOfRange)
        }
    }

    /// Fractional coordinates brought into the unit cell: each less its
    /// floor, which leaves it in `[0, 1)`.
    pub fn wrap_frac(&self, f: &Frac3) -> (r: Frac3)
        ensures
            r@ == f@.wrapped(),
            r@.in_unit_cell(),
    {
        let (x, y, z) = f.num();
        let den: i128 = f.den();
        Frac3::from_parts(floor_mod(x, den), floor_mod(y, den), floor_mod(z, den), den)
    }

    /// A Cartesian point brought into the unit cell by lattice translations:
    /// its fractional coordinates wrapped, made Cartesian again. The result
    /// is the periodic image of the point with fractional coordinates in
    /// `[0, 1)`.
    pub fn wrap(&self, p: Vector3) -> (w: Vector3)
        ensures
            w@ == self@.wrap(p@),
            w@ == p@.plus(self@.translation(self@.to_frac(p@).floors().neg())),
            self@.to_frac(w@).in_unit_cell(),
    {
        proof {
            use_type_invariant(self);
            lemma_wrap_bound(self@, p@.minus(self@.origin));
            law_wrap_idempotent(self@, p@);
        }
        let f: Frac3 = self.to_frac(p);
        let g: Frac3 = self.wrap_frac(&f);
        match self.to_cart(&g) {
            Ok(w) => w,
            Err(_) => unreached(),
        }
    }

    /// Whether the basis is diagonal.
    pub fn is_orthorhombic(&self) -> (r: bool)
        ensures
            r == self@.is_orthorhombic(),
    {
        self.matrix.a.y == 0 && self.matrix.a.z == 0 && self.matrix.b.x == 0 && self.matrix.b.z
            == 0 && self.matrix.c.x == 0 && self.matrix.c.y == 0
    }
}

/// A grid vector as a wide vector.
pub(crate) fn widen(v: &Vector3) -> (w: Wide3)
    ensures
        w@ == v@,
{
    Wide3 { x: v.x as i128, y: v.y as i128, z: v.z as i128 }
}

/// The absolute value of a coordinate.
pub(crate) fn magnitude(x: i32) -> (m: i64)
    ensures
        m == abs(x as int),
{
    if x < 0 {
        -(x as i64)
    } else {
        x as i64
    }
}

/// The determinant of a matrix of grid vectors.
pub(crate) fn determinant(m: &Matrix3) -> (d: i128)
    ensures
        d == m@.det(),
        -0x1_0000_0000_0000_0000_0000_0000 <= d <= 0x1_0000_0000_0000_0000_0000_0000,
{
    let a: Wide3 = widen(&m.a);
    let b: Wide3 = widen(&m.b);
    let c: Wide3 = widen(&m.c);
    let bc: Wide3 = cross_bounded(&b, &c, Ghost(0x8000_0000), Ghost(0x8000_0000));
    dot_bounded(&a, &bc, Ghost(0x8000_0000), Ghost(0x8000_0000_0000_0000))
}

/// Whether a cell with this basis and origin is small enough.
pub(crate) fn fits_exec(m: &Matrix3, o: &Vector3) -> (r: bool)
    ensures
        r == fits(Cell { basis: m@, origin: o@ }),
{
    let ex: i64 = magnitude(o.x) + magnitude(m.a.x) + magnitude(m.b.x) + magnitude(m.c.x);
    let ey: i64 = magnitude(o.y) + magnitude(m.a.y) + magnitude(m.b.y) + magnitude(m.c.y);
    let ez: i64 = magnitude(o.z) + magnitude(m.a.z) + magnitude(m.b.z) + magnitude(m.c.z);
    ex <= CELL_MAX && ey <= CELL_MAX && ez <= CELL_MAX
}

/// A lattice vector multiplied by a factor, where the result is within
/// `CELL_MAX`.
pub(crate) fn scale_vector(v: &Vector3, k: i64) -> (r: Option<Vector3>)
    ensures
        r.is_some() <==> v@.times(k as int).within(CELL_MAX as int),
        r.is_some() ==> r.unwrap()@ == v@.times(k as int),
{
    let k: i128 = k as i128;
    let x: i128 = mul_bounded(v.x as i128, k, Ghost(0x8000_0000), Ghost(0x8000_0000_0000_0000));
    let y: i128 = mul_bounded(v.y as i128, k, Ghost(0x8000_0000), Ghost(0x8000_0000_0000_0000));
    let z: i128 = mul_bounded(v.z as i128, k, Ghost(0x8000_0000), Ghost(0x8000_0000_0000_0000));
    let top: i128 = CELL_MAX as i128;
    if -top <= x && x <= top && -top <= y && y <= top && -top <= z && z <= top {
        Some(Vector3 { x: x as i32, y: y as i32, z: z as i32 })
    } else {
        None
    }
}

/// A lattice vector multiplied by the ratio `num / den` and rounded to the
/// grid, where the result is within `CELL_MAX`.
pub(crate) fn scale_vector_ratio(v: &Vector3, num: i64, den: i64) -> (r: Option<Vector3>)
    requires
        num > 0,
        den > 0,
    ensures
        r.is_some() <==> Cell::ratio_of(v@, num as int, den as int).within(CELL_MAX as int),
        r.is_some() ==> r.unwrap()@ == Cell::ratio_of(v@, num as int, den as int),
{
    let k: i128 = num as i128;
    let d: i128 = den as i128;
    let x: i128 = mul_bounded(v.x as i128, k, Ghost(0x8000_0000), Ghost(0x8000_0000_0000_0000));
    let y: i128 = mul_bounded(v.y as i128, k, Ghost(0x8000_0000), Ghost(0x8000_0000_0000_0000));
    let z: i128 = mul_bounded(v.z as i128, k, Ghost(0x8000_0000), Ghost(0x8000_0000_0000_0000));
    let x: i128 = round_div_exec(x, d);
    let y: i128 = round_div_exec(y, d);
    let z: i128 = round_div_exec(z, d);
    let top: i128 = CELL_MAX as i128;
    if -top <= x && x <= top && -top <= y && y <= top && -top <= z && z <= top {
        Some(Vector3 { x: x as i32, y: y as i32, z: z as i32 })
    } else {
        None
    }
}

} // verus!
