//! The values that the lattice takes and gives: grid vectors, matrices,
//! periodic images and fractional coordinates.

use crate::algebra::M3;
use crate::algebra::V3;
use crate::arith::is_sqrt;
use crate::arith::isqrt_exec;
use crate::arith::isqrt_up_exec;
use crate::cell::Q3;
use crate::cell::norm;
use crate::cell::norm_up;
use vstd::prelude::*;

verus! {

/// Largest magnitude of a numerator or denominator of fractional coordinates.
pub const FRAC_MAX: i128 = 0x8000_0000_0000_0000_0000_0000;

/// Why a lattice could not be built or changed.
#[derive(Clone, Copy, Debug, PartialEq, Eq, Structural)]
pub enum LatticeError {
    /// The basis is singular: its three vectors span no volume.
    InvalidBasis,
    /// A scale factor is zero or negative.
    InvalidArgument,
    /// A coordinate lies outside the range that the grid can hold.
    OutOfRange,
}

/// A Cartesian point or vector, in grid units.
#[derive(Clone, Copy, Debug, PartialEq, Eq, Structural)]
pub struct Vector3 {
    pub x: i32,
    pub y: i32,
    pub z: i32,
}

impl View for Vector3 {
    type V = V3;

    open spec fn view(&self) -> V3 {
        V3 { x: self.x as int, y: self.y as int, z: self.z as int }
    }
}

impl Vector3 {
    /// The vector with the given coordinates.
    pub fn new(x: i32, y: i32, z: i32) -> (v: Vector3)
        ensures
            v@ == (V3 { x: x as int, y: y as int, z: z as int }),
    {
        Vector3 { x, y, z }
    }

    /// The zero vector.
    pub fn zeros() -> (v: Vector3)
        ensures
            v@ == V3::zero(),
    {
        Vector3 { x: 0, y: 0, z: 0 }
    }

    /// The square of the Euclidean length.
    pub fn norm_sq(&self) -> (n: u64)
        ensures
            n == self@.norm_sq(),
    {
        let x: i64 = self.x as i64;
        let y: i64 = self.y as i64;
        let z: i64 = self.z as i64;
        assert(0 <= x * x <= 0x4000_0000_0000_0000) by (nonlinear_arith)
            requires
                -0x8000_0000 <= x <= 0x8000_0000,
        ;
        assert(0 <= y * y <= 0x4000_0000_0000_0000) by (nonlinear_arith)
            requires
                -0x8000_0000 <= y <= 0x8000_0000,
        ;
        assert(0 <= z * z <= 0x4000_0000_0000_0000) by (nonlinear_arith)
            requires
                -0x8000_0000 <= z <= 0x8000_0000,
        ;
        (x * x) as u64 + (y * y) as u64 + (z * z) as u64
    }

    /// The Euclidean length, rounded up to a whole number of grid units.
    pub fn norm_up(&self) -> (n: u64)
        ensures
            n == norm_up(self@),
            self@.norm_sq() <= n * n,
    {
        isqrt_up_exec(self.norm_sq() as u128)
    }

    /// The Euclidean length, rounded down to a whole number of grid units.
    pub fn norm(&self) -> (n: u64)
        ensures
            n == norm(self@),
            is_sqrt(self@.norm_sq(), n as int),
    {
        isqrt_exec(self.norm_sq() as u128)
    }
}

/// Whether every coordinate of a vector is one that a grid vector can hold.
pub open spec fn on_grid(v: V3) -> bool {
    &&& i32::MIN <= v.x <= i32::MAX
    &&& i32::MIN <= v.y <= i32::MAX
    &&& i32::MIN <= v.z <= i32::MAX
}

/// A 3x3 matrix of grid units, given by its columns.
#[derive(Clone, Copy, Debug, PartialEq, Eq, Structural)]
pub struct Matrix3 {
    pub a: Vector3,
    pub b: Vector3,
    pub c: Vector3,
}

impl View for Matrix3 {
    type V = M3;

    open spec fn view(&self) -> M3 {
        M3 { a: self.a@, b: self.b@, c: self.c@ }
    }
}

impl Matrix3 {
    /// The matrix with the given columns.
    pub fn from_columns(a: Vector3, b: Vector3, c: Vector3) -> (m: Matrix3)
        ensures
            m@ == (M3 { a: a@, b: b@, c: c@ }),
    {
        Matrix3 { a, b, c }
    }

    /// The identity matrix.
    pub fn identity() -> (m: Matrix3)
        ensures
            m@.a == (V3 { x: 1, y: 0, z: 0 }),
            m@.b == (V3 { x: 0, y: 1, z: 0 }),
            m@.c == (V3 { x: 0, y: 0, z: 1 }),
    {
        Matrix3 {
            a: Vector3 { x: 1, y: 0, z: 0 },
            b: Vector3 { x: 0, y: 1, z: 0 },
            c: Vector3 { x: 0, y: 0, z: 1 },
        }
    }
}

/// A periodic image: the whole numbers of lattice vectors a, b and c by
/// which a copy of the cell is moved.
#[derive(Clone, Copy, Debug, PartialEq, Eq, Structural)]
pub struct Image {
    pub na: i128,
    pub nb: i128,
    pub nc: i128,
}

impl View for Image {
    type V = V3;

    open spec fn view(&self) -> V3 {
        V3 { x: self.na as int, y: self.nb as int, z: self.nc as int }
    }
}

/// A column of whole numbers too large for a grid vector.
#[derive(Clone, Copy, Debug, PartialEq, Eq, Structural)]
pub struct Long3 {
    pub x: i64,
    pub y: i64,
    pub z: i64,
}

impl View for Long3 {
    type V = V3;

    open spec fn view(&self) -> V3 {
        V3 { x: self.x as int, y: self.y as int, z: self.z as int }
    }
}

/// The inverse of a basis, as a matrix of numerators over one denominator.
#[derive(Clone, Copy, Debug, PartialEq, Eq, Structural)]
pub struct Inverse3 {
    /// The first column of numerators.
    pub a: Long3,
    /// The second column of numerators.
    pub b: Long3,
    /// The third column of numerators.
    pub c: Long3,
    /// The common denominator: the determinant of the basis.
    pub den: i128,
}

impl Inverse3 {
    /// The matrix of numerators.
    pub open spec fn num(&self) -> M3 {
        M3 { a: self.a@, b: self.b@, c: self.c@ }
    }
}

/// Fractional coordinates: three numerators over one positive denominator.
#[derive(Clone, Copy, Debug, PartialEq, Eq)]
pub struct Frac3 {
    x: i128,
    y: i128,
    z: i128,
    den: i128,
}

impl View for Frac3 {
    type V = Q3;

    closed spec fn view(&self) -> Q3 {
        Q3 {
            num: V3 { x: self.x as int, y: self.y as int, z: self.z as int },
            den: self.den as int,
        }
    }
}

impl Frac3 {
    /// Every value of the type is within the range of the type.
    #[verifier::type_invariant]
    spec fn inv(self) -> bool {
        &&& 0 < self.den <= FRAC_MAX
        &&& -FRAC_MAX <= self.x <= FRAC_MAX
        &&& -FRAC_MAX <= self.y <= FRAC_MAX
        &&& -FRAC_MAX <= self.z <= FRAC_MAX
    }

    /// Whether numerators and a denominator are within the range of the type.
    pub open spec fn representable(f: Q3) -> bool {
        &&& 0 < f.den <= FRAC_MAX
        &&& f.num.within(FRAC_MAX as int)
    }

    /// The coordinates `x / den`, `y / den`, `z / den`; `None` where the
    /// denominator is not positive or a number is beyond `FRAC_MAX`.
    pub fn new(x: i128, y: i128, z: i128, den: i128) -> (r: Option<Frac3>)
        ensures
            r.is_some() <==> Self::representable(
                Q3 { num: V3 { x: x as int, y: y as int, z: z as int }, den: den as int },
            ),
            r.is_some() ==> r.unwrap()@ == (Q3 {
                num: V3 { x: x as int, y: y as int, z: z as int },
                den: den as int,
            }),
    {
        if 0 < den && den <= FRAC_MAX && -FRAC_MAX <= x && x <= FRAC_MAX && -FRAC_MAX <= y && y
            <= FRAC_MAX && -FRAC_MAX <= z && z <= FRAC_MAX {
            Some(Frac3 { x, y, z, den })
        } else {
            None
        }
    }

    /// The coordinates with the given numerators and denominator.
    pub(crate) fn from_parts(x: i128, y: i128, z: i128, den: i128) -> (f: Frac3)
        requires
            Self::representable(
                Q3 { num: V3 { x: x as int, y: y as int, z: z as int }, den: den as int },
            ),
        ensures
            f@ == (Q3 { num: V3 { x: x as int, y: y as int, z: z as int }, den: den as int }),
    {
        Frac3 { x, y, z, den }
    }

    /// The three numerators.
    pub fn num(&self) -> (n: (i128, i128, i128))
        ensures
            n.0 == self@.num.x,
            n.1 == self@.num.y,
            n.2 == self@.num.z,
            Self::representable(self@),
    {
        proof {
            use_type_invariant(self);
        }
        (self.x, self.y, self.z)
    }

    /// The common denominator.
    pub fn den(&self) -> (d: i128)
        ensures
            d == self@.den,
            Self::representable(self@),
    {
        proof {
            use_type_invariant(self);
        }
        self.den
    }
}

} // verus!
