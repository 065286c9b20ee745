//! Periodic 3D lattices on an integer grid.
//!
//! A lattice is the repeating unit cell of a crystal or of a periodic
//! simulation box: three lattice vectors a, b and c, and an origin. This
//! crate computes its geometry under periodic boundary conditions, above
//! all the minimum image of a displacement: the shortest vector among all
//! those that differ from it by a lattice translation.
//!
//! Every length is a whole multiple of a grid unit that the caller chooses
//! (say a hundred-millionth of an angstrom), held in an `i32`. Volumes,
//! scalar products and squared lengths are then exact integers, and
//! fractional coordinates exact ratios over the volume, so that the laws of
//! the geometry hold exactly and are proved in `laws`. A length itself is
//! the integer square root of its square; where a decision hangs on a
//! length, it is rounded to the side on which the decision is safe.
//!
//! The contracts are stated over a model of the lattice, `cell::Cell`, a
//! basis and an origin over the unbounded integers.

pub mod algebra;
pub mod arith;
pub mod cell;
pub mod geometry;
pub mod images;
pub mod lattice;
pub mod laws;
pub mod mic;
pub mod optimal;
pub mod products;
pub mod supercell;
pub mod vector;
mod wide;

pub use crate::images::enumerate_images;
pub use crate::lattice::Lattice;
pub use crate::vector::Frac3;
pub use crate::vector::Image;
pub use crate::vector::Inverse3;
pub use crate::vector::LatticeError;
pub use crate::vector::Long3;
pub use crate::vector::Matrix3;
pub use crate::vector::Vector3;
