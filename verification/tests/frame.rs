use lattice::Frac3;
use lattice::Lattice;
use lattice::LatticeError;
use lattice::Matrix3;
use lattice::Vector3;

/// A lattice of three lattice vectors, with its origin at zero.
fn cell(a: [i32; 3], b: [i32; 3], c: [i32; 3]) -> Result<Lattice, LatticeError> {
    Lattice::new([
        Vector3::new(a[0], a[1], a[2]),
        Vector3::new(b[0], b[1], b[2]),
        Vector3::new(c[0], c[1], c[2]),
    ])
}

#[test]
fn default_is_the_unit_cube() {
    let lat = Lattice::default();
    assert_eq!(lat.matrix(), Matrix3::identity());
    assert_eq!(lat.origin(), Vector3::zeros());
    assert_eq!(lat.volume(), 1);
    assert_eq!(lat.lengths(), [1, 1, 1]);
    assert_eq!(lat.widths(), [1, 1, 1]);
    assert!(lat.is_orthorhombic());
}

#[test]
fn singular_bases_are_refused() {
    assert_eq!(cell([1, 2, 3], [2, 4, 6], [0, 0, 1]).err(), Some(LatticeError::InvalidBasis));
    assert_eq!(cell([0, 0, 0], [0, 1, 0], [0, 0, 1]).err(), Some(LatticeError::InvalidBasis));
    assert_eq!(cell([1, 0, 0], [0, 1, 0], [1, 1, 0]).err(), Some(LatticeError::InvalidBasis));
    let flat = Matrix3::from_columns(
        Vector3::new(1, 1, 1),
        Vector3::new(2, 2, 2),
        Vector3::new(3, 3, 3),
    );
    assert_eq!(Lattice::from_matrix(flat).err(), Some(LatticeError::InvalidBasis));
}

#[test]
fn large_cells_are_refused() {
    let top = 1 << 30;
    assert!(cell([top, 0, 0], [0, top, 0], [0, 0, top]).is_ok());
    assert_eq!(cell([top, 0, 0], [1, top, 0], [0, 0, top]).err(), Some(LatticeError::OutOfRange));
    assert_eq!(cell([top + 1, 0, 0], [0, 1, 0], [0, 0, 1]).err(), Some(LatticeError::OutOfRange));
    // a cell that is both too large and singular is too large
    assert_eq!(
        cell([i32::MIN, 0, 0], [i32::MIN, 0, 0], [0, 0, 1]).err(),
        Some(LatticeError::OutOfRange)
    );
}

#[test]
fn the_origin_must_leave_the_cell_in_range() {
    let mut lat = cell([1 << 29, 0, 0], [0, 5, 0], [0, 0, 5]).unwrap();
    assert_eq!(lat.set_origin(Vector3::new(1 << 29, -7, 7)), Ok(()));
    assert_eq!(lat.origin(), Vector3::new(1 << 29, -7, 7));
    assert_eq!(lat.set_origin(Vector3::new((1 << 29) + 1, 0, 0)), Err(LatticeError::OutOfRange));
    assert_eq!(lat.origin(), Vector3::new(1 << 29, -7, 7));
}

#[test]
fn scale_factors_must_be_positive() {
    let mut lat = cell([5, 0, 0], [1, 5, 0], [1, 1, 5]).unwrap();
    let before = lat.matrix();
    assert_eq!(lat.scale_by(0), Err(LatticeError::InvalidArgument));
    assert_eq!(lat.scale_by(-3), Err(LatticeError::InvalidArgument));
    assert_eq!(lat.scale_by_a(0), Err(LatticeError::InvalidArgument));
    assert_eq!(lat.scale_by_b(-1), Err(LatticeError::InvalidArgument));
    assert_eq!(lat.scale_by_c(i64::MIN), Err(LatticeError::InvalidArgument));
    assert_eq!(lat.matrix(), before);
    assert_eq!(lat.scale_by(1 << 40), Err(LatticeError::OutOfRange));
    assert_eq!(lat.scale_by_a(i64::MAX), Err(LatticeError::OutOfRange));
    assert_eq!(lat.matrix(), before);
    assert_eq!(lat.scale_by(1), Ok(()));
    assert_eq!(lat.matrix(), before);

    assert_eq!(lat.scale_by_ratio(0, 1), Err(LatticeError::InvalidArgument));
    assert_eq!(lat.scale_by_ratio(1, 0), Err(LatticeError::InvalidArgument));
    assert_eq!(lat.scale_by_ratio(-1, -1), Err(LatticeError::InvalidArgument));
    assert_eq!(lat.scale_by_a_ratio(3, -2), Err(LatticeError::InvalidArgument));
    assert_eq!(lat.scale_by_b_ratio(i64::MIN, 2), Err(LatticeError::InvalidArgument));
    assert_eq!(lat.scale_by_c_ratio(2, i64::MIN), Err(LatticeError::InvalidArgument));
    assert_eq!(lat.scale_by_ratio(i64::MAX, 1), Err(LatticeError::OutOfRange));
    assert_eq!(lat.scale_by_a_ratio(1 << 40, 3), Err(LatticeError::OutOfRange));
    // every coordinate rounds to zero
    assert_eq!(lat.scale_by_ratio(1, 100), Err(LatticeError::InvalidBasis));
    assert_eq!(lat.scale_by_c_ratio(1, i64::MAX), Err(LatticeError::InvalidBasis));
    assert_eq!(lat.matrix(), before);
    assert_eq!(lat.scale_by_ratio(7, 7), Ok(()));
    assert_eq!(lat.matrix(), before);
}

#[test]
fn volume_is_the_triple_product() {
    assert_eq!(cell([5, 0, 0], [5, 5, 0], [1, 0, 5]).unwrap().volume(), 125);
    assert_eq!(cell([5, 0, 0], [1, 5, 0], [1, 1, 5]).unwrap().volume(), 125);
    assert_eq!(cell([0, 7, 0], [9, 0, 0], [0, 0, 4]).unwrap().volume(), -252);
    assert_eq!(cell([3, 1, -2], [-1, 4, 1], [2, -2, 5]).unwrap().volume(), 85);
    let top = 1 << 30;
    assert_eq!(cell([top, 0, 0], [0, top, 0], [0, 0, top]).unwrap().volume(), 1i128 << 90);
}

#[test]
fn lengths_round_down_and_widths_never_up() {
    let lat = cell([2, 0, 0], [1, 2, 0], [0, 0, 3]).unwrap();
    assert_eq!(lat.lengths_sq(), [4, 5, 9]);
    assert_eq!(lat.lengths(), [2, 2, 3]);
    assert_eq!(lat.dot_products(), [0, 0, 2]);
    // the faces are 3 * 3, 3 * 2 and 2 * 3, with the length of b rounded up
    assert_eq!(lat.volume(), 12);
    assert_eq!(lat.widths(), [1, 2, 2]);
    assert_eq!(lat.n_min_images(0), [0, 0, 0]);
    assert_eq!(lat.n_min_images(1), [1, 1, 1]);
    assert_eq!(lat.n_min_images(2), [2, 1, 1]);
    assert_eq!(lat.n_min_images(4), [3, 2, 2]);

    let lat = cell([3, 4, 0], [0, 0, 12], [5, 0, 0]).unwrap();
    assert_eq!(lat.lengths(), [5, 12, 5]);
    assert_eq!(lat.volume(), 240);
    assert_eq!(lat.widths(), [4, 9, 4]);
}

#[test]
fn handedness_does_not_enter_the_widths() {
    let lat = cell([1, 2, 0], [2, 0, 0], [0, 0, 3]).unwrap();
    assert_eq!(lat.volume(), -12);
    assert_eq!(lat.widths(), [2, 1, 2]);
    assert_eq!(lat.n_min_images(5), [3, 4, 3]);
    assert_eq!(lat.relevant_images(5).len(), 7 * 9 * 7);
    assert_eq!(lat.apply_mic(Vector3::new(1, 1, 0)), Vector3::new(0, -1, 0));
    // the same lattice vectors in the other order
    let other = cell([2, 0, 0], [1, 2, 0], [0, 0, 3]).unwrap();
    assert_eq!(other.volume(), 12);
    assert_eq!(other.widths(), [1, 2, 2]);
    assert_eq!(other.n_min_images(5), [4, 3, 3]);
}

#[test]
fn the_inverse_is_the_adjugate_over_the_determinant() {
    let lat = cell([2, 0, 0], [0, 3, 0], [0, 0, 4]).unwrap();
    let inv = lat.inv_matrix();
    assert_eq!(inv.den, 24);
    assert_eq!((inv.a.x, inv.a.y, inv.a.z), (12, 0, 0));
    assert_eq!((inv.b.x, inv.b.y, inv.b.z), (0, 8, 0));
    assert_eq!((inv.c.x, inv.c.y, inv.c.z), (0, 0, 6));

    let lat = cell([1, 0, 0], [1, 1, 0], [0, 0, 1]).unwrap();
    let inv = lat.inv_matrix();
    assert_eq!(inv.den, 1);
    assert_eq!((inv.a.x, inv.a.y, inv.a.z), (1, 0, 0));
    assert_eq!((inv.b.x, inv.b.y, inv.b.z), (-1, 1, 0));
    assert_eq!((inv.c.x, inv.c.y, inv.c.z), (0, 0, 1));
}

#[test]
fn fractional_coordinates_are_exact() {
    let mut lat = cell([10, 0, 0], [0, 20, 0], [0, 0, 40]).unwrap();
    let f = lat.to_frac(Vector3::new(5, -5, 25));
    assert_eq!(f.den(), 8000);
    assert_eq!(f.num(), (4000, -2000, 5000));
    lat.set_origin(Vector3::new(5, 5, 5)).unwrap();
    let f = lat.to_frac(Vector3::new(5, -5, 25));
    assert_eq!(f.num(), (0, -4000, 4000));

    // a left-handed cell keeps the denominator positive
    let lat = cell([0, 7, 0], [9, 0, 0], [0, 0, 4]).unwrap();
    let f = lat.to_frac(Vector3::new(9, 7, 4));
    assert_eq!(f.den(), 252);
    assert_eq!(f.num(), (252, 252, 252));
}

#[test]
fn cartesian_coordinates_round_down_to_the_grid() {
    let mut lat = cell([10, 0, 0], [0, 10, 0], [0, 0, 10]).unwrap();
    let f = Frac3::new(1, -1, 7, 4).unwrap();
    assert_eq!(lat.to_cart(&f), Ok(Vector3::new(2, -3, 17)));
    lat.set_origin(Vector3::new(100, 200, 300)).unwrap();
    assert_eq!(lat.to_cart(&f), Ok(Vector3::new(102, 197, 317)));
    let far = Frac3::new(1 << 40, 0, 0, 1).unwrap();
    assert_eq!(lat.to_cart(&far), Err(LatticeError::OutOfRange));
    let edge = Frac3::new((i32::MAX as i128 - 100) / 10, 0, 0, 1).unwrap();
    assert_eq!(lat.to_cart(&edge), Ok(Vector3::new(i32::MAX - 7, 200, 300)));
}

#[test]
fn fractions_need_a_positive_denominator() {
    assert!(Frac3::new(1, 2, 3, 0).is_none());
    assert!(Frac3::new(1, 2, 3, -4).is_none());
    assert!(Frac3::new(1 << 96, 0, 0, 1).is_none());
    assert!(Frac3::new(0, 0, 0, (1 << 95) + 1).is_none());
    let f = Frac3::new(-(1 << 95), 1 << 95, 0, 1 << 95).unwrap();
    assert_eq!(f.num(), (-(1 << 95), 1 << 95, 0));
    assert_eq!(f.den(), 1 << 95);
}

#[test]
fn wrap_follows_the_origin() {
    let mut lat = cell([10, 0, 0], [0, 10, 0], [0, 0, 10]).unwrap();
    assert_eq!(lat.wrap(Vector3::new(9, 18, -6)), Vector3::new(9, 8, 4));
    assert_eq!(lat.wrap(Vector3::new(10, -10, 0)), Vector3::new(0, 0, 0));
    assert_eq!(lat.wrap(Vector3::new(-1, 0, 0)), Vector3::new(9, 0, 0));
    lat.set_origin(Vector3::new(5, 5, 5)).unwrap();
    assert_eq!(lat.wrap(Vector3::new(9, 18, -6)), Vector3::new(9, 8, 14));
    assert_eq!(lat.wrap(Vector3::new(i32::MAX, i32::MIN, 0)), Vector3::new(7, 12, 10));
}

#[test]
fn norms_round_both_ways() {
    let v = Vector3::new(1, 1, 0);
    assert_eq!(v.norm_sq(), 2);
    assert_eq!(v.norm(), 1);
    assert_eq!(v.norm_up(), 2);
    let v = Vector3::new(3, -4, 12);
    assert_eq!(v.norm_sq(), 169);
    assert_eq!(v.norm(), 13);
    assert_eq!(v.norm_up(), 13);
    assert_eq!(Vector3::zeros().norm(), 0);
    assert_eq!(Vector3::zeros().norm_up(), 0);
    let v = Vector3::new(i32::MIN, i32::MIN, i32::MIN);
    assert_eq!(v.norm_sq(), 3 << 62);
    assert_eq!(v.norm(), 3_719_550_786);
    assert_eq!(v.norm_up(), 3_719_550_787);
}
