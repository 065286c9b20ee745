use approx::Relative;
use lattice::Lattice;
use lattice::Vector3;
use vecfx::Matrix3f;
use vecfx::Vector3f;

/// The grid unit of these tests, in the unit of the lengths they quote.
const UNIT: f64 = 1e-8;

/// A length in grid units.
fn grid(x: f64) -> i32 {
    (x / UNIT).round() as i32
}

/// The grid vector of a real vector.
fn on_grid(p: &Vector3f) -> Vector3 {
    Vector3::new(grid(p.x), grid(p.y), grid(p.z))
}

/// A grid vector in real coordinates.
fn in_reals(v: Vector3) -> Vector3f {
    Vector3f::new(v.x as f64, v.y as f64, v.z as f64) * UNIT
}

/// Whether two numbers agree within `epsilon`.
fn close(a: f64, b: f64, epsilon: f64) -> bool {
    Relative::default().epsilon(epsilon).eq(&a, &b)
}

/// Whether two vectors agree within `epsilon`.
fn near(a: &Vector3f, b: &Vector3f, epsilon: f64) -> bool {
    Relative::default().epsilon(epsilon).eq(a, b)
}

/// A few cells in real coordinates, none orthorhombic, of either hand.
fn cells() -> Vec<[Vector3f; 3]> {
    let cell = |a: [f64; 3], b: [f64; 3], c: [f64; 3]| [a.into(), b.into(), c.into()];
    vec![
        cell([4.0, 0.0, 0.0], [2.0, 3.46410162, 0.0], [2.0, 1.15470054, 3.26598632]),
        cell([5.0, 0.0, 0.0], [1.0, 5.0, 0.0], [1.0, 1.0, 5.0]),
        cell([7.055, 0.0, 0.0], [0.0, 6.795, 0.0], [-1.14679575, 0.0, 5.65182701]),
        cell([3.1, 0.4, -0.2], [-0.7, 4.2, 0.9], [0.5, -1.1, 5.3]),
        cell([1.0, 5.0, 0.0], [5.0, 0.0, 0.0], [1.0, 1.0, 5.0]),
    ]
}

/// A few points in real coordinates.
fn points() -> Vec<Vector3f> {
    let mut points = vec![];
    for x in [-7.31, -0.0743502, 0.0, 2.5, 9.87654321] {
        for y in [-4.34823, 0.184824, 2.5356374, 11.0] {
            for z in [-2.0623249, 0.0, 4.33269058] {
                points.push(Vector3f::new(x, y, z));
            }
        }
    }
    points
}

/// The estimate of the minimum image, in floating point.
fn estimate(mat: &Matrix3f, inv: &Matrix3f, p: &Vector3f) -> Vector3f {
    let mut f = inv * p;
    for i in 0..3 {
        f[i] -= f[i].round();
    }
    mat * f
}

/// The perpendicular widths, in floating point.
fn widths(mat: &Matrix3f) -> [f64; 3] {
    let (a, b, c) = (mat.column(0), mat.column(1), mat.column(2));
    let volume = a.dot(&b.cross(&c)).abs();
    [volume / (b.norm() * c.norm()), volume / (c.norm() * a.norm()), volume / (a.norm() * b.norm())]
}

/// The minimum image by a search over the images in reach, in floating point.
fn search(mat: &Matrix3f, inv: &Matrix3f, p: &Vector3f) -> Vector3f {
    let p = estimate(mat, inv, p);
    let cutoff = p.norm();
    let n = widths(mat).map(|w| (cutoff / w).ceil() as i32);
    let mut best = (f64::MAX, p);
    for i in -n[0]..=n[0] {
        for j in -n[1]..=n[1] {
            for k in -n[2]..=n[2] {
                let v = p + mat * Vector3f::new(i as f64, j as f64, k as f64);
                if v.norm() < best.0 {
                    best = (v.norm(), v);
                }
            }
        }
    }
    best.1
}

#[test]
fn the_frame_agrees_with_floating_point() {
    for cell in cells() {
        let mat = Matrix3f::from_columns(&cell);
        let inv = mat.try_inverse().unwrap();
        let lat = Lattice::new([on_grid(&cell[0]), on_grid(&cell[1]), on_grid(&cell[2])]).unwrap();

        let volume = cell[0].dot(&cell[1].cross(&cell[2]));
        assert!(close(lat.volume() as f64 * UNIT.powi(3), volume, 1e-6));
        let lengths = lat.lengths();
        let wide = widths(&mat);
        for i in 0..3 {
            assert!(close(lengths[i] as f64 * UNIT, cell[i].norm(), 1e-7));
            assert!(close(lat.widths()[i] as f64 * UNIT, wide[i], 1e-6));
        }
        let inverse = lat.inv_matrix();
        let columns = [inverse.a, inverse.b, inverse.c];
        for j in 0..3 {
            let scale = 1.0 / (inverse.den as f64 * UNIT);
            let c = columns[j];
            let column = Vector3f::new(c.x as f64, c.y as f64, c.z as f64) * scale;
            assert!(near(&column, &inv.column(j).into_owned(), 1e-6));
        }

        for p in points() {
            let f = lat.to_frac(on_grid(&p));
            let (x, y, z) = f.num();
            let den = f.den() as f64;
            let frac = Vector3f::new(x as f64 / den, y as f64 / den, z as f64 / den);
            assert!(near(&frac, &(inv * p), 1e-6));

            let mut wrapped = inv * p;
            for i in 0..3 {
                wrapped[i] -= wrapped[i].floor();
            }
            assert!(near(&in_reals(lat.wrap(on_grid(&p))), &(mat * wrapped), 1e-6));
        }
    }
}

#[test]
fn the_minimum_image_agrees_with_floating_point() {
    for cell in cells() {
        let mat = Matrix3f::from_columns(&cell);
        let inv = mat.try_inverse().unwrap();
        let lat = Lattice::new([on_grid(&cell[0]), on_grid(&cell[1]), on_grid(&cell[2])]).unwrap();
        let safe = 0.5 * widths(&mat).iter().cloned().fold(f64::MAX, f64::min);

        for p in points() {
            let q = on_grid(&p);
            let naive = estimate(&mat, &inv, &p);
            assert!(near(&in_reals(lat.apply_mic_tuckerman(q)), &naive, 1e-6));

            let found = search(&mat, &inv, &p);
            assert!(close(in_reals(lat.apply_mic_brute_force(q)).norm(), found.norm(), 1e-6));

            let expected = if naive.norm() < safe { naive } else { found };
            assert!(close(in_reals(lat.apply_mic(q)).norm(), expected.norm(), 1e-6));
            let zero = Vector3::zeros();
            assert!(close(lat.distance(zero, q) as f64 * UNIT, expected.norm(), 1e-6));
        }
    }
}
