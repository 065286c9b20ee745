use approx::Relative;
use lattice::Image;
use lattice::Lattice;
use lattice::Vector3;

/// The grid unit of these tests, in the unit of the lengths they quote.
const UNIT: f64 = 1e-8;

/// A length in grid units.
fn grid(x: f64) -> i32 {
    (x / UNIT).round() as i32
}

/// The grid vector of three lengths.
fn vector(p: [f64; 3]) -> Vector3 {
    Vector3::new(grid(p[0]), grid(p[1]), grid(p[2]))
}

/// The lattice of three lattice vectors.
fn lattice(cell: [[f64; 3]; 3]) -> Lattice {
    Lattice::new([vector(cell[0]), vector(cell[1]), vector(cell[2])]).unwrap()
}

/// Whether two numbers agree within `epsilon`.
fn close(a: f64, b: f64, epsilon: f64) -> bool {
    Relative::default().epsilon(epsilon).eq(&a, &b)
}

/// The least of three widths.
fn least(w: [i128; 3]) -> i128 {
    w[0].min(w[1]).min(w[2])
}

#[test]
fn test_mic_distance() {
    // Setup lattice
    // a = b = c = 4, alpha = beta = gamma = 60
    let cell = [
        [4.00000000, 0.00000000, 0.00000000],
        [2.00000000, 3.46410162, 0.00000000],
        [2.00000000, 1.15470054, 3.26598632],
    ];
    let lattice = lattice(cell);

    // Safe distance range where the estimate is exact
    let safe_r_max = 0.5 * least(lattice.widths()) as f64 * UNIT;
    assert!(close(safe_r_max, 1.4142, 1e-4));
    let pi = vector([-0.0000000, 0.0000000, -0.0000000]);
    let pj = vector([-0.0743502, 2.5356374, -2.0623249]);
    let dij_naive = lattice.distance_tuckerman(pi, pj) as f64 * UNIT;
    // it is ok: 1.2270 < 1.4142
    assert!(close(dij_naive, 1.2270, 1e-4));
    let dij_brute = lattice.distance_brute_force(pi, pj) as f64 * UNIT;
    assert!(close(dij_naive, dij_brute, 1e-4));

    // When the true distance is out of the safe range of the estimate.
    let pj = vector([-0.0834941, 1.8252187, -1.5169388]);
    let dij_brute = lattice.distance_brute_force(pi, pj) as f64 * UNIT;
    assert!(close(dij_brute, 1.8167, 1e-4));
    // the estimate fails since: 1.8167 > 1.4142
    let dij_naive = lattice.distance_tuckerman(pi, pj) as f64 * UNIT;
    assert!(dij_naive > dij_brute);
    let dij = lattice.distance(pi, pj) as f64 * UNIT;
    assert!(close(dij_brute, dij, 1e-4));
}

#[test]
fn mic_test_mic_distance() {
    // Setup lattice
    // a = b = c = 4, alpha = beta = gamma = 60
    let cell = [
        [4.00000000, 0.00000000, 0.00000000],
        [2.00000000, 3.46410162, 0.00000000],
        [2.00000000, 1.15470054, 3.26598632],
    ];
    let lattice = lattice(cell);

    // Safe distance range where the estimate is exact
    let safe_r_max = 0.5 * least(lattice.widths()) as f64 * UNIT;
    assert!(close(safe_r_max, 1.4142, 1e-4));
    let pi = vector([-0.0000000, 0.0000000, -0.0000000]);
    let pj = vector([-0.0743502, 2.5356374, -2.0623249]);
    let dij = lattice.distance(pi, pj) as f64 * UNIT;
    assert!(close(dij, 1.2270, 1e-4));

    // When the true distance is out of the safe range of the estimate.
    let pj = vector([-0.0834941, 1.8252187, -1.5169388]);
    let dij = lattice.distance(pi, pj) as f64 * UNIT;
    assert!(close(dij, 1.8167, 1e-4));
}

#[test]
fn test_mic_vector() {
    let lat = lattice([
        [7.055000000, 0.000000, 0.00000000],
        [0.000000000, 6.795000, 0.00000000],
        [-1.14679575, 0.000000, 5.65182701],
    ]);
    let near = |v: Vector3, p: [f64; 3]| {
        close(v.x as f64 * UNIT, p[0], 1e-4)
            && close(v.y as f64 * UNIT, p[1], 1e-4)
            && close(v.z as f64 * UNIT, p[2], 1e-4)
    };

    // mic vector
    let expected = [-0.48651737, 0.184824, -1.31913642];
    let pmic = lat.apply_mic_tuckerman(vector([5.42168688, 0.184824, 4.33269058]));
    assert!(near(pmic, expected));

    let pmic = lat.apply_mic(vector([5.42168688, 0.184824, 4.33269058]));
    assert!(near(pmic, expected));
}

#[test]
fn test_mic_distance_2() {
    let lat = lattice([[5.0, 0.0, 0.0], [1.0, 5.0, 0.0], [1.0, 1.0, 5.0]]);
    let zero = vector([0.; 3]);

    // the shortest distance: 2.61383
    let d = lat.distance_tuckerman(zero, vector([-0.94112, -4.34823, 2.53058])) as f64 * UNIT;
    assert!(close(2.66552, d, 1e-4));
    let d = lat.distance_brute_force(zero, vector([-0.94112, -4.34823, 2.53058])) as f64 * UNIT;
    assert!(close(2.61383, d, 1e-4));

    // the shortest distance: 2.53575
    let d = lat.distance_tuckerman(zero, vector([-2.46763, 0.57717, 0.08775])) as f64 * UNIT;
    assert!(close(2.59879, d, 1e-4));
    let d = lat.distance_brute_force(zero, vector([-2.46763, 0.57717, 0.08775])) as f64 * UNIT;
    assert!(close(2.53575, d, 1e-4));
}

#[test]
fn test_neighborhood() {
    let unit = 1e-7;
    let side = |x: f64| (x / unit).round() as i32;
    let radius = |x: f64| (x / unit).round() as u64;
    let lat = Lattice::new([
        Vector3::new(side(18.256), 0, 0),
        Vector3::new(0, side(20.534), 0),
        Vector3::new(0, 0, side(15.084)),
    ])
    .unwrap();
    assert_eq!(true, lat.is_orthorhombic());

    assert_eq!([1, 1, 1], lat.n_min_images(radius(9.)));
    assert_eq!([2, 1, 2], lat.n_min_images(radius(19.)));
    assert_eq!([2, 1, 2], lat.n_min_images(radius(20.)));
    assert_eq!([2, 2, 2], lat.n_min_images(radius(20.6)));

    let image = |na: i128, nb: i128, nc: i128| Image { na, nb, nc };
    let expected = [
        image(-1, -1, -1),
        image(-1, -1, 0),
        image(-1, -1, 1),
        image(-1, 0, -1),
        image(-1, 0, 0),
        image(-1, 0, 1),
        image(-1, 1, -1),
        image(-1, 1, 0),
        image(-1, 1, 1),
        image(0, -1, -1),
        image(0, -1, 0),
        image(0, -1, 1),
        image(0, 0, -1),
        image(0, 0, 0),
        image(0, 0, 1),
        image(0, 1, -1),
        image(0, 1, 0),
        image(0, 1, 1),
        image(1, -1, -1),
        image(1, -1, 0),
        image(1, -1, 1),
        image(1, 0, -1),
        image(1, 0, 0),
        image(1, 0, 1),
        image(1, 1, -1),
        image(1, 1, 0),
        image(1, 1, 1),
    ];

    let images = lat.relevant_images(radius(3.0));
    assert_eq!(expected.len(), images.len());
    assert_eq!(expected[1].nc, images[1].nc);
    assert_eq!(expected.to_vec(), images);
}

/// The lattice of six cell parameters: lengths and angles in degrees.
fn from_params(a: f64, b: f64, c: f64, alpha: f64, beta: f64, gamma: f64, unit: f64) -> Lattice {
    let acos = alpha.to_radians().cos();
    let bcos = beta.to_radians().cos();
    let gcos = gamma.to_radians().cos();
    let gsin = gamma.to_radians().sin();
    let v = (1. - acos.powi(2) - bcos.powi(2) - gcos.powi(2) + 2.0 * acos * bcos * gcos).sqrt();
    let side = |x: f64| (x / unit).round() as i32;
    let va = Vector3::new(side(a), 0, 0);
    let vb = Vector3::new(side(b * gcos), side(b * gsin), 0);
    let vc = Vector3::new(
        side(c * bcos),
        side(c * (acos - bcos * gcos) / gsin),
        side(c * v / gsin),
    );
    Lattice::new([va, vb, vc]).unwrap()
}

#[test]
fn mic_test_wrap() {
    let unit = 1e-7;
    let side = |x: f64| (x / unit).round() as i32;
    let point = |p: [f64; 3]| Vector3::new(side(p[0]), side(p[1]), side(p[2]));
    let near = |v: Vector3, p: [f64; 3]| {
        close(v.x as f64 * unit, p[0], 1e-4)
            && close(v.y as f64 * unit, p[1], 1e-4)
            && close(v.z as f64 * unit, p[2], 1e-4)
    };
    // Cubic unit cell
    let cell = from_params(10.0, 10.0, 10.0, 90.0, 90.0, 90.0, unit);
    let wrapped = cell.wrap(point([9.0, 18.0, -6.0]));
    assert!(near(wrapped, [9.0, 8.0, 4.0]));
    assert_eq!(wrapped, point([9.0, 8.0, 4.0]));

    // Orthorhombic unit cell
    let cell = from_params(3.0, 4.0, 5.0, 90.0, 90.0, 90.0, unit);
    let wrapped = cell.wrap(point([1.0, 1.5, 6.0]));
    assert!(near(wrapped, [1.0, 1.5, 1.0]));

    // Triclinic unit cell
    let cell = from_params(3.0, 4.0, 5.0, 90.0, 90.0, 90.0, unit);
    let wrapped = cell.wrap(point([1.0, 1.5, 6.0]));
    assert!(near(wrapped, [1.0, 1.5, 1.0]));
}
