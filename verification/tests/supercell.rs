use lattice::Image;
use lattice::Lattice;
use lattice::LatticeError;
use lattice::Vector3;
use lattice::enumerate_images;

/// The grid unit of these tests, in the unit of the lengths they quote.
const UNIT: f64 = 1e-8;

/// A length in grid units.
fn grid(x: f64) -> i32 {
    (x / UNIT).round() as i32
}

/// The lattice with a = b = c = 4 and all angles 60 degrees.
fn rhombohedral() -> Lattice {
    let cell = [
        [4.00000000, 0.00000000, 0.00000000],
        [2.00000000, 3.46410162, 0.00000000],
        [2.00000000, 1.15470054, 3.26598632],
    ];
    Lattice::new([
        Vector3::new(grid(cell[0][0]), grid(cell[0][1]), grid(cell[0][2])),
        Vector3::new(grid(cell[1][0]), grid(cell[1][1]), grid(cell[1][2])),
        Vector3::new(grid(cell[2][0]), grid(cell[2][1]), grid(cell[2][2])),
    ])
    .unwrap()
}

#[test]
fn test_supercell() {
    let lattice = rhombohedral();
    let range: Vec<i64> = (-1..=1).collect();
    let points = vec![Vector3::zeros()];
    let cell_images = lattice.replicate(&points, &range, &range, &range).unwrap();
    assert_eq!(cell_images.iter().count(), 27);
}

#[test]
fn supercell_is_image_major() {
    let lattice = rhombohedral();
    let range: Vec<i64> = (-1..=1).collect();
    let points = vec![Vector3::new(1, 2, 3), Vector3::new(-10, 20, -30)];
    let cells = lattice.replicate(&points, &range, &range, &range).unwrap();
    assert_eq!(cells.len(), 54);
    let (a, b, c) = (lattice.vector_a(), lattice.vector_b(), lattice.vector_c());
    let mut k = 0;
    for i in -1..=1 {
        for j in -1..=1 {
            for l in -1..=1 {
                for p in &points {
                    let expected = Vector3::new(
                        p.x + i * a.x + j * b.x + l * c.x,
                        p.y + i * a.y + j * b.y + l * c.y,
                        p.z + i * a.z + j * b.z + l * c.z,
                    );
                    assert_eq!(cells[k], expected);
                    k += 1;
                }
            }
        }
    }
}

#[test]
fn supercell_moves_with_the_origin() {
    let mut lattice = Lattice::new([
        Vector3::new(10, 0, 0),
        Vector3::new(0, 10, 0),
        Vector3::new(0, 0, 10),
    ])
    .unwrap();
    lattice.set_origin(Vector3::new(1, 2, 3)).unwrap();
    let cells = lattice.replicate(&vec![Vector3::new(5, 5, 5)], &vec![0, 1], &vec![0], &vec![0]);
    assert_eq!(cells.unwrap(), vec![Vector3::new(6, 7, 8), Vector3::new(16, 7, 8)]);
}

#[test]
fn supercell_off_the_grid_is_refused() {
    let lattice = Lattice::new([
        Vector3::new(1 << 29, 0, 0),
        Vector3::new(0, 1, 0),
        Vector3::new(0, 0, 1),
    ])
    .unwrap();
    let points = vec![Vector3::zeros()];
    let far = lattice.replicate(&points, &vec![0, 4], &vec![0], &vec![0]);
    assert_eq!(far, Err(LatticeError::OutOfRange));
    let near = lattice.replicate(&points, &vec![0, 3], &vec![0], &vec![0]);
    assert_eq!(near.unwrap().len(), 2);
}

#[test]
fn supercell_of_nothing_is_empty() {
    let lattice = rhombohedral();
    let range: Vec<i64> = (-1..=1).collect();
    assert_eq!(lattice.replicate(&vec![], &range, &range, &range).unwrap(), vec![]);
    let points = vec![Vector3::zeros()];
    assert_eq!(lattice.replicate(&points, &range, &vec![], &range).unwrap(), vec![]);
}

#[test]
fn images_come_in_lexicographic_order() {
    let images = enumerate_images(&vec![7, -2], &vec![0, 1, 5], &vec![3]);
    let image = |na: i128, nb: i128, nc: i128| Image { na, nb, nc };
    assert_eq!(
        images,
        vec![
            image(7, 0, 3),
            image(7, 1, 3),
            image(7, 5, 3),
            image(-2, 0, 3),
            image(-2, 1, 3),
            image(-2, 5, 3),
        ]
    );
    assert_eq!(enumerate_images(&vec![1, 2], &vec![], &vec![3]), vec![]);
}
