use lattice::Frac3;
use lattice::Lattice;
use lattice::Vector3;

/// A lattice of three lattice vectors, with its origin at zero.
fn cell(a: [i32; 3], b: [i32; 3], c: [i32; 3]) -> Lattice {
    Lattice::new([
        Vector3::new(a[0], a[1], a[2]),
        Vector3::new(b[0], b[1], b[2]),
        Vector3::new(c[0], c[1], c[2]),
    ])
    .unwrap()
}

/// A few cells: skewed, left-handed, orthorhombic, coarse and fine.
fn cells() -> Vec<Lattice> {
    vec![
        cell([1, 5, 0], [5, 0, 0], [1, 1, 5]),
        cell([2, 10, 0], [10, 0, 0], [2, 2, 10]),
        cell([5, 0, 0], [1, 5, 0], [1, 1, 5]),
        cell([400, 0, 0], [200, 346, 0], [200, 115, 327]),
        cell([0, 7, 0], [9, 0, 0], [0, 0, 4]),
        cell([10, 0, 0], [0, 12, 0], [0, 0, 15]),
        cell([3, 1, -2], [-1, 4, 1], [2, -2, 5]),
        cell([40_000_000, 0, 0], [20_000_000, 34_641_016, 0], [20_000_000, 11_547_005, 32_659_863]),
    ]
}

/// A few points, near and far.
fn points() -> Vec<Vector3> {
    let mut points = vec![];
    for x in [-23, -5, 0, 1, 8] {
        for y in [-11, 0, 3, 17] {
            for z in [-7, 0, 2, 29] {
                points.push(Vector3::new(x, y, z));
            }
        }
    }
    points.push(Vector3::new(123_456_789, -987_654_321, 555_555_555));
    points.push(Vector3::new(i32::MAX, i32::MIN, i32::MAX));
    points
}

/// The difference of two points, where it is on the grid.
fn minus(p: Vector3, q: Vector3) -> Option<Vector3> {
    Some(Vector3::new(p.x.checked_sub(q.x)?, p.y.checked_sub(q.y)?, p.z.checked_sub(q.z)?))
}

#[test]
fn round_trip_gives_the_point_back() {
    for mut lat in cells() {
        for origin in [Vector3::zeros(), Vector3::new(3, -4, 1)] {
            lat.set_origin(origin).unwrap();
            for p in points() {
                let f = lat.to_frac(p);
                assert_eq!(lat.to_cart(&f), Ok(p));
            }
        }
    }
}

#[test]
fn wrapping_lands_in_the_cell_and_stays_there() {
    for mut lat in cells() {
        for origin in [Vector3::zeros(), Vector3::new(3, -4, 1)] {
            lat.set_origin(origin).unwrap();
            for p in points() {
                let w = lat.wrap(p);
                let f = lat.to_frac(w);
                let (x, y, z) = f.num();
                let den = f.den();
                assert!(0 <= x && x < den);
                assert!(0 <= y && y < den);
                assert!(0 <= z && z < den);
                assert_eq!(lat.wrap(w), w);
                // the wrapped point is a periodic image of the point
                let g = lat.to_frac(p);
                let (gx, gy, gz) = g.num();
                assert_eq!((gx - x) % den, 0);
                assert_eq!((gy - y) % den, 0);
                assert_eq!((gz - z) % den, 0);
            }
        }
    }
}

#[test]
fn wrap_frac_takes_the_floor_off() {
    let lat = Lattice::default();
    let f = Frac3::new(7, -7, 12, 4).unwrap();
    let w = lat.wrap_frac(&f);
    assert_eq!(w.num(), (3, 1, 0));
    assert_eq!(w.den(), 4);
    assert_eq!(lat.wrap_frac(&w), w);
}

#[test]
fn distance_is_symmetric() {
    for mut lat in cells() {
        for origin in [Vector3::zeros(), Vector3::new(3, -4, 1)] {
            lat.set_origin(origin).unwrap();
            let points = points();
            for (i, pi) in points.iter().enumerate() {
                for pj in &points[i..] {
                    assert_eq!(lat.distance(*pi, *pj), lat.distance(*pj, *pi));
                }
            }
        }
    }
}

#[test]
fn distance_is_at_most_the_plain_distance() {
    for lat in cells() {
        let points = points();
        for pi in &points {
            for pj in &points {
                let (x, y, z) = (
                    pj.x as i128 - pi.x as i128,
                    pj.y as i128 - pi.y as i128,
                    pj.z as i128 - pi.z as i128,
                );
                let d = lat.distance(*pi, *pj) as i128;
                assert!(d * d <= x * x + y * y + z * z);
            }
        }
    }
}

#[test]
fn distance_to_itself_is_zero() {
    for mut lat in cells() {
        for origin in [Vector3::zeros(), Vector3::new(3, -4, 1)] {
            lat.set_origin(origin).unwrap();
            for p in points() {
                assert_eq!(lat.distance(p, p), 0);
            }
            assert_eq!(lat.apply_mic(Vector3::zeros()), Vector3::zeros());
            assert_eq!(lat.apply_mic_tuckerman(Vector3::zeros()), Vector3::zeros());
            assert_eq!(lat.apply_mic_brute_force(Vector3::zeros()), Vector3::zeros());
        }
    }
}

#[test]
fn scaling_multiplies_volume_and_lengths() {
    for lat in cells() {
        for s in [1, 2, 3, 7] {
            let mut scaled = lat;
            scaled.scale_by(s).unwrap();
            let s = s as i128;
            assert_eq!(scaled.volume(), lat.volume() * s * s * s);
            for axis in 0..3 {
                let sq = lat.lengths_sq()[axis] as i128;
                assert_eq!(scaled.lengths_sq()[axis] as i128, sq * s * s);
                let dot = lat.dot_products()[axis] as i128;
                assert_eq!(scaled.dot_products()[axis] as i128, dot * s * s);
                let len = lat.lengths()[axis] as i128;
                let longer = scaled.lengths()[axis] as i128;
                assert!(s * len <= longer && longer < s * (len + 1));
                // on a fine grid the rounding is below a millionth
                if len >= 1_000_000 {
                    assert!((longer - s * len) * 1_000_000 < s * len);
                }
            }
        }
    }
}

#[test]
fn lengths_on_a_coarse_grid_scale_up_to_the_rounding() {
    let mut lat = cell([1, 1, 0], [0, 1, 0], [0, 0, 1]);
    assert_eq!(lat.lengths_sq()[0], 2);
    assert_eq!(lat.lengths()[0], 1);
    lat.scale_by(10).unwrap();
    assert_eq!(lat.lengths_sq()[0], 200);
    assert_eq!(lat.lengths()[0], 14);
}

#[test]
fn scaling_one_axis_leaves_the_others() {
    let lat = cell([3, 1, -2], [-1, 4, 1], [2, -2, 5]);
    let mut scaled = lat;
    scaled.scale_by_b(5).unwrap();
    assert_eq!(scaled.vector_a(), lat.vector_a());
    assert_eq!(scaled.vector_b(), Vector3::new(-5, 20, 5));
    assert_eq!(scaled.vector_c(), lat.vector_c());
    assert_eq!(scaled.volume(), lat.volume() * 5);
    let mut scaled = lat;
    scaled.scale_by_a(2).unwrap();
    assert_eq!(scaled.vector_a(), Vector3::new(6, 2, -4));
    assert_eq!(scaled.volume(), lat.volume() * 2);
    let mut scaled = lat;
    scaled.scale_by_c(3).unwrap();
    assert_eq!(scaled.vector_c(), Vector3::new(6, -6, 15));
    assert_eq!(scaled.volume(), lat.volume() * 3);
}

/// A coordinate brought into `[-w / 2, w / 2)`.
fn centred(x: i32, w: i32) -> i32 {
    let (x, w) = (x as i64, w as i64);
    (x - w * (2 * x + w).div_euclid(2 * w)) as i32
}

#[test]
fn orthorhombic_cells_wrap_each_axis_alone() {
    let mut lat = cell([10, 0, 0], [0, 12, 0], [0, 0, 15]);
    assert!(lat.is_orthorhombic());
    assert_eq!(lat.widths(), [10, 12, 15]);
    for origin in [Vector3::zeros(), Vector3::new(6, 0, -7)] {
        lat.set_origin(origin).unwrap();
        for p in points() {
            let v = lat.apply_mic(p);
            assert_eq!(v.x, centred(p.x, 10));
            assert_eq!(v.y, centred(p.y, 12));
            assert_eq!(v.z, centred(p.z, 15));
            assert!(-10 <= 2 * v.x && 2 * v.x < 10);
            assert!(-12 <= 2 * v.y && 2 * v.y < 12);
            assert!(-15 <= 2 * v.z && 2 * v.z < 15);
        }
        // a coordinate half-way between two images goes to -w / 2
        assert_eq!(lat.apply_mic(Vector3::new(5, 6, 0)), Vector3::new(-5, -6, 0));
        assert_eq!(lat.apply_mic(Vector3::new(-5, -6, 0)), Vector3::new(-5, -6, 0));
        assert_eq!(lat.apply_mic(Vector3::new(4, -18, 22)), Vector3::new(4, -6, 7));
    }
    let cube = cell([10, 0, 0], [0, 10, 0], [0, 0, 10]);
    assert_eq!(cube.apply_mic(Vector3::new(-5, 12, 5)), Vector3::new(-5, 2, -5));
}

#[test]
fn a_lattice_vector_down_its_axis_keeps_the_upper_half() {
    let lat = cell([-10, 0, 0], [0, 12, 0], [0, 0, -15]);
    assert!(lat.is_orthorhombic());
    assert_eq!(lat.widths(), [10, 12, 15]);
    for p in points() {
        let v = lat.apply_mic(p);
        if (2 * p.x as i64 + 10) % 20 != 0 {
            assert_eq!(v.x, centred(p.x, 10));
        }
        assert_eq!(v.y, centred(p.y, 12));
        if (2 * p.z as i64 + 15) % 30 != 0 {
            assert_eq!(v.z, centred(p.z, 15));
        }
    }
    assert_eq!(lat.apply_mic(Vector3::new(5, 6, 0)), Vector3::new(5, -6, 0));
    assert_eq!(lat.apply_mic(Vector3::new(-5, -6, 0)), Vector3::new(5, -6, 0));
}

/// The square of the length of a vector.
fn norm_sq(v: [i64; 3]) -> i64 {
    v[0] * v[0] + v[1] * v[1] + v[2] * v[2]
}

#[test]
fn no_image_is_shorter_than_the_minimum_image() {
    for mut lat in cells() {
        for origin in [Vector3::zeros(), Vector3::new(3, -4, 1)] {
            lat.set_origin(origin).unwrap();
            let (a, b, c) = (lat.vector_a(), lat.vector_b(), lat.vector_c());
            for p in points() {
                if p.x.abs() > 1000 {
                    continue;
                }
                let v = lat.apply_mic(p);
                let least = v.norm_sq() as i64;
                let span = 12;
                for i in -span..=span {
                    for j in -span..=span {
                        for k in -span..=span {
                            let (i, j, k) = (i as i64, j as i64, k as i64);
                            let w = [
                                v.x as i64 + i * a.x as i64 + j * b.x as i64 + k * c.x as i64,
                                v.y as i64 + i * a.y as i64 + j * b.y as i64 + k * c.y as i64,
                                v.z as i64 + i * a.z as i64 + j * b.z as i64 + k * c.z as i64,
                            ];
                            assert!(least <= norm_sq(w));
                        }
                    }
                }
            }
        }
    }
}

#[test]
fn a_lattice_translation_leaves_the_minimum_image() {
    for lat in cells() {
        let (a, b, c) = (lat.vector_a(), lat.vector_b(), lat.vector_c());
        for p in points() {
            if p.x.abs() > 1000 {
                continue;
            }
            let v = lat.apply_mic(p);
            for n in [[1, 0, 0], [0, -1, 0], [2, 3, -1], [-4, 1, 5]] {
                let q = Vector3::new(
                    p.x + n[0] * a.x + n[1] * b.x + n[2] * c.x,
                    p.y + n[0] * a.y + n[1] * b.y + n[2] * c.y,
                    p.z + n[0] * a.z + n[1] * b.z + n[2] * c.z,
                );
                assert_eq!(lat.apply_mic(q), v);
            }
        }
    }
    let lat = cell([2, 10, 0], [10, 0, 0], [2, 2, 10]);
    let v = lat.apply_mic(Vector3::new(4, -5, 0));
    assert_eq!(lat.apply_mic(Vector3::new(6, 5, 0)), v);
    assert_eq!(v.norm_sq(), 41);
}

#[test]
fn handedness_does_not_change_the_distance() {
    let right = cell([500_000, 0, 0], [100_000, 500_000, 0], [100_000, 100_000, 500_000]);
    let left = cell([100_000, 500_000, 0], [500_000, 0, 0], [100_000, 100_000, 500_000]);
    assert_eq!(right.volume(), -left.volume());
    assert_eq!(left.widths()[2], right.widths()[2]);
    assert_eq!(left.widths()[0], right.widths()[1]);
    let zero = Vector3::zeros();
    let p = Vector3::new(-246_763, 57_717, 8_775);
    assert_eq!(left.distance(zero, p), 253_574);
    assert_eq!(right.distance(zero, p), 253_574);
    for p in points() {
        assert_eq!(left.distance(zero, p), right.distance(zero, p));
        assert_eq!(left.apply_mic(p).norm_sq(), right.apply_mic(p).norm_sq());
    }
}

#[test]
fn the_minimum_image_comes_with_its_image() {
    for mut lat in cells() {
        for origin in [Vector3::zeros(), Vector3::new(3, -4, 1)] {
            lat.set_origin(origin).unwrap();
            let (a, b, c) = (lat.vector_a(), lat.vector_b(), lat.vector_c());
            for p in points() {
                let (v, image) = lat.apply_mic_image(p);
                assert_eq!(v, lat.apply_mic(p));
                let (i, j, k) = (image.na, image.nb, image.nc);
                let moved = |p: i32, a: i32, b: i32, c: i32| {
                    p as i128 + i * a as i128 + j * b as i128 + k * c as i128
                };
                assert_eq!(v.x as i128, moved(p.x, a.x, b.x, c.x));
                assert_eq!(v.y as i128, moved(p.y, a.y, b.y, c.y));
                assert_eq!(v.z as i128, moved(p.z, a.z, b.z, c.z));
            }
        }
    }
    let lat = cell([10, 0, 0], [0, 12, 0], [0, 0, 15]);
    let (v, image) = lat.apply_mic_image(Vector3::new(4, -18, 22));
    assert_eq!(v, Vector3::new(4, -6, 7));
    assert_eq!((image.na, image.nb, image.nc), (0, 1, -1));
    let (v, image) = lat.apply_mic_image(Vector3::zeros());
    assert_eq!(v, Vector3::zeros());
    assert_eq!((image.na, image.nb, image.nc), (0, 0, 0));
    // a search adds the image it finds to that of the estimate
    let lat = cell([6, 0, 0], [3, 6, 0], [0, 0, 6]);
    let (v, image) = lat.apply_mic_image(Vector3::new(-6, -5, 0));
    assert_eq!(v, Vector3::new(-3, 1, 0));
    assert_eq!((image.na, image.nb, image.nc), (0, 1, 0));
}

#[test]
fn the_search_is_never_longer_than_the_estimate() {
    for lat in cells() {
        for p in points() {
            let estimate = lat.apply_mic_tuckerman(p);
            let found = lat.apply_mic_brute_force(p);
            assert!(found.norm_sq() <= estimate.norm_sq());
            let v = lat.apply_mic(p);
            assert!(v == estimate || v == found);
        }
    }
}

#[test]
fn ties_go_to_the_first_image() {
    // the images (-1, 0, 0) and (0, 0, 0) of the estimate (3, 1, 0) are equally long
    let lat = cell([6, 0, 0], [3, 6, 0], [0, 0, 6]);
    let p = Vector3::new(-6, -5, 0);
    assert_eq!(lat.apply_mic_tuckerman(p), Vector3::new(3, 1, 0));
    assert_eq!(lat.apply_mic_brute_force(p), Vector3::new(-3, 1, 0));
    assert_eq!(lat.apply_mic(p), Vector3::new(-3, 1, 0));
    assert_eq!(lat.distance(Vector3::zeros(), p), 3);
    // four images tie, and the first of them in lexicographic order is (-1, 0, 0)
    let p = Vector3::new(-6, -5, -3);
    assert_eq!(lat.apply_mic_tuckerman(p), Vector3::new(3, 1, -3));
    assert_eq!(lat.apply_mic(p), Vector3::new(-3, 1, -3));
}

#[test]
fn the_origin_does_not_enter_a_displacement() {
    let mut lat = cell([10, 0, 0], [0, 10, 0], [0, 0, 10]);
    lat.set_origin(Vector3::new(4, 0, 0)).unwrap();
    let zero = Vector3::zeros();
    let p = Vector3::new(2, 0, 0);
    assert_eq!(lat.distance(zero, p), 2);
    assert_eq!(lat.distance(p, zero), 2);

    lat.set_origin(Vector3::new(6, 0, 0)).unwrap();
    assert_eq!(lat.apply_mic(zero), zero);
    assert_eq!(lat.distance(zero, zero), 0);
    let q = Vector3::new(1, 0, 0);
    assert_eq!(lat.distance(zero, q), 1);
    assert_eq!(lat.distance(q, zero), 1);

    for mut lat in cells() {
        for p in points() {
            lat.set_origin(Vector3::zeros()).unwrap();
            let v = lat.apply_mic_image(p);
            lat.set_origin(Vector3::new(-9, 2, 5)).unwrap();
            assert_eq!(lat.apply_mic_image(p), v);
        }
    }
}

#[test]
fn scaling_by_a_ratio_rounds_to_the_grid() {
    let lat = cell([5, 0, 0], [1, 5, 0], [1, 1, 5]);
    let mut scaled = lat;
    scaled.scale_by_ratio(3, 2).unwrap();
    // 7.5 goes up to 8, 1.5 up to 2
    assert_eq!(scaled.vector_a(), Vector3::new(8, 0, 0));
    assert_eq!(scaled.vector_b(), Vector3::new(2, 8, 0));
    assert_eq!(scaled.vector_c(), Vector3::new(2, 2, 8));
    let mut whole = lat;
    whole.scale_by_ratio(4, 1).unwrap();
    let mut factor = lat;
    factor.scale_by(4).unwrap();
    assert_eq!(whole.matrix(), factor.matrix());
    let mut lower = lat;
    lower.scale_by_ratio(6, 4).unwrap();
    assert_eq!(lower.matrix(), scaled.matrix());

    let lat = cell([-3, 1, -2], [-1, 4, 1], [2, -2, 5]);
    let mut scaled = lat;
    scaled.scale_by_b_ratio(1, 2).unwrap();
    // -0.5 goes up to 0, 0.5 up to 1
    assert_eq!(scaled.vector_b(), Vector3::new(0, 2, 1));
    assert_eq!(scaled.vector_a(), lat.vector_a());
    assert_eq!(scaled.vector_c(), lat.vector_c());
    let mut scaled = lat;
    scaled.scale_by_a_ratio(5, 3).unwrap();
    assert_eq!(scaled.vector_a(), Vector3::new(-5, 2, -3));
    let mut scaled = lat;
    scaled.scale_by_c_ratio(2, 5).unwrap();
    assert_eq!(scaled.vector_c(), Vector3::new(1, -1, 2));
}

#[test]
fn widths_are_within_the_lengths() {
    for lat in cells() {
        let widths = lat.widths();
        let lengths = lat.lengths();
        for axis in 0..3 {
            assert!(0 <= widths[axis] && widths[axis] <= lengths[axis] as i128);
            if lat.is_orthorhombic() {
                assert_eq!(widths[axis], lengths[axis] as i128);
            }
        }
    }
    // a width below one grid unit rounds down to zero
    let thin = cell([1, 0, 0], [0, 1, 0], [1000, 1000, 1]);
    assert_eq!(thin.volume(), 1);
    assert_eq!(thin.widths(), [0, 0, 1]);
}

#[test]
fn points_on_the_grid_keep_their_fractional_coordinates() {
    for mut lat in cells() {
        lat.set_origin(Vector3::new(3, -4, 1)).unwrap();
        for f in [[2, -4, 6], [0, 0, 0], [-8, 3, 1]] {
            let frac = Frac3::new(f[0], f[1], f[2], 1).unwrap();
            let back = lat.to_frac(lat.to_cart(&frac).unwrap());
            assert_eq!(back.num(), (f[0] * back.den(), f[1] * back.den(), f[2] * back.den()));
        }
        assert_eq!(lat.to_frac(lat.origin()).num(), (0, 0, 0));
    }
    // half a lattice vector lies on the grid where the lattice vector is even
    let lat = cell([10, 0, 0], [4, 6, 0], [2, 2, 8]);
    let frac = Frac3::new(1, -3, 5, 2).unwrap();
    let back = lat.to_frac(lat.to_cart(&frac).unwrap());
    let (x, y, z) = back.num();
    assert_eq!((2 * x, 2 * y, 2 * z), (back.den(), -3 * back.den(), 5 * back.den()));
    // and off the grid the point is rounded down, and its coordinates with it
    let lat = cell([5, 0, 0], [0, 5, 0], [0, 0, 5]);
    let back = lat.to_frac(lat.to_cart(&frac).unwrap());
    assert_eq!(back.num(), (50, -200, 300));
    assert_eq!(back.den(), 125);
}
