//! Distances and displacements under the minimum image convention.

use crate::algebra::V3;
use crate::arith::ceil_div_exec;
use crate::arith::centred_wrap;
use crate::arith::lemma_round_residual;
use crate::arith::round_div_exec;
use crate::cell::box_images;
use crate::cell::first_min;
use crate::cell::norm;
use crate::geometry::lemma_estimate_bound;
use crate::geometry::lemma_face_bound;
use crate::geometry::lemma_first_min;
use crate::geometry::lemma_first_min_push;
use crate::geometry::lemma_n_images_bound;
use crate::geometry::lemma_norm_up_bound;
use crate::geometry::lemma_radius_face;
use crate::images::RANGE_MAX;
use crate::images::box_place;
use crate::images::enumerate_box;
use crate::images::images_view;
use crate::images::lemma_box_holds;
use crate::images::lemma_box_member;
use crate::lattice::Lattice;
use crate::lattice::widen;
use crate::laws::law_distance_is_least;
use crate::laws::law_distance_symmetric;
use crate::laws::law_mic_is_image;
use crate::laws::law_minimum_image;
use crate::laws::law_orthorhombic;
use crate::laws::law_zero_displacement;
use crate::products::lemma_mul_neg;
use crate::products::lemma_square_lower;
use crate::vector::Frac3;
use crate::vector::Image;
use crate::vector::Vector3;
use crate::wide::Wide3;
use crate::wide::apply_bounded;
use crate::wide::mul_bounded;
use vstd::pervasive::unreached;
use vstd::prelude::*;

verus! {

impl Lattice {
    /// Each fractional coordinate less its nearest whole number, and the
    /// image by which the coordinates were moved.
    pub(crate) fn centre(f: &Frac3) -> (r: (Frac3, Image))
        ensures
            r.0@ == f@.centred(),
            r.1@ == f@.rounded().neg(),
            r.1@.within(0x1_8000_0000_0000_0000_0000_0000),
    {
        let (x, y, z) = f.num();
        let den: i128 = f.den();
        let kx: i128 = round_div_exec(x, den);
        let ky: i128 = round_div_exec(y, den);
        let kz: i128 = round_div_exec(z, den);
        proof {
            lemma_round_residual(x as int, den as int);
            lemma_round_residual(y as int, den as int);
            lemma_round_residual(z as int, den as int);
            lemma_mul_neg(kx as int, den as int);
            lemma_mul_neg(ky as int, den as int);
            lemma_mul_neg(kz as int, den as int);
        }
        (
            Frac3::from_parts(x - kx * den, y - ky * den, z - kz * den, den),
            Image { na: -kx, nb: -ky, nc: -kz },
        )
    }

    /// The estimate of the minimum image of a displacement that may be
    /// twice as large as a grid vector, and the image by whose lattice
    /// translation it differs from the displacement.
    pub(crate) fn estimate_wide(&self, d: &Wide3) -> (r: (Vector3, Image))
        requires
            d@.within(0x1_0000_0000),
        ensures
            r.0@ == self@.mic_estimate(d@),
            r.0@.within(0x4000_0000),
            r.1@ == self@.frac_of(d@).rounded().neg(),
            r.1@.within(0x1_8000_0000_0000_0000_0000_0000),
    {
        proof {
            use_type_invariant(self);
            self.lemma_view();
            lemma_estimate_bound(self@, d@);
        }
        let f: Frac3 = self.to_frac_wide(d);
        let (g, shift) = Self::centre(&f);
        let v: Wide3 = self.to_vector_wide(&g);
        (Vector3 { x: v.x as i32, y: v.y as i32, z: v.z as i32 }, shift)
    }

    /// Whether a vector of the given length is shorter than half of every
    /// perpendicular width.
    pub(crate) fn safe_radius_holds(&self, length: u64) -> (r: bool)
        requires
            length < 0x1_0000_0000,
        ensures
            r == (forall|axis: int|
                0 <= axis < 3 ==> 2 * length * #[trigger] self@.face(axis) < self@.abs_volume()),
    {
        let volume: i128 = self.abs_volume();
        let faces: [i128; 3] = self.faces();
        let twice: i128 = 2 * (length as i128);
        let x0: i128 = mul_bounded(
            twice,
            faces[0],
            Ghost(0x2_0000_0000),
            Ghost(0x4000_0000_0000_0000),
        );
        let x1: i128 = mul_bounded(
            twice,
            faces[1],
            Ghost(0x2_0000_0000),
            Ghost(0x4000_0000_0000_0000),
        );
        let x2: i128 = mul_bounded(
            twice,
            faces[2],
            Ghost(0x2_0000_0000),
            Ghost(0x4000_0000_0000_0000),
        );
        x0 < volume && x1 < volume && x2 < volume
    }

    /// For each axis, the number of images to look at on each side of the
    /// cell in a search of the given radius: the radius over the
    /// perpendicular width, rounded up.
    pub fn n_min_images(&self, radius: u64) -> (r: [u128; 3])
        ensures
            r[0] == self@.n_images(radius as int, 0),
            r[1] == self@.n_images(radius as int, 1),
            r[2] == self@.n_images(radius as int, 2),
            r[0] <= RANGE_MAX,
            r[1] <= RANGE_MAX,
            r[2] <= RANGE_MAX,
    {
        proof {
            use_type_invariant(self);
        }
        let volume: i128 = self.abs_volume();
        let faces: [i128; 3] = self.faces();
        if radius > 0 {
            let x0: i128 = mul_bounded(
                radius as i128,
                faces[0],
                Ghost(0x1_0000_0000_0000_0000),
                Ghost(0x4000_0000_0000_0000),
            );
            let x1: i128 = mul_bounded(
                radius as i128,
                faces[1],
                Ghost(0x1_0000_0000_0000_0000),
                Ghost(0x4000_0000_0000_0000),
            );
            let x2: i128 = mul_bounded(
                radius as i128,
                faces[2],
                Ghost(0x1_0000_0000_0000_0000),
                Ghost(0x4000_0000_0000_0000),
            );
            proof {
                lemma_n_images_bound(self@, radius as int, 0);
                lemma_n_images_bound(self@, radius as int, 1);
                lemma_n_images_bound(self@, radius as int, 2);
            }
            [
                ceil_div_exec(x0, volume) as u128,
                ceil_div_exec(x1, volume) as u128,
                ceil_div_exec(x2, volume) as u128,
            ]
        } else {
            [0, 0, 0]
        }
    }

    /// The periodic images to look at in a search of the given radius: the
    /// box that `n_min_images` spans, in lexicographic order.
    pub fn relevant_images(&self, radius: u64) -> (r: Vec<Image>)
        ensures
            images_view(r@) == self@.relevant_images(radius as int),
    {
        let ns: [u128; 3] = self.n_min_images(radius);
        enumerate_box(ns[0], ns[1], ns[2])
    }

    /// The minimum image of a displacement by exhaustive search, for a
    /// displacement that may be twice as large as a grid vector, and the
    /// image by whose lattice translation it differs from the estimate.
    pub(crate) fn search_wide(&self, d: &Wide3) -> (r: (Vector3, Image))
        requires
            d@.within(0x1_0000_0000),
        ensures
            r.0@ == self@.mic_search(d@),
            r.1@ == self@.mic_image(d@),
            r.1@.within(0x2000_0000_0000_0000_0000_0000),
    {
        proof {
            use_type_invariant(self);
            self.lemma_view();
        }
        let (p, _) = self.estimate_wide(d);
        let cutoff: u64 = p.norm_up();
        let cap: u64 = p.norm_sq();
        let images: Vec<Image> = self.relevant_images(cutoff);
        let a: Wide3 = widen(&self.matrix.a);
        let b: Wide3 = widen(&self.matrix.b);
        let c: Wide3 = widen(&self.matrix.c);
        let ghost na = self@.n_images(cutoff as int, 0);
        let ghost nb = self@.n_images(cutoff as int, 1);
        let ghost nc = self@.n_images(cutoff as int, 2);
        let ghost imgs = images_view(images@);
        let ghost keys = self@.translate_keys(p@, imgs);
        proof {
            lemma_norm_up_bound(p@, 0x4000_0000);
            lemma_face_bound(self@, 0, 0x4000_0000);
            lemma_face_bound(self@, 1, 0x4000_0000);
            lemma_face_bound(self@, 2, 0x4000_0000);
            lemma_n_images_bound(self@, cutoff as int, 0);
            lemma_n_images_bound(self@, cutoff as int, 1);
            lemma_n_images_bound(self@, cutoff as int, 2);
            lemma_radius_face(cutoff as int, self@.face(0));
            lemma_radius_face(cutoff as int, self@.face(1));
            lemma_radius_face(cutoff as int, self@.face(2));
        }
        let mut best: Vector3 = p;
        let mut best_image = Image { na: 0, nb: 0, nc: 0 };
        let mut best_sq: u64 = cap + 1;
        let mut i: usize = 0;
        while i < images.len()
            invariant
                0 <= i <= images@.len(),
                imgs == images_view(images@),
                imgs == box_images(na, nb, nc),
                keys == self@.translate_keys(p@, imgs),
                0 <= na <= 0x2000_0000_0000_0000_0000_0000,
                0 <= nb <= 0x2000_0000_0000_0000_0000_0000,
                0 <= nc <= 0x2000_0000_0000_0000_0000_0000,
                a@ == self@.basis.a,
                b@ == self@.basis.b,
                c@ == self@.basis.c,
                a@.within(0x4000_0000),
                b@.within(0x4000_0000),
                c@.within(0x4000_0000),
                cap == p@.norm_sq(),
                cap <= 0x3000_0000_0000_0000,
                best_sq <= cap + 1,
                best_sq == cap + 1 ==> forall|j: int| 0 <= j < i ==> keys[j] > cap,
                best_sq <= cap ==> i > 0 && best_sq == keys[first_min(keys.take(i as int))]
                    && best_image@ == imgs[first_min(keys.take(i as int))] && best@ == p@.plus(
                    self@.translation(best_image@),
                ),
                best_image@.within(0x2000_0000_0000_0000_0000_0000),
            decreases images@.len() - i,
        {
            let n: Image = images[i];
            proof {
                lemma_box_member(na, nb, nc, i as int);
                assert(imgs[i as int] == n@);
            }
            let nw = Wide3 { x: n.na, y: n.nb, z: n.nc };
            let t: Wide3 = apply_bounded(
                &a,
                &b,
                &c,
                &nw,
                Ghost(0x4000_0000),
                Ghost(0x2000_0000_0000_0000_0000_0000),
            );
            let vx: i128 = p.x as i128 + t.x;
            let vy: i128 = p.y as i128 + t.y;
            let vz: i128 = p.z as i128 + t.z;
            let ghost k = keys[i as int];
            let ghost front = keys.take(i as int);
            proof {
                assert(k == p@.plus(self@.translation(imgs[i as int])).norm_sq());
                assert(k == vx * vx + vy * vy + vz * vz);
                assert(keys.take(i + 1) =~= front.push(k));
                if i > 0 {
                    lemma_first_min(front);
                    lemma_first_min_push(front, k);
                }
            }
            if -0x8000_0000 <= vx && vx <= 0x7fff_ffff && -0x8000_0000 <= vy && vy <= 0x7fff_ffff
                && -0x8000_0000 <= vz && vz <= 0x7fff_ffff {
                let v = Vector3 { x: vx as i32, y: vy as i32, z: vz as i32 };
                let sq: u64 = v.norm_sq();
                if sq < best_sq {
                    best = v;
                    best_image = n;
                    best_sq = sq;
                }
            } else {
                proof {
                    if vx > 0x7fff_ffff || vx < -0x8000_0000 {
                        lemma_square_lower(vx as int, 0x8000_0000);
                    }
                    if vy > 0x7fff_ffff || vy < -0x8000_0000 {
                        lemma_square_lower(vy as int, 0x8000_0000);
                    }
                    if vz > 0x7fff_ffff || vz < -0x8000_0000 {
                        lemma_square_lower(vz as int, 0x8000_0000);
                    }
                    lemma_square_lower(vx as int, 0);
                    lemma_square_lower(vy as int, 0);
                    lemma_square_lower(vz as int, 0);
                    assert(k > cap);
                }
            }
            i = i + 1;
        }
        proof {
            lemma_box_holds(na, nb, nc, V3::zero());
            let j = box_place(na, nb, nc, V3::zero());
            assert(imgs[j] == V3::zero());
            assert(self@.translation(V3::zero()) == V3::zero());
            assert(keys[j] == cap);
            assert(keys.take(i as int) =~= keys);
        }
        (best, best_image)
    }

    /// The minimum image of a displacement that may be twice as large as a
    /// grid vector, and the image by whose lattice translation it differs
    /// from the displacement.
    pub(crate) fn mic_wide(&self, d: &Wide3) -> (r: (Vector3, Image))
        requires
            d@.within(0x1_0000_0000),
        ensures
            r.0@ == self@.apply_mic(d@),
            r.1@ == self@.mic_shift(d@),
    {
        let (v, shift) = self.estimate_wide(d);
        if self.is_orthorhombic() {
            (v, shift)
        } else {
            let length: u64 = v.norm_up();
            proof {
                lemma_norm_up_bound(v@, 0x4000_0000);
            }
            if self.safe_radius_holds(length) {
                (v, shift)
            } else {
                let (found, image) = self.search_wide(d);
                (
                    found,
                    Image {
                        na: shift.na + image.na,
                        nb: shift.nb + image.nb,
                        nc: shift.nc + image.nc,
                    },
                )
            }
        }
    }

    /// The closed-form estimate of the shortest vector that differs from
    /// `p` by a lattice translation: the coordinates of `p` in the basis of
    /// the lattice vectors, each less its nearest whole number, a tie going
    /// up, made Cartesian again. It differs from `p` by a lattice
    /// translation, and in an orthorhombic cell none that does is shorter.
    pub fn apply_mic_tuckerman(&self, p: Vector3) -> (v: Vector3)
        ensures
            v@ == self@.mic_estimate(p@),
            v@ == p@.plus(self@.translation(self@.frac_of(p@).rounded().neg())),
            self@.is_orthorhombic() ==> forall|n: V3|
                v@.norm_sq() <= p@.plus(#[trigger] self@.translation(n)).norm_sq(),
    {
        proof {
            use_type_invariant(self);
            law_mic_is_image(self@, p@);
            if self@.is_orthorhombic() {
                assert forall|n: V3|
                    self@.mic_estimate(p@).norm_sq() <= p@.plus(
                        #[trigger] self@.translation(n),
                    ).norm_sq() by {
                    law_minimum_image(self@, p@, n);
                }
            }
        }
        self.estimate_wide(&widen(&p)).0
    }

    /// The shortest of the translates of the estimate by the images within
    /// reach of it; of several shortest, the one of the first image in
    /// lexicographic order.
    pub fn apply_mic_brute_force(&self, p: Vector3) -> (v: Vector3)
        ensures
            v@ == self@.mic_search(p@),
    {
        self.search_wide(&widen(&p)).0
    }

    /// The shortest vector that differs from `p` by a lattice translation:
    /// the estimate where the cell is orthorhombic or the estimate is shorter
    /// than half of every perpendicular width, the result of the exhaustive
    /// search elsewhere.
    ///
    /// The result differs from `p` by a lattice translation, and no vector
    /// that does so is shorter. The origin of the cell does not enter. In an
    /// orthorhombic cell whose lattice vectors point up their axes it is `p`
    /// with each coordinate brought into `[-w / 2, w / 2)`, where `w` is the
    /// width along the axis.
    pub fn apply_mic(&self, p: Vector3) -> (v: Vector3)
        ensures
            v@ == self@.apply_mic(p@),
            v@ == p@.plus(self@.translation(self@.mic_shift(p@))),
            forall|n: V3| v@.norm_sq() <= p@.plus(#[trigger] self@.translation(n)).norm_sq(),
            p@ == V3::zero() ==> v@ == V3::zero(),
            self@.is_orthorhombic() && self@.basis.a.x > 0 && self@.basis.b.y > 0
                && self@.basis.c.z > 0 ==> v@ == (V3 {
                x: centred_wrap(p@.x, self@.width(0)),
                y: centred_wrap(p@.y, self@.width(1)),
                z: centred_wrap(p@.z, self@.width(2)),
            }),
    {
        proof {
            use_type_invariant(self);
            law_mic_is_image(self@, p@);
            law_zero_displacement(self@, p@);
            if self@.is_orthorhombic() && self@.basis.a.x > 0 && self@.basis.b.y > 0
                && self@.basis.c.z > 0 {
                law_orthorhombic(self@, p@);
            }
            assert forall|n: V3|
                self@.apply_mic(p@).norm_sq() <= p@.plus(
                    #[trigger] self@.translation(n),
                ).norm_sq() by {
                law_minimum_image(self@, p@, n);
            }
        }
        self.mic_wide(&widen(&p)).0
    }

    /// The minimum image of `p` as `apply_mic` gives it, together with the
    /// periodic image that it is: the whole numbers of lattice vectors by
    /// which it differs from `p`.
    pub fn apply_mic_image(&self, p: Vector3) -> (r: (Vector3, Image))
        ensures
            r.0@ == self@.apply_mic(p@),
            r.1@ == self@.mic_shift(p@),
            r.0@ == p@.plus(self@.translation(r.1@)),
            forall|n: V3| r.0@.norm_sq() <= p@.plus(#[trigger] self@.translation(n)).norm_sq(),
    {
        proof {
            use_type_invariant(self);
            law_mic_is_image(self@, p@);
            assert forall|n: V3|
                self@.apply_mic(p@).norm_sq() <= p@.plus(
                    #[trigger] self@.translation(n),
                ).norm_sq() by {
                law_minimum_image(self@, p@, n);
            }
        }
        self.mic_wide(&widen(&p))
    }

    /// The distance between `pi` and the nearest periodic image of `pj`,
    /// rounded down to a whole number of grid units: the length of the
    /// minimum image of `pj - pi`. No periodic image of `pj` is nearer to
    /// `pi`; the distance is the same both ways, and zero from a point to
    /// itself.
    pub fn distance(&self, pi: Vector3, pj: Vector3) -> (r: u64)
        ensures
            r == self@.distance(pi@, pj@),
            forall|n: V3| r <= norm(pj@.plus(#[trigger] self@.translation(n)).minus(pi@)),
            r <= norm(pj@.minus(pi@)),
            r == self@.distance(pj@, pi@),
            pi@ == pj@ ==> r == 0,
    {
        proof {
            use_type_invariant(self);
            assert forall|n: V3|
                self@.distance(pi@, pj@) <= norm(
                    pj@.plus(#[trigger] self@.translation(n)).minus(pi@),
                ) by {
                law_distance_is_least(self@, pi@, pj@, n);
            }
            law_distance_is_least(self@, pi@, pj@, V3::zero());
            assert(self@.translation(V3::zero()) == V3::zero());
            law_distance_symmetric(self@, pi@, pj@);
            law_zero_displacement(self@, pi@);
        }
        let d = Wide3 {
            x: pj.x as i128 - pi.x as i128,
            y: pj.y as i128 - pi.y as i128,
            z: pj.z as i128 - pi.z as i128,
        };
        self.mic_wide(&d).0.norm()
    }

    /// The length of the estimate of the minimum image of `pj - pi`.
    pub fn distance_tuckerman(&self, pi: Vector3, pj: Vector3) -> (r: u64)
        ensures
            r == norm(self@.mic_estimate(pj@.minus(pi@))),
    {
        let d = Wide3 {
            x: pj.x as i128 - pi.x as i128,
            y: pj.y as i128 - pi.y as i128,
            z: pj.z as i128 - pi.z as i128,
        };
        self.estimate_wide(&d).0.norm()
    }

    /// The length of the minimum image of `pj - pi` that the exhaustive
    /// search finds.
    pub fn distance_brute_force(&self, pi: Vector3, pj: Vector3) -> (r: u64)
        ensures
            r == norm(self@.mic_search(pj@.minus(pi@))),
    {
        let d = Wide3 {
            x: pj.x as i128 - pi.x as i128,
            y: pj.y as i128 - pi.y as i128,
            z: pj.z as i128 - pi.z as i128,
        };
        self.search_wide(&d).0.norm()
    }
}

} // verus!
