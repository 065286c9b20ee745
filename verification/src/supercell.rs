//! Supercells: a set of points repeated over a range of periodic images.

use crate::algebra::V3;
use crate::arith::lemma_floor_div_is;
use crate::cell::Cell;
use crate::cell::product_images;
use crate::images::enumerate_images;
use crate::images::images_view;
use crate::images::indices_view;
use crate::images::lemma_product_split;
use crate::lattice::Lattice;
use crate::lattice::widen;
use crate::vector::Image;
use crate::vector::LatticeError;
use crate::vector::Vector3;
use crate::vector::on_grid;
use crate::wide::Wide3;
use crate::wide::apply_bounded;
use vstd::prelude::*;

verus! {

/// A list of grid vectors as the list of their models.
pub open spec fn points_view(points: Seq<Vector3>) -> Seq<V3> {
    Seq::new(points.len(), |i: int| points[i]@)
}

/// A list of image indices as a list of integers.
pub open spec fn range_view(range: Seq<i64>) -> Seq<int> {
    Seq::new(range.len(), |i: int| range[i] as int)
}

/// The indices of a range as wide integers.
pub(crate) fn widen_range(range: &Vec<i64>) -> (r: Vec<i128>)
    ensures
        indices_view(r@) == range_view(range@),
        forall|i: int|
            0 <= i < r@.len() ==> -0x8000_0000_0000_0000 <= #[trigger] r@[i]
                <= 0x8000_0000_0000_0000,
{
    let mut r: Vec<i128> = Vec::new();
    let mut i: usize = 0;
    while i < range.len()
        invariant
            0 <= i <= range@.len(),
            r@.len() == i,
            forall|j: int| 0 <= j < i ==> #[trigger] r@[j] == range@[j],
        decreases range@.len() - i,
    {
        r.push(range[i] as i128);
        i = i + 1;
    }
    assert(indices_view(r@) =~= range_view(range@));
    r
}

/// The place of a point of a supercell splits into the place of its image
/// and the place of the point it repeats.
pub proof fn lemma_replica_place(image: int, point: int, n_images: int, n_points: int)
    requires
        0 <= image < n_images,
        0 <= point < n_points,
    ensures
        0 <= image * n_points + point < n_images * n_points,
        (image * n_points + point) / n_points == image,
        (image * n_points + point) % n_points == point,
{
    assert(0 <= image * n_points && (image + 1) * n_points <= n_images * n_points)
        by (nonlinear_arith)
        requires
            0 <= image < n_images,
            0 < n_points,
    ;
    assert((image + 1) * n_points == image * n_points + n_points) by (nonlinear_arith);
    lemma_floor_div_is(image * n_points + point, n_points, image, point);
}

impl Lattice {
    /// A supercell: every point repeated in every image of the product of
    /// three ranges of image indices. The images come in lexicographic
    /// order, the first index changing slowest, and within each image the
    /// points in their own order; each is moved by the Cartesian position of
    /// the image. Where a repeated point would lie off the grid, the
    /// supercell is refused as `OutOfRange`.
    pub fn replicate(
        &self,
        points: &Vec<Vector3>,
        ra: &Vec<i64>,
        rb: &Vec<i64>,
        rc: &Vec<i64>,
    ) -> (r: Result<Vec<Vector3>, LatticeError>)
        ensures
            match r {
                Ok(cells) => points_view(cells@) == self@.replicated(
                    points_view(points@),
                    product_images(range_view(ra@), range_view(rb@), range_view(rc@)),
                ),
                Err(e) => e == LatticeError::OutOfRange && exists|i: int|
                    0 <= i < self@.replicated(
                        points_view(points@),
                        product_images(range_view(ra@), range_view(rb@), range_view(rc@)),
                    ).len() && !on_grid(
                        #[trigger] self@.replicated(
                            points_view(points@),
                            product_images(range_view(ra@), range_view(rb@), range_view(rc@)),
                        )[i],
                    ),
            },
    {
        proof {
            use_type_invariant(self);
            self.lemma_view();
        }
        let wa: Vec<i128> = widen_range(ra);
        let wb: Vec<i128> = widen_range(rb);
        let wc: Vec<i128> = widen_range(rc);
        let images: Vec<Image> = enumerate_images(&wa, &wb, &wc);
        let a: Wide3 = widen(&self.matrix.a);
        let b: Wide3 = widen(&self.matrix.b);
        let c: Wide3 = widen(&self.matrix.c);
        let ghost sa = range_view(ra@);
        let ghost sb = range_view(rb@);
        let ghost sc = range_view(rc@);
        let ghost imgs = product_images(sa, sb, sc);
        let ghost pts = points_view(points@);
        let ghost model = self@.replicated(pts, imgs);
        let ghost np = points@.len() as int;
        let mut cells: Vec<Vector3> = Vec::new();
        let mut i: usize = 0;
        proof {
            assert(0 * np == 0) by (nonlinear_arith);
        }
        while i < images.len()
            invariant
                0 <= i <= images@.len(),
                images_view(images@) == imgs,
                imgs == product_images(sa, sb, sc),
                sa == range_view(ra@),
                sb == range_view(rb@),
                sc == range_view(rc@),
                sa == indices_view(wa@),
                sb == indices_view(wb@),
                sc == indices_view(wc@),
                forall|j: int|
                    0 <= j < wa@.len() ==> -0x8000_0000_0000_0000 <= #[trigger] wa@[j]
                        <= 0x8000_0000_0000_0000,
                forall|j: int|
                    0 <= j < wb@.len() ==> -0x8000_0000_0000_0000 <= #[trigger] wb@[j]
                        <= 0x8000_0000_0000_0000,
                forall|j: int|
                    0 <= j < wc@.len() ==> -0x8000_0000_0000_0000 <= #[trigger] wc@[j]
                        <= 0x8000_0000_0000_0000,
                pts == points_view(points@),
                model == self@.replicated(pts, imgs),
                np == points@.len(),
                self@ == (Cell { basis: self.matrix@, origin: self.origin@ }),
                a@ == self@.basis.a,
                b@ == self@.basis.b,
                c@ == self@.basis.c,
                a@.within(0x4000_0000),
                b@.within(0x4000_0000),
                c@.within(0x4000_0000),
                cells@.len() == i * np,
                forall|j: int| 0 <= j < cells@.len() ==> #[trigger] cells@[j]@ == model[j],
            decreases images@.len() - i,
        {
            let n: Image = images[i];
            proof {
                assert(imgs[i as int] == n@);
                if wa@.len() > 0 && wb@.len() > 0 && wc@.len() > 0 {
                    lemma_product_split(
                        i as int,
                        wa@.len() as int,
                        wb@.len() as int,
                        wc@.len() as int,
                    );
                    let ia = (i as int) / (wb@.len() * wc@.len()) as int;
                    let ib = ((i as int) / wc@.len() as int) % wb@.len() as int;
                    let ic = (i as int) % wc@.len() as int;
                    assert(sa[ia] == wa@[ia]);
                    assert(sb[ib] == wb@[ib]);
                    assert(sc[ic] == wc@[ic]);
                } else {
                    assert(imgs.len() == 0) by (nonlinear_arith)
                        requires
                            imgs.len() == wa@.len() * wb@.len() * wc@.len(),
                            wa@.len() == 0 || wb@.len() == 0 || wc@.len() == 0,
                    ;
                }
            }
            let nw = Wide3 { x: n.na, y: n.nb, z: n.nc };
            let t: Wide3 = apply_bounded(
                &a,
                &b,
                &c,
                &nw,
                Ghost(0x4000_0000),
                Ghost(0x8000_0000_0000_0000),
            );
            let sx: i128 = t.x + self.origin.x as i128;
            let sy: i128 = t.y + self.origin.y as i128;
            let sz: i128 = t.z + self.origin.z as i128;
            let mut k: usize = 0;
            while k < points.len()
                invariant
                    0 <= k <= points@.len(),
                    0 <= i < images@.len(),
                    images@.len() == imgs.len(),
                    pts == points_view(points@),
                    imgs == product_images(range_view(ra@), range_view(rb@), range_view(rc@)),
                    model == self@.replicated(pts, imgs),
                    np == points@.len(),
                    (V3 { x: sx as int, y: sy as int, z: sz as int }) == self@.image_position(
                        imgs[i as int],
                    ),
                    -0x7000_0000_0000_0000_0000_0000_0000_0000 <= sx
                        <= 0x7000_0000_0000_0000_0000_0000_0000_0000,
                    -0x7000_0000_0000_0000_0000_0000_0000_0000 <= sy
                        <= 0x7000_0000_0000_0000_0000_0000_0000_0000,
                    -0x7000_0000_0000_0000_0000_0000_0000_0000 <= sz
                        <= 0x7000_0000_0000_0000_0000_0000_0000_0000,
                    cells@.len() == i * np + k,
                    forall|j: int| 0 <= j < cells@.len() ==> #[trigger] cells@[j]@ == model[j],
                decreases points@.len() - k,
            {
                let q: Vector3 = points[k];
                let x: i128 = q.x as i128 + sx;
                let y: i128 = q.y as i128 + sy;
                let z: i128 = q.z as i128 + sz;
                proof {
                    lemma_replica_place(i as int, k as int, imgs.len() as int, np);
                    assert(pts[k as int] == q@);
                    assert(model[i * np + k] == (V3 { x: x as int, y: y as int, z: z as int }));
                }
                if -0x8000_0000 <= x && x <= 0x7fff_ffff && -0x8000_0000 <= y && y <= 0x7fff_ffff
                    && -0x8000_0000 <= z && z <= 0x7fff_ffff {
                    cells.push(Vector3 { x: x as i32, y: y as i32, z: z as i32 });
                } else {
                    proof {
                        let full = self@.replicated(
                            points_view(points@),
                            product_images(range_view(ra@), range_view(rb@), range_view(rc@)),
                        );
                        assert(full == model);
                        assert(0 <= i * np + k < full.len());
                        assert(!on_grid(full[i * np + k]));
                    }
                    return Err(LatticeError::OutOfRange);
                }
                k = k + 1;
            }
            proof {
                assert(i * np + np == (i + 1) * np) by (nonlinear_arith);
            }
            i = i + 1;
        }
        proof {
            assert(points_view(cells@) =~= model);
        }
        Ok(cells)
    }
}

} // verus!
