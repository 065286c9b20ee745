//! Enumeration of periodic images.

use crate::algebra::V3;
use crate::arith::lemma_floor_div_is;
use crate::cell::box_images;
use crate::cell::product_images;
use crate::cell::symmetric_range;
use crate::vector::Image;
use vstd::arithmetic::div_mod::lemma_fundamental_div_mod;
use vstd::prelude::*;

verus! {

/// Largest half-extent of a box of images that can be enumerated.
pub const RANGE_MAX: u128 = 0x4000_0000_0000_0000_0000_0000_0000_0000;

/// A list of images as the list of their models.
pub open spec fn images_view(images: Seq<Image>) -> Seq<V3> {
    Seq::new(images.len(), |i: int| images[i]@)
}

/// A list of indices as a list of integers.
pub open spec fn indices_view(indices: Seq<i128>) -> Seq<int> {
    Seq::new(indices.len(), |i: int| indices[i] as int)
}

/// The place of the triple `(ia, ib, ic)` in a product of lists of lengths
/// `la`, `lb` and `lc`.
pub open spec fn product_place(ia: int, ib: int, ic: int, lb: int, lc: int) -> int {
    (ia * lb + ib) * lc + ic
}

/// The place of a triple is within the product, and is taken apart again by
/// division.
pub proof fn lemma_product_place(ia: int, ib: int, ic: int, la: int, lb: int, lc: int)
    requires
        0 <= ia < la,
        0 <= ib < lb,
        0 <= ic < lc,
    ensures
        0 <= product_place(ia, ib, ic, lb, lc) < la * lb * lc,
        product_place(ia, ib, ic, lb, lc) / (lb * lc) == ia,
        (product_place(ia, ib, ic, lb, lc) / lc) % lb == ib,
        product_place(ia, ib, ic, lb, lc) % lc == ic,
{
    let i = product_place(ia, ib, ic, lb, lc);
    let row = ia * lb + ib;
    assert(0 <= row && row + 1 <= la * lb) by (nonlinear_arith)
        requires
            row == ia * lb + ib,
            0 <= ia < la,
            0 <= ib < lb,
    ;
    assert(0 <= row * lc && (row + 1) * lc <= (la * lb) * lc) by (nonlinear_arith)
        requires
            0 <= row,
            row + 1 <= la * lb,
            0 < lc,
    ;
    assert((row + 1) * lc == row * lc + lc) by (nonlinear_arith);
    lemma_floor_div_is(i, lc, row, ic);
    lemma_floor_div_is(row, lb, ia, ib);
    let rest = ib * lc + ic;
    assert(0 <= rest && rest + 1 <= lb * lc) by (nonlinear_arith)
        requires
            rest == ib * lc + ic,
            0 <= ib < lb,
            0 <= ic < lc,
    ;
    assert(i == ia * (lb * lc) + rest) by (nonlinear_arith)
        requires
            i == (ia * lb + ib) * lc + ic,
            rest == ib * lc + ic,
    ;
    lemma_floor_div_is(i, lb * lc, ia, rest);
}

/// A place in a product splits into three indices, each within its list.
pub proof fn lemma_product_split(i: int, la: int, lb: int, lc: int)
    requires
        0 <= i < la * lb * lc,
        0 < la,
        0 < lb,
        0 < lc,
    ensures
        0 <= i / (lb * lc) < la,
        0 <= (i / lc) % lb < lb,
        0 <= i % lc < lc,
        i == product_place(i / (lb * lc), (i / lc) % lb, i % lc, lb, lc),
{
    let row = i / lc;
    let ic = i % lc;
    lemma_fundamental_div_mod(i, lc);
    let ia = row / lb;
    let ib = row % lb;
    lemma_fundamental_div_mod(row, lb);
    assert(0 <= row) by (nonlinear_arith)
        requires
            i == lc * row + ic,
            0 <= i,
            0 <= ic < lc,
    ;
    assert(0 <= ia) by (nonlinear_arith)
        requires
            row == lb * ia + ib,
            0 <= row,
            0 <= ib < lb,
    ;
    assert(ia < la) by (nonlinear_arith)
        requires
            i == lc * row + ic,
            row == lb * ia + ib,
            0 <= ic,
            0 <= ib,
            0 < lc,
            0 < lb,
            i < la * lb * lc,
    ;
    assert(i == product_place(ia, ib, ic, lb, lc)) by (nonlinear_arith)
        requires
            i == lc * row + ic,
            row == lb * ia + ib,
    ;
    lemma_product_place(ia, ib, ic, la, lb, lc);
}

/// The product of three lists holds, at the place of each triple of
/// indices, the three entries.
pub proof fn lemma_product_at(ra: Seq<int>, rb: Seq<int>, rc: Seq<int>, ia: int, ib: int, ic: int)
    requires
        0 <= ia < ra.len(),
        0 <= ib < rb.len(),
        0 <= ic < rc.len(),
    ensures
        0 <= product_place(ia, ib, ic, rb.len() as int, rc.len() as int) < product_images(
            ra,
            rb,
            rc,
        ).len(),
        product_images(ra, rb, rc)[product_place(ia, ib, ic, rb.len() as int, rc.len() as int)]
            == (V3 { x: ra[ia], y: rb[ib], z: rc[ic] }),
{
    lemma_product_place(ia, ib, ic, ra.len() as int, rb.len() as int, rc.len() as int);
}

/// Every image of a box is within the box, and the box holds every image
/// within it.
pub proof fn lemma_box_member(na: int, nb: int, nc: int, i: int)
    requires
        0 <= na,
        0 <= nb,
        0 <= nc,
        0 <= i < box_images(na, nb, nc).len(),
    ensures
        -na <= box_images(na, nb, nc)[i].x <= na,
        -nb <= box_images(na, nb, nc)[i].y <= nb,
        -nc <= box_images(na, nb, nc)[i].z <= nc,
{
    lemma_product_split(i, 2 * na + 1, 2 * nb + 1, 2 * nc + 1);
}

/// The place in a box of an image within it.
pub open spec fn box_place(na: int, nb: int, nc: int, n: V3) -> int {
    product_place(n.x + na, n.y + nb, n.z + nc, 2 * nb + 1, 2 * nc + 1)
}

/// A box holds every image within it, at its place.
pub proof fn lemma_box_holds(na: int, nb: int, nc: int, n: V3)
    requires
        -na <= n.x <= na,
        -nb <= n.y <= nb,
        -nc <= n.z <= nc,
    ensures
        0 <= box_place(na, nb, nc, n) < box_images(na, nb, nc).len(),
        box_images(na, nb, nc)[box_place(na, nb, nc, n)] == n,
{
    lemma_product_at(
        symmetric_range(na),
        symmetric_range(nb),
        symmetric_range(nc),
        n.x + na,
        n.y + nb,
        n.z + nc,
    );
}

/// The whole numbers from `-n` to `n`, in rising order.
pub(crate) fn symmetric_indices(n: u128) -> (r: Vec<i128>)
    requires
        n <= RANGE_MAX,
    ensures
        indices_view(r@) == symmetric_range(n as int),
{
    let mut r: Vec<i128> = Vec::new();
    let top: i128 = n as i128;
    let mut x: i128 = -top;
    while x <= top
        invariant
            top == n,
            n <= RANGE_MAX,
            -top <= x <= top + 1,
            r@.len() == x + top,
            forall|i: int| 0 <= i < r@.len() ==> r@[i] == i - top,
        decreases top + 1 - x,
    {
        r.push(x);
        x = x + 1;
    }
    assert(indices_view(r@) =~= symmetric_range(n as int));
    r
}

/// The product of three lists of indices: every triple with one index from
/// each, in lexicographic order, the first index changing slowest.
pub fn enumerate_images(ra: &Vec<i128>, rb: &Vec<i128>, rc: &Vec<i128>) -> (r: Vec<Image>)
    ensures
        images_view(r@) == product_images(indices_view(ra@), indices_view(rb@), indices_view(rc@)),
{
    let mut r: Vec<Image> = Vec::new();
    let ghost sa = indices_view(ra@);
    let ghost sb = indices_view(rb@);
    let ghost sc = indices_view(rc@);
    let ghost lb = rb@.len() as int;
    let ghost lc = rc@.len() as int;
    let mut ia: usize = 0;
    proof {
        assert((0 * lb) * lc == 0) by (nonlinear_arith);
    }
    while ia < ra.len()
        invariant
            0 <= ia <= ra@.len(),
            sa == indices_view(ra@),
            sb == indices_view(rb@),
            sc == indices_view(rc@),
            lb == rb@.len(),
            lc == rc@.len(),
            r@.len() == (ia * lb) * lc,
            forall|i: int| 0 <= i < r@.len() ==> r@[i]@ == product_images(sa, sb, sc)[i],
        decreases ra@.len() - ia,
    {
        let mut ib: usize = 0;
        while ib < rb.len()
            invariant
                0 <= ia < ra@.len(),
                0 <= ib <= rb@.len(),
                sa == indices_view(ra@),
                sb == indices_view(rb@),
                sc == indices_view(rc@),
                lb == rb@.len(),
                lc == rc@.len(),
                r@.len() == (ia * lb + ib) * lc,
                forall|i: int| 0 <= i < r@.len() ==> r@[i]@ == product_images(sa, sb, sc)[i],
            decreases rb@.len() - ib,
        {
            let mut ic: usize = 0;
            while ic < rc.len()
                invariant
                    0 <= ia < ra@.len(),
                    0 <= ib < rb@.len(),
                    0 <= ic <= rc@.len(),
                    sa == indices_view(ra@),
                    sb == indices_view(rb@),
                    sc == indices_view(rc@),
                    lb == rb@.len(),
                    lc == rc@.len(),
                    r@.len() == product_place(ia as int, ib as int, ic as int, lb, lc),
                    forall|i: int| 0 <= i < r@.len() ==> r@[i]@ == product_images(sa, sb, sc)[i],
                decreases rc@.len() - ic,
            {
                proof {
                    lemma_product_at(sa, sb, sc, ia as int, ib as int, ic as int);
                }
                r.push(Image { na: ra[ia], nb: rb[ib], nc: rc[ic] });
                ic = ic + 1;
            }
            proof {
                assert((ia * lb + ib) * lc + lc == (ia * lb + (ib + 1)) * lc) by (nonlinear_arith);
            }
            ib = ib + 1;
        }
        proof {
            assert((ia * lb + lb) * lc == ((ia + 1) * lb) * lc) by (nonlinear_arith);
        }
        ia = ia + 1;
    }
    proof {
        assert(r@.len() == (ra@.len() * lb) * lc);
        assert((ra@.len() * lb) * lc == ra@.len() * rb@.len() * rc@.len());
        assert(images_view(r@) =~= product_images(sa, sb, sc));
    }
    r
}

/// The images of the box `[-na, na] x [-nb, nb] x [-nc, nc]` in
/// lexicographic order.
pub(crate) fn enumerate_box(na: u128, nb: u128, nc: u128) -> (r: Vec<Image>)
    requires
        na <= RANGE_MAX,
        nb <= RANGE_MAX,
        nc <= RANGE_MAX,
    ensures
        images_view(r@) == box_images(na as int, nb as int, nc as int),
{
    let ra = symmetric_indices(na);
    let rb = symmetric_indices(nb);
    let rc = symmetric_indices(nc);
    enumerate_images(&ra, &rb, &rc)
}

} // verus!
