//! Arithmetic on wide integers with the bounds that rule out overflow.

use crate::algebra::M3;
use crate::algebra::V3;
use crate::products::lemma_mul_bound;
use vstd::prelude::*;

verus! {

/// A vector of three wide integers, for intermediate results.
#[derive(Clone, Copy)]
pub struct Wide3 {
    pub x: i128,
    pub y: i128,
    pub z: i128,
}

impl View for Wide3 {
    type V = V3;

    open spec fn view(&self) -> V3 {
        V3 { x: self.x as int, y: self.y as int, z: self.z as int }
    }
}

/// The product of two bounded integers.
pub(crate) fn mul_bounded(x: i128, y: i128, Ghost(bx): Ghost<int>, Ghost(by): Ghost<int>) -> (r:
    i128)
    requires
        -bx <= x <= bx,
        -by <= y <= by,
        bx * by <= i128::MAX,
    ensures
        r == x * y,
        -(bx * by) <= r <= bx * by,
{
    proof {
        lemma_mul_bound(x as int, bx, y as int, by);
    }
    x * y
}

/// The scalar product of two bounded vectors.
pub(crate) fn dot_bounded(
    a: &Wide3,
    b: &Wide3,
    Ghost(ba): Ghost<int>,
    Ghost(bb): Ghost<int>,
) -> (r: i128)
    requires
        a@.within(ba),
        b@.within(bb),
        3 * (ba * bb) <= i128::MAX,
    ensures
        r == a@.dot(b@),
        -(3 * (ba * bb)) <= r <= 3 * (ba * bb),
{
    assert(ba >= 0 && bb >= 0);
    assert(ba * bb >= 0) by (nonlinear_arith)
        requires
            ba >= 0,
            bb >= 0,
    ;
    let p: i128 = mul_bounded(a.x, b.x, Ghost(ba), Ghost(bb));
    let q: i128 = mul_bounded(a.y, b.y, Ghost(ba), Ghost(bb));
    let r: i128 = mul_bounded(a.z, b.z, Ghost(ba), Ghost(bb));
    p + q + r
}

/// The vector product of two bounded vectors.
pub(crate) fn cross_bounded(
    a: &Wide3,
    b: &Wide3,
    Ghost(ba): Ghost<int>,
    Ghost(bb): Ghost<int>,
) -> (r: Wide3)
    requires
        a@.within(ba),
        b@.within(bb),
        2 * (ba * bb) <= i128::MAX,
    ensures
        r@ == a@.cross(b@),
        r@.within(2 * (ba * bb)),
{
    assert(ba >= 0 && bb >= 0);
    assert(ba * bb >= 0) by (nonlinear_arith)
        requires
            ba >= 0,
            bb >= 0,
    ;
    let yz: i128 = mul_bounded(a.y, b.z, Ghost(ba), Ghost(bb));
    let zy: i128 = mul_bounded(a.z, b.y, Ghost(ba), Ghost(bb));
    let zx: i128 = mul_bounded(a.z, b.x, Ghost(ba), Ghost(bb));
    let xz: i128 = mul_bounded(a.x, b.z, Ghost(ba), Ghost(bb));
    let xy: i128 = mul_bounded(a.x, b.y, Ghost(ba), Ghost(bb));
    let yx: i128 = mul_bounded(a.y, b.x, Ghost(ba), Ghost(bb));
    Wide3 { x: yz - zy, y: zx - xz, z: xy - yx }
}

/// A matrix, given by its columns, applied to a bounded vector.
pub(crate) fn apply_bounded(
    a: &Wide3,
    b: &Wide3,
    c: &Wide3,
    v: &Wide3,
    Ghost(bm): Ghost<int>,
    Ghost(bv): Ghost<int>,
) -> (r: Wide3)
    requires
        a@.within(bm),
        b@.within(bm),
        c@.within(bm),
        v@.within(bv),
        3 * (bm * bv) <= i128::MAX,
    ensures
        r@ == (M3 { a: a@, b: b@, c: c@ }).apply(v@),
        r@.within(3 * (bm * bv)),
{
    assert(bm >= 0 && bv >= 0);
    assert(bm * bv >= 0) by (nonlinear_arith)
        requires
            bm >= 0,
            bv >= 0,
    ;
    let xx: i128 = mul_bounded(a.x, v.x, Ghost(bm), Ghost(bv));
    let xy: i128 = mul_bounded(b.x, v.y, Ghost(bm), Ghost(bv));
    let xz: i128 = mul_bounded(c.x, v.z, Ghost(bm), Ghost(bv));
    let yx: i128 = mul_bounded(a.y, v.x, Ghost(bm), Ghost(bv));
    let yy: i128 = mul_bounded(b.y, v.y, Ghost(bm), Ghost(bv));
    let yz: i128 = mul_bounded(c.y, v.z, Ghost(bm), Ghost(bv));
    let zx: i128 = mul_bounded(a.z, v.x, Ghost(bm), Ghost(bv));
    let zy: i128 = mul_bounded(b.z, v.y, Ghost(bm), Ghost(bv));
    let zz: i128 = mul_bounded(c.z, v.z, Ghost(bm), Ghost(bv));
    Wide3 { x: xx + xy + xz, y: yx + yy + yz, z: zx + zy + zz }
}

} // verus!
