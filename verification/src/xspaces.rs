//! Stateless affine mapping between a source rectangle and a destination
//! rectangle, used to normalize simulation-space positions into the unit
//! square. Out-of-rectangle inputs are allowed and map linearly to
//! out-of-rectangle outputs; callers treat those as boundary diagnostics.

use vstd::prelude::*;
use crate::fx::{tdiv, mul_div_trunc, lemma_tdiv_exact, lemma_tdiv_bound};

verus! {

/// Largest coordinate magnitude (in millionths) the transform accepts; keeps
/// every intermediate product inside the range `mul_div_trunc` handles.
pub const COORD_LIM: i64 = 1_000_000_000;

/// A coordinate small enough for the transform's arithmetic.
pub open spec fn in_lim(v: i64) -> bool {
    -COORD_LIM <= v <= COORD_LIM
}

/// One axis of the affine map: the proportional position of `v` inside
/// `[s0, s1]`, carried into `[d0, d1]`, rounded toward zero.
pub open spec fn map_axis(v: int, s0: int, s1: int, d0: int, d1: int) -> int {
    d0 + tdiv((v - s0) * (d1 - d0), s1 - s0)
}

/// An immutable pair of rectangles: source (`s`) and destination (`d`), each
/// as min and max corners in fixed-point coordinates.
pub struct XSpaces {
    pub sx0: i64,
    pub sy0: i64,
    pub sx1: i64,
    pub sy1: i64,
    pub dx0: i64,
    pub dy0: i64,
    pub dx1: i64,
    pub dy1: i64,
}

impl XSpaces {
    /// Both rectangles have positive extent on both axes and all corners are
    /// within the arithmetic limit.
    pub open spec fn wf(&self) -> bool {
        &&& in_lim(self.sx0) && in_lim(self.sy0) && in_lim(self.sx1) && in_lim(self.sy1)
        &&& in_lim(self.dx0) && in_lim(self.dy0) && in_lim(self.dx1) && in_lim(self.dy1)
        &&& self.sx0 < self.sx1
        &&& self.sy0 < self.sy1
        &&& self.dx0 < self.dx1
        &&& self.dy0 < self.dy1
    }

    pub fn new(srect: ((i64, i64), (i64, i64)), drect: ((i64, i64), (i64, i64))) -> (r: XSpaces)
        requires
            in_lim(srect.0.0) && in_lim(srect.0.1) && in_lim(srect.1.0) && in_lim(srect.1.1),
            in_lim(drect.0.0) && in_lim(drect.0.1) && in_lim(drect.1.0) && in_lim(drect.1.1),
            srect.0.0 < srect.1.0,
            srect.0.1 < srect.1.1,
            drect.0.0 < drect.1.0,
            drect.0.1 < drect.1.1,
        ensures
            r.wf(),
            r.sx0 == srect.0.0 && r.sy0 == srect.0.1 && r.sx1 == srect.1.0 && r.sy1 == srect.1.1,
            r.dx0 == drect.0.0 && r.dy0 == drect.0.1 && r.dx1 == drect.1.0 && r.dy1 == drect.1.1,
    {
        XSpaces {
            sx0: srect.0.0,
            sy0: srect.0.1,
            sx1: srect.1.0,
            sy1: srect.1.1,
            dx0: drect.0.0,
            dy0: drect.0.1,
            dx1: drect.1.0,
            dy1: drect.1.1,
        }
    }

    /// Map a source-space x coordinate into destination space.
    pub fn d2ox(&self, x: i64) -> (r: i64)
        requires
            self.wf(),
            in_lim(x),
        ensures
            r == map_axis(x as int, self.sx0 as int, self.sx1 as int, self.dx0 as int,
                self.dx1 as int),
    {
        Self::axis(x, self.sx0, self.sx1, self.dx0, self.dx1)
    }

    /// Map a source-space y coordinate into destination space.
    pub fn d2oy(&self, y: i64) -> (r: i64)
        requires
            self.wf(),
            in_lim(y),
        ensures
            r == map_axis(y as int, self.sy0 as int, self.sy1 as int, self.dy0 as int,
                self.dy1 as int),
    {
        Self::axis(y, self.sy0, self.sy1, self.dy0, self.dy1)
    }

    /// Map a source-space point into destination space.
    pub fn d2o(&self, p: (i64, i64)) -> (r: (i64, i64))
        requires
            self.wf(),
            in_lim(p.0) && in_lim(p.1),
        ensures
            r.0 == map_axis(p.0 as int, self.sx0 as int, self.sx1 as int, self.dx0 as int,
                self.dx1 as int),
            r.1 == map_axis(p.1 as int, self.sy0 as int, self.sy1 as int, self.dy0 as int,
                self.dy1 as int),
    {
        (self.d2ox(p.0), self.d2oy(p.1))
    }

    /// Inverse of `d2ox`: map a destination-space x coordinate back into
    /// source space.
    pub fn o2dx(&self, x: i64) -> (r: i64)
        requires
            self.wf(),
            in_lim(x),
        ensures
            r == map_axis(x as int, self.dx0 as int, self.dx1 as int, self.sx0 as int,
                self.sx1 as int),
    {
        Self::axis(x, self.dx0, self.dx1, self.sx0, self.sx1)
    }

    /// Inverse of `d2oy`.
    pub fn o2dy(&self, y: i64) -> (r: i64)
        requires
            self.wf(),
            in_lim(y),
        ensures
            r == map_axis(y as int, self.dy0 as int, self.dy1 as int, self.sy0 as int,
                self.sy1 as int),
    {
        Self::axis(y, self.dy0, self.dy1, self.sy0, self.sy1)
    }

    /// Inverse of `d2o`.
    pub fn o2d(&self, p: (i64, i64)) -> (r: (i64, i64))
        requires
            self.wf(),
            in_lim(p.0) && in_lim(p.1),
        ensures
            r.0 == map_axis(p.0 as int, self.dx0 as int, self.dx1 as int, self.sx0 as int,
                self.sx1 as int),
            r.1 == map_axis(p.1 as int, self.dy0 as int, self.dy1 as int, self.sy0 as int,
                self.sy1 as int),
    {
        (self.o2dx(p.0), self.o2dy(p.1))
    }

    fn axis(v: i64, s0: i64, s1: i64, d0: i64, d1: i64) -> (r: i64)
        requires
            in_lim(v) && in_lim(s0) && in_lim(s1) && in_lim(d0) && in_lim(d1),
            s0 < s1,
        ensures
            r == map_axis(v as int, s0 as int, s1 as int, d0 as int, d1 as int),
    {
        proof {
            lemma_prod_bound(v as int - s0 as int, d1 as int - d0 as int);
            lemma_tdiv_bound((v as int - s0 as int) * (d1 as int - d0 as int),
                s1 as int - s0 as int);
        }
        let q = mul_div_trunc(v - s0, d1 - d0, s1 - s0);
        d0 + q
    }
}

/// Both factors of an axis product stay within twice the coordinate limit, so
/// the product stays well inside `i64` range.
proof fn lemma_prod_bound(a: int, b: int)
    requires
        -2 * COORD_LIM as int <= a <= 2 * COORD_LIM as int,
        -2 * COORD_LIM as int <= b <= 2 * COORD_LIM as int,
    ensures
        -4_000_000_000_000_000_000 <= a * b <= 4_000_000_000_000_000_000,
{
    assert(-4_000_000_000_000_000_000 <= a * b <= 4_000_000_000_000_000_000)
        by (nonlinear_arith)
        requires
            -2_000_000_000 <= a <= 2_000_000_000,
            -2_000_000_000 <= b <= 2_000_000_000,
    ;
}

/// The transform is exact at the rectangle corners: the source minimum maps
/// to the destination minimum and the source maximum to the destination
/// maximum, on each axis.
pub proof fn lemma_axis_corners(s0: int, s1: int, d0: int, d1: int)
    requires
        s0 < s1,
    ensures
        map_axis(s0, s0, s1, d0, d1) == d0,
        map_axis(s1, s0, s1, d0, d1) == d1,
{
    assert(0int * (d1 - d0) == 0) by (nonlinear_arith);
    assert(map_axis(s0, s0, s1, d0, d1) == d0);
    lemma_tdiv_exact(d1 - d0, s1 - s0);
    assert((s1 - s0) * (d1 - d0) == (d1 - d0) * (s1 - s0)) by (nonlinear_arith);
}

/// Transforming a point and transforming it back recovers it to within the
/// quantization of the map: the error is at most one destination step plus
/// one, in source units. At the corners the recovery is exact
/// (`lemma_axis_corners`).
pub proof fn lemma_axis_round_trip(v: int, s0: int, s1: int, d0: int, d1: int)
    requires
        s0 < s1,
        d0 < d1,
    ensures
        ({
            let w = map_axis(map_axis(v, s0, s1, d0, d1), d0, d1, s0, s1);
            let q = (s1 - s0) / (d1 - d0);
            v - q - 1 <= w <= v + q + 1
        }),
{
    let ws = s1 - s0;
    let wd = d1 - d0;
    let a = v - s0;
    let q1 = tdiv(a * wd, ws);
    let t = tdiv(q1 * ws, wd);
    crate::fx::lemma_tdiv_mul_close(a * wd, ws);
    crate::fx::lemma_tdiv_mul_close(q1 * ws, wd);
    assert((t - a) * wd == t * wd - a * wd) by (nonlinear_arith);
    vstd::arithmetic::div_mod::lemma_fundamental_div_mod(ws, wd);
    vstd::arithmetic::div_mod::lemma_mod_bound(ws, wd);
    let m = ws % wd;
    assert(t - a <= ws / wd + 1 && a - t <= ws / wd + 1) by (nonlinear_arith)
        requires
            (t - a) * wd < ws + wd,
            -(ws + wd) < (t - a) * wd,
            ws == wd * (ws / wd) + m,
            0 <= m < wd,
            wd > 0,
    ;
    assert(map_axis(v, s0, s1, d0, d1) - d0 == q1);
    assert(map_axis(map_axis(v, s0, s1, d0, d1), d0, d1, s0, s1) == s0 + t);
}

/// Corner exactness for a whole transform: each of the four corners of the
/// source rectangle maps to the corresponding destination corner, and mapping
/// a destination corner back recovers the source corner.
pub proof fn lemma_transform_corners(xs: XSpaces)
    requires
        xs.wf(),
    ensures
        map_axis(xs.sx0 as int, xs.sx0 as int, xs.sx1 as int, xs.dx0 as int, xs.dx1 as int)
            == xs.dx0 as int,
        map_axis(xs.sx1 as int, xs.sx0 as int, xs.sx1 as int, xs.dx0 as int, xs.dx1 as int)
            == xs.dx1 as int,
        map_axis(xs.sy0 as int, xs.sy0 as int, xs.sy1 as int, xs.dy0 as int, xs.dy1 as int)
            == xs.dy0 as int,
        map_axis(xs.sy1 as int, xs.sy0 as int, xs.sy1 as int, xs.dy0 as int, xs.dy1 as int)
            == xs.dy1 as int,
        map_axis(xs.dx0 as int, xs.dx0 as int, xs.dx1 as int, xs.sx0 as int, xs.sx1 as int)
            == xs.sx0 as int,
        map_axis(xs.dx1 as int, xs.dx0 as int, xs.dx1 as int, xs.sx0 as int, xs.sx1 as int)
            == xs.sx1 as int,
        map_axis(xs.dy0 as int, xs.dy0 as int, xs.dy1 as int, xs.sy0 as int, xs.sy1 as int)
            == xs.sy0 as int,
        map_axis(xs.dy1 as int, xs.dy0 as int, xs.dy1 as int, xs.sy0 as int, xs.sy1 as int)
            == xs.sy1 as int,
{
    lemma_axis_corners(xs.sx0 as int, xs.sx1 as int, xs.dx0 as int, xs.dx1 as int);
    lemma_axis_corners(xs.sy0 as int, xs.sy1 as int, xs.dy0 as int, xs.dy1 as int);
    lemma_axis_corners(xs.dx0 as int, xs.dx1 as int, xs.sx0 as int, xs.sx1 as int);
    lemma_axis_corners(xs.dy0 as int, xs.dy1 as int, xs.sy0 as int, xs.sy1 as int);
}

} // verus!
