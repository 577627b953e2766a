//! Piecewise-linear interpolation from control points.

use vstd::prelude::*;

verus! {

/// Value of the segment `(u0, w0)`–`(u1, w1)` at `u`: the distance from
/// `w0` scaled by `(u - u0) / (u1 - u0)`, rounded half up, toward `w1`.
pub open spec fn segment_value(u: int, u0: int, w0: int, u1: int, w1: int) -> int {
    let t = if u > u0 { u - u0 } else { 0 };
    let span = u1 - u0;
    let distance = if w1 >= w0 { w1 - w0 } else { w0 - w1 };
    let offset = (distance * t + span / 2) / span;
    if span == 0 {
        w0
    } else if w1 >= w0 {
        w0 + offset
    } else {
        w0 - offset
    }
}

/// Control points that [`build`] accepts for a table of `lut_size` entries:
/// at least two, starting at `u = 0`, ending at `u = lut_size - 1`, with
/// strictly increasing `u`.
pub open spec fn valid_points(points: Seq<[u16; 2]>, lut_size: int) -> bool {
    &&& points.len() >= 2
    &&& 1 <= lut_size <= 0x1_0000
    &&& points[0][0] == 0
    &&& points.last()[0] == lut_size - 1
    &&& forall|k: int| 0 <= k < points.len() - 1 ==> #[trigger] points[k][0] < points[k + 1][0]
}

/// `u` on segment `k`: `points[k].u <= u <= points[k + 1].u`.
pub open spec fn on_segment(points: Seq<[u16; 2]>, k: int, u: int) -> bool {
    0 <= k < points.len() - 1 && points[k][0] <= u <= points[k + 1][0]
}

/// Interpolated value of segment `k` at `u`.
pub open spec fn points_value(points: Seq<[u16; 2]>, k: int, u: int) -> int {
    segment_value(u, points[k][0] as int, points[k][1] as int, points[k + 1][0] as int, points[k + 1][1] as int)
}

/// A segment reproduces its endpoints exactly and stays between them.
proof fn lemma_segment_value_bounds(u: int, u0: int, w0: int, u1: int, w1: int)
    requires
        0 <= u0 < u1,
        u0 <= u <= u1,
        0 <= w0 <= 0xffff,
        0 <= w1 <= 0xffff,
    ensures
        segment_value(u0, u0, w0, u1, w1) == w0,
        segment_value(u1, u0, w0, u1, w1) == w1,
        w0 <= w1 ==> w0 <= segment_value(u, u0, w0, u1, w1) <= w1,
        w1 <= w0 ==> w1 <= segment_value(u, u0, w0, u1, w1) <= w0,
{
    let span = u1 - u0;
    let distance = if w1 >= w0 { w1 - w0 } else { w0 - w1 };
    let t = u - u0;
    assert(0 <= (distance * t + span / 2) / span <= distance) by (nonlinear_arith)
        requires
            span > 0,
            0 <= t <= span,
            distance >= 0,
    {
        assert(distance * t <= distance * span);
        assert(distance * t + span / 2 < (distance + 1) * span);
    }
    assert((distance * span + span / 2) / span == distance) by (nonlinear_arith)
        requires
            span > 0,
            distance >= 0,
    {
        assert(distance * span + span / 2 < (distance + 1) * span);
        assert(distance * span <= distance * span + span / 2);
    }
    assert((distance * 0 + span / 2) / span == 0) by (nonlinear_arith)
        requires
            span > 0,
    ;
}

/// Interpolate one control-point segment at `u` (rounding half up).
fn interpolate(u: u16, u0: u16, w0: u16, u1: u16, w1: u16) -> (w: u32)
    requires
        u0 < u1,
        u0 <= u <= u1,
    ensures
        w == segment_value(u as int, u0 as int, w0 as int, u1 as int, w1 as int),
{
    let t: u64 = if u > u0 { (u - u0) as u64 } else { 0 };
    let span: u64 = (u1 - u0) as u64;
    let distance: u64 = if w1 >= w0 { (w1 - w0) as u64 } else { (w0 - w1) as u64 };
    proof {
        lemma_segment_value_bounds(u as int, u0 as int, w0 as int, u1 as int, w1 as int);
        assert(distance * t <= 0xffff * 0xffff) by (nonlinear_arith)
            requires
                distance <= 0xffff,
                t <= 0xffff,
        ;
    }
    let offset = (distance * t + span / 2) / span;
    if w1 >= w0 {
        (w0 as u64 + offset) as u32
    } else {
        (w0 as u64 - offset) as u32
    }
}

/// Build a forward LUT by linearly interpolating between control points.
///
/// Every entry on segment `k` (between control points `k` and `k + 1`)
/// holds that segment's interpolated value; neighbouring segments agree at
/// their shared control point. The caller supplies valid points (see
/// [`valid_points`]); `name` labels the curve for callers' diagnostics.
pub fn build(name: &str, points: &[[u16; 2]], lut_size: usize) -> (fwd: Vec<u32>)
    requires
        valid_points(points@, lut_size as int),
    ensures
        fwd@.len() == lut_size,
        forall|k: int, u: int|
            #[trigger] on_segment(points@, k, u) ==> fwd@[u] as int == points_value(points@, k, u),
{
    let n = points.len();
    let mut fwd: Vec<u32> = Vec::new();
    while fwd.len() < lut_size
        invariant
            fwd@.len() <= lut_size,
        decreases lut_size - fwd.len(),
    {
        fwd.push(0);
    }
    let mut k: usize = 0;
    while k + 1 < n
        invariant
            n == points@.len(),
            valid_points(points@, lut_size as int),
            fwd@.len() == lut_size,
            k + 1 <= n,
            forall|j: int, u: int|
                0 <= j < k && #[trigger] on_segment(points@, j, u) ==> fwd@[u] as int
                    == points_value(points@, j, u),
        decreases n - k,
    {
        let u0 = points[k][0];
        let w0 = points[k][1];
        let u1 = points[k + 1][0];
        let w1 = points[k + 1][1];
        proof {
            lemma_points_below_end(points@, lut_size as int, (k + 1) as int);
        }
        let mut u: u32 = u0 as u32;
        while u <= u1 as u32
            invariant
                n == points@.len(),
                valid_points(points@, lut_size as int),
                fwd@.len() == lut_size,
                k + 1 < n,
                u0 == points@[k as int][0],
                w0 == points@[k as int][1],
                u1 == points@[k + 1][0],
                w1 == points@[k + 1][1],
                u0 < u1 < lut_size,
                u0 <= u <= u1 + 1,
                forall|j: int, v: int|
                    0 <= j < k && #[trigger] on_segment(points@, j, v) && v < u0 ==> fwd@[v] as int
                        == points_value(points@, j, v),
                forall|v: int| u0 <= v < u ==> #[trigger] fwd@[v] as int == points_value(points@, k as int, v),
            decreases u1 + 1 - u,
        {
            let w = interpolate(u as u16, u0, w0, u1, w1);
            fwd.set(u as usize, w);
            u = u + 1;
        }
        proof {
            lemma_segment_value_bounds(u0 as int, u0 as int, w0 as int, u1 as int, w1 as int);
            assert forall|j: int, v: int|
                0 <= j < k + 1 && #[trigger] on_segment(points@, j, v) implies fwd@[v] as int
                == points_value(points@, j, v) by {
                if j < k && v >= u0 {
                    // Only the previous segment reaches `u0`, where both give `w0`.
                    if j + 1 < k {
                        lemma_points_increasing(points@, lut_size as int, j + 1, k as int);
                    }
                    assert(j == k - 1);
                    assert(v == u0);
                    lemma_segment_value_bounds(
                        v,
                        points@[j][0] as int,
                        points@[j][1] as int,
                        points@[j + 1][0] as int,
                        points@[j + 1][1] as int,
                    );
                }
            }
        }
        k = k + 1;
    }
    fwd
}

/// Control points before the last lie strictly below `lut_size - 1`.
proof fn lemma_points_below_end(points: Seq<[u16; 2]>, lut_size: int, k: int)
    requires
        valid_points(points, lut_size),
        0 <= k < points.len(),
    ensures
        points[k][0] <= lut_size - 1,
        k < points.len() - 1 ==> points[k][0] < lut_size - 1,
    decreases points.len() - k,
{
    if k < points.len() - 1 {
        lemma_points_below_end(points, lut_size, k + 1);
        assert(points[k][0] < points[k + 1][0]);
    }
}

/// Control points are strictly increasing in `u` across any distance.
proof fn lemma_points_increasing(points: Seq<[u16; 2]>, lut_size: int, i: int, j: int)
    requires
        valid_points(points, lut_size),
        0 <= i < j < points.len(),
    ensures
        points[i][0] < points[j][0],
    decreases j - i,
{
    if j > i + 1 {
        lemma_points_increasing(points, lut_size, i, j - 1);
    }
    assert(points[j - 1][0] < points[j][0]);
}

} // verus!
