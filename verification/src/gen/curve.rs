//! Curve definitions, validation and inversion.
//!
//! A curve is defined by exactly one of a builtin easing, a formula, or
//! control points. Builtin and formula easings are sampled in floating point
//! by the host tool; [`build`] takes that sampled table, or interpolates the
//! control points itself, then validates the table and inverts it.

use vstd::prelude::*;

use super::points::{build as build_points, on_segment, points_value, valid_points};
use super::text::{decimal, join3};

verus! {

/// One normalized curve definition from the `[curves]` map.
#[derive(Debug, Clone)]
pub struct CurveDef {
    /// Name of a built-in curve (e.g. "linear", "ease_in_quad").
    pub builtin: Option<String>,
    /// A math expression in terms of `t` (0..1) that evaluates to 0..1.
    pub formula: Option<String>,
    /// Piecewise-linear control points as `[u, w]` pairs.
    pub points: Option<Vec<[u16; 2]>>,
    /// Whether the curve is monotonic non-decreasing (default: true).
    pub monotonic: bool,
}

/// A curve definition document: every curve by name, in name order.
#[derive(Debug, Clone)]
pub struct CurvesFile {
    /// Curve definitions keyed by table name.
    pub curves: Vec<(String, CurveDef)>,
}

/// Default for [`CurveDef::monotonic`].
pub fn default_true() -> (b: bool)
    ensures
        b,
{
    true
}

/// A built curve: forward table and, for monotonic curves, its inverse.
#[derive(Debug)]
pub struct CurveData {
    /// Forward lookup table.
    pub fwd: Vec<u32>,
    /// Inverse lookup table, present for monotonic curves.
    pub inv: Option<Vec<u32>>,
}

/// `fwd` never decreases.
pub open spec fn non_decreasing(fwd: Seq<u32>) -> bool {
    forall|i: int, j: int| 0 <= i <= j < fwd.len() ==> fwd[i] <= fwd[j]
}

/// What [`validate`] accepts: the table maps `0 → 0` and `max → max`
/// (`max = len - 1`), and never decreases when `monotonic` is requested.
pub open spec fn lut_valid(fwd: Seq<u32>, monotonic: bool) -> bool {
    &&& fwd[0] == 0
    &&& fwd.last() == fwd.len() - 1
    &&& monotonic ==> non_decreasing(fwd)
}

/// Check that a forward table pins its endpoints and, when `monotonic`,
/// never decreases. The error text names the curve and the first offending
/// entry.
pub fn validate(name: &str, fwd: &[u32], monotonic: bool) -> (r: Result<(), String>)
    requires
        1 <= fwd@.len() <= 0x1_0000_0000,
    ensures
        r is Ok <==> lut_valid(fwd@, monotonic),
{
    let n = fwd.len();
    let max = (n - 1) as u64;
    if fwd[0] != 0 || fwd[n - 1] as u64 != max {
        let mut msg = join3("curve `", name, "` must map 0\u{2192}0 and ");
        let m = decimal(max);
        msg.append(m.as_str());
        msg.append("\u{2192}");
        msg.append(m.as_str());
        return Err(msg);
    }
    if monotonic {
        let mut i: usize = 1;
        while i < n
            invariant
                n == fwd@.len(),
                monotonic,
                1 <= i <= n,
                forall|a: int, b: int| 0 <= a <= b < i ==> fwd@[a] <= fwd@[b],
            decreases n - i,
        {
            if fwd[i] < fwd[i - 1] {
                proof {
                    let a = i - 1;
                    let b = i as int;
                    assert(!non_decreasing(fwd@)) by {
                        if non_decreasing(fwd@) {
                            assert(0 <= a <= b < fwd@.len());
                            assert(fwd@[a] <= fwd@[b]);
                        }
                    }
                }
                let mut msg = join3("curve `", name, "` must be monotonic non-decreasing (fwd[");
                msg.append(decimal(i as u64).as_str());
                msg.append("]=");
                msg.append(decimal(fwd[i] as u64).as_str());
                msg.append(" < fwd[");
                msg.append(decimal((i - 1) as u64).as_str());
                msg.append("]=");
                msg.append(decimal(fwd[i - 1] as u64).as_str());
                msg.append(")");
                return Err(msg);
            }
            i = i + 1;
        }
    }
    Ok(())
}

/// First index at or after `start` whose entry reaches `w` (or `len`).
pub open spec fn scan_up(fwd: Seq<u32>, w: int, start: int) -> int
    decreases fwd.len() - start,
{
    if start < 0 || start >= fwd.len() || fwd[start] >= w {
        start
    } else {
        scan_up(fwd, w, start + 1)
    }
}

/// Position of the inversion cursor after entry `w`: the cursor only moves
/// forward, stopping at the first entry that reaches each target in turn.
pub open spec fn inverse_cursor(fwd: Seq<u32>, w: nat) -> int
    decreases w,
{
    if w == 0 {
        scan_up(fwd, 0, 0)
    } else {
        scan_up(fwd, w as int, inverse_cursor(fwd, (w - 1) as nat))
    }
}

/// Entry `w` of the inverse table: the cursor, or `len - 1` once the cursor
/// ran off the end.
pub open spec fn inverse_entry(fwd: Seq<u32>, w: nat) -> int {
    let c = inverse_cursor(fwd, w);
    if c >= fwd.len() {
        fwd.len() - 1
    } else {
        c
    }
}

proof fn lemma_scan_up_bounds(fwd: Seq<u32>, w: int, start: int)
    requires
        0 <= start <= fwd.len(),
    ensures
        start <= scan_up(fwd, w, start) <= fwd.len(),
        scan_up(fwd, w, start) < fwd.len() ==> fwd[scan_up(fwd, w, start)] >= w,
        forall|u: int| start <= u < scan_up(fwd, w, start) ==> fwd[u] < w,
    decreases fwd.len() - start,
{
    if start < fwd.len() && fwd[start] < w {
        lemma_scan_up_bounds(fwd, w, start + 1);
    }
}

proof fn lemma_inverse_cursor_bounds(fwd: Seq<u32>, w: nat)
    ensures
        0 <= inverse_cursor(fwd, w) <= fwd.len(),
        w > 0 ==> inverse_cursor(fwd, (w - 1) as nat) <= inverse_cursor(fwd, w),
    decreases w,
{
    if w == 0 {
        lemma_scan_up_bounds(fwd, 0, 0);
    } else {
        lemma_inverse_cursor_bounds(fwd, (w - 1) as nat);
        lemma_scan_up_bounds(fwd, w as int, inverse_cursor(fwd, (w - 1) as nat));
    }
}

/// Build the inverse table: entry `w` is where the forward table first
/// reaches `w`, scanning forward from the previous entry's position.
pub fn invert(fwd: &[u32]) -> (inv: Vec<u32>)
    requires
        1 <= fwd@.len() <= 0x1_0000_0000,
    ensures
        inv@.len() == fwd@.len(),
        forall|w: int| 0 <= w < fwd@.len() ==> #[trigger] inv@[w] as int == inverse_entry(fwd@, w as nat),
{
    let n = fwd.len();
    let max = (n - 1) as u32;
    let mut inv: Vec<u32> = Vec::new();
    let mut u: usize = 0;
    let mut w: usize = 0;
    while w < n
        invariant
            n == fwd@.len(),
            1 <= n <= 0x1_0000_0000,
            max == n - 1,
            w <= n,
            inv@.len() == w,
            u <= n,
            w == 0 ==> u == 0,
            w > 0 ==> u == inverse_cursor(fwd@, (w - 1) as nat),
            forall|x: int| 0 <= x < w ==> #[trigger] inv@[x] as int == inverse_entry(fwd@, x as nat),
        decreases n - w,
    {
        let ghost start = u as int;
        proof {
            if w > 0 {
                lemma_inverse_cursor_bounds(fwd@, (w - 1) as nat);
            }
        }
        while u < n && (fwd[u] as u64) < (w as u64)
            invariant
                n == fwd@.len(),
                0 <= start <= u <= n,
                scan_up(fwd@, w as int, u as int) == scan_up(fwd@, w as int, start),
            decreases n - u,
        {
            u = u + 1;
        }
        proof {
            assert(scan_up(fwd@, w as int, u as int) == u);
            assert(u == inverse_cursor(fwd@, w as nat));
        }
        inv.push(if u >= n { max } else { u as u32 });
        w = w + 1;
    }
    inv
}

/// For a non-decreasing table every inverse entry is the first index that
/// reaches it, or the last index when none does: `fwd[inv[w]] >= w` and
/// every earlier entry is below `w`.
pub proof fn lemma_invert_monotone(fwd: Seq<u32>, w: nat)
    requires
        fwd.len() >= 1,
        non_decreasing(fwd),
        w < fwd.len(),
    ensures
        (exists|u: int| 0 <= u < fwd.len() && fwd[u] >= w) ==> fwd[inverse_entry(fwd, w)] >= w
            && forall|u: int| 0 <= u < inverse_entry(fwd, w) ==> fwd[u] < w,
        !(exists|u: int| 0 <= u < fwd.len() && fwd[u] >= w) ==> inverse_entry(fwd, w) == fwd.len()
            - 1,
{
    lemma_cursor_is_first(fwd, w);
    let c = inverse_cursor(fwd, w);
    if exists|u: int| 0 <= u < fwd.len() && fwd[u] >= w {
        let u = choose|u: int| 0 <= u < fwd.len() && fwd[u] >= w;
        assert(c <= u);
    }
}

/// Inverting a valid monotonic table and looking up a forward value gives
/// the first input with that value: never after the input it came from,
/// and mapping forward to the same value.
pub proof fn lemma_invert_round_trip(fwd: Seq<u32>, u: int)
    requires
        lut_valid(fwd, true),
        0 <= u < fwd.len(),
    ensures
        fwd[u] < fwd.len(),
        inverse_entry(fwd, fwd[u] as nat) <= u,
        fwd[inverse_entry(fwd, fwd[u] as nat)] == fwd[u],
{
    let n = fwd.len();
    assert(fwd[u] <= fwd[n - 1]);
    let w = fwd[u] as nat;
    lemma_invert_monotone(fwd, w);
    lemma_inverse_cursor_bounds(fwd, w);
    let e = inverse_entry(fwd, w);
    assert(exists|v: int| 0 <= v < n && fwd[v] >= w) by {
        assert(fwd[u] >= w);
    }
    if e > u {
        assert(fwd[u] < w);
    }
    assert(fwd[e] <= fwd[u]);
}

/// The cursor for `w` is the first index whose entry reaches `w`, when the
/// table never decreases.
proof fn lemma_cursor_is_first(fwd: Seq<u32>, w: nat)
    requires
        non_decreasing(fwd),
    ensures
        0 <= inverse_cursor(fwd, w) <= fwd.len(),
        inverse_cursor(fwd, w) < fwd.len() ==> fwd[inverse_cursor(fwd, w)] >= w,
        forall|u: int| 0 <= u < inverse_cursor(fwd, w) ==> fwd[u] < w,
    decreases w,
{
    if w == 0 {
        lemma_scan_up_bounds(fwd, 0, 0);
    } else {
        lemma_cursor_is_first(fwd, (w - 1) as nat);
        let prev = inverse_cursor(fwd, (w - 1) as nat);
        lemma_scan_up_bounds(fwd, w as int, prev);
        assert forall|u: int| 0 <= u < inverse_cursor(fwd, w) implies fwd[u] < w by {
            if u < prev {
                assert(fwd[u] < w - 1);
            }
        }
    }
}

/// How many of the three curve sources a definition sets.
pub open spec fn source_count(def: CurveDef) -> int {
    (if def.builtin is Some { 1int } else { 0int }) + (if def.formula is Some { 1int } else { 0int })
        + (if def.points is Some { 1int } else { 0int })
}

/// `fwd` is the control-point table of `points`.
pub open spec fn is_points_table(points: Seq<[u16; 2]>, fwd: Seq<u32>, lut_size: int) -> bool {
    &&& fwd.len() == lut_size
    &&& forall|k: int, u: int| #[trigger] on_segment(points, k, u) ==> fwd[u] as int == points_value(points, k, u)
}

/// The control points of a definition (empty when it has none).
pub open spec fn points_of(def: CurveDef) -> Seq<[u16; 2]> {
    match def.points {
        Some(p) => p@,
        None => Seq::empty(),
    }
}

/// The contents of an optional table (empty when absent).
pub open spec fn table_of(t: Option<Vec<u32>>) -> Seq<u32> {
    match t {
        Some(t) => t@,
        None => Seq::empty(),
    }
}

/// `data` is the curve built from `def`: the interpolated control points,
/// or the sampled easing table; valid; inverted exactly when monotonic.
pub open spec fn built_from(def: CurveDef, easing: Seq<u32>, lut_size: int, data: CurveData) -> bool {
    &&& data.fwd@.len() == lut_size
    &&& def.points is Some ==> is_points_table(points_of(def), data.fwd@, lut_size)
    &&& def.points is None ==> data.fwd@ == easing
    &&& lut_valid(data.fwd@, def.monotonic)
    &&& def.monotonic <==> data.inv is Some
    &&& data.inv matches Some(inv) ==> inv@.len() == lut_size && forall|w: int|
        0 <= w < lut_size ==> #[trigger] inv@[w] as int == inverse_entry(data.fwd@, w as nat)
}

/// What [`build`] accepts: exactly one source, valid control points whose
/// table passes [`validate`], or a sampled table that passes it.
pub open spec fn builds(def: CurveDef, easing: Seq<u32>, lut_size: int) -> bool {
    &&& source_count(def) == 1
    &&& def.points is Some ==> valid_points(points_of(def), lut_size) && forall|t: Seq<u32>|
        #[trigger] is_points_table(points_of(def), t, lut_size) ==> lut_valid(t, def.monotonic)
    &&& def.points is None ==> lut_valid(easing, def.monotonic)
}

/// `fwd` and `inv` are the tables built from `def` (see [`built_from`]).
pub open spec fn built_tables(
    def: CurveDef,
    easing: Seq<u32>,
    lut_size: int,
    fwd: Seq<u32>,
    inv: Option<Seq<u32>>,
) -> bool {
    &&& fwd.len() == lut_size
    &&& def.points is Some ==> is_points_table(points_of(def), fwd, lut_size)
    &&& def.points is None ==> fwd == easing
    &&& lut_valid(fwd, def.monotonic)
    &&& def.monotonic <==> inv is Some
    &&& inv matches Some(t) ==> t.len() == lut_size && forall|w: int|
        0 <= w < lut_size ==> #[trigger] t[w] as int == inverse_entry(fwd, w as nat)
}

/// Build a complete [`CurveData`] (forward LUT + optional inverse) from a
/// [`CurveDef`].
///
/// Exactly one source must be set. Control points are interpolated here;
/// for a builtin or formula source, `easing_lut` carries the table the host
/// tool sampled from it. The forward table must then pass [`validate`];
/// monotonic curves also get their [`invert`]ed table.
pub fn build(name: &str, def: &CurveDef, lut_size: usize, easing_lut: Option<Vec<u32>>) -> (r:
    Result<CurveData, String>)
    requires
        1 <= lut_size <= 0x1_0000_0000,
        source_count(*def) == 1 && def.points is None ==> (easing_lut matches Some(t) && t@.len()
            == lut_size),
    ensures
        source_count(*def) != 1 ==> r is Err,
        source_count(*def) == 1 && def.points is Some && !valid_points(
            points_of(*def),
            lut_size as int,
        ) ==> r is Err,
        source_count(*def) == 1 && def.points is Some && valid_points(
            points_of(*def),
            lut_size as int,
        ) ==> (r is Ok <==> (forall|t: Seq<u32>|
            is_points_table(points_of(*def), t, lut_size as int) ==> lut_valid(t, def.monotonic))),
        source_count(*def) == 1 && def.points is None ==> (r is Ok <==> lut_valid(
            table_of(easing_lut),
            def.monotonic,
        )),
        r matches Ok(data) ==> built_from(*def, table_of(easing_lut), lut_size as int, data),
{
    let set_count: u8 = (if def.builtin.is_some() { 1u8 } else { 0u8 }) + (if def.formula.is_some() {
        1u8
    } else {
        0u8
    }) + (if def.points.is_some() { 1u8 } else { 0u8 });
    if set_count != 1 {
        let mut msg = join3(
            "curve `",
            name,
            "`: exactly one of `builtin`, `formula`, or `points` must be specified (found ",
        );
        msg.append(decimal(set_count as u64).as_str());
        msg.append(")");
        return Err(msg);
    }
    let fwd: Vec<u32> = match &def.points {
        Some(points) => {
            match check_points(name, points.as_slice(), lut_size) {
                Err(msg) => {
                    return Err(msg);
                },
                Ok(()) => {},
            }
            let table = build_points(name, points.as_slice(), lut_size);
            proof {
                lemma_points_table_unique(points@, table@, lut_size as int);
            }
            table
        },
        None => {
            match easing_lut {
                Some(t) => t,
                None => {
                    return Err(String::from_str("missing sampled easing table"));
                },
            }
        },
    };
    match validate(name, fwd.as_slice(), def.monotonic) {
        Err(msg) => {
            return Err(msg);
        },
        Ok(()) => {},
    }
    let inv = if def.monotonic {
        Some(invert(fwd.as_slice()))
    } else {
        None
    };
    Ok(CurveData { fwd, inv })
}

/// Every table with the control-point property equals `table`, so a claim
/// about all such tables is a claim about `table`.
proof fn lemma_points_table_unique(points: Seq<[u16; 2]>, table: Seq<u32>, lut_size: int)
    requires
        valid_points(points, lut_size),
        is_points_table(points, table, lut_size),
    ensures
        forall|t: Seq<u32>| is_points_table(points, t, lut_size) ==> t == table,
{
    assert forall|t: Seq<u32>| is_points_table(points, t, lut_size) implies t == table by {
        assert forall|u: int| 0 <= u < lut_size implies t[u] == table[u] by {
            let k = lemma_segment_of(points, lut_size, u);
            assert(on_segment(points, k, u));
        }
        assert(t =~= table);
    }
}

/// Every index of the table lies on some segment.
proof fn lemma_segment_of(points: Seq<[u16; 2]>, lut_size: int, u: int) -> (k: int)
    requires
        valid_points(points, lut_size),
        0 <= u < lut_size,
    ensures
        on_segment(points, k, u),
{
    lemma_segment_search(points, lut_size, u, 0)
}

proof fn lemma_segment_search(points: Seq<[u16; 2]>, lut_size: int, u: int, k: int) -> (j: int)
    requires
        valid_points(points, lut_size),
        0 <= k < points.len() - 1,
        points[k][0] <= u < lut_size,
    ensures
        on_segment(points, j, u),
    decreases points.len() - k,
{
    if u <= points[k + 1][0] {
        k
    } else if k + 1 < points.len() - 1 {
        lemma_segment_search(points, lut_size, u, k + 1)
    } else {
        assert(points[k + 1][0] == lut_size - 1);
        k
    }
}

/// Check control points before interpolating them, with the same
/// diagnostics as the interpolator's rules.
fn check_points(name: &str, points: &[[u16; 2]], lut_size: usize) -> (r: Result<(), String>)
    requires
        1 <= lut_size <= 0x1_0000_0000,
    ensures
        r is Ok <==> valid_points(points@, lut_size as int),
{
    if points.len() < 2 {
        return Err(join3("points curve `", name, "` must have at least 2 points"));
    }
    if points[0][0] != 0 {
        return Err(join3("points curve `", name, "` must start at u=0"));
    }
    if points[points.len() - 1][0] as usize != lut_size - 1 {
        let mut msg = join3("points curve `", name, "` must end at u=");
        msg.append(decimal((lut_size - 1) as u64).as_str());
        return Err(msg);
    }
    let mut k: usize = 0;
    while k < points.len() - 1
        invariant
            points@.len() >= 2,
            k + 1 <= points@.len(),
            forall|j: int| 0 <= j < k ==> #[trigger] points@[j][0] < points@[j + 1][0],
        decreases points@.len() - k,
    {
        if points[k + 1][0] <= points[k][0] {
            return Err(join3("points curve `", name, "` must have strictly increasing u values"));
        }
        k = k + 1;
    }
    Ok(())
}

} // verus!
