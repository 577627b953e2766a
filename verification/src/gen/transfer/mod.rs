//! Physical transfer definitions: boundary policy, source citations and the
//! round-trip audit of sparse knot tables.
//!
//! A knot table maps increasing observation codes (`inputs`) to monotone
//! integer outputs. Between knots the table interpolates linearly, and the
//! inverse interpolates back, both rounding to nearest with ties away from
//! zero.

pub mod family;
pub mod member;
pub mod provenance;
pub mod selectors;
pub mod standalone;
pub mod validation;
pub mod expansion;

use vstd::prelude::*;

use crate::round::{abs_int, div_nearest_ties_away, lemma_round_div_within, round_div_ties_away};

verus! {

/// How a generated transfer treats observations outside its domain.
#[derive(Copy, Clone, Debug, PartialEq, Eq, Structural)]
pub enum BoundaryDef {
    /// Out-of-domain observations return an error.
    Error,
    /// Out-of-domain observations clamp to the nearest endpoint.
    Clamp,
}

impl BoundaryDef {
    /// The runtime `BoundaryBehavior` variant this policy is emitted as.
    pub fn rust_name(self) -> (s: &'static str)
        ensures
            s@ == match self {
                BoundaryDef::Error => "BoundaryBehavior::Error"@,
                BoundaryDef::Clamp => "BoundaryBehavior::Clamp"@,
            },
    {
        match self {
            BoundaryDef::Error => "BoundaryBehavior::Error",
            BoundaryDef::Clamp => "BoundaryBehavior::Clamp",
        }
    }
}

impl BoundaryDef {
    /// The TOML spelling of this policy.
    pub fn toml_name(self) -> (s: &'static str)
        ensures
            s@ == boundary_toml_name(self),
    {
        match self {
            BoundaryDef::Error => "error",
            BoundaryDef::Clamp => "clamp",
        }
    }
}

/// The TOML spelling of a boundary policy.
pub open spec fn boundary_toml_name(b: BoundaryDef) -> Seq<char> {
    match b {
        BoundaryDef::Error => "error"@,
        BoundaryDef::Clamp => "clamp"@,
    }
}

/// What a generated transfer does when its guarded observation code is
/// observed.
#[derive(Copy, Clone, Debug, PartialEq, Eq, Structural)]
pub enum ObservationGuardBehaviorDef {
    /// The observation is rejected.
    Error,
    /// The output at the top of the domain is returned, whatever `above`
    /// says.
    Clamp,
}

/// One exact observation code with its own behavior (TOML `saturation`),
/// checked before the ordinary boundary behavior.
#[derive(Clone, Debug)]
pub struct ObservationGuardDef {
    /// The guarded observation code.
    pub code: u16,
    /// What the transfer does when the code is observed.
    pub behavior: ObservationGuardBehaviorDef,
    /// Citation override for the guard's classification.
    pub provenance: Option<provenance::SourceProvenanceOverride>,
}

/// The boundary policy used when none is declared.
pub fn default_boundary() -> (b: BoundaryDef)
    ensures
        b == BoundaryDef::Error,
{
    BoundaryDef::Error
}

/// Which leg of a resistor divider the thermistor of an NTC model sits on.
#[derive(Copy, Clone, Debug, PartialEq, Eq, Structural)]
pub enum DividerTopology {
    /// Thermistor between the ADC node and ground.
    NtcToGround,
    /// Thermistor between the supply and the ADC node.
    NtcToSupply,
}

/// Direction in which a knot table's outputs move as its inputs grow.
#[derive(Copy, Clone, Debug, PartialEq, Eq, Structural)]
pub enum MonotonicDirection {
    /// Outputs never decrease.
    Increasing,
    /// Outputs never increase.
    Decreasing,
}

/// `o` has reached `p` when walking in `direction`.
pub open spec fn past(direction: MonotonicDirection, o: int, p: int) -> bool {
    match direction {
        MonotonicDirection::Increasing => o <= p,
        MonotonicDirection::Decreasing => o >= p,
    }
}

/// A usable knot table: matching non-empty columns, strictly increasing
/// inputs, outputs monotone in `direction` (flat runs allowed).
#[verifier::opaque]
pub open spec fn knots_valid(
    inputs: Seq<u16>,
    outputs: Seq<i32>,
    direction: MonotonicDirection,
) -> bool {
    &&& 1 <= inputs.len() == outputs.len()
    &&& forall|i: int, j: int| 0 <= i < j < inputs.len() ==> inputs[i] < inputs[j]
    &&& forall|i: int, j: int|
        0 <= i <= j < outputs.len() ==> past(direction, outputs[i] as int, outputs[j] as int)
}

/// Index of the last knot whose input is at or below `code`.
#[verifier::opaque]
pub open spec fn knot_below(inputs: Seq<u16>, code: int) -> int {
    choose|k: int|
        0 <= k < inputs.len() && inputs[k] <= code && forall|j: int|
            k < j < inputs.len() ==> inputs[j] > code
}

/// Linear interpolation on one segment, rounded to nearest.
pub open spec fn segment_forward(code: int, x0: int, y0: int, x1: int, y1: int) -> int {
    y0 + round_div_ties_away((code - x0) * (y1 - y0), x1 - x0)
}

/// Inverse interpolation on one segment, rounded to nearest.
pub open spec fn segment_inverse(physical: int, x0: int, y0: int, x1: int, y1: int) -> int {
    x0 + round_div_ties_away((physical - y0) * (x1 - x0), y1 - y0)
}

/// The table's output at an in-domain `code`: the knot's own output, or
/// interpolation on the segment that contains `code`.
pub open spec fn table_forward(inputs: Seq<u16>, outputs: Seq<i32>, code: int) -> int {
    let k = knot_below(inputs, code);
    if inputs[k] == code {
        outputs[k] as int
    } else {
        segment_forward(
            code,
            inputs[k] as int,
            outputs[k] as int,
            inputs[k + 1] as int,
            outputs[k + 1] as int,
        )
    }
}

/// Index of the last knot whose output has reached `physical`.
#[verifier::opaque]
pub open spec fn knot_past(
    outputs: Seq<i32>,
    direction: MonotonicDirection,
    physical: int,
) -> int {
    choose|k: int|
        0 <= k < outputs.len() && past(direction, outputs[k] as int, physical) && forall|j: int|
            k < j < outputs.len() ==> !past(direction, outputs[j] as int, physical)
}

/// Index of the first knot whose output equals `physical`.
#[verifier::opaque]
pub open spec fn first_equal(outputs: Seq<i32>, physical: int) -> int {
    choose|k: int|
        0 <= k < outputs.len() && outputs[k] == physical && forall|j: int|
            0 <= j < k ==> outputs[j] != physical
}

/// The code the table inverts `physical` to: the first input of a flat run
/// that hits `physical` exactly, or inverse interpolation on the segment
/// that brackets it.
pub open spec fn table_inverse(
    inputs: Seq<u16>,
    outputs: Seq<i32>,
    direction: MonotonicDirection,
    physical: int,
) -> int {
    let k = knot_past(outputs, direction, physical);
    if outputs[k] == physical {
        inputs[first_equal(outputs, physical)] as int
    } else {
        segment_inverse(
            physical,
            inputs[k] as int,
            outputs[k] as int,
            inputs[k + 1] as int,
            outputs[k + 1] as int,
        )
    }
}

/// How far `code` moves on a convert-then-invert round trip.
pub open spec fn round_trip_error(
    inputs: Seq<u16>,
    outputs: Seq<i32>,
    direction: MonotonicDirection,
    code: int,
) -> int {
    abs_int(table_inverse(inputs, outputs, direction, table_forward(inputs, outputs, code)) - code)
}

/// The largest round-trip error over the codes `first..=last`.
pub open spec fn worst_round_trip(
    inputs: Seq<u16>,
    outputs: Seq<i32>,
    direction: MonotonicDirection,
    first: int,
    last: int,
) -> int
    decreases last - first + 1,
{
    if last < first {
        0
    } else {
        let before = worst_round_trip(inputs, outputs, direction, first, last - 1);
        let here = round_trip_error(inputs, outputs, direction, last);
        if here > before {
            here
        } else {
            before
        }
    }
}

/// Some knot is the last one whose output has reached `physical`.
proof fn lemma_last_past(
    outputs: Seq<i32>,
    direction: MonotonicDirection,
    physical: int,
    from: int,
) -> (w: int)
    requires
        0 <= from < outputs.len(),
        past(direction, outputs[from] as int, physical),
        forall|i: int, j: int|
            0 <= i <= j < outputs.len() ==> past(direction, outputs[i] as int, outputs[j] as int),
    ensures
        0 <= w < outputs.len(),
        past(direction, outputs[w] as int, physical),
        forall|j: int| w < j < outputs.len() ==> !past(direction, outputs[j] as int, physical),
    decreases outputs.len() - from,
{
    if from + 1 < outputs.len() && past(direction, outputs[from + 1] as int, physical) {
        lemma_last_past(outputs, direction, physical, from + 1)
    } else {
        assert forall|j: int| from < j < outputs.len() implies !past(
            direction,
            outputs[j] as int,
            physical,
        ) by {
            if past(direction, outputs[j] as int, physical) {
                assert(past(direction, outputs[from + 1] as int, outputs[j] as int));
            }
        }
        from
    }
}

/// A knot that starts its run of equal outputs survives the round trip
/// exactly: converting its input and inverting the result gives the input
/// back.
pub proof fn lemma_knot_round_trip(
    inputs: Seq<u16>,
    outputs: Seq<i32>,
    direction: MonotonicDirection,
    i: int,
)
    requires
        knots_valid(inputs, outputs, direction),
        0 <= i < inputs.len(),
        forall|j: int| 0 <= j < i ==> outputs[j] != outputs[i],
    ensures
        table_forward(inputs, outputs, inputs[i] as int) == outputs[i],
        round_trip_error(inputs, outputs, direction, inputs[i] as int) == 0,
{
    reveal(knots_valid);
    let code = inputs[i] as int;
    let p = outputs[i] as int;
    lemma_knot_below(inputs, code);
    let k = knot_below(inputs, code);
    if k != i {
        if k < i {
            assert(inputs[i] > code);
        } else {
            assert(inputs[k] > inputs[i]);
        }
    }
    assert(table_forward(inputs, outputs, code) == p);
    let w = lemma_last_past(outputs, direction, p, i);
    assert(knot_past(outputs, direction, p) == w) by {
        reveal(knot_past);
        let chosen = knot_past(outputs, direction, p);
        assert(0 <= w < outputs.len() && past(direction, outputs[w] as int, p) && forall|j: int|
            w < j < outputs.len() ==> !past(direction, outputs[j] as int, p));
        if chosen != w {
            if chosen < w {
                assert(!past(direction, outputs[w] as int, p));
            } else {
                assert(!past(direction, outputs[chosen] as int, p));
            }
        }
    }
    assert(w >= i);
    assert(past(direction, outputs[i] as int, outputs[w] as int));
    assert(outputs[w] == p);
    assert(first_equal(outputs, p) == i) by {
        reveal(first_equal);
        let chosen = first_equal(outputs, p);
        assert(0 <= i < outputs.len() && outputs[i] == p && forall|j: int|
            0 <= j < i ==> outputs[j] != p);
        if chosen != i {
            if chosen < i {
                assert(outputs[chosen] != p);
            } else {
                assert(outputs[i] != p);
            }
        }
    }
}

/// The audit's figure is the largest round-trip error over its codes: no
/// code in `first..=last` moves further, and some code moves that far.
pub proof fn lemma_worst_round_trip_is_maximum(
    inputs: Seq<u16>,
    outputs: Seq<i32>,
    direction: MonotonicDirection,
    first: int,
    last: int,
)
    requires
        first <= last,
    ensures
        forall|c: int|
            first <= c <= last ==> round_trip_error(inputs, outputs, direction, c)
                <= worst_round_trip(inputs, outputs, direction, first, last),
        exists|c: int|
            first <= c <= last && round_trip_error(inputs, outputs, direction, c)
                == worst_round_trip(inputs, outputs, direction, first, last),
    decreases last - first,
{
    if first < last {
        lemma_worst_round_trip_is_maximum(inputs, outputs, direction, first, last - 1);
        let before = worst_round_trip(inputs, outputs, direction, first, last - 1);
        let here = round_trip_error(inputs, outputs, direction, last);
        if here <= before {
            let c = choose|c: int|
                first <= c <= last - 1 && round_trip_error(inputs, outputs, direction, c) == before;
            assert(first <= c <= last && round_trip_error(inputs, outputs, direction, c)
                == worst_round_trip(inputs, outputs, direction, first, last));
        } else {
            assert(round_trip_error(inputs, outputs, direction, last) == worst_round_trip(
                inputs,
                outputs,
                direction,
                first,
                last,
            ));
        }
    } else {
        assert(worst_round_trip(inputs, outputs, direction, first, last - 1) == 0);
        assert(round_trip_error(inputs, outputs, direction, last) >= 0);
        assert(round_trip_error(inputs, outputs, direction, last) == worst_round_trip(
            inputs,
            outputs,
            direction,
            first,
            last,
        ));
    }
}

/// Find the last knot at or below `code`.
fn find_knot_below(inputs: &[u16], code: u16) -> (k: usize)
    requires
        1 <= inputs@.len(),
        forall|i: int, j: int| 0 <= i < j < inputs@.len() ==> inputs@[i] < inputs@[j],
        inputs@[0] <= code,
    ensures
        k == knot_below(inputs@, code as int),
        k < inputs@.len(),
        inputs@[k as int] <= code,
        forall|j: int| k < j < inputs@.len() ==> inputs@[j] > code,
{
    let mut low: usize = 0;
    let mut high: usize = inputs.len() - 1;
    while low < high
        invariant
            low <= high < inputs@.len(),
            inputs@[low as int] <= code,
            forall|j: int| high < j < inputs@.len() ==> inputs@[j] > code,
            forall|i: int, j: int| 0 <= i < j < inputs@.len() ==> inputs@[i] < inputs@[j],
        decreases high - low,
    {
        let middle = high - (high - low) / 2;
        if inputs[middle] <= code {
            low = middle;
        } else {
            high = middle - 1;
        }
    }
    proof {
        reveal(knot_below);
        let c = code as int;
        let k = low as int;
        assert(0 <= k < inputs@.len() && inputs@[k] <= c && forall|j: int|
            k < j < inputs@.len() ==> inputs@[j] > c);
        let chosen = knot_below(inputs@, c);
        if chosen != k {
            if chosen < k {
                assert(inputs@[k] > c);
            } else {
                assert(inputs@[chosen] > c);
            }
        }
    }
    low
}

/// Rounded interpolation stays between the segment's end outputs.
proof fn lemma_segment_forward_between(t: int, span: int, delta: int)
    requires
        0 < t < span,
    ensures
        0 <= delta ==> 0 <= round_div_ties_away(t * delta, span) <= delta,
        delta < 0 ==> delta <= round_div_ties_away(t * delta, span) <= 0,
{
    if delta >= 0 {
        assert(0 <= t * delta <= delta * span) by (nonlinear_arith)
            requires
                0 < t < span,
                delta >= 0,
        ;
        lemma_round_div_within(t * delta, span, delta);
    } else {
        assert(delta * span <= t * delta < 0) by (nonlinear_arith)
            requires
                0 < t < span,
                delta < 0,
        ;
        assert(abs_int(t * delta) == -(t * delta));
        assert(abs_int(span) == span);
        assert((-delta) * span == -(delta * span)) by (nonlinear_arith);
        lemma_round_div_within(t * delta, span, -delta);
    }
}

/// The outputs of a valid table are monotone.
proof fn lemma_monotone(
    inputs: Seq<u16>,
    outputs: Seq<i32>,
    direction: MonotonicDirection,
    i: int,
    j: int,
)
    requires
        knots_valid(inputs, outputs, direction),
        0 <= i <= j < outputs.len(),
    ensures
        past(direction, outputs[i] as int, outputs[j] as int),
{
    reveal(knots_valid);
}

/// [`knot_below`] of an in-domain code is the last knot at or below it.
proof fn lemma_knot_below(inputs: Seq<u16>, code: int)
    requires
        1 <= inputs.len(),
        forall|i: int, j: int| 0 <= i < j < inputs.len() ==> inputs[i] < inputs[j],
        inputs[0] <= code,
    ensures
        0 <= knot_below(inputs, code) < inputs.len(),
        inputs[knot_below(inputs, code)] <= code,
        forall|j: int| knot_below(inputs, code) < j < inputs.len() ==> inputs[j] > code,
{
    reveal(knot_below);
    let w = lemma_last_below(inputs, code, 0);
    assert(0 <= w < inputs.len() && inputs[w] <= code && forall|j: int|
        w < j < inputs.len() ==> inputs[j] > code);
}

/// Every in-domain code converts to a value within the table's output
/// range, so the inverse accepts whatever the forward direction produces.
pub proof fn lemma_forward_in_range(
    inputs: Seq<u16>,
    outputs: Seq<i32>,
    direction: MonotonicDirection,
    code: int,
)
    requires
        knots_valid(inputs, outputs, direction),
        inputs[0] <= code <= inputs.last(),
    ensures
        past(direction, outputs[0] as int, table_forward(inputs, outputs, code)),
        past(direction, table_forward(inputs, outputs, code), outputs.last() as int),
{
    assert(1 <= inputs.len() == outputs.len() && forall|i: int, j: int|
        0 <= i < j < inputs.len() ==> inputs[i] < inputs[j]) by {
        reveal(knots_valid);
    }
    let n = inputs.len();
    lemma_knot_below(inputs, code);
    let k = knot_below(inputs, code);
    lemma_monotone(inputs, outputs, direction, 0, k);
    lemma_monotone(inputs, outputs, direction, k, n - 1);
    if inputs[k] != code {
        assert(k + 1 < n) by {
            if k + 1 >= n {
                assert(inputs[n - 1] >= code);
            }
        }
        lemma_monotone(inputs, outputs, direction, k, k + 1);
        lemma_monotone(inputs, outputs, direction, k + 1, n - 1);
        lemma_segment_forward_between(
            code - inputs[k],
            inputs[k + 1] - inputs[k],
            outputs[k + 1] - outputs[k],
        );
    }
}

/// Some knot is the last one at or below an in-domain `code`.
proof fn lemma_last_below(inputs: Seq<u16>, code: int, from: int) -> (w: int)
    requires
        1 <= inputs.len(),
        forall|i: int, j: int| 0 <= i < j < inputs.len() ==> inputs[i] < inputs[j],
        0 <= from < inputs.len(),
        inputs[from] <= code,
    ensures
        0 <= w < inputs.len(),
        inputs[w] <= code,
        forall|j: int| w < j < inputs.len() ==> inputs[j] > code,
    decreases inputs.len() - from,
{
    if from + 1 < inputs.len() && inputs[from + 1] <= code {
        lemma_last_below(inputs, code, from + 1)
    } else {
        from
    }
}

/// Forward-convert one in-domain code against the knot table.
fn convert_code(inputs: &[u16], outputs: &[i32], code: u16) -> (p: i32)
    requires
        1 <= inputs@.len() == outputs@.len(),
        forall|i: int, j: int| 0 <= i < j < inputs@.len() ==> inputs@[i] < inputs@[j],
        inputs@[0] <= code <= inputs@.last(),
    ensures
        p == table_forward(inputs@, outputs@, code as int),
{
    let k = find_knot_below(inputs, code);
    if inputs[k] == code {
        return outputs[k];
    }
    assert(k + 1 < inputs@.len()) by {
        if k + 1 >= inputs@.len() {
            assert(inputs@[inputs@.len() - 1] >= code);
        }
    }
    let x0 = inputs[k] as i64;
    let x1 = inputs[k + 1] as i64;
    let y0 = outputs[k] as i64;
    let y1 = outputs[k + 1] as i64;
    let t = code as i64 - x0;
    let span = x1 - x0;
    let delta = y1 - y0;
    assert(0 < t < span < 0x1_0000);
    assert(-0x1_0000_0000 * 0x1_0000 <= t * delta <= 0x1_0000_0000 * 0x1_0000) by (nonlinear_arith)
        requires
            0 < t < 0x1_0000,
            -0x1_0000_0000 < delta < 0x1_0000_0000,
    ;
    proof {
        lemma_segment_forward_between(t as int, span as int, delta as int);
    }
    let step = div_nearest_ties_away(t * delta, span);
    (y0 + step) as i32
}

/// Walk from `low` to the first knot of its flat run at `physical`.
fn flat_run_start(outputs: &[i32], direction: MonotonicDirection, low: usize, physical: i32) -> (j: usize)
    requires
        low < outputs@.len(),
        outputs@[low as int] == physical,
        forall|i: int, j: int|
            0 <= i <= j < outputs@.len() ==> past(direction, outputs@[i] as int, outputs@[j] as int),
    ensures
        j == first_equal(outputs@, physical as int),
        j <= low,
{
    let mut left = low;
    while left > 0 && outputs[left - 1] == physical
        invariant
            left <= low < outputs@.len(),
            outputs@[left as int] == physical,
            forall|i: int, j: int|
                0 <= i <= j < outputs@.len() ==> past(
                    direction,
                    outputs@[i] as int,
                    outputs@[j] as int,
                ),
        decreases left,
    {
        left = left - 1;
    }
    proof {
        reveal(first_equal);
        let k = left as int;
        let p = physical as int;
        // Nothing before the run equals `physical`: a monotone table that
        // left `physical` cannot come back to it.
        assert forall|j: int| 0 <= j < k implies outputs@[j] != p by {
            assert(k > 0 && outputs@[k - 1] != p);
            if outputs@[j] == p {
                assert(past(direction, outputs@[j] as int, outputs@[k - 1] as int));
                assert(past(direction, outputs@[k - 1] as int, outputs@[k] as int));
            }
        }
        let chosen = first_equal(outputs@, p);
        assert(0 <= k < outputs@.len() && outputs@[k] == p);
        if chosen != k {
            if chosen < k {
                assert(outputs@[chosen] != p);
            } else {
                assert(outputs@[k] != p);
            }
        }
    }
    left
}

/// Invert one in-range physical value against the knot table.
fn invert_physical(inputs: &[u16], outputs: &[i32], direction: MonotonicDirection, physical: i32) -> (code: u16)
    requires
        knots_valid(inputs@, outputs@, direction),
        past(direction, outputs@[0] as int, physical as int),
        past(direction, physical as int, outputs@.last() as int),
    ensures
        code == table_inverse(inputs@, outputs@, direction, physical as int),
{
    proof {
        reveal(knots_valid);
    }
    let n = inputs.len();
    let mut low: usize = 0;
    let mut high: usize = n - 1;
    while low < high
        invariant
            n == outputs@.len() == inputs@.len(),
            forall|i: int, j: int|
                0 <= i <= j < outputs@.len() ==> past(direction, outputs@[i] as int, outputs@[j] as int),
            low <= high < n,
            past(direction, outputs@[low as int] as int, physical as int),
            forall|j: int| high < j < n ==> !past(direction, outputs@[j] as int, physical as int),
        decreases high - low,
    {
        let middle = high - (high - low) / 2;
        let reached = match direction {
            MonotonicDirection::Increasing => outputs[middle] <= physical,
            MonotonicDirection::Decreasing => outputs[middle] >= physical,
        };
        if reached {
            low = middle;
        } else {
            assert forall|j: int| middle <= j < n implies !past(
                direction,
                outputs@[j] as int,
                physical as int,
            ) by {
                assert(past(direction, outputs@[middle as int] as int, outputs@[j] as int));
            }
            high = middle - 1;
        }
    }
    proof {
        reveal(knot_past);
        let p = physical as int;
        let k = low as int;
        let chosen = knot_past(outputs@, direction, p);
        assert(0 <= k < outputs@.len() && past(direction, outputs@[k] as int, p) && forall|j: int|
            k < j < outputs@.len() ==> !past(direction, outputs@[j] as int, p));
        if chosen != k {
            if chosen < k {
                assert(!past(direction, outputs@[k] as int, p));
            } else {
                assert(!past(direction, outputs@[chosen] as int, p));
            }
        }
    }
    if outputs[low] == physical {
        let j = flat_run_start(outputs, direction, low, physical);
        return inputs[j];
    }
    assert(low + 1 < n) by {
        if low + 1 >= n {
            assert(outputs@[n - 1] == physical);
        }
    }
    let x0 = inputs[low] as i64;
    let x1 = inputs[low + 1] as i64;
    let y0 = outputs[low] as i64;
    let y1 = outputs[low + 1] as i64;
    let offset = physical as i64 - y0;
    let span = x1 - x0;
    let delta = y1 - y0;
    assert(!past(direction, y1 as int, physical as int));
    assert(0 < span < 0x1_0000);
    assert(delta != 0 && abs_int(offset as int) < abs_int(delta as int));
    assert(abs_int(delta as int) < 0x1_0000_0000);
    assert(abs_int(offset * span) <= span * abs_int(delta as int)) by (nonlinear_arith)
        requires
            0 < span,
            abs_int(offset as int) < abs_int(delta as int),
    ;
    assert(-0x1_0000_0000 * 0x1_0000 <= offset * span <= 0x1_0000_0000 * 0x1_0000) by (nonlinear_arith)
        requires
            0 < span < 0x1_0000,
            -0x1_0000_0000 < offset < 0x1_0000_0000,
    ;
    proof {
        lemma_round_div_within(offset * span, delta as int, span as int);
        assert((offset * span >= 0) == (delta > 0) || offset * span == 0) by (nonlinear_arith)
            requires
                span > 0,
                (offset >= 0) == (delta > 0) || offset == 0,
        ;
    }
    let step = div_nearest_ties_away(offset * span, delta);
    (x0 + step) as u16
}

/// Largest convert-then-invert code error over the table's input domain.
///
/// Every code from the first to the last input is converted forward, the
/// result inverted back, and the distance to the starting code measured.
pub fn measure_inverse_code_error(
    inputs: &[u16],
    outputs: &[i32],
    direction: MonotonicDirection,
) -> (worst: u16)
    requires
        knots_valid(inputs@, outputs@, direction),
    ensures
        worst == worst_round_trip(
            inputs@,
            outputs@,
            direction,
            inputs@[0] as int,
            inputs@.last() as int,
        ),
{
    proof {
        reveal(knots_valid);
    }
    let first = inputs[0];
    let last = inputs[inputs.len() - 1];
    let mut worst: u16 = 0;
    let mut code: u32 = first as u32;
    assert(first <= last) by {
        reveal(knots_valid);
        if inputs@.len() > 1 {
            assert(inputs@[0] < inputs@[inputs@.len() - 1]);
        }
    }
    while code <= last as u32
        invariant
            knots_valid(inputs@, outputs@, direction),
            first == inputs@[0],
            last == inputs@.last(),
            first <= code <= last as int + 1,
            worst == worst_round_trip(inputs@, outputs@, direction, first as int, code - 1),
        decreases last as int + 1 - code,
    {
        let c = code as u16;
        proof {
            reveal(knots_valid);
        }
        let physical = convert_code(inputs, outputs, c);
        proof {
            lemma_forward_in_range(inputs@, outputs@, direction, c as int);
        }
        let recovered = invert_physical(inputs, outputs, direction, physical);
        let error = if recovered >= c {
            recovered - c
        } else {
            c - recovered
        };
        if error > worst {
            worst = error;
        }
        code = code + 1;
    }
    worst
}

} // verus!
