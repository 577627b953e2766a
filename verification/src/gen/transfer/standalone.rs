//! The declaration rules of a standalone transfer, and of knots a caller
//! fitted itself.
//!
//! A standalone transfer needs a positive output scale, a knot budget
//! within the hard cap and exactly one source, and each source takes its
//! own fields: points define their domain, a formula needs a strictly
//! increasing domain, a scaled polynomial a scale and a domain, an NTC
//! model an output range. The host tool then evaluates the source in
//! floating point; the rules here say what it evaluates.
//!
//! Prefitted knots skip the fitter, so their table shape is checked here:
//! matching columns, at least two knots within the budget, strictly
//! increasing inputs and monotone outputs.

use vstd::prelude::*;

use super::super::text::{decimal, decimal_spec, join3};
use super::member::ModelKind;
use super::{knots_valid, past, MonotonicDirection};

verus! {

/// Hard cap on knots for a standalone transfer.
pub const ABSOLUTE_MAX_KNOTS: usize = 4096;

/// The knot budget of a standalone transfer when none is declared.
pub fn default_max_knots() -> (n: usize)
    ensures
        n == 256,
{
    256
}

/// A standalone transfer as its declaration rules read it: which source
/// it declares, and its integer fields.
#[derive(Debug, Clone)]
pub struct TransferFields {
    /// Integer output quanta per physical unit.
    pub output_scale: u32,
    /// Knot budget.
    pub max_knots: usize,
    /// Whether control points are declared.
    pub points: bool,
    /// Whether a formula is declared.
    pub formula: bool,
    /// The built-in model, when one is declared.
    pub model: Option<ModelKind>,
    /// The scale a scaled-polynomial model declares, if any.
    pub model_scale: Option<u32>,
    /// Inclusive observation domain `[min, max]`.
    pub domain: Option<[u16; 2]>,
    /// Whether a physical output range is declared.
    pub output_range: bool,
}

/// What the host tool evaluates for an accepted standalone transfer.
#[derive(Debug, Clone, Copy)]
pub enum SourcePlan {
    /// A generation source set by hand replaces the declared one.
    Overlay,
    /// The control points, over the domain they define.
    Points,
    /// The formula, at every code of the domain.
    Formula([u16; 2]),
    /// The scaled polynomial with its scale, over the domain.
    ScaledPolynomial(u32, [u16; 2]),
    /// The NTC model, over its output range.
    Model,
}

/// `transfer `N``
pub open spec fn transfer_prefix(name: Seq<char>) -> Seq<char> {
    "transfer `"@ + name + "`"@
}

/// What checking standalone transfer `name` gives: an error, or the
/// source the host evaluates. `overlay` says whether a generation source
/// set by hand replaces the declared one.
pub open spec fn transfer_plan(name: Seq<char>, d: TransferFields, overlay: bool) -> Result<
    SourcePlan,
    Seq<char>,
> {
    let p = transfer_prefix(name);
    let count = (if d.points { 1int } else { 0 }) + (if d.formula { 1int } else { 0 }) + (if d.model
        is Some {
        1int
    } else {
        0
    });
    if d.output_scale == 0 {
        Err(p + ": output_scale must be positive"@)
    } else if !(2 <= d.max_knots <= ABSOLUTE_MAX_KNOTS) {
        Err(p + ": max_knots must be in 2..=4096"@)
    } else if overlay {
        Ok(SourcePlan::Overlay)
    } else if count != 1 {
        Err(p + ": exactly one of points, formula, or model must be specified"@)
    } else if d.points {
        if d.domain is Some || d.output_range {
            Err(p + ": points define their domain; domain and output_range are forbidden"@)
        } else {
            Ok(SourcePlan::Points)
        }
    } else if d.formula {
        if d.output_range {
            Err(p + ": output_range is forbidden for formula sources"@)
        } else if d.domain is None {
            Err(p + ": formula requires domain = [min, max]"@)
        } else if d.domain->0[0] >= d.domain->0[1] {
            Err(p + ": domain must be strictly increasing"@)
        } else {
            Ok(SourcePlan::Formula(d.domain->0))
        }
    } else if d.model == Some(ModelKind::ScaledPolynomial) {
        if d.output_range {
            Err(p + ": output_range is forbidden for scaled_polynomial; use domain"@)
        } else if d.model_scale is None {
            Err(p + ": scaled_polynomial requires scale"@)
        } else if d.domain is None {
            Err(p + ": scaled_polynomial requires domain = [min, max]"@)
        } else {
            Ok(SourcePlan::ScaledPolynomial(d.model_scale->0, d.domain->0))
        }
    } else if d.domain is Some {
        Err(p + ": domain is forbidden for model sources"@)
    } else if !d.output_range {
        Err(p + ": model requires output_range"@)
    } else {
        Ok(SourcePlan::Model)
    }
}

fn prefixed(name: &str, rest: &str) -> (s: String)
    ensures
        s@ == transfer_prefix(name@) + rest@,
{
    let mut s = join3("transfer `", name, "`");
    s.append(rest);
    s
}

/// Check standalone transfer `name` before its source is evaluated, and
/// say which source the host evaluates.
pub fn plan_transfer(name: &str, def: &TransferFields, overlay: bool) -> (r: Result<
    SourcePlan,
    String,
>)
    ensures
        match (r, transfer_plan(name@, *def, overlay)) {
            (Ok(p), Ok(q)) => p == q,
            (Err(e), Err(t)) => e@ == t,
            _ => false,
        },
{
    if def.output_scale == 0 {
        return Err(prefixed(name, ": output_scale must be positive"));
    }
    if !(2 <= def.max_knots && def.max_knots <= ABSOLUTE_MAX_KNOTS) {
        return Err(prefixed(name, ": max_knots must be in 2..=4096"));
    }
    if overlay {
        return Ok(SourcePlan::Overlay);
    }
    let count: u8 = (if def.points { 1u8 } else { 0u8 }) + (if def.formula { 1u8 } else { 0u8 }) + (
    if def.model.is_some() {
        1u8
    } else {
        0u8
    });
    if count != 1 {
        return Err(prefixed(name, ": exactly one of points, formula, or model must be specified"));
    }
    if def.points {
        if def.domain.is_some() || def.output_range {
            return Err(
                prefixed(name, ": points define their domain; domain and output_range are forbidden"),
            );
        }
        return Ok(SourcePlan::Points);
    }
    if def.formula {
        if def.output_range {
            return Err(prefixed(name, ": output_range is forbidden for formula sources"));
        }
        let domain = match def.domain {
            Some(d) => d,
            None => {
                return Err(prefixed(name, ": formula requires domain = [min, max]"));
            },
        };
        if domain[0] >= domain[1] {
            return Err(prefixed(name, ": domain must be strictly increasing"));
        }
        return Ok(SourcePlan::Formula(domain));
    }
    if def.model == Some(ModelKind::ScaledPolynomial) {
        if def.output_range {
            return Err(prefixed(name, ": output_range is forbidden for scaled_polynomial; use domain"));
        }
        let scale = match def.model_scale {
            Some(s) => s,
            None => {
                return Err(prefixed(name, ": scaled_polynomial requires scale"));
            },
        };
        let domain = match def.domain {
            Some(d) => d,
            None => {
                return Err(prefixed(name, ": scaled_polynomial requires domain = [min, max]"));
            },
        };
        return Ok(SourcePlan::ScaledPolynomial(scale, domain));
    }
    if def.domain.is_some() {
        return Err(prefixed(name, ": domain is forbidden for model sources"));
    }
    if !def.output_range {
        return Err(prefixed(name, ": model requires output_range"));
    }
    Ok(SourcePlan::Model)
}

/// The direction a sequence of outputs declares: decreasing when the last
/// is below the first, increasing otherwise.
pub open spec fn declared_direction(v: Seq<i32>) -> MonotonicDirection {
    if v.last() < v[0] {
        MonotonicDirection::Decreasing
    } else {
        MonotonicDirection::Increasing
    }
}

/// Step `o` (from `v[o - 1]` to `v[o]`) goes against `d`.
pub open spec fn breaks_at(v: Seq<i32>, d: MonotonicDirection, o: int) -> bool {
    !past(d, v[o - 1] as int, v[o] as int)
}

/// The first step that goes against the declared direction.
pub open spec fn first_break(v: Seq<i32>) -> int {
    choose|o: int|
        1 <= o < v.len() && breaks_at(v, declared_direction(v), o) && forall|q: int|
            1 <= q < o ==> !breaks_at(v, declared_direction(v), q)
}

/// What checking a sequence of scaled outputs for monotonicity gives: an
/// error naming the first offending offset, or the declared direction.
pub open spec fn monotonic_outcome(name: Seq<char>, v: Seq<i32>) -> Result<
    MonotonicDirection,
    Seq<char>,
> {
    if v.len() < 2 {
        Err(transfer_prefix(name) + ": domain must contain at least two inputs"@)
    } else if exists|o: int| 1 <= o < v.len() && breaks_at(v, declared_direction(v), o) {
        Err(transfer_prefix(name) + ": source is not monotonic at domain offset "@ + decimal_spec(
            first_break(v) as nat,
        ))
    } else {
        Ok(declared_direction(v))
    }
}

/// Check that scaled integer outputs move in one direction (flat steps
/// allowed), and say which.
pub fn validate_monotonic(name: &str, truth: &[i32]) -> (r: Result<MonotonicDirection, String>)
    ensures
        match (r, monotonic_outcome(name@, truth@)) {
            (Ok(d), Ok(e)) => d == e,
            (Err(e), Err(t)) => e@ == t,
            _ => false,
        },
        r matches Ok(d) ==> forall|i: int, j: int|
            0 <= i <= j < truth@.len() ==> past(d, truth@[i] as int, truth@[j] as int),
{
    let n = truth.len();
    if n < 2 {
        return Err(prefixed(name, ": domain must contain at least two inputs"));
    }
    let direction = if truth[n - 1] < truth[0] {
        MonotonicDirection::Decreasing
    } else {
        MonotonicDirection::Increasing
    };
    let mut o: usize = 1;
    while o < n
        invariant
            n == truth@.len(),
            n >= 2,
            1 <= o <= n,
            direction == declared_direction(truth@),
            forall|q: int| 1 <= q < o ==> !breaks_at(truth@, direction, q),
            forall|i: int, j: int|
                0 <= i <= j < o ==> past(direction, truth@[i] as int, truth@[j] as int),
        decreases n - o,
    {
        let ordered = match direction {
            MonotonicDirection::Increasing => truth[o] >= truth[o - 1],
            MonotonicDirection::Decreasing => truth[o] <= truth[o - 1],
        };
        if !ordered {
            let mut e = prefixed(name, ": source is not monotonic at domain offset ");
            e.append(decimal(o as u64).as_str());
            proof {
                let v = truth@;
                assert(breaks_at(v, direction, o as int));
                let first = first_break(v);
                assert(first == o) by {
                    if first < o {
                    } else if first > o {
                    }
                }
            }
            return Err(e);
        }
        proof {
            assert(!breaks_at(truth@, direction, o as int));
            assert forall|i: int, j: int| 0 <= i <= j < o + 1 implies past(
                direction,
                truth@[i] as int,
                truth@[j] as int,
            ) by {
                if j == o && i < j {
                    assert(past(direction, truth@[i] as int, truth@[o - 1] as int));
                }
            }
        }
        o = o + 1;
    }
    Ok(direction)
}

/// Input `o` lies above input `o - 1`.
pub open spec fn rises_at(inputs: Seq<u16>, o: int) -> bool {
    inputs[o - 1] < inputs[o]
}

/// What checking prefitted knots gives: an error, or the direction their
/// outputs move in.
pub open spec fn prefitted_outcome(
    name: Seq<char>,
    inputs: Seq<u16>,
    outputs: Seq<i32>,
    max_knots: usize,
) -> Result<MonotonicDirection, Seq<char>> {
    let p = transfer_prefix(name);
    if inputs.len() != outputs.len() {
        Err(p + ": prefitted inputs and outputs must have the same length"@)
    } else if inputs.len() < 2 {
        Err(p + ": prefitted knots must contain at least two entries"@)
    } else if inputs.len() > max_knots {
        Err(p + ": prefitted knot count "@ + decimal_spec(inputs.len()) + " exceeds max_knots="@
            + decimal_spec(max_knots as nat))
    } else if exists|o: int| 1 <= o < inputs.len() && !#[trigger] rises_at(inputs, o) {
        Err(p + ": prefitted inputs must be strictly increasing"@)
    } else {
        monotonic_outcome(name, outputs)
    }
}

/// Check the table shape of knots a caller fitted itself against the
/// transfer's knot budget. Knots that pass form a usable table, whose
/// round trip [`super::measure_inverse_code_error`] can audit.
pub fn check_prefitted_knots(name: &str, inputs: &[u16], outputs: &[i32], max_knots: usize) -> (r:
    Result<MonotonicDirection, String>)
    ensures
        match (r, prefitted_outcome(name@, inputs@, outputs@, max_knots)) {
            (Ok(d), Ok(e)) => d == e,
            (Err(e), Err(t)) => e@ == t,
            _ => false,
        },
        r matches Ok(d) ==> knots_valid(inputs@, outputs@, d),
{
    let n = inputs.len();
    if n != outputs.len() {
        return Err(prefixed(name, ": prefitted inputs and outputs must have the same length"));
    }
    if n < 2 {
        return Err(prefixed(name, ": prefitted knots must contain at least two entries"));
    }
    if n > max_knots {
        let mut e = prefixed(name, ": prefitted knot count ");
        e.append(decimal(n as u64).as_str());
        e.append(" exceeds max_knots=");
        e.append(decimal(max_knots as u64).as_str());
        return Err(e);
    }
    let mut o: usize = 1;
    while o < n
        invariant
            n == inputs@.len(),
            n == outputs@.len(),
            2 <= n <= max_knots,
            1 <= o <= n,
            forall|q: int| 1 <= q < o ==> #[trigger] rises_at(inputs@, q),
            forall|i: int, j: int| 0 <= i < j < o ==> inputs@[i] < inputs@[j],
        decreases n - o,
    {
        if inputs[o] <= inputs[o - 1] {
            assert(!rises_at(inputs@, o as int));
            return Err(prefixed(name, ": prefitted inputs must be strictly increasing"));
        }
        o = o + 1;
    }
    let direction = validate_monotonic(name, outputs)?;
    proof {
        reveal(knots_valid);
    }
    Ok(direction)
}

} // verus!
