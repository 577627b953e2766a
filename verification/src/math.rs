//! Fixed-point math helpers and the [`UnitValue`] abstraction.
//!
//! Interpolation uses the `fixed` crate (through [`crate::fixed_point`]);
//! everything else is plain integer arithmetic.

use vstd::prelude::*;

use crate::round::abs_int;
use crate::fixed_point::{
    trunc_div, i16f16_div_bits, i16f16_mul_bits,
    i32f32_add, i32f32_ceil, i32f32_div, i32f32_div_bits, i32f32_from_int, i32f32_mul, i32f32_mul_bits,
    i32f32_sub, i32f32_to_i64, i16f16_add, i16f16_div, i16f16_from_int, i16f16_mul, i16f16_sub,
    i16f16_to_i32, scale16, scale32, u16f16_div, u16f16_from_int, u16f16_mul, u16f16_to_u32,
};

verus! {

/// Rounding policy used by [`quantize`] and the tickless scheduler.
#[derive(Copy, Clone, Debug, PartialEq, Eq, Structural)]
pub enum Rounding {
    /// Round down to the nearest multiple of `step`.
    Floor,
    /// Round up to the nearest multiple of `step`.
    Ceil,
    /// Round to the nearest multiple of `step` (half-up).
    Nearest,
}

/// The unclamped multiple of `step` that `rounding` selects for `value`.
pub open spec fn snap_to_step(value: int, step: int, rounding: Rounding) -> int {
    match rounding {
        Rounding::Floor => (value / step) * step,
        Rounding::Ceil => ((value + step - 1) / step) * step,
        Rounding::Nearest => ((value + step / 2) / step) * step,
    }
}

/// [`quantize`]: the selected multiple of `step`, saturated at `u16::MAX`.
pub open spec fn quantize_spec(value: int, step: int, rounding: Rounding) -> int {
    let snapped = snap_to_step(value, step, rounding);
    if snapped > u16::MAX {
        u16::MAX as int
    } else {
        snapped
    }
}

/// Snap `value` to a multiple of `step` according to `rounding`, saturating
/// at `u16::MAX`. A zero `step` is a division by zero and is excluded.
pub fn quantize(value: u16, step: u16, rounding: Rounding) -> (q: u16)
    requires
        step != 0,
    ensures
        q == quantize_spec(value as int, step as int, rounding),
{
    let v = value as u32;
    let s = step as u32;
    let n: u32 = match rounding {
        Rounding::Floor => v,
        Rounding::Ceil => v + s - 1,
        Rounding::Nearest => v + s / 2,
    };
    proof {
        assert((n / s) * s <= n) by (nonlinear_arith)
            requires
                s > 0,
        ;
    }
    let result: u32 = (n / s) * s;
    if result > u16::MAX as u32 {
        u16::MAX
    } else {
        result as u16
    }
}

/// A multiple of `step`, at most `value` for `Floor`, at least `value` for
/// `Ceil` (before saturation), and within `step / 2` of `value` for
/// `Nearest`.
pub proof fn lemma_snap_to_step(value: int, step: int, rounding: Rounding)
    requires
        value >= 0,
        step > 0,
    ensures
        snap_to_step(value, step, rounding) % step == 0,
        rounding == Rounding::Floor ==> value - step < snap_to_step(value, step, rounding) <= value,
        rounding == Rounding::Ceil ==> value <= snap_to_step(value, step, rounding) < value + step,
        rounding == Rounding::Nearest ==> value - (step - step / 2) < snap_to_step(
            value,
            step,
            rounding,
        ) <= value + step / 2,
{
    let n: int = match rounding {
        Rounding::Floor => value,
        Rounding::Ceil => value + step - 1,
        Rounding::Nearest => value + step / 2,
    };
    let q = n / step;
    assert(n - step < q * step <= n) by (nonlinear_arith)
        requires
            step > 0,
            q == n / step,
    ;
    assert((q * step) % step == 0) by (nonlinear_arith)
        requires
            step > 0,
    ;
}

/// [`next_target_value`]: one saturating `step` toward `end`, not past it.
pub open spec fn next_target_spec(current: int, end: int, step: int, increasing: bool) -> int {
    if increasing {
        let next = if current + step > u16::MAX { u16::MAX as int } else { current + step };
        if next < end { next } else { end }
    } else {
        let next = if current - step < 0 { 0 } else { current - step };
        if next > end { next } else { end }
    }
}

/// Return the next quantized target value one `step` closer to `end`.
///
/// If `increasing` is `true` the value advances upward; otherwise downward.
/// The result is clamped so it never overshoots `end`.
pub fn next_target_value(current: u16, end: u16, step: u16, increasing: bool) -> (next: u16)
    ensures
        next == next_target_spec(current as int, end as int, step as int, increasing),
{
    if increasing {
        let next = current.saturating_add(step);
        if next < end {
            next
        } else {
            end
        }
    } else {
        let next = current.saturating_sub(step);
        if next > end {
            next
        } else {
            end
        }
    }
}

// ---------------------------------------------------------------------------
// UnitValue
// ---------------------------------------------------------------------------

/// A normalized value type usable as a curve domain / range.
///
/// Implementors map a unit interval onto a discrete integer type so that the
/// tickless scheduler can convert between wall-clock time fractions and curve
/// positions. The spec functions name what each operation returns; the
/// trait-level `ensures` clauses are the promises every implementation makes.
pub trait UnitValue: Copy + Sized + 'static {
    /// Position of the value on the discrete unit interval.
    spec fn spec_index(self) -> nat;

    /// Position of [`UnitValue::one`].
    spec fn spec_one() -> nat;

    /// The value [`UnitValue::zero`] returns.
    spec fn spec_zero() -> Self;

    /// The value [`UnitValue::one`] returns.
    spec fn spec_unit() -> Self;

    /// What [`UnitValue::from_time_frac`] returns.
    spec fn spec_from_time_frac(elapsed_ms: u32, duration_ms: u32) -> Self;

    /// What [`UnitValue::to_time_offset`] returns.
    spec fn spec_to_time_offset(self, duration_ms: u32) -> u32;

    /// What [`UnitValue::lerp_u16`] returns.
    spec fn spec_lerp_u16(self, a: u16, b: u16) -> u16;

    /// What [`UnitValue::inv_lerp_u16`] returns.
    spec fn spec_inv_lerp_u16(a: u16, b: u16, target: u16) -> Self;

    /// The inputs on which [`UnitValue::inv_lerp_u16`] stays within the
    /// range of its fixed-point arithmetic.
    spec fn spec_inv_lerp_defined(a: u16, b: u16, target: u16) -> bool;

    /// Every value lies on `0..=one`, and `one` has a usable table index.
    proof fn lemma_index_bounds(self)
        ensures
            self.spec_index() <= Self::spec_one(),
            Self::spec_one() < usize::MAX,
            Self::spec_zero().spec_index() == 0,
            Self::spec_unit().spec_index() == Self::spec_one(),
    ;

    /// A later instant of a segment is no earlier on the unit interval.
    proof fn lemma_time_frac_monotone(e1: u32, e2: u32, duration_ms: u32)
        requires
            0 < e1 <= e2,
        ensures
            Self::spec_from_time_frac(e1, duration_ms).spec_index() <= Self::spec_from_time_frac(
                e2,
                duration_ms,
            ).spec_index(),
    ;

    /// Interpolation moves one way: a later position is no lower between
    /// `a <= b`, and no higher between `a > b`.
    proof fn lemma_lerp_monotone(t1: Self, t2: Self, a: u16, b: u16)
        requires
            t1.spec_index() <= t2.spec_index(),
        ensures
            a <= b ==> t1.spec_lerp_u16(a, b) <= t2.spec_lerp_u16(a, b),
            a > b ==> t1.spec_lerp_u16(a, b) >= t2.spec_lerp_u16(a, b),
    ;

    /// The value representing 0 (start of the interval).
    fn zero() -> (z: Self)
        ensures
            z == Self::spec_zero(),
            z.spec_index() == 0,
    ;

    /// The value representing 1 (end of the interval).
    fn one() -> (o: Self)
        ensures
            o == Self::spec_unit(),
            o.spec_index() == Self::spec_one(),
    ;

    /// Convert this value to a LUT index (0-based).
    fn to_index(self) -> (i: usize)
        ensures
            i == self.spec_index(),
    ;

    /// Create a value from a time fraction `elapsed / duration`.
    ///
    /// Returns [`Self::one()`] when `elapsed >= duration`, and
    /// [`Self::zero()`] when `elapsed == 0 < duration`.
    fn from_time_frac(elapsed_ms: u32, duration_ms: u32) -> (v: Self)
        ensures
            v == Self::spec_from_time_frac(elapsed_ms, duration_ms),
            elapsed_ms >= duration_ms ==> v.spec_index() == Self::spec_one(),
            elapsed_ms == 0 && duration_ms > 0 ==> v.spec_index() == 0,
    ;

    /// Convert this value back to a wall-clock offset in milliseconds within
    /// `duration_ms`, rounding up.
    fn to_time_offset(self, duration_ms: u32) -> (offset: u32)
        ensures
            offset == self.spec_to_time_offset(duration_ms),
            offset <= duration_ms,
    ;

    /// Linearly interpolate between two `u16` endpoints using `self` as the
    /// blend weight.
    fn lerp_u16(self, a: u16, b: u16) -> (v: u16)
        ensures
            v == self.spec_lerp_u16(a, b),
            self.spec_index() == 0 ==> v == a,
            self.spec_index() == Self::spec_one() ==> v == b,
            a <= b ==> a <= v <= b,
            b <= a ==> b <= v <= a,
    ;

    /// Inverse linear interpolation: find the blend weight `T` such that
    /// `T::lerp_u16(a, b) ≈ target`, rounding toward `b`.
    fn inv_lerp_u16(a: u16, b: u16, target: u16) -> (v: Self)
        requires
            Self::spec_inv_lerp_defined(a, b, target),
        ensures
            v == Self::spec_inv_lerp_u16(a, b, target),
    ;
}

/// `elapsed / duration` scaled onto `0..=one`, truncated; `one` once
/// `elapsed >= duration` (or `duration == 0`).
pub open spec fn time_frac_spec(elapsed: int, duration: int, one: int) -> int {
    if duration == 0 || elapsed >= duration {
        one
    } else if elapsed == 0 {
        0
    } else {
        elapsed * one / duration
    }
}

/// `ceil(value * duration / one)`, and `0` for a zero duration.
pub open spec fn time_offset_spec(value: int, duration: int, one: int) -> int {
    if duration == 0 {
        0
    } else {
        (value * duration + one - 1) / one
    }
}

/// `I32F32` bits of the blend weight `value / one`, as `fixed` divides them.
pub open spec fn unit_weight_bits(value: int, one: int) -> int {
    i32f32_div_bits(value * scale32(), one * scale32())
}

/// `a + weight * (b - a)` in `I32F32`, floored to an integer and clamped to
/// `0..=u16::MAX`: the blend used by every `lerp_u16`.
pub open spec fn fixed_lerp_u16_spec(weight_bits: int, a: int, b: int) -> int {
    let sum = a * scale32() + i32f32_mul_bits(weight_bits, (b - a) * scale32());
    let n = sum / scale32();
    if n < 0 {
        0
    } else if n > u16::MAX {
        u16::MAX as int
    } else {
        n
    }
}

/// `I32F32` bits of `(target - a) / (b - a)` as `fixed` divides them.
pub open spec fn inv_lerp_frac_bits(a: int, b: int, target: int) -> int {
    i32f32_div_bits((target - a) * scale32(), (b - a) * scale32())
}

/// The inverse blend stays within `fixed`'s range: either the endpoints
/// coincide, or the scaled weight `frac * one` is below `2^62` in magnitude.
pub open spec fn inv_lerp_in_range(a: int, b: int, target: int, one: int) -> bool {
    a == b || (-0x4000_0000_0000_0000 < inv_lerp_frac_bits(a, b, target) * one
        < 0x4000_0000_0000_0000)
}

/// The weight `ceil((target - a) / (b - a) * one)` clamped to `0..=one`,
/// computed in `I32F32`; `one` when `a == b`.
pub open spec fn fixed_inv_lerp_spec(a: int, b: int, target: int, one: int) -> int {
    if a == b {
        one
    } else {
        let frac = inv_lerp_frac_bits(a, b, target);
        let scaled = i32f32_mul_bits(frac, one * scale32());
        let w = -((-scaled) / scale32());
        if w < 0 {
            0
        } else if w > one {
            one
        } else {
            w
        }
    }
}

/// `I32F32` bit bounds of the quantities `lerp` forms; every product and sum
/// it builds fits comfortably in `i64`.
proof fn lemma_weight_bits_bounds(value: int, one: int)
    requires
        0 <= value <= one,
        1 <= one <= 0xffff,
    ensures
        0 <= unit_weight_bits(value, one) <= scale32(),
        value == one ==> unit_weight_bits(value, one) == scale32(),
        value == 0 ==> unit_weight_bits(value, one) == 0,
{
    let n = value * scale32() * scale32();
    let d = one * scale32();
    assert(n >= 0 && d > 0) by (nonlinear_arith)
        requires
            value >= 0,
            one >= 1,
            n == value * scale32() * scale32(),
            d == one * scale32(),
    ;
    assert(unit_weight_bits(value, one) == n / d);
    assert(n / d <= scale32()) by (nonlinear_arith)
        requires
            n == value * scale32() * scale32(),
            d == one * scale32(),
            value <= one,
            one >= 1,
    {
        assert(n <= scale32() * d);
    }
    assert(0 <= n / d) by (nonlinear_arith)
        requires
            n >= 0,
            d > 0,
    ;
    if value == one {
        assert(n == scale32() * d) by (nonlinear_arith)
            requires
                n == value * scale32() * scale32(),
                d == one * scale32(),
                value == one,
        ;
        assert(n / d == scale32()) by (nonlinear_arith)
            requires
                n == scale32() * d,
                d > 0,
        ;
    }
    if value == 0 {
        assert(n == 0) by (nonlinear_arith)
            requires
                n == value * scale32() * scale32(),
                value == 0,
        ;
    }
}

/// Blend of `a` and `b` by an `I32F32` weight in `[0, 1]`: the sum never
/// leaves `[min(a, b), max(a, b)]`, and the weight endpoints give `a` and `b`.
pub proof fn lemma_fixed_lerp_endpoints(weight_bits: int, a: int, b: int)
    requires
        0 <= weight_bits <= scale32(),
        0 <= a <= u16::MAX,
        0 <= b <= u16::MAX,
    ensures
        weight_bits == 0 ==> fixed_lerp_u16_spec(weight_bits, a, b) == a,
        weight_bits == scale32() ==> fixed_lerp_u16_spec(weight_bits, a, b) == b,
        a <= b ==> a <= fixed_lerp_u16_spec(weight_bits, a, b) <= b,
        b <= a ==> b <= fixed_lerp_u16_spec(weight_bits, a, b) <= a,
{
    let d = (b - a) * scale32();
    let p = i32f32_mul_bits(weight_bits, d);
    let sum = a * scale32() + p;
    lemma_mul_bits_between(weight_bits, b - a);
    // p lies between 0 and (b - a) * 2^32, so sum lies between a and b (scaled).
    if a <= b {
        assert(a * scale32() <= sum <= b * scale32());
        assert(a <= sum / scale32() <= b) by (nonlinear_arith)
            requires
                a * scale32() <= sum <= b * scale32(),
        ;
    } else {
        assert(b * scale32() <= sum <= a * scale32());
        assert(b <= sum / scale32() <= a) by (nonlinear_arith)
            requires
                b * scale32() <= sum <= a * scale32(),
        ;
    }
    if weight_bits == 0 {
        assert(p == 0);
        assert(sum / scale32() == a) by (nonlinear_arith)
            requires
                sum == a * scale32(),
        ;
    }
    if weight_bits == scale32() {
        assert(p == d);
        assert(sum == b * scale32());
        assert(sum / scale32() == b) by (nonlinear_arith)
            requires
                sum == b * scale32(),
        ;
    }
}

/// `floor(w * (delta * 2^32) / 2^32)` with `0 <= w <= 2^32` lies between
/// `0` and `delta * 2^32`, and equals the endpoints at `w = 0` and `2^32`.
proof fn lemma_mul_bits_between(w: int, delta: int)
    requires
        0 <= w <= scale32(),
        -0x10000 <= delta <= 0x10000,
    ensures
        delta >= 0 ==> 0 <= i32f32_mul_bits(w, delta * scale32()) <= delta * scale32(),
        delta <= 0 ==> delta * scale32() <= i32f32_mul_bits(w, delta * scale32()) <= 0,
        w == 0 ==> i32f32_mul_bits(w, delta * scale32()) == 0,
        w == scale32() ==> i32f32_mul_bits(w, delta * scale32()) == delta * scale32(),
        -0x1_0000_0000_0000 <= i32f32_mul_bits(w, delta * scale32()) <= 0x1_0000_0000_0000,
{
    let p = w * (delta * scale32());
    assert(p == (w * delta) * scale32()) by (nonlinear_arith)
        requires
            p == w * (delta * scale32()),
    ;
    assert(i32f32_mul_bits(w, delta * scale32()) == w * delta) by (nonlinear_arith)
        requires
            p == (w * delta) * scale32(),
            i32f32_mul_bits(w, delta * scale32()) == p / scale32(),
    ;
    assert(delta >= 0 ==> 0 <= w * delta <= delta * scale32()) by (nonlinear_arith)
        requires
            0 <= w <= scale32(),
    ;
    assert(delta <= 0 ==> delta * scale32() <= w * delta <= 0) by (nonlinear_arith)
        requires
            0 <= w <= scale32(),
    ;
    assert(w == scale32() ==> w * delta == delta * scale32()) by (nonlinear_arith);
    assert(-0x1_0000_0000_0000 <= w * delta <= 0x1_0000_0000_0000) by (nonlinear_arith)
        requires
            0 <= w <= scale32(),
            -0x10000 <= delta <= 0x10000,
    ;
}

/// Shared body of the `lerp_u16` implementations: blend with an `I32F32`
/// weight of `value / one` and clamp to `u16`.
fn fixed_lerp_u16(value: i64, one: i64, a: u16, b: u16) -> (v: u16)
    requires
        0 <= value <= one,
        1 <= one <= 0xffff,
    ensures
        v == fixed_lerp_u16_spec(unit_weight_bits(value as int, one as int), a as int, b as int),
{
    proof {
        lemma_weight_bits_bounds(value as int, one as int);
    }
    let a_fix = i32f32_from_int(a as i64);
    let b_fix = i32f32_from_int(b as i64);
    let value_fix = i32f32_from_int(value);
    let one_fix = i32f32_from_int(one);
    proof {
        assert(one_fix > 0) by (nonlinear_arith)
            requires
                one_fix == one * scale32(),
                one >= 1,
        ;
    }
    let t = i32f32_div(value_fix, one_fix);
    let delta = i32f32_sub(b_fix, a_fix);
    proof {
        assert(delta == (b - a) * scale32());
        lemma_mul_bits_between(t as int, b - a);
        assert(-0x1_0000_0000_0000_0000_0000 <= t * delta <= 0x1_0000_0000_0000_0000_0000) by (
        nonlinear_arith)
            requires
                0 <= t <= scale32(),
                -0x10000 * scale32() <= delta <= 0x10000 * scale32(),
        ;
    }
    let scaled = i32f32_mul(t, delta);
    let result = i32f32_add(a_fix, scaled);
    let n = i32f32_to_i64(result);
    if n < 0 {
        0
    } else if n > u16::MAX as i64 {
        u16::MAX
    } else {
        n as u16
    }
}

/// Shared body of the `inv_lerp_u16` implementations: the weight on
/// `0..=one` whose blend of `a` and `b` reaches `target`, rounded up.
fn fixed_inv_lerp(a: u16, b: u16, target: u16, one: i64) -> (w: i64)
    requires
        1 <= one <= 0xffff,
        inv_lerp_in_range(a as int, b as int, target as int, one as int),
    ensures
        w == fixed_inv_lerp_spec(a as int, b as int, target as int, one as int),
        0 <= w <= one,
{
    if a == b {
        return one;
    }
    let a_fix = i32f32_from_int(a as i64);
    let b_fix = i32f32_from_int(b as i64);
    let t_fix = i32f32_from_int(target as i64);
    let delta = i32f32_sub(b_fix, a_fix);
    let numer = i32f32_sub(t_fix, a_fix);
    proof {
        lemma_inv_lerp_bounds(a as int, b as int, target as int, one as int);
        let f = inv_lerp_frac_bits(a as int, b as int, target as int);
        assert(-0x4000_0000_0000_0000_0000_0000 < f * (one * scale32())
            < 0x4000_0000_0000_0000_0000_0000) by (nonlinear_arith)
            requires
                f * (one * scale32()) == (f * one) * scale32(),
                -0x4000_0000_0000_0000 < f * one < 0x4000_0000_0000_0000,
        ;
    }
    let frac = i32f32_div(numer, delta);
    let one_fix = i32f32_from_int(one);
    let scaled = i32f32_mul(frac, one_fix);
    let up = i32f32_ceil(scaled);
    let w = i32f32_to_i64(up);
    proof {
        let c = -((-(scaled as int)) / scale32());
        assert((c * scale32()) / scale32() == c) by (nonlinear_arith);
    }
    if w < 0 {
        0
    } else if w > one {
        one
    } else {
        w
    }
}

/// Bit bounds for the inverse blend: the quotient is at most `2^48` in
/// magnitude, and the `I32F32` product with `one` is exactly `frac * one`.
proof fn lemma_inv_lerp_bounds(a: int, b: int, target: int, one: int)
    requires
        0 <= a <= 0xffff,
        0 <= b <= 0xffff,
        0 <= target <= 0xffff,
        a != b,
        1 <= one <= 0xffff,
    ensures
        ({
            let frac = inv_lerp_frac_bits(a, b, target);
            &&& -0x1_0000_0000_0000 <= frac <= 0x1_0000_0000_0000
            &&& i32f32_mul_bits(frac, one * scale32()) == frac * one
            &&& frac * (one * scale32()) == (frac * one) * scale32()
        }),
{
    let n = (target - a) * scale32() * scale32();
    let d = (b - a) * scale32();
    let frac = inv_lerp_frac_bits(a, b, target);
    assert(abs_int(d) >= scale32()) by (nonlinear_arith)
        requires
            d == (b - a) * scale32(),
            a != b,
    ;
    assert(abs_int(n) <= 0x10000 * scale32() * scale32()) by (nonlinear_arith)
        requires
            n == (target - a) * scale32() * scale32(),
            0 <= a <= 0xffff,
            0 <= target <= 0xffff,
    ;
    assert(frac == trunc_div(n, d));
    assert(abs_int(n) / abs_int(d) <= 0x10000 * scale32()) by (nonlinear_arith)
        requires
            abs_int(d) >= scale32(),
            abs_int(n) <= 0x10000 * scale32() * scale32(),
            abs_int(n) >= 0,
    {
        assert(abs_int(n) <= (0x10000 * scale32()) * abs_int(d));
    }
    assert(abs_int(n) / abs_int(d) >= 0) by (nonlinear_arith)
        requires
            abs_int(d) > 0,
            abs_int(n) >= 0,
    ;
    let p = frac * (one * scale32());
    assert(p == (frac * one) * scale32()) by (nonlinear_arith)
        requires
            p == frac * (one * scale32()),
    ;
    assert(p / scale32() == frac * one) by (nonlinear_arith)
        requires
            p == (frac * one) * scale32(),
    ;
}

/// With `one == 255` the inverse blend never leaves `fixed`'s range.
proof fn lemma_inv_lerp_in_range_u8(a: int, b: int, target: int)
    requires
        0 <= a <= 0xffff,
        0 <= b <= 0xffff,
        0 <= target <= 0xffff,
    ensures
        inv_lerp_in_range(a, b, target, 255),
{
    if a != b {
        lemma_inv_lerp_bounds(a, b, target, 255);
        let frac = inv_lerp_frac_bits(a, b, target);
        assert(-0x4000_0000_0000_0000 < frac * 255 < 0x4000_0000_0000_0000) by (nonlinear_arith)
            requires
                -0x1_0000_0000_0000 <= frac <= 0x1_0000_0000_0000,
        ;
    }
}

/// `ceil(value * d / one) == value * (d / one) + ceil(value * (d % one) / one)`:
/// splitting the duration keeps the offset computation in 32 bits.
proof fn lemma_split_time_offset(value: int, d: int, one: int)
    requires
        0 <= value <= one,
        d >= 1,
        one >= 2,
    ensures
        (value * d + one - 1) / one == value * (d / one) + (value * (d % one) + one - 1) / one,
        (value * d + one - 1) / one <= d,
        value * (d / one) <= d,
        value * (d % one) <= one * (one - 1),
{
    let k = d / one;
    let r = d % one;
    assert(d == one * k + r && 0 <= r < one && k >= 0) by (nonlinear_arith)
        requires
            one > 0,
            d >= 0,
            k == d / one,
            r == d % one,
    ;
    let x = value * (d % one) + one - 1;
    assert(value * d + one - 1 == one * (value * k) + x) by (nonlinear_arith)
        requires
            d == one * k + r,
            x == value * r + one - 1,
    ;
    assert((one * (value * k) + x) / one == value * k + x / one) by (nonlinear_arith)
        requires
            one > 0,
            x >= 0,
            value * k >= 0,
    {
        let q = x / one;
        let r2 = x % one;
        vstd::arithmetic::div_mod::lemma_fundamental_div_mod(x, one);
        assert(one * (value * k) + x == one * (value * k + q) + r2) by (nonlinear_arith)
            requires
                x == one * q + r2,
        ;
        vstd::arithmetic::div_mod::lemma_div_multiples_vanish_fancy(value * k + q, r2, one);
        assert(one * (value * k + q) == (value * k + q) * one) by (nonlinear_arith);
    }
    assert(value * d + one - 1 < one * (d + 1)) by (nonlinear_arith)
        requires
            0 <= value <= one,
            d >= 1,
    ;
    assert((value * d + one - 1) / one <= d) by (nonlinear_arith)
        requires
            value * d + one - 1 < one * (d + 1),
            value * d + one - 1 >= 0,
            one > 0,
    ;
    assert(value * k <= one * k) by (nonlinear_arith)
        requires
            value <= one,
            k >= 0,
    ;
    assert(value * r <= one * (one - 1)) by (nonlinear_arith)
        requires
            0 <= value <= one,
            0 <= r <= one - 1,
    ;
}

// ---------------------------------------------------------------------------
// Interpolation helpers
// ---------------------------------------------------------------------------

/// `I16F16` bits of the weight `w / 255`, as `fixed` divides them.
pub open spec fn u8_weight_bits16(w: int) -> int {
    i16f16_div_bits(w * scale16(), 255 * scale16())
}

/// [`lerp_u8`]: `a + (w / 255) * (b - a)` in `I16F16`, floored and clamped
/// to `0..=255`.
pub open spec fn lerp_u8_spec(a: int, b: int, w: int) -> int {
    let sum = a * scale16() + i16f16_mul_bits(u8_weight_bits16(w), (b - a) * scale16());
    let n = sum / scale16();
    if n < 0 {
        0
    } else if n > 255 {
        255
    } else {
        n
    }
}

/// [`map_u8_to_u16`]: `(w / 255) * max` in `U16F16`, floored and saturated
/// at `u16::MAX`.
pub open spec fn map_u8_to_u16_spec(w: int, max: int) -> int {
    let t = (w * scale16()) * scale16() / (255 * scale16());
    let n = (t * (max * scale16()) / scale16()) / scale16();
    if n > u16::MAX {
        u16::MAX as int
    } else {
        n
    }
}

/// Convert a `u8` weight (`0..=255`) to an `I16F16` fraction in `[0, 1]`.
fn weight_frac(w: u8) -> (bits: i32)
    ensures
        bits == u8_weight_bits16(w as int),
        0 <= bits <= scale16(),
        w == 0 ==> bits == 0,
        w == 255 ==> bits == scale16(),
{
    let w_fix = i16f16_from_int(w as i32);
    let max_fix = i16f16_from_int(255);
    proof {
        let n = (w as int) * scale16() * scale16();
        let d = 255 * scale16();
        assert(i16f16_div_bits(w * scale16(), 255 * scale16()) == n / d);
        assert(0 <= n / d <= scale16()) by (nonlinear_arith)
            requires
                n == (w as int) * scale16() * scale16(),
                d == 255 * scale16(),
                0 <= w <= 255,
        {
            assert(n <= scale16() * d);
        }
        if w == 255 {
            assert(n / d == scale16()) by (nonlinear_arith)
                requires
                    n == 255 * scale16() * scale16(),
                    d == 255 * scale16(),
            ;
        }
    }
    i16f16_div(w_fix, max_fix)
}

/// Linearly interpolate between `a` and `b` with a `u8` blend weight.
///
/// `w = 0` returns `a`, `w = 255` returns `b`. Intermediate values are
/// computed in `I16F16` and clamped to `0..=255`.
pub fn lerp_u8(a: u8, b: u8, w: u8) -> (v: u8)
    ensures
        v == lerp_u8_spec(a as int, b as int, w as int),
        w == 0 ==> v == a,
        w == 255 ==> v == b,
        a <= b ==> a <= v <= b,
        b <= a ==> b <= v <= a,
{
    let a_fix = i16f16_from_int(a as i32);
    let b_fix = i16f16_from_int(b as i32);
    let t = weight_frac(w);
    let delta = i16f16_sub(b_fix, a_fix);
    let ghost d = b - a;
    proof {
        assert(delta == d * scale16());
        let p = t * (d * scale16());
        assert(p == (t * d) * scale16()) by (nonlinear_arith)
            requires
                p == t * (d * scale16()),
        ;
        assert(p / scale16() == t * d) by (nonlinear_arith)
            requires
                p == (t * d) * scale16(),
        ;
        assert(d >= 0 ==> 0 <= t * d <= d * scale16()) by (nonlinear_arith)
            requires
                0 <= t <= scale16(),
        ;
        assert(d <= 0 ==> d * scale16() <= t * d <= 0) by (nonlinear_arith)
            requires
                0 <= t <= scale16(),
        ;
        assert(t == scale16() ==> t * d == d * scale16()) by (nonlinear_arith);
        assert(t == 0 ==> t * d == 0) by (nonlinear_arith);
    }
    let scaled = i16f16_mul(t, delta);
    let result = i16f16_add(a_fix, scaled);
    let n = i16f16_to_i32(result);
    proof {
        let lo = if a <= b { a as int } else { b as int };
        let hi = if a <= b { b as int } else { a as int };
        assert(lo * scale16() <= result <= hi * scale16());
        assert(lo <= (result as int) / scale16() <= hi) by (nonlinear_arith)
            requires
                lo * scale16() <= result <= hi * scale16(),
        ;
        if w == 0 {
            assert(result == a * scale16());
            assert((result as int) / scale16() == a) by (nonlinear_arith)
                requires
                    result == a * scale16(),
            ;
        }
        if w == 255 {
            assert(result == b * scale16());
            assert((result as int) / scale16() == b) by (nonlinear_arith)
                requires
                    result == b * scale16(),
            ;
        }
    }
    if n < 0 {
        0
    } else if n > 255 {
        255
    } else {
        n as u8
    }
}

/// Linearly interpolate between two `u16` values with a `u8` blend weight.
///
/// `w = 0` returns `a`, `w = 255` returns `b`; the blend is computed in
/// `I32F32` and clamped to `0..=u16::MAX`.
pub fn lerp_u16(a: u16, b: u16, w: u8) -> (v: u16)
    ensures
        v == fixed_lerp_u16_spec(unit_weight_bits(w as int, 255), a as int, b as int),
        w == 0 ==> v == a,
        w == 255 ==> v == b,
        a <= b ==> a <= v <= b,
        b <= a ==> b <= v <= a,
{
    proof {
        lemma_weight_bits_bounds(w as int, 255);
        lemma_fixed_lerp_endpoints(unit_weight_bits(w as int, 255), a as int, b as int);
    }
    fixed_lerp_u16(w as i64, 255, a, b)
}

/// Scale a normalized `u8` value (`0..=255`) into a `u16` range `0..=max`.
///
/// `w = 0` returns `0`, `w = 255` returns `max`.
pub fn map_u8_to_u16(w: u8, max: u16) -> (v: u16)
    ensures
        v == map_u8_to_u16_spec(w as int, max as int),
        w == 0 ==> v == 0,
        w == 255 ==> v == max,
        v <= max,
{
    let w_fix = u16f16_from_int(w as u32);
    let max_w = u16f16_from_int(255);
    let ghost t_spec = (w * scale16()) * scale16() / (255 * scale16());
    proof {
        let n = (w as int) * scale16() * scale16();
        let d = 255 * scale16();
        assert(0 <= n / d <= scale16()) by (nonlinear_arith)
            requires
                n == (w as int) * scale16() * scale16(),
                d == 255 * scale16(),
                0 <= w <= 255,
        {
            assert(n <= scale16() * d);
        }
        if w == 255 {
            assert(n / d == scale16()) by (nonlinear_arith)
                requires
                    n == 255 * scale16() * scale16(),
                    d == 255 * scale16(),
            ;
        }
        if w == 0 {
            assert(n == 0);
        }
    }
    let t = u16f16_div(w_fix, max_w);
    let max_fix = u16f16_from_int(max as u32);
    proof {
        let p = (t as int) * (max * scale16());
        assert(p == (t * max) * scale16()) by (nonlinear_arith)
            requires
                p == (t as int) * (max * scale16()),
        ;
        assert(p / scale16() == t * max) by (nonlinear_arith)
            requires
                p == (t * max) * scale16(),
        ;
        assert(0 <= t * max <= max * scale16()) by (nonlinear_arith)
            requires
                0 <= t <= scale16(),
                0 <= max,
        ;
        assert(t == scale16() ==> t * max == max * scale16()) by (nonlinear_arith);
        assert(t == 0 ==> t * max == 0) by (nonlinear_arith);
    }
    let scaled = u16f16_mul(t, max_fix);
    let n = u16f16_to_u32(scaled);
    proof {
        assert((scaled as int) / scale16() <= max) by (nonlinear_arith)
            requires
                scaled <= max * scale16(),
        ;
        if w == 255 {
            assert((scaled as int) / scale16() == max) by (nonlinear_arith)
                requires
                    scaled == max * scale16(),
            ;
        }
    }
    if n > u16::MAX as u32 {
        u16::MAX
    } else {
        n as u16
    }
}

/// A later instant gives a time fraction no smaller.
proof fn lemma_time_frac_ordered(e1: int, e2: int, d: int, one: int)
    requires
        0 < e1 <= e2,
        one > 0,
        d >= 0,
    ensures
        time_frac_spec(e1, d, one) <= time_frac_spec(e2, d, one),
{
    if d > 0 && e1 < d {
        assert(e1 * one / d <= one) by (nonlinear_arith)
            requires
                0 < e1 < d,
                one > 0,
        {
            assert(e1 * one <= d * one);
            vstd::arithmetic::div_mod::lemma_div_is_ordered(e1 * one, d * one, d);
            vstd::arithmetic::div_mod::lemma_div_multiples_vanish(one, d);
        }
        if e2 < d {
            assert(e1 * one <= e2 * one) by (nonlinear_arith)
                requires
                    e1 <= e2,
                    one > 0,
            ;
            vstd::arithmetic::div_mod::lemma_div_is_ordered(e1 * one, e2 * one, d);
        }
    }
}

/// A larger unit value gives a weight no smaller.
proof fn lemma_weight_ordered(v1: int, v2: int, one: int)
    requires
        0 <= v1 <= v2,
        one > 0,
    ensures
        unit_weight_bits(v1, one) <= unit_weight_bits(v2, one),
{
    let d = one * scale32();
    assert(d > 0) by (nonlinear_arith)
        requires
            one > 0,
            d == one * scale32(),
            scale32() == 0x1_0000_0000,
    ;
    assert(0 <= v1 * scale32() * scale32() <= v2 * scale32() * scale32()) by (nonlinear_arith)
        requires
            0 <= v1 <= v2,
    ;
    vstd::arithmetic::div_mod::lemma_div_is_ordered(v1 * scale32() * scale32(), v2 * scale32() * scale32(), d);
}

/// The blend moves with its weight: up between `a <= b`, down otherwise.
proof fn lemma_fixed_lerp_ordered(w1: int, w2: int, a: int, b: int)
    requires
        w1 <= w2,
    ensures
        a <= b ==> fixed_lerp_u16_spec(w1, a, b) <= fixed_lerp_u16_spec(w2, a, b),
        a > b ==> fixed_lerp_u16_spec(w1, a, b) >= fixed_lerp_u16_spec(w2, a, b),
{
    let k = (b - a) * scale32();
    let p1 = w1 * k;
    let p2 = w2 * k;
    if a <= b {
        assert(p1 <= p2) by (nonlinear_arith)
            requires
                w1 <= w2,
                k >= 0,
                p1 == w1 * k,
                p2 == w2 * k,
        ;
        vstd::arithmetic::div_mod::lemma_div_is_ordered(p1, p2, scale32());
        let s1 = a * scale32() + p1 / scale32();
        let s2 = a * scale32() + p2 / scale32();
        vstd::arithmetic::div_mod::lemma_div_is_ordered(s1, s2, scale32());
    } else {
        assert(p2 <= p1) by (nonlinear_arith)
            requires
                w1 <= w2,
                k < 0,
                p1 == w1 * k,
                p2 == w2 * k,
        ;
        vstd::arithmetic::div_mod::lemma_div_is_ordered(p2, p1, scale32());
        let s1 = a * scale32() + p1 / scale32();
        let s2 = a * scale32() + p2 / scale32();
        vstd::arithmetic::div_mod::lemma_div_is_ordered(s2, s1, scale32());
    }
}

/// Quantization keeps order.
pub proof fn lemma_quantize_ordered(v1: int, v2: int, step: int, rounding: Rounding)
    requires
        v1 <= v2,
        step >= 1,
    ensures
        quantize_spec(v1, step, rounding) <= quantize_spec(v2, step, rounding),
{
    match rounding {
        Rounding::Floor => {
            vstd::arithmetic::div_mod::lemma_div_is_ordered(v1, v2, step);
            vstd::arithmetic::mul::lemma_mul_inequality(v1 / step, v2 / step, step);
        },
        Rounding::Ceil => {
            vstd::arithmetic::div_mod::lemma_div_is_ordered(v1 + step - 1, v2 + step - 1, step);
            vstd::arithmetic::mul::lemma_mul_inequality(
                (v1 + step - 1) / step,
                (v2 + step - 1) / step,
                step,
            );
        },
        Rounding::Nearest => {
            vstd::arithmetic::div_mod::lemma_div_is_ordered(v1 + step / 2, v2 + step / 2, step);
            vstd::arithmetic::mul::lemma_mul_inequality(
                (v1 + step / 2) / step,
                (v2 + step / 2) / step,
                step,
            );
        },
    }
}

/// A time fraction lies on `0..=one`.
proof fn lemma_time_frac_bounds(e: int, d: int, one: int)
    requires
        e >= 0,
        d >= 0,
        one > 0,
    ensures
        0 <= time_frac_spec(e, d, one) <= one,
{
    if d > 0 && 0 < e < d {
        assert(0 <= e * one / d <= one) by (nonlinear_arith)
            requires
                0 < e < d,
                one > 0,
        {
            assert(e * one <= d * one);
            vstd::arithmetic::div_mod::lemma_div_is_ordered(e * one, d * one, d);
            vstd::arithmetic::div_mod::lemma_div_multiples_vanish(one, d);
        }
    }
}

/// A blend lies on `0..=u16::MAX`.
proof fn lemma_fixed_lerp_clamped(w: int, a: int, b: int)
    ensures
        0 <= fixed_lerp_u16_spec(w, a, b) <= u16::MAX,
{
}

impl UnitValue for u8 {
    open spec fn spec_index(self) -> nat {
        self as nat
    }

    open spec fn spec_one() -> nat {
        255
    }

    open spec fn spec_zero() -> u8 {
        0
    }

    open spec fn spec_unit() -> u8 {
        255
    }

    open spec fn spec_from_time_frac(elapsed_ms: u32, duration_ms: u32) -> u8 {
        time_frac_spec(elapsed_ms as int, duration_ms as int, 255) as u8
    }

    open spec fn spec_to_time_offset(self, duration_ms: u32) -> u32 {
        time_offset_spec(self as int, duration_ms as int, 255) as u32
    }

    open spec fn spec_lerp_u16(self, a: u16, b: u16) -> u16 {
        fixed_lerp_u16_spec(unit_weight_bits(self as int, 255), a as int, b as int) as u16
    }

    open spec fn spec_inv_lerp_u16(a: u16, b: u16, target: u16) -> u8 {
        fixed_inv_lerp_spec(a as int, b as int, target as int, 255) as u8
    }

    open spec fn spec_inv_lerp_defined(a: u16, b: u16, target: u16) -> bool {
        true
    }

    proof fn lemma_index_bounds(self) {
    }

    proof fn lemma_time_frac_monotone(e1: u32, e2: u32, duration_ms: u32) {
        lemma_time_frac_ordered(e1 as int, e2 as int, duration_ms as int, 255);
        lemma_time_frac_bounds(e1 as int, duration_ms as int, 255);
        lemma_time_frac_bounds(e2 as int, duration_ms as int, 255);
    }

    proof fn lemma_lerp_monotone(t1: u8, t2: u8, a: u16, b: u16) {
        lemma_weight_ordered(t1 as int, t2 as int, 255);
        lemma_fixed_lerp_ordered(
            unit_weight_bits(t1 as int, 255),
            unit_weight_bits(t2 as int, 255),
            a as int,
            b as int,
        );
        lemma_fixed_lerp_clamped(unit_weight_bits(t1 as int, 255), a as int, b as int);
        lemma_fixed_lerp_clamped(unit_weight_bits(t2 as int, 255), a as int, b as int);
    }

    fn zero() -> (z: u8) {
        0
    }

    fn one() -> (o: u8) {
        255
    }

    fn to_index(self) -> (i: usize) {
        self as usize
    }

    fn from_time_frac(elapsed_ms: u32, duration_ms: u32) -> (v: u8) {
        if duration_ms == 0 || elapsed_ms >= duration_ms {
            return 255;
        }
        if elapsed_ms == 0 {
            return 0;
        }
        proof {
            assert((elapsed_ms as int) * 255 / (duration_ms as int) < 255) by (nonlinear_arith)
                requires
                    0 < elapsed_ms < duration_ms,
            ;
        }
        (elapsed_ms as u64 * 255 / duration_ms as u64) as u8
    }

    fn to_time_offset(self, duration_ms: u32) -> (offset: u32) {
        if duration_ms == 0 {
            return 0;
        }
        let v = self as u32;
        let k = duration_ms / 255;
        let r = duration_ms % 255;
        proof {
            lemma_split_time_offset(v as int, duration_ms as int, 255);
        }
        v * k + (v * r + 254) / 255
    }

    fn lerp_u16(self, a: u16, b: u16) -> (v: u16) {
        proof {
            lemma_weight_bits_bounds(self as int, 255);
            lemma_fixed_lerp_endpoints(unit_weight_bits(self as int, 255), a as int, b as int);
        }
        fixed_lerp_u16(self as i64, 255, a, b)
    }

    fn inv_lerp_u16(a: u16, b: u16, target: u16) -> (v: u8) {
        proof {
            lemma_inv_lerp_in_range_u8(a as int, b as int, target as int);
        }
        fixed_inv_lerp(a, b, target, 255) as u8
    }
}

impl UnitValue for u16 {
    open spec fn spec_index(self) -> nat {
        self as nat
    }

    open spec fn spec_one() -> nat {
        65535
    }

    open spec fn spec_zero() -> u16 {
        0
    }

    open spec fn spec_unit() -> u16 {
        65535
    }

    open spec fn spec_from_time_frac(elapsed_ms: u32, duration_ms: u32) -> u16 {
        time_frac_spec(elapsed_ms as int, duration_ms as int, 65535) as u16
    }

    open spec fn spec_to_time_offset(self, duration_ms: u32) -> u32 {
        time_offset_spec(self as int, duration_ms as int, 65535) as u32
    }

    open spec fn spec_lerp_u16(self, a: u16, b: u16) -> u16 {
        fixed_lerp_u16_spec(unit_weight_bits(self as int, 65535), a as int, b as int) as u16
    }

    open spec fn spec_inv_lerp_u16(a: u16, b: u16, target: u16) -> u16 {
        fixed_inv_lerp_spec(a as int, b as int, target as int, 65535) as u16
    }

    open spec fn spec_inv_lerp_defined(a: u16, b: u16, target: u16) -> bool {
        inv_lerp_in_range(a as int, b as int, target as int, 65535)
    }

    proof fn lemma_index_bounds(self) {
    }

    proof fn lemma_time_frac_monotone(e1: u32, e2: u32, duration_ms: u32) {
        lemma_time_frac_ordered(e1 as int, e2 as int, duration_ms as int, 65535);
        lemma_time_frac_bounds(e1 as int, duration_ms as int, 65535);
        lemma_time_frac_bounds(e2 as int, duration_ms as int, 65535);
    }

    proof fn lemma_lerp_monotone(t1: u16, t2: u16, a: u16, b: u16) {
        lemma_weight_ordered(t1 as int, t2 as int, 65535);
        lemma_fixed_lerp_ordered(
            unit_weight_bits(t1 as int, 65535),
            unit_weight_bits(t2 as int, 65535),
            a as int,
            b as int,
        );
        lemma_fixed_lerp_clamped(unit_weight_bits(t1 as int, 65535), a as int, b as int);
        lemma_fixed_lerp_clamped(unit_weight_bits(t2 as int, 65535), a as int, b as int);
    }

    fn zero() -> (z: u16) {
        0
    }

    fn one() -> (o: u16) {
        65535
    }

    fn to_index(self) -> (i: usize) {
        self as usize
    }

    fn from_time_frac(elapsed_ms: u32, duration_ms: u32) -> (v: u16) {
        if duration_ms == 0 || elapsed_ms >= duration_ms {
            return 65535;
        }
        if elapsed_ms == 0 {
            return 0;
        }
        proof {
            assert((elapsed_ms as int) * 65535 / (duration_ms as int) < 65535) by (nonlinear_arith)
                requires
                    0 < elapsed_ms < duration_ms,
            ;
        }
        (elapsed_ms as u64 * 65535 / duration_ms as u64) as u16
    }

    fn to_time_offset(self, duration_ms: u32) -> (offset: u32) {
        if duration_ms == 0 {
            return 0;
        }
        let v = self as u32;
        let k = duration_ms / 65535;
        let r = duration_ms % 65535;
        proof {
            lemma_split_time_offset(v as int, duration_ms as int, 65535);
        }
        v * k + (v * r + 65534) / 65535
    }

    fn lerp_u16(self, a: u16, b: u16) -> (v: u16) {
        proof {
            lemma_weight_bits_bounds(self as int, 65535);
            lemma_fixed_lerp_endpoints(unit_weight_bits(self as int, 65535), a as int, b as int);
        }
        fixed_lerp_u16(self as i64, 65535, a, b)
    }

    fn inv_lerp_u16(a: u16, b: u16, target: u16) -> (v: u16) {
        fixed_inv_lerp(a, b, target, 65535) as u16
    }
}

} // verus!
