//! Standalone invertible `i32` affine transform.
//!
//! [`AffineTransform`] applies `y' = (y * gain + offset) / scale` to an
//! already-converted signed measurement, rounding to nearest with ties away
//! from zero, and undoes it with `y = (y' * scale - offset) / gain`.

use vstd::prelude::*;

use crate::round::{
    abs_int, div_nearest_ties_away, lemma_round_div_is_nearest, lemma_round_div_magnitude,
    round_div_ties_away,
};

verus! {

/// Invertible `i32` affine map `y' = (y * gain + offset) / scale`.
///
/// Both `gain` and `scale` are nonzero: [`AffineTransform::new`] rejects a
/// zero value of either.
#[derive(Copy, Clone, Debug, PartialEq, Eq, Structural)]
pub struct AffineTransform {
    gain: i32,
    offset: i32,
    scale: i32,
}

/// Error returned when affine transform coefficients are invalid.
#[derive(Copy, Clone, Debug, PartialEq, Eq, Structural)]
pub enum AffineTransformError {
    /// The scale divisor is zero.
    ZeroScale,
    /// The gain is zero, which collapses every input onto one output.
    ZeroGain,
}

/// Error returned when affine arithmetic cannot be represented in `i32`.
#[derive(Copy, Clone, Debug, PartialEq, Eq, Structural)]
pub enum AffineOverflow {
    /// The rounded result does not fit in `i32`.
    Overflow,
}

/// Whether a mathematical integer fits in `i32`.
pub open spec fn fits_i32(x: int) -> bool {
    i32::MIN <= x <= i32::MAX
}

/// Exact forward map: `round((value * gain + offset) / scale)`.
pub open spec fn affine_forward(gain: int, offset: int, scale: int, value: int) -> int {
    round_div_ties_away(value * gain + offset, scale)
}

/// Exact inverse map: `round((value * scale - offset) / gain)`.
pub open spec fn affine_inverse(gain: int, offset: int, scale: int, value: int) -> int {
    round_div_ties_away(value * scale - offset, gain)
}

/// Result of a checked step: the value when it fits `i32`, else overflow.
pub open spec fn checked_i32(x: int) -> Result<i32, AffineOverflow> {
    if fits_i32(x) {
        Ok(x as i32)
    } else {
        Err(AffineOverflow::Overflow)
    }
}

impl AffineTransform {
    #[verifier::type_invariant]
    spec fn nonzero_coefficients(self) -> bool {
        self.gain != 0 && self.scale != 0
    }

    /// The gain coefficient.
    pub closed spec fn spec_gain(self) -> int {
        self.gain as int
    }

    /// The offset term.
    pub closed spec fn spec_offset(self) -> int {
        self.offset as int
    }

    /// The scale divisor.
    pub closed spec fn spec_scale(self) -> int {
        self.scale as int
    }

    /// `y' = round((y * gain + offset) / scale)` for this transform.
    pub open spec fn forward(self, value: int) -> int {
        affine_forward(self.spec_gain(), self.spec_offset(), self.spec_scale(), value)
    }

    /// `y = round((y' * scale - offset) / gain)` for this transform.
    pub open spec fn inverse(self, value: int) -> int {
        affine_inverse(self.spec_gain(), self.spec_offset(), self.spec_scale(), value)
    }

    /// Gain and scale are both nonzero; every constructed transform
    /// satisfies this.
    pub open spec fn valid(self) -> bool {
        self.spec_gain() != 0 && self.spec_scale() != 0
    }

    /// Construct an invertible affine transform.
    ///
    /// Returns [`AffineTransformError::ZeroScale`] if `scale == 0`, else
    /// [`AffineTransformError::ZeroGain`] if `gain == 0`.
    pub fn new(gain: i32, offset: i32, scale: i32) -> (result: Result<Self, AffineTransformError>)
        ensures
            scale == 0 ==> result == Err::<Self, AffineTransformError>(
                AffineTransformError::ZeroScale,
            ),
            scale != 0 && gain == 0 ==> result == Err::<Self, AffineTransformError>(
                AffineTransformError::ZeroGain,
            ),
            scale != 0 && gain != 0 ==> (result matches Ok(t) && t.valid() && t.spec_gain() == gain
                && t.spec_offset() == offset && t.spec_scale() == scale),
    {
        if scale == 0 {
            return Err(AffineTransformError::ZeroScale);
        }
        if gain == 0 {
            return Err(AffineTransformError::ZeroGain);
        }
        Ok(Self { gain, offset, scale })
    }

    /// Return the gain coefficient.
    pub fn gain(&self) -> (g: i32)
        ensures
            g == self.spec_gain(),
    {
        self.gain
    }

    /// Return the offset term.
    pub fn offset(&self) -> (o: i32)
        ensures
            o == self.spec_offset(),
    {
        self.offset
    }

    /// Return the nonzero scale divisor.
    pub fn scale(&self) -> (s: i32)
        ensures
            s == self.spec_scale(),
    {
        self.scale
    }

    /// Apply `y' = (y * gain + offset) / scale`, rounding to nearest with
    /// ties away from zero.
    ///
    /// Returns [`AffineOverflow::Overflow`] exactly when the rounded result
    /// does not fit in `i32`.
    pub fn apply(&self, value: i32) -> (result: Result<i32, AffineOverflow>)
        ensures
            result == checked_i32(self.forward(value as int)),
    {
        proof {
            use_type_invariant(self);
        }
        // |value * gain| <= 2^62 and |offset| < 2^31: the sum fits i64.
        proof {
            let v = value as int;
            let c = self.gain as int;
            assert(-0x4000_0000_0000_0000 <= v * c <= 0x4000_0000_0000_0000) by (nonlinear_arith)
                requires
                    -0x8000_0000 <= v < 0x8000_0000,
                    -0x8000_0000 <= c < 0x8000_0000,
            ;
        }
        let product: i64 = value as i64 * self.gain as i64;
        let numerator: i64 = product + self.offset as i64;
        proof {
            lemma_round_div_magnitude(numerator as int, self.scale as int);
        }
        let scaled = div_nearest_ties_away(numerator, self.scale as i64);
        if i32::MIN as i64 <= scaled && scaled <= i32::MAX as i64 {
            Ok(scaled as i32)
        } else {
            Err(AffineOverflow::Overflow)
        }
    }

    /// Undo `y' = (y * gain + offset) / scale`, recovering `y` as
    /// `(y' * scale - offset) / gain` with the same rounding.
    ///
    /// Returns [`AffineOverflow::Overflow`] exactly when the rounded result
    /// does not fit in `i32`.
    pub fn unapply(&self, value: i32) -> (result: Result<i32, AffineOverflow>)
        ensures
            result == checked_i32(self.inverse(value as int)),
    {
        proof {
            use_type_invariant(self);
        }
        proof {
            let v = value as int;
            let c = self.scale as int;
            assert(-0x4000_0000_0000_0000 <= v * c <= 0x4000_0000_0000_0000) by (nonlinear_arith)
                requires
                    -0x8000_0000 <= v < 0x8000_0000,
                    -0x8000_0000 <= c < 0x8000_0000,
            ;
        }
        let product: i64 = value as i64 * self.scale as i64;
        let numerator: i64 = product - self.offset as i64;
        proof {
            lemma_round_div_magnitude(numerator as int, self.gain as int);
        }
        let uncalibrated = div_nearest_ties_away(numerator, self.gain as i64);
        if i32::MIN as i64 <= uncalibrated && uncalibrated <= i32::MAX as i64 {
            Ok(uncalibrated as i32)
        } else {
            Err(AffineOverflow::Overflow)
        }
    }
}

/// When `gain == scale` and `offset == 0` both directions are exact
/// identities on every `i32`.
pub proof fn lemma_matched_gain_and_scale_is_identity(t: AffineTransform, y: i32)
    requires
        t.valid(),
        t.spec_gain() == t.spec_scale(),
        t.spec_offset() == 0,
    ensures
        t.forward(y as int) == y,
        t.inverse(y as int) == y,
{
    let g = t.spec_gain();
    lemma_exact_division(y as int, g);
}

/// `round((y * g) / g) == y` for every nonzero `g`.
proof fn lemma_exact_division(y: int, g: int)
    requires
        g != 0,
    ensures
        round_div_ties_away(y * g, g) == y,
{
    lemma_round_div_is_nearest(y * g, g);
    let r = round_div_ties_away(y * g, g);
    // 2 * |y*g - r*g| <= |g|, so |y - r| * 2 * |g| <= |g|, forcing y == r.
    let k = y - r;
    assert(y * g - r * g == k * g) by (nonlinear_arith)
        requires
            k == y - r,
    ;
    assert(abs_int(k * g) == abs_int(k) * abs_int(g)) by (nonlinear_arith);
    assert(k == 0) by (nonlinear_arith)
        requires
            2 * (abs_int(k) * abs_int(g)) <= abs_int(g),
            abs_int(g) > 0,
            abs_int(k) >= 0,
    ;
}

/// Round-trip error bound: when both directions succeed,
/// `2 * |gain| * |unapply(apply(y)) - y| <= |scale| + |gain|`, which keeps
/// the error within `(|scale| + |gain| - 1) / |gain|` input quanta.
pub proof fn lemma_round_trip_bound(t: AffineTransform, y: i32)
    requires
        t.valid(),
    ensures
        ({
            let back = t.inverse(t.forward(y as int));
            let g = abs_int(t.spec_gain());
            let s = abs_int(t.spec_scale());
            &&& 2 * g * abs_int(back - y) <= s + g
            &&& abs_int(back - y) <= (s + g - 1) / g
        }),
{
    let gain = t.spec_gain();
    let offset = t.spec_offset();
    let scale = t.spec_scale();
    let a = t.forward(y as int);
    let back = t.inverse(a);
    lemma_round_div_is_nearest(y * gain + offset, scale);
    lemma_round_div_is_nearest(a * scale - offset, gain);
    let g = abs_int(gain);
    let s = abs_int(scale);
    // |a*s - (y*g + o)| <= s/2 and |back*g - (a*s - o)| <= g/2
    let e1 = (y * gain + offset) - a * scale;
    let e2 = (a * scale - offset) - back * gain;
    assert((back - y) * gain == -(e1 + e2)) by (nonlinear_arith)
        requires
            e1 == (y * gain + offset) - a * scale,
            e2 == (a * scale - offset) - back * gain,
    ;
    let k = back - y;
    assert(abs_int(k * gain) == abs_int(k) * g) by (nonlinear_arith)
        requires
            g == abs_int(gain),
    ;
    assert(2 * g * abs_int(k) <= s + g) by (nonlinear_arith)
        requires
            2 * abs_int(e1) <= s,
            2 * abs_int(e2) <= g,
            abs_int(k * gain) == abs_int(k) * g,
            k * gain == -(e1 + e2),
    ;
    assert(abs_int(k) <= (s + g - 1) / g) by (nonlinear_arith)
        requires
            2 * g * abs_int(k) <= s + g,
            g >= 1,
            s >= 1,
    {
        let m = abs_int(k);
        if m > 0 {
            assert(g * m <= s + g - 1);
            assert(m * g <= s + g - 1);
        }
    }
}

} // verus!
