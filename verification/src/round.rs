//! Integer division rounded to the nearest quotient, ties away from zero.
//!
//! Affine transforms and the temporal filters round through the single
//! helper [`div_nearest_ties_away`].

use vstd::prelude::*;

verus! {

/// Absolute value of a mathematical integer.
pub open spec fn abs_int(x: int) -> int {
    if x < 0 {
        -x
    } else {
        x
    }
}

/// `numerator / denominator` rounded to the nearest integer, with exact
/// halves rounded away from zero.
///
/// The magnitude is `floor((|n| + floor(|d| / 2)) / |d|)`; the sign is the
/// sign of the exact quotient.
pub open spec fn round_div_ties_away(numerator: int, denominator: int) -> int {
    let q = (abs_int(numerator) + abs_int(denominator) / 2) / abs_int(denominator);
    if (numerator < 0) == (denominator < 0) {
        q
    } else {
        -q
    }
}

/// The rounded quotient is a nearest integer to the exact quotient:
/// `|n - r * d| <= |d| / 2`, and on an exact half the result lies on the
/// far side from zero (`|r * d| > |n|`).
pub proof fn lemma_round_div_is_nearest(numerator: int, denominator: int)
    requires
        denominator != 0,
    ensures
        2 * abs_int(numerator - round_div_ties_away(numerator, denominator) * denominator)
            <= abs_int(denominator),
        2 * abs_int(numerator - round_div_ties_away(numerator, denominator) * denominator)
            == abs_int(denominator) ==> abs_int(
            round_div_ties_away(numerator, denominator) * denominator,
        ) > abs_int(numerator),
{
    let na = abs_int(numerator);
    let da = abs_int(denominator);
    let h = da / 2;
    let q = (na + h) / da;
    let r = (na + h) % da;
    assert(na + h == q * da + r && 0 <= r < da) by (nonlinear_arith)
        requires
            da > 0,
            q == (na + h) / da,
            r == (na + h) % da,
    ;
    // na - q * da == r - h, with 0 <= r < da and 2h in {da - 1, da}.
    assert(2 * h == da || 2 * h == da - 1);
    assert(na - q * da == r - h);
    assert(q >= 0) by (nonlinear_arith)
        requires
            da > 0,
            na + h >= 0,
            q == (na + h) / da,
    ;
    let res = round_div_ties_away(numerator, denominator);
    let qd = q * da;
    if denominator > 0 {
        assert(da == denominator);
        if numerator >= 0 {
            assert(res == q && numerator == na);
            assert(res * denominator == qd);
        } else {
            assert(res == -q && numerator == -na);
            assert(res * denominator == -qd) by (nonlinear_arith)
                requires
                    res == -q,
                    denominator == da,
                    qd == q * da,
            ;
        }
    } else {
        assert(da == -denominator);
        if numerator < 0 {
            assert(res == q && numerator == -na);
            assert(res * denominator == -qd) by (nonlinear_arith)
                requires
                    res == q,
                    denominator == -da,
                    qd == q * da,
            ;
        } else {
            assert(res == -q && numerator == na);
            assert(res * denominator == qd) by (nonlinear_arith)
                requires
                    res == -q,
                    denominator == -da,
                    qd == q * da,
            ;
        }
    }
    assert(q * da >= 0) by (nonlinear_arith)
        requires
            q >= 0,
            da > 0,
    ;
}

/// The rounded quotient is never larger in magnitude than the numerator:
/// `|round(n / d)| <= |n|` for every `d != 0`.
pub proof fn lemma_round_div_magnitude(numerator: int, denominator: int)
    requires
        denominator != 0,
    ensures
        abs_int(round_div_ties_away(numerator, denominator)) <= abs_int(numerator),
{
    let na = abs_int(numerator);
    let da = abs_int(denominator);
    let h = da / 2;
    let q = (na + h) / da;
    assert(q <= na) by (nonlinear_arith)
        requires
            da >= 1,
            na >= 0,
            0 <= h,
            2 * h <= da,
            q == (na + h) / da,
    {
        if na == 0 {
            assert(h < da);
        } else {
            assert(na + h <= na * da + h);
            assert(na + h < (na + 1) * da);
        }
    }
    assert(q >= 0) by (nonlinear_arith)
        requires
            da > 0,
            na + h >= 0,
            q == (na + h) / da,
    ;
}

/// Rounding keeps a quotient within any integer bound on the exact one:
/// if `|n| <= m * |d|` then `|round(n / d)| <= m`, and the rounded value is
/// never negative when `n` and `d` agree in sign.
pub proof fn lemma_round_div_within(numerator: int, denominator: int, m: int)
    requires
        denominator != 0,
        m >= 0,
        abs_int(numerator) <= m * abs_int(denominator),
    ensures
        abs_int(round_div_ties_away(numerator, denominator)) <= m,
        (numerator >= 0) == (denominator > 0) || numerator == 0 ==> round_div_ties_away(
            numerator,
            denominator,
        ) >= 0,
        (numerator < 0) != (denominator < 0) ==> round_div_ties_away(numerator, denominator) <= 0,
{
    let na = abs_int(numerator);
    let da = abs_int(denominator);
    let h = da / 2;
    let q = (na + h) / da;
    assert(0 <= q <= m) by (nonlinear_arith)
        requires
            da >= 1,
            na >= 0,
            0 <= h < da,
            na <= m * da,
            q == (na + h) / da,
    {
        assert(na + h < (m + 1) * da);
    }
    if numerator == 0 {
        assert(q == 0) by (nonlinear_arith)
            requires
                da >= 1,
                0 <= h < da,
                q == (0 + h) / da,
        ;
    }
}

/// Rounding is symmetric about zero: negating the numerator negates the
/// rounded quotient, `round(-n / d) == -round(n / d)`.
pub proof fn lemma_round_div_negate(numerator: int, denominator: int)
    requires
        denominator != 0,
    ensures
        round_div_ties_away(-numerator, denominator) == -round_div_ties_away(
            numerator,
            denominator,
        ),
{
    let da = abs_int(denominator);
    let h = da / 2;
    if numerator == 0 {
        assert(h / da == 0) by (nonlinear_arith)
            requires
                da >= 1,
                0 <= h < da,
        ;
    }
    assert(abs_int(-numerator) == abs_int(numerator));
}

/// Divide with nearest rounding, ties away from zero.
///
/// The sign of the result is the sign of `numerator / denominator`, so a
/// negative `denominator` flips the sense. Magnitudes are computed in `u64`.
/// The one quotient that does not fit `i64` (`i64::MIN` divided by `±1`)
/// and a zero denominator are excluded by the precondition.
pub fn div_nearest_ties_away(numerator: i64, denominator: i64) -> (result: i64)
    requires
        denominator != 0,
        -0x7fff_ffff_ffff_ffff <= round_div_ties_away(numerator as int, denominator as int)
            <= 0x7fff_ffff_ffff_ffff,
    ensures
        result == round_div_ties_away(numerator as int, denominator as int),
{
    let numerator_abs: u64 = if numerator < 0 {
        (0i128 - numerator as i128) as u64
    } else {
        numerator as u64
    };
    let denominator_abs: u64 = if denominator < 0 {
        (0i128 - denominator as i128) as u64
    } else {
        denominator as u64
    };
    // `numerator_abs <= 2^63` and `denominator_abs / 2 < 2^63`.
    let quotient: u64 = (numerator_abs + denominator_abs / 2) / denominator_abs;
    proof {
        assert(numerator_abs as int == abs_int(numerator as int));
        assert(denominator_abs as int == abs_int(denominator as int));
    }
    if (numerator < 0) == (denominator < 0) {
        quotient as i64
    } else {
        0i64 - quotient as i64
    }
}

} // verus!
