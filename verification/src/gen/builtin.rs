//! Built-in easing curve names.
//!
//! Each builtin is a pure function from normalised time `t` (0..=1) to a
//! normalised output (0..=1). Those functions are evaluated in floating
//! point by the host tool; this module resolves a curve's name, legacy
//! aliases included, to the curve it denotes.

use vstd::prelude::*;

use super::text::{join3, same_text};

verus! {

/// A built-in easing curve.
#[derive(Clone, Copy, Debug, PartialEq, Eq, Structural)]
pub enum Builtin {
    /// `t`.
    Linear,
    /// `t²` (alias `ease_in`).
    EaseInQuad,
    /// `1 - (1 - t)²` (alias `ease_out`).
    EaseOutQuad,
    /// Piecewise quadratic in and out (alias `ease_in_out`).
    EaseInOutQuad,
    /// `t³`.
    EaseInCubic,
    /// `1 - (1 - t)³`.
    EaseOutCubic,
    /// Piecewise cubic in and out.
    EaseInOutCubic,
    /// `t⁴`.
    EaseInQuart,
    /// `1 - (1 - t)⁴`.
    EaseOutQuart,
    /// Piecewise quartic in and out.
    EaseInOutQuart,
    /// `2^(10t - 10)`, pinned to 0 at `t = 0`.
    EaseInExpo,
    /// `1 - 2^(-10t)`, pinned to 1 at `t = 1`.
    EaseOutExpo,
    /// `3t² - 2t³`.
    Smoothstep,
    /// `6t⁵ - 15t⁴ + 10t³`.
    SmootherStep,
}

/// The builtin a name denotes, if any.
pub open spec fn builtin_named(name: Seq<char>) -> Option<Builtin> {
    if name == "linear"@ {
        Some(Builtin::Linear)
    } else if name == "ease_in"@ || name == "ease_in_quad"@ {
        Some(Builtin::EaseInQuad)
    } else if name == "ease_out"@ || name == "ease_out_quad"@ {
        Some(Builtin::EaseOutQuad)
    } else if name == "ease_in_out"@ || name == "ease_in_out_quad"@ {
        Some(Builtin::EaseInOutQuad)
    } else if name == "ease_in_cubic"@ {
        Some(Builtin::EaseInCubic)
    } else if name == "ease_out_cubic"@ {
        Some(Builtin::EaseOutCubic)
    } else if name == "ease_in_out_cubic"@ {
        Some(Builtin::EaseInOutCubic)
    } else if name == "ease_in_quart"@ {
        Some(Builtin::EaseInQuart)
    } else if name == "ease_out_quart"@ {
        Some(Builtin::EaseOutQuart)
    } else if name == "ease_in_out_quart"@ {
        Some(Builtin::EaseInOutQuart)
    } else if name == "ease_in_expo"@ {
        Some(Builtin::EaseInExpo)
    } else if name == "ease_out_expo"@ {
        Some(Builtin::EaseOutExpo)
    } else if name == "smoothstep"@ {
        Some(Builtin::Smoothstep)
    } else if name == "smoother_step"@ {
        Some(Builtin::SmootherStep)
    } else {
        None
    }
}

/// The legacy names `ease_in`, `ease_out` and `ease_in_out` denote the
/// quadratic curves.
pub proof fn lemma_legacy_aliases()
    ensures
        builtin_named("ease_in"@) == builtin_named("ease_in_quad"@),
        builtin_named("ease_out"@) == builtin_named("ease_out_quad"@),
        builtin_named("ease_in_out"@) == builtin_named("ease_in_out_quad"@),
        builtin_named("ease_in_quad"@) == Some(Builtin::EaseInQuad),
        builtin_named("ease_out_quad"@) == Some(Builtin::EaseOutQuad),
        builtin_named("ease_in_out_quad"@) == Some(Builtin::EaseInOutQuad),
{
    reveal_strlit("linear");
    reveal_strlit("ease_in");
    reveal_strlit("ease_in_quad");
    reveal_strlit("ease_out");
    reveal_strlit("ease_out_quad");
    reveal_strlit("ease_in_out");
    reveal_strlit("ease_in_out_quad");
    assert("linear"@ != "ease_in"@ && "linear"@ != "ease_in_quad"@ && "linear"@ != "ease_out"@
        && "linear"@ != "ease_out_quad"@ && "linear"@ != "ease_in_out"@ && "linear"@
        != "ease_in_out_quad"@) by {
        assert("linear"@[0] != "ease_in"@[0]);
        assert("linear"@[0] != "ease_in_quad"@[0]);
        assert("linear"@[0] != "ease_out"@[0]);
        assert("linear"@[0] != "ease_out_quad"@[0]);
        assert("linear"@[0] != "ease_in_out"@[0]);
        assert("linear"@[0] != "ease_in_out_quad"@[0]);
    }
    assert("ease_out"@ != "ease_in"@ && "ease_out"@ != "ease_in_quad"@) by {
        assert("ease_out"@[5] != "ease_in"@[5]);
        assert("ease_out"@[5] != "ease_in_quad"@[5]);
    }
    assert("ease_out_quad"@ != "ease_in"@ && "ease_out_quad"@ != "ease_in_quad"@) by {
        assert("ease_out_quad"@[5] != "ease_in"@[5]);
        assert("ease_out_quad"@[5] != "ease_in_quad"@[5]);
    }
    assert("ease_in_out"@ != "ease_in"@ && "ease_in_out"@ != "ease_in_quad"@ && "ease_in_out"@
        != "ease_out"@ && "ease_in_out"@ != "ease_out_quad"@) by {
        assert("ease_in_out"@.len() != "ease_in"@.len());
        assert("ease_in_out"@[8] != "ease_in_quad"@[8]);
        assert("ease_in_out"@[5] != "ease_out"@[5]);
        assert("ease_in_out"@[5] != "ease_out_quad"@[5]);
    }
    assert("ease_in_out_quad"@ != "ease_in"@ && "ease_in_out_quad"@ != "ease_in_quad"@
        && "ease_in_out_quad"@ != "ease_out"@ && "ease_in_out_quad"@ != "ease_out_quad"@) by {
        assert("ease_in_out_quad"@.len() != "ease_in"@.len());
        assert("ease_in_out_quad"@[8] != "ease_in_quad"@[8]);
        assert("ease_in_out_quad"@[5] != "ease_out"@[5]);
        assert("ease_in_out_quad"@[5] != "ease_out_quad"@[5]);
    }
}

/// Resolve a builtin curve name; legacy `ease_in`, `ease_out` and
/// `ease_in_out` name the quadratic curves.
pub fn resolve(name: &str) -> (r: Result<Builtin, String>)
    ensures
        r is Ok <==> builtin_named(name@) is Some,
        r matches Ok(b) ==> builtin_named(name@) == Some(b),
        r matches Err(e) ==> e@ == "unknown builtin curve `"@ + name@ + "`"@,
{
    if same_text(name, "linear") {
        Ok(Builtin::Linear)
    } else if same_text(name, "ease_in") || same_text(name, "ease_in_quad") {
        Ok(Builtin::EaseInQuad)
    } else if same_text(name, "ease_out") || same_text(name, "ease_out_quad") {
        Ok(Builtin::EaseOutQuad)
    } else if same_text(name, "ease_in_out") || same_text(name, "ease_in_out_quad") {
        Ok(Builtin::EaseInOutQuad)
    } else if same_text(name, "ease_in_cubic") {
        Ok(Builtin::EaseInCubic)
    } else if same_text(name, "ease_out_cubic") {
        Ok(Builtin::EaseOutCubic)
    } else if same_text(name, "ease_in_out_cubic") {
        Ok(Builtin::EaseInOutCubic)
    } else if same_text(name, "ease_in_quart") {
        Ok(Builtin::EaseInQuart)
    } else if same_text(name, "ease_out_quart") {
        Ok(Builtin::EaseOutQuart)
    } else if same_text(name, "ease_in_out_quart") {
        Ok(Builtin::EaseInOutQuart)
    } else if same_text(name, "ease_in_expo") {
        Ok(Builtin::EaseInExpo)
    } else if same_text(name, "ease_out_expo") {
        Ok(Builtin::EaseOutExpo)
    } else if same_text(name, "smoothstep") {
        Ok(Builtin::Smoothstep)
    } else if same_text(name, "smoother_step") {
        Ok(Builtin::SmootherStep)
    } else {
        Err(join3("unknown builtin curve `", name, "`"))
    }
}

} // verus!
