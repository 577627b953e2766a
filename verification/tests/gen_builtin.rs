use ph_curves::gen::builtin::{resolve, Builtin};

#[test]
fn legacy_aliases() {
    assert_eq!(resolve("ease_in"), resolve("ease_in_quad"));
    assert_eq!(resolve("ease_out"), resolve("ease_out_quad"));
    assert_eq!(resolve("ease_in_out"), resolve("ease_in_out_quad"));
    assert_eq!(resolve("ease_in"), Ok(Builtin::EaseInQuad));
}

#[test]
fn unknown_builtin_returns_error() {
    assert_eq!(
        resolve("nonexistent").unwrap_err(),
        "unknown builtin curve `nonexistent`"
    );
}

#[test]
fn every_documented_builtin_resolves() {
    let names = [
        ("linear", Builtin::Linear),
        ("ease_in_quad", Builtin::EaseInQuad),
        ("ease_out_quad", Builtin::EaseOutQuad),
        ("ease_in_out_quad", Builtin::EaseInOutQuad),
        ("ease_in_cubic", Builtin::EaseInCubic),
        ("ease_out_cubic", Builtin::EaseOutCubic),
        ("ease_in_out_cubic", Builtin::EaseInOutCubic),
        ("ease_in_quart", Builtin::EaseInQuart),
        ("ease_out_quart", Builtin::EaseOutQuart),
        ("ease_in_out_quart", Builtin::EaseInOutQuart),
        ("ease_in_expo", Builtin::EaseInExpo),
        ("ease_out_expo", Builtin::EaseOutExpo),
        ("smoothstep", Builtin::Smoothstep),
        ("smoother_step", Builtin::SmootherStep),
    ];
    for (name, builtin) in names {
        assert_eq!(resolve(name), Ok(builtin), "{name}");
    }
    assert!(resolve("Linear").is_err());
    assert!(resolve("").is_err());
}
