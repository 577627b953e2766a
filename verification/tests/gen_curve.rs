use ph_curves::gen::curve::{build, invert, validate, CurveDef};

/// Sample an easing on `n` evenly spaced inputs the way the host tool does:
/// round to the nearest code, clamp into range, and pin both endpoints.
fn sample(n: usize, f: fn(f64) -> f64) -> Vec<u32> {
    let max = (n - 1) as f64;
    let mut fwd: Vec<u32> = (0..n)
        .map(|u| {
            let t = u as f64 / max;
            (f(t) * max).round().clamp(0.0, max) as u32
        })
        .collect();
    fwd[0] = 0;
    fwd[n - 1] = max as u32;
    fwd
}

fn points_def(pts: Vec<[u16; 2]>, monotonic: bool) -> CurveDef {
    CurveDef {
        builtin: None,
        formula: None,
        points: Some(pts),
        monotonic,
    }
}

#[test]
fn curve_build_builtin_linear() {
    let def = CurveDef {
        builtin: Some("linear".into()),
        formula: None,
        points: None,
        monotonic: true,
    };
    let data = build("linear", &def, 256, Some(sample(256, |t| t))).unwrap();
    assert_eq!(data.fwd.len(), 256);
    assert_eq!(data.fwd[0], 0);
    assert_eq!(data.fwd[255], 255);
    assert!(data.inv.is_some());
}

#[test]
fn curve_build_formula_identity() {
    let def = CurveDef {
        builtin: None,
        formula: Some("t".into()),
        points: None,
        monotonic: true,
    };
    let data = build("ident", &def, 256, Some(sample(256, |t| t))).unwrap();
    for i in 0..256 {
        assert_eq!(data.fwd[i], i as u32);
    }
}

#[test]
fn curve_build_points_linear() {
    let def = points_def(vec![[0, 0], [255, 255]], true);
    let data = build("pts", &def, 256, None).unwrap();
    for i in 0..256 {
        assert_eq!(data.fwd[i], i as u32);
    }
}

#[test]
fn curve_build_non_monotonic_has_no_inv() {
    let def = points_def(vec![[0, 0], [64, 200], [192, 50], [255, 255]], false);
    let data = build("wave", &def, 256, None).unwrap();
    assert!(data.inv.is_none());
}

#[test]
fn build_no_definition_returns_error() {
    let def = CurveDef {
        builtin: None,
        formula: None,
        points: None,
        monotonic: true,
    };
    assert!(build("empty", &def, 256, None).is_err());
}

#[test]
fn build_multiple_definitions_returns_error() {
    let def = CurveDef {
        builtin: Some("linear".into()),
        formula: Some("t".into()),
        points: None,
        monotonic: true,
    };
    assert!(build("double", &def, 256, None).is_err());
}

#[test]
fn curve_validate_rejects_non_monotonic_when_required() {
    let mut fwd: Vec<u32> = (0..10).collect();
    fwd[5] = 3;
    assert!(validate("bad", &fwd, true).is_err());
}

#[test]
fn curve_invert_identity() {
    let fwd: Vec<u32> = (0..256).collect();
    let inv = invert(&fwd);
    for (i, &v) in inv.iter().enumerate() {
        assert_eq!(v, i as u32);
    }
}

#[test]
fn curve_invert_round_trip() {
    let def = CurveDef {
        builtin: Some("ease_in_quad".into()),
        formula: None,
        points: None,
        monotonic: true,
    };
    let data = build("eiq", &def, 256, Some(sample(256, |t| t * t))).unwrap();
    let inv = data.inv.unwrap();
    for u in 0..256 {
        let w = data.fwd[u] as usize;
        assert!(
            inv[w] as usize >= u || data.fwd[inv[w] as usize] >= w as u32,
            "round-trip failed at u={u}, w={w}"
        );
    }
}

#[test]
fn validate_reports_endpoint_mapping() {
    let fwd: Vec<u32> = vec![1, 2, 9];
    let error = validate("off", &fwd, false).unwrap_err();
    assert_eq!(error, "curve `off` must map 0\u{2192}0 and 2\u{2192}2");
}

#[test]
fn validate_reports_first_decrease() {
    let fwd: Vec<u32> = vec![0, 5, 4, 3, 4];
    let error = validate("dip", &fwd, true).unwrap_err();
    assert_eq!(
        error,
        "curve `dip` must be monotonic non-decreasing (fwd[2]=4 < fwd[1]=5)"
    );
    assert!(validate("dip", &fwd, false).is_ok());
}

#[test]
fn invert_step_table_picks_first_reaching_input() {
    let fwd: Vec<u32> = vec![0, 0, 3, 3, 4];
    assert_eq!(invert(&fwd), vec![0, 2, 2, 2, 4]);
}

#[test]
fn points_errors_are_reported() {
    let error = build("few", &points_def(vec![[0, 0]], true), 256, None).unwrap_err();
    assert!(error.contains("at least 2 points"), "{error}");
    let error = build("start", &points_def(vec![[1, 0], [255, 255]], true), 256, None).unwrap_err();
    assert!(error.contains("start at u=0"), "{error}");
    let error = build("end", &points_def(vec![[0, 0], [200, 255]], true), 256, None).unwrap_err();
    assert!(error.contains("end at u=255"), "{error}");
    let error = build(
        "dup",
        &points_def(vec![[0, 0], [100, 50], [100, 100], [255, 255]], true),
        256,
        None,
    )
    .unwrap_err();
    assert!(error.contains("strictly increasing"), "{error}");
}
