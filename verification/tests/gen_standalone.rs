use ph_curves::gen::transfer::member::ModelKind;
use ph_curves::gen::transfer::standalone::{
    check_prefitted_knots, default_max_knots, plan_transfer, validate_monotonic, SourcePlan,
    TransferFields, ABSOLUTE_MAX_KNOTS,
};
use ph_curves::gen::transfer::{
    default_boundary, measure_inverse_code_error, BoundaryDef, MonotonicDirection,
};

fn base_def() -> TransferFields {
    TransferFields {
        output_scale: 1000,
        max_knots: 256,
        points: false,
        formula: false,
        model: None,
        model_scale: None,
        domain: None,
        output_range: false,
    }
}

fn scaled_poly(scale: u32, domain: [u16; 2], output_scale: u32) -> TransferFields {
    TransferFields {
        output_scale,
        max_knots: 64,
        model: Some(ModelKind::ScaledPolynomial),
        model_scale: Some(scale),
        domain: Some(domain),
        ..base_def()
    }
}

#[test]
fn standalone_knot_defaults() {
    assert_eq!(default_max_knots(), 256);
    assert_eq!(ABSOLUTE_MAX_KNOTS, 4096);
}

#[test]
fn scaled_polynomial_requires_scale_on_standalone_definitions() {
    let mut def = scaled_poly(1, [1, 2], 1);
    def.model_scale = None;
    let error = plan_transfer("missing", &def, false).unwrap_err();
    assert!(error.contains("requires scale"), "{error}");
}

#[test]
fn scaled_polynomial_forbids_output_range() {
    let mut def = scaled_poly(33_600, [1, 2], 1);
    def.output_range = true;
    let error = plan_transfer("range", &def, false).unwrap_err();
    assert!(error.contains("output_range is forbidden"), "{error}");
}

#[test]
fn each_source_plans_its_own_evaluation() {
    assert!(matches!(
        plan_transfer("poly", &scaled_poly(33_600, [1, 2], 1), false),
        Ok(SourcePlan::ScaledPolynomial(33_600, [1, 2]))
    ));
    let formula = TransferFields { formula: true, domain: Some([0, 100]), ..base_def() };
    assert!(matches!(plan_transfer("f", &formula, false), Ok(SourcePlan::Formula([0, 100]))));
    let points = TransferFields { points: true, ..base_def() };
    assert!(matches!(plan_transfer("p", &points, false), Ok(SourcePlan::Points)));
    let ntc = TransferFields {
        model: Some(ModelKind::NtcBetaDivider),
        output_range: true,
        ..base_def()
    };
    assert!(matches!(plan_transfer("ntc", &ntc, false), Ok(SourcePlan::Model)));
    assert!(matches!(plan_transfer("any", &base_def(), true), Ok(SourcePlan::Overlay)));
}

#[test]
fn standalone_diagnostics_are_exact() {
    let zero = TransferFields { output_scale: 0, ..base_def() };
    assert_eq!(
        plan_transfer("t", &zero, false).unwrap_err(),
        "transfer `t`: output_scale must be positive"
    );
    let huge = TransferFields { max_knots: 4097, formula: true, ..base_def() };
    assert_eq!(
        plan_transfer("t", &huge, true).unwrap_err(),
        "transfer `t`: max_knots must be in 2..=4096"
    );
    assert_eq!(
        plan_transfer("t", &base_def(), false).unwrap_err(),
        "transfer `t`: exactly one of points, formula, or model must be specified"
    );
    let points = TransferFields { points: true, domain: Some([1, 2]), ..base_def() };
    assert_eq!(
        plan_transfer("t", &points, false).unwrap_err(),
        "transfer `t`: points define their domain; domain and output_range are forbidden"
    );
    let formula = TransferFields { formula: true, ..base_def() };
    assert_eq!(
        plan_transfer("t", &formula, false).unwrap_err(),
        "transfer `t`: formula requires domain = [min, max]"
    );
    let flat = TransferFields { formula: true, domain: Some([5, 5]), ..base_def() };
    assert_eq!(
        plan_transfer("t", &flat, false).unwrap_err(),
        "transfer `t`: domain must be strictly increasing"
    );
    let ranged = TransferFields { formula: true, output_range: true, ..base_def() };
    assert_eq!(
        plan_transfer("t", &ranged, false).unwrap_err(),
        "transfer `t`: output_range is forbidden for formula sources"
    );
    let mut no_domain = scaled_poly(1, [1, 2], 1);
    no_domain.domain = None;
    assert_eq!(
        plan_transfer("t", &no_domain, false).unwrap_err(),
        "transfer `t`: scaled_polynomial requires domain = [min, max]"
    );
    let ntc = TransferFields { model: Some(ModelKind::NtcBetaDivider), ..base_def() };
    assert_eq!(plan_transfer("t", &ntc, false).unwrap_err(), "transfer `t`: model requires output_range");
    let ntc_domain = TransferFields {
        model: Some(ModelKind::NtcBetaDivider),
        domain: Some([1, 2]),
        output_range: true,
        ..base_def()
    };
    assert_eq!(
        plan_transfer("t", &ntc_domain, false).unwrap_err(),
        "transfer `t`: domain is forbidden for model sources"
    );
}

#[test]
fn monotonic_direction_follows_the_endpoints() {
    assert_eq!(validate_monotonic("t", &[1, 1, 5, 9]).unwrap(), MonotonicDirection::Increasing);
    assert_eq!(validate_monotonic("t", &[9, 9, 5, 1]).unwrap(), MonotonicDirection::Decreasing);
    assert_eq!(validate_monotonic("t", &[3, 3]).unwrap(), MonotonicDirection::Increasing);
    assert_eq!(
        validate_monotonic("t", &[0, 5, 4, 9]).unwrap_err(),
        "transfer `t`: source is not monotonic at domain offset 2"
    );
    assert_eq!(
        validate_monotonic("t", &[7]).unwrap_err(),
        "transfer `t`: domain must contain at least two inputs"
    );
}

#[test]
fn prefitted_knots_are_checked_before_they_are_audited() {
    let inputs = [2u16, 10];
    let outputs = [2_000, 10_000];
    let direction = check_prefitted_knots("t", &inputs, &outputs, 256).unwrap();
    assert_eq!(direction, MonotonicDirection::Increasing);
    assert_eq!(measure_inverse_code_error(&inputs, &outputs, direction), 0);

    assert_eq!(
        check_prefitted_knots("t", &[1, 2, 3], &[1, 2], 256).unwrap_err(),
        "transfer `t`: prefitted inputs and outputs must have the same length"
    );
    assert_eq!(
        check_prefitted_knots("t", &[1], &[1], 256).unwrap_err(),
        "transfer `t`: prefitted knots must contain at least two entries"
    );
    assert_eq!(
        check_prefitted_knots("t", &[1, 2, 3], &[1, 2, 3], 2).unwrap_err(),
        "transfer `t`: prefitted knot count 3 exceeds max_knots=2"
    );
    assert_eq!(
        check_prefitted_knots("t", &[1, 3, 3], &[1, 2, 3], 8).unwrap_err(),
        "transfer `t`: prefitted inputs must be strictly increasing"
    );
    assert_eq!(
        check_prefitted_knots("t", &[1, 2, 3], &[1, 3, 2], 8).unwrap_err(),
        "transfer `t`: source is not monotonic at domain offset 2"
    );
}

#[test]
fn boundary_policies_name_their_runtime_behavior() {
    assert_eq!(default_boundary().rust_name(), "BoundaryBehavior::Error");
    assert_eq!(BoundaryDef::Clamp.rust_name(), "BoundaryBehavior::Clamp");
}
