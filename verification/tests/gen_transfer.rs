use ph_curves::gen::transfer::{
    default_boundary, measure_inverse_code_error, BoundaryDef, MonotonicDirection,
};

#[test]
fn inverse_code_error_is_zero_for_a_faithful_table() {
    let inputs = [0u16, 100];
    let outputs = [0i32, 100];
    assert_eq!(
        measure_inverse_code_error(&inputs, &outputs, MonotonicDirection::Increasing),
        0
    );
}

#[test]
fn inverse_code_error_is_measured_on_a_coarse_table() {
    let inputs = [0u16, 1000];
    let outputs = [0i32, 10];
    let worst = measure_inverse_code_error(&inputs, &outputs, MonotonicDirection::Increasing);
    assert!(
        worst > 0,
        "coarse output scale must report a nonzero round-trip bound"
    );
    assert_eq!(worst, 50);
}

#[test]
fn inverse_code_error_covers_decreasing_tables() {
    let inputs = [0u16, 1000];
    let outputs = [10i32, 0];
    let worst = measure_inverse_code_error(&inputs, &outputs, MonotonicDirection::Decreasing);
    assert_eq!(worst, 50);
}

#[test]
fn inverse_code_error_reports_flat_run_width() {
    let inputs = [0u16, 10, 20, 30];
    let outputs = [0i32, 10, 10, 20];
    assert_eq!(
        measure_inverse_code_error(&inputs, &outputs, MonotonicDirection::Increasing),
        10
    );
}

#[test]
fn single_knot_table_has_no_error() {
    assert_eq!(
        measure_inverse_code_error(&[7], &[-3], MonotonicDirection::Increasing),
        0
    );
}

#[test]
fn full_u16_domain_with_extreme_outputs() {
    let inputs = [0u16, 65535];
    let outputs = [i32::MIN, i32::MAX];
    assert_eq!(
        measure_inverse_code_error(&inputs, &outputs, MonotonicDirection::Increasing),
        0
    );
}

#[test]
fn undeclared_boundary_is_an_error() {
    assert_eq!(default_boundary(), BoundaryDef::Error);
}
