use ph_curves::gen::api::{generate, generate_report, GenerateOptions, ValueType};
use ph_curves::gen::curve::CurveDef;
use ph_curves::gen::definitions::DefinitionsFile;
use ph_curves::gen::emit::{check_names, stem_of};
use ph_curves::gen::report::{GenerationPath, ResourceTotals, TransferReport};
use ph_curves::gen::transfer::provenance::SourceProvenance;
use ph_curves::gen::transfer::validation::FamilyFields;
use ph_curves::gen::transfer::BoundaryDef;

fn points(pts: Vec<[u16; 2]>, monotonic: bool) -> CurveDef {
    CurveDef { builtin: None, formula: None, points: Some(pts), monotonic }
}

fn builtin(name: &str, monotonic: bool) -> CurveDef {
    CurveDef { builtin: Some(name.to_string()), formula: None, points: None, monotonic }
}

fn document(curves: Vec<(String, CurveDef)>) -> DefinitionsFile {
    DefinitionsFile { curves, transfers: Vec::new(), transfer_families: Vec::new(), gaps: Vec::new() }
}

fn u8_opts() -> GenerateOptions {
    GenerateOptions { value_type: ValueType::U8, lut_size: 256 }
}

fn identity() -> Vec<u32> {
    (0..256).collect()
}

#[test]
fn generated_source_holds_forward_inverse_and_lookup() {
    let file = document(vec![("contrast".to_string(), points(vec![[0, 0], [255, 255]], true))]);
    let source = generate(&file, &u8_opts(), &vec![None], Vec::new()).unwrap();
    assert!(source.starts_with("// Generated by ph-curves-gen from a curve definitions file.\n"));
    assert!(source.contains(
        "\npub static CONTRAST_FWD: [u8; 256] = [\n    0, 1, 2, 3, 4, 5, 6, 7, 8, 9, 10, 11, 12, 13, 14, 15,\n    16, 17,"
    ));
    assert!(source.contains("    240, 241, 242, 243, 244, 245, 246, 247, 248, 249, 250, 251, 252, 253, 254, 255,\n];\n"));
    assert!(source.contains("pub static CONTRAST_INV: [u8; 256] = [\n    0, 1, 2,"));
    assert!(source.ends_with(
        "pub const CONTRAST: ph_curves::MonotonicCurveLut<u8, u8, 256> = ph_curves::MonotonicCurveLut::new(&CONTRAST_FWD, &CONTRAST_INV);\n"
    ));
}

#[test]
fn non_monotonic_curve_has_no_inverse_table() {
    let file = document(vec![("my-curve".to_string(), builtin("linear", false))]);
    let source = generate(&file, &u8_opts(), &vec![Some(identity())], Vec::new()).unwrap();
    assert!(source.contains("pub static MY_CURVE_FWD: [u8; 256] = ["));
    assert!(!source.contains("_INV"));
    assert!(source.ends_with(
        "pub const MY_CURVE: ph_curves::CurveLut<u8, u8, 256> = ph_curves::CurveLut::new(&MY_CURVE_FWD, None);\n"
    ));
}

#[test]
fn curve_names_normalize_to_upper_case_identifiers() {
    assert_eq!(stem_of("gamma 2.2"), "GAMMA_2_2");
    assert_eq!(stem_of("Ease_In"), "EASE_IN");
}

#[test]
fn names_without_letters_or_digits_and_colliding_names_are_rejected() {
    let file = document(vec![("***".to_string(), builtin("linear", true))]);
    assert_eq!(
        generate(&file, &u8_opts(), &vec![Some(identity())], Vec::new()).unwrap_err().message(),
        "curve `***`: name has no ASCII letters or digits"
    );
    let same = vec![
        ("A".to_string(), builtin("linear", true)),
        ("a".to_string(), builtin("linear", true)),
    ];
    assert_eq!(
        check_names(&same).unwrap_err(),
        "curve `a` and curve `A` emit the same constant name"
    );
    let companion = vec![
        ("a".to_string(), builtin("linear", true)),
        ("a_inv".to_string(), builtin("linear", true)),
    ];
    assert!(check_names(&companion).is_err());
    let not_monotonic = vec![
        ("a".to_string(), builtin("linear", false)),
        ("a_inv".to_string(), builtin("linear", true)),
    ];
    assert!(check_names(&not_monotonic).is_ok());
}

#[test]
fn curves_need_the_full_lut_domain_but_an_empty_file_does_not() {
    let file = document(vec![("linear".to_string(), builtin("linear", true))]);
    let bad = GenerateOptions { value_type: ValueType::U8, lut_size: 255 };
    assert_eq!(
        generate(&file, &bad, &vec![Some((0..255).collect())], Vec::new()).unwrap_err().message(),
        "--lut-size must be 256 for --value-type u8 (the LUT must cover the full u8 domain)"
    );
    let empty = document(Vec::new());
    assert_eq!(
        generate(&empty, &bad, &Vec::new(), Vec::new()).unwrap(),
        "// Generated by ph-curves-gen from a curve definitions file.\n"
    );
}

#[test]
fn invalid_sampled_table_fails_generation() {
    let file = document(vec![("bad".to_string(), builtin("linear", true))]);
    let mut table = identity();
    table[255] = 254;
    assert!(generate(&file, &u8_opts(), &vec![Some(table)], Vec::new()).is_err());
}

fn fitted(family: Option<&str>, table: &str, knots: usize) -> TransferReport {
    TransferReport {
        family: family.map(str::to_string),
        selectors: Vec::new(),
        table_name: table.to_string(),
        symbol: table.to_uppercase(),
        domain_min: 0,
        domain_max: 4,
        range_min: 0,
        range_max: 4,
        requested_max_error: 1,
        achieved_max_error: 0,
        worst_case_input: 0,
        knot_count: knots,
        table_bytes: 6 * knots,
        generation_path: GenerationPath::Formula,
        observation_guard: None,
    }
}

#[test]
fn generate_report_assembles_the_fitted_transfers() {
    let defs = DefinitionsFile {
        curves: Vec::new(),
        transfers: Vec::new(),
        transfer_families: Vec::new(),
        gaps: Vec::new(),
    };
    let result = generate_report(
        &defs,
        &GenerateOptions::transfers_only(),
        &Vec::new(),
        vec![fitted(Some("front_end"), "front_end_range_a", 2), fitted(None, "solo", 3)],
    )
    .unwrap();
    assert_eq!(result.source, "// Generated by ph-curves-gen from a curve definitions file.\n");
    assert_eq!(result.report.families.len(), 1);
    assert_eq!(
        result.report.families[0].totals,
        ResourceTotals { member_count: 1, knot_count: 2, table_bytes: 12 }
    );
    assert_eq!(result.report.totals, ResourceTotals { member_count: 2, knot_count: 5, table_bytes: 30 });
}

#[test]
fn generate_report_fails_closed_on_family_budgets() {
    let family = FamilyFields {
        provenance: Some(SourceProvenance::new("test fixture")),
        max_interpolation_error: 1,
        max_knots: 8,
        max_total_knots: Some(3),
        max_table_bytes: None,
        below: BoundaryDef::Error,
        above: BoundaryDef::Error,
        observation_guard: None,
        formula: true,
        points: false,
        model: None,
        model_scale: false,
        selector_axes: None,
        expected_selectors: None,
        members: Vec::new(),
        gaps: Vec::new(),
    };
    let defs = DefinitionsFile {
        curves: Vec::new(),
        transfers: Vec::new(),
        transfer_families: vec![("front_end".to_string(), family)],
        gaps: Vec::new(),
    };
    let transfers = || {
        vec![fitted(Some("front_end"), "front_end_range_a", 2), fitted(Some("front_end"), "front_end_range_b", 2)]
    };
    let error = generate_report(&defs, &GenerateOptions::transfers_only(), &Vec::new(), transfers())
        .unwrap_err();
    assert_eq!(
        error.message(),
        "transfer family `front_end`: max_total_knots=3 exceeded: 4 knots across 2 emitted members"
    );
    let source_error =
        generate(&defs, &GenerateOptions::transfers_only(), &Vec::new(), transfers()).unwrap_err();
    assert_eq!(source_error, error);
}
