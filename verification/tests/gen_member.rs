use ph_curves::gen::transfer::family::{InputTransform, MemberStatus, SelectorIdentity, SelectorValue};
use ph_curves::gen::transfer::member::{
    clip_points, source_kind, validate_member, MemberFields, MemberWindow, ModelKind, SourceKind,
};
use ph_curves::gen::transfer::expansion::{expand_families, EmittedMember};
use ph_curves::gen::transfer::provenance::{SourceProvenance, SourceProvenanceOverride};
use ph_curves::gen::transfer::validation::FamilyFields;
use ph_curves::gen::transfer::BoundaryDef;

fn selectors(gain: &str, integration_time_ms: i64) -> SelectorIdentity {
    vec![
        ("gain".to_string(), SelectorValue::String(gain.into())),
        ("integration_time_ms".to_string(), SelectorValue::Integer(integration_time_ms)),
    ]
}

fn formula_member(gain: &str, integration_time_ms: i64, status: MemberStatus, reason: Option<&str>) -> MemberFields {
    MemberFields {
        selectors: selectors(gain, integration_time_ms),
        emitted_name: None,
        status,
        reason: reason.map(str::to_string),
        provenance: None,
        input_transform: None,
        observation: Some([1, 10]),
        model_input: false,
        physical: false,
    }
}

fn emit_member(gain: &str, integration_time_ms: i64) -> MemberFields {
    formula_member(gain, integration_time_ms, MemberStatus::Emit, None)
}

fn described(gain: &str, integration_time_ms: i64, status: MemberStatus) -> MemberFields {
    formula_member(gain, integration_time_ms, status, Some("fixture description-only member"))
}

fn millionths(numerator: u32) -> InputTransform {
    InputTransform { numerator, denominator: 1_000_000 }
}

fn scaled_emit(gain: &str, integration_time_ms: i64, numerator: u32) -> MemberFields {
    MemberFields {
        selectors: selectors(gain, integration_time_ms),
        emitted_name: None,
        status: MemberStatus::Emit,
        reason: None,
        provenance: None,
        input_transform: Some(millionths(numerator)),
        observation: None,
        model_input: true,
        physical: false,
    }
}

fn fixture() -> SourceProvenance {
    SourceProvenance::new("test fixture")
}

fn expected_from(members: &[MemberFields]) -> Vec<SelectorIdentity> {
    let mut identities: Vec<SelectorIdentity> = Vec::new();
    for member in members {
        if !member.selectors.is_empty() && !identities.contains(&member.selectors) {
            identities.push(member.selectors.clone());
        }
    }
    if identities.is_empty() {
        identities.push(vec![("gain".to_string(), SelectorValue::String("div4".into()))]);
    }
    identities
}

fn family(kind: SourceKind, members: Vec<MemberFields>) -> FamilyFields {
    FamilyFields {
        provenance: Some(fixture()),
        max_interpolation_error: 1,
        max_knots: 64,
        max_total_knots: None,
        max_table_bytes: None,
        below: BoundaryDef::Error,
        above: BoundaryDef::Error,
        observation_guard: None,
        formula: kind == SourceKind::Formula,
        points: false,
        model: if kind == SourceKind::ScaledPolynomial { Some(ModelKind::ScaledPolynomial) } else { None },
        model_scale: false,
        selector_axes: None,
        expected_selectors: Some(expected_from(&members)),
        members,
        gaps: Vec::new(),
    }
}

fn expand(kind: SourceKind, members: Vec<MemberFields>) -> Result<Vec<EmittedMember>, String> {
    expand_families(&vec![("als".to_string(), family(kind, members))], &Vec::new())
}

fn check(kind: SourceKind, index: usize, member: &MemberFields) -> Result<MemberWindow, String> {
    let provenance = fixture();
    validate_member("als", Some(&provenance), kind, index, member)
}

#[test]
fn source_kind_prefers_the_model() {
    assert_eq!(source_kind(Some(ModelKind::ScaledPolynomial), true, true), SourceKind::ScaledPolynomial);
    assert_eq!(source_kind(Some(ModelKind::NtcBetaDivider), false, false), SourceKind::NtcBetaDivider);
    assert_eq!(source_kind(None, true, true), SourceKind::Formula);
    assert_eq!(source_kind(None, false, true), SourceKind::Points);
    assert_eq!(source_kind(None, false, false), SourceKind::Unknown);
    assert_eq!(SourceKind::ScaledPolynomial.name(), "scaled_polynomial");
    assert_eq!(SourceKind::NtcBetaDivider.name(), "ntc_beta_divider");
}

#[test]
fn formula_member_yields_its_observation_window() {
    match check(SourceKind::Formula, 0, &emit_member("div4", 100)) {
        Ok(MemberWindow::Observation(w)) => assert_eq!(w, [1, 10]),
        other => panic!("unexpected {other:?}"),
    }
    match check(SourceKind::ScaledPolynomial, 0, &scaled_emit("div4", 100, 33_600)) {
        Ok(MemberWindow::ScaledInput(t)) => assert_eq!(t, millionths(33_600)),
        other => panic!("unexpected {other:?}"),
    }
}

#[test]
fn malformed_description_only_member_is_rejected() {
    let mut bad = described("x1", 100, MemberStatus::Forbidden);
    bad.observation = Some([10, 1]);
    let error = expand(SourceKind::Formula, vec![emit_member("div4", 100), bad]).unwrap_err();
    assert!(error.contains("applicability.observation"), "{error}");
    assert!(error.contains("member 1"));
}

#[test]
fn zero_denominator_is_rejected_for_unnecessary_members() {
    let mut bad = scaled_emit("x1", 25, 33_600);
    bad.status = MemberStatus::Unnecessary;
    bad.reason = Some("fixture description-only member".into());
    bad.input_transform = Some(InputTransform { numerator: 33_600, denominator: 0 });
    let error =
        expand(SourceKind::ScaledPolynomial, vec![scaled_emit("div4", 100, 33_600), bad]).unwrap_err();
    assert!(error.contains("denominator must be nonzero"), "{error}");
}

#[test]
fn reversed_observation_is_rejected() {
    let mut bad = emit_member("div4", 100);
    bad.observation = Some([10, 1]);
    let error = expand(SourceKind::Formula, vec![bad]).unwrap_err();
    assert!(error.contains("applicability.observation"), "{error}");
}

#[test]
fn empty_selectors_are_rejected() {
    let mut bad = emit_member("div4", 100);
    bad.selectors.clear();
    let error = expand(SourceKind::Formula, vec![bad]).unwrap_err();
    assert!(error.contains("selectors must not be empty"));
}

#[test]
fn whitespace_only_selector_keys_and_values_are_rejected() {
    let mut blank_key = emit_member("div4", 100);
    blank_key.selectors = vec![("   ".into(), SelectorValue::String("value".into()))];
    let error = expand(SourceKind::Formula, vec![blank_key]).unwrap_err();
    assert!(error.contains("selector keys must not be blank"), "{error}");

    let mut blank_value = emit_member("div4", 100);
    blank_value.selectors = vec![("gain".into(), SelectorValue::String(" \t ".into()))];
    let error = expand(SourceKind::Formula, vec![blank_value]).unwrap_err();
    assert!(error.contains("selector `gain` must not be blank"), "{error}");
}

#[test]
fn formula_rejects_input_transform_and_model_input() {
    let mut with_transform = emit_member("div4", 100);
    with_transform.input_transform = Some(millionths(268_800));
    let error = expand(SourceKind::Formula, vec![with_transform]).unwrap_err();
    assert!(error.contains("`input_transform` is not supported for formula"), "{error}");

    let mut with_model_input = emit_member("div8", 100);
    with_model_input.observation = None;
    with_model_input.model_input = true;
    let error = expand(SourceKind::Formula, vec![with_model_input]).unwrap_err();
    assert!(
        error.contains("`applicability.model_input` is not supported for formula"),
        "{error}"
    );
}

#[test]
fn points_rejects_input_transform() {
    let member = MemberFields {
        selectors: vec![("range".to_string(), SelectorValue::String("full".into()))],
        emitted_name: None,
        status: MemberStatus::Emit,
        reason: None,
        provenance: None,
        input_transform: Some(InputTransform { numerator: 1, denominator: 1 }),
        observation: Some([1, 10]),
        model_input: false,
        physical: false,
    };
    let provenance = fixture();
    let error =
        validate_member("front_end", Some(&provenance), SourceKind::Points, 0, &member).unwrap_err();
    assert!(error.contains("`input_transform` is not supported for points"), "{error}");
}

#[test]
fn scaled_polynomial_requires_transform_and_rejects_observation() {
    let missing = MemberFields {
        selectors: vec![("gain".to_string(), SelectorValue::String("div4".into()))],
        emitted_name: None,
        status: MemberStatus::Emit,
        reason: None,
        provenance: None,
        input_transform: None,
        observation: None,
        model_input: true,
        physical: false,
    };
    let error = expand(SourceKind::ScaledPolynomial, vec![missing]).unwrap_err();
    assert!(error.contains("input_transform is required"), "{error}");

    let mut observation_member = scaled_emit("div4", 100, 33_600);
    observation_member.model_input = false;
    observation_member.observation = Some([1, 10]);
    let error = expand(SourceKind::ScaledPolynomial, vec![observation_member]).unwrap_err();
    assert!(
        error.contains("`applicability.observation` is not supported for scaled_polynomial"),
        "{error}"
    );
}

#[test]
fn ntc_rejects_model_input_and_transform() {
    let member = MemberFields {
        selectors: vec![("probe".to_string(), SelectorValue::String("wide".into()))],
        emitted_name: None,
        status: MemberStatus::Emit,
        reason: None,
        provenance: None,
        input_transform: Some(InputTransform { numerator: 1, denominator: 1 }),
        observation: None,
        model_input: false,
        physical: true,
    };
    let provenance = fixture();
    let error = validate_member("ntc", Some(&provenance), SourceKind::NtcBetaDivider, 0, &member)
        .unwrap_err();
    assert!(error.contains("`input_transform` is not supported for ntc_beta_divider"), "{error}");
}

#[test]
fn emit_rejects_reason_and_non_emit_requires_reason() {
    let mut with_reason = emit_member("div4", 100);
    with_reason.reason = Some("should not be here".into());
    let error = expand(SourceKind::Formula, vec![with_reason]).unwrap_err();
    assert!(error.contains("reason is forbidden for status = \"emit\""), "{error}");

    let mut missing = emit_member("div8", 100);
    missing.status = MemberStatus::Unsupported;
    missing.reason = None;
    let error = expand(SourceKind::Formula, vec![emit_member("div4", 100), missing]).unwrap_err();
    assert!(error.contains("status = \"unsupported\" requires a non-blank reason"), "{error}");
}

#[test]
fn unsupported_scaled_polynomial_member_needs_no_transform_or_applicability() {
    let unsupported = MemberFields {
        selectors: selectors("x1", 100),
        emitted_name: None,
        status: MemberStatus::Unsupported,
        reason: Some("the shared model has no mapping for this gain".into()),
        provenance: None,
        input_transform: None,
        observation: None,
        model_input: false,
        physical: false,
    };
    let expanded =
        expand(SourceKind::ScaledPolynomial, vec![scaled_emit("div4", 100, 33_600), unsupported])
            .unwrap();
    assert_eq!(expanded.len(), 1);
    assert_eq!(expanded[0].name, "als_gain_div4_integration_time_ms_100");
}

#[test]
fn unsupported_member_rejects_invented_source_mapping() {
    let mapped = described("x1", 100, MemberStatus::Unsupported);
    let error = expand(SourceKind::Formula, vec![emit_member("div4", 100), mapped]).unwrap_err();
    assert!(
        error.contains("`applicability.observation` is forbidden for status = \"unsupported\""),
        "{error}"
    );

    let mut transformed = MemberFields {
        selectors: selectors("x1", 100),
        emitted_name: None,
        status: MemberStatus::Unsupported,
        reason: Some("the shared model has no mapping for this gain".into()),
        provenance: None,
        input_transform: Some(millionths(33_600)),
        observation: None,
        model_input: false,
        physical: false,
    };
    let error = expand(
        SourceKind::ScaledPolynomial,
        vec![scaled_emit("div4", 100, 33_600), transformed.clone()],
    )
    .unwrap_err();
    assert!(
        error.contains("`input_transform` is forbidden for status = \"unsupported\""),
        "{error}"
    );

    transformed.input_transform = None;
    transformed.model_input = true;
    let error =
        expand(SourceKind::ScaledPolynomial, vec![scaled_emit("div4", 100, 33_600), transformed])
            .unwrap_err();
    assert!(
        error.contains("`applicability.model_input` is forbidden for status = \"unsupported\""),
        "{error}"
    );
}

#[test]
fn source_specific_field_error_precedes_missing_or_cardinality_errors() {
    let mut bad = emit_member("div4", 100);
    bad.physical = true;
    let error = expand(SourceKind::Formula, vec![bad]).unwrap_err();
    assert!(
        error.contains("`applicability.physical` is not supported for formula sources"),
        "{error}"
    );
    assert!(!error.contains("exactly one"), "{error}");
}

#[test]
fn member_diagnostics_are_exact() {
    let mut bad = emit_member("div4", 100);
    bad.emitted_name = Some("  ".into());
    assert_eq!(
        check(SourceKind::Formula, 2, &bad).unwrap_err(),
        "transfer family `als` member 2: emitted_name must not be blank"
    );
    let member = emit_member("div4", 100);
    assert_eq!(
        check(SourceKind::Unknown, 0, &member).unwrap_err(),
        "transfer family `als`: exactly one of points, formula, or model must be specified"
    );
    let mut reversed = emit_member("div4", 100);
    reversed.observation = Some([5, 5]);
    assert_eq!(
        check(SourceKind::Points, 3, &reversed).unwrap_err(),
        "transfer family `als` member 3: applicability.observation must be two strictly increasing values"
    );
    let mut no_window = emit_member("div4", 100);
    no_window.observation = None;
    assert_eq!(
        check(SourceKind::Formula, 0, &no_window).unwrap_err(),
        "transfer family `als` member 0: applicability.observation is required for this source"
    );
    let mut zero = scaled_emit("div4", 100, 0);
    assert_eq!(
        check(SourceKind::ScaledPolynomial, 0, &zero).unwrap_err(),
        "transfer family `als` member 0: input_transform.numerator must be positive"
    );
    zero.input_transform = Some(millionths(1));
    zero.model_input = false;
    assert_eq!(
        check(SourceKind::ScaledPolynomial, 0, &zero).unwrap_err(),
        "transfer family `als` member 0: applicability.model_input is required for this source"
    );
    let ntc = MemberFields {
        selectors: vec![("probe".to_string(), SelectorValue::String("wide".into()))],
        emitted_name: None,
        status: MemberStatus::Emit,
        reason: None,
        provenance: None,
        input_transform: None,
        observation: None,
        model_input: false,
        physical: false,
    };
    assert_eq!(
        check(SourceKind::NtcBetaDivider, 0, &ntc).unwrap_err(),
        "transfer family `als` member 0: applicability.physical is required for this source"
    );
    let ntc = MemberFields { physical: true, ..ntc };
    assert!(matches!(check(SourceKind::NtcBetaDivider, 0, &ntc), Ok(MemberWindow::Physical)));
}

#[test]
fn member_citation_override_merges_onto_the_family_citation() {
    let mut member = emit_member("div4", 100);
    member.provenance = Some(SourceProvenanceOverride::new("  "));
    let error = check(SourceKind::Formula, 0, &member).unwrap_err();
    assert!(error.starts_with("transfer family `als` member 0: "), "{error}");
    assert!(error.contains("provenance.identity must not be blank"), "{error}");

    member.provenance = Some(SourceProvenanceOverride::new("other datasheet"));
    assert!(check(SourceKind::Formula, 0, &member).is_ok());
    let error = validate_member("als", None, SourceKind::Formula, 0, &member).unwrap_err();
    assert_eq!(
        error,
        "transfer family `als`: source-backed family requires provenance.identity"
    );
}

#[test]
fn clip_points_keeps_inputs_inside_the_inclusive_window() {
    let inputs = [0u16, 5, 10, 15, 20, 25];
    assert_eq!(clip_points(&inputs, [5, 20]).unwrap(), vec![1, 2, 3, 4]);
    assert_eq!(clip_points(&inputs, [10, 15]).unwrap(), vec![2, 3]);
    assert_eq!(clip_points(&[30u16, 1, 2], [1, 2]).unwrap(), vec![1, 2]);
}

#[test]
fn clip_points_needs_two_points_after_clipping() {
    let inputs = [0u16, 5, 10];
    assert_eq!(
        clip_points(&inputs, [6, 9]).unwrap_err(),
        "applicability.observation contains fewer than two points after inclusive clip"
    );
    assert!(clip_points(&inputs, [5, 9]).is_err());
    assert!(clip_points(&[], [0, 65535]).is_err());
}

#[test]
fn formula_observation_window_is_the_emitted_domain() {
    let mut wide = emit_member("div4", 100);
    wide.observation = Some([1, 10]);
    let mut narrow = emit_member("div8", 100);
    narrow.observation = Some([3, 7]);
    let expanded = expand(SourceKind::Formula, vec![wide.clone(), narrow.clone()]).unwrap();
    assert_eq!(expanded[0].name, "als_gain_div4_integration_time_ms_100");
    assert_eq!(expanded[1].name, "als_gain_div8_integration_time_ms_100");
    match check(SourceKind::Formula, 0, &wide) {
        Ok(MemberWindow::Observation(w)) => assert_eq!(w, [1, 10]),
        other => panic!("unexpected {other:?}"),
    }
    match check(SourceKind::Formula, 1, &narrow) {
        Ok(MemberWindow::Observation(w)) => assert_eq!(w, [3, 7]),
        other => panic!("unexpected {other:?}"),
    }
}

#[test]
fn points_observation_clips_the_shared_table() {
    let inputs = [1u16, 5, 10];
    assert_eq!(clip_points(&inputs, [1, 10]).unwrap().len(), 3);
    let low = clip_points(&inputs, [1, 5]).unwrap();
    assert_eq!(low.len(), 2);
    assert_eq!(inputs[low[0]], 1);
    assert_eq!(inputs[low[1]], 5);
}
