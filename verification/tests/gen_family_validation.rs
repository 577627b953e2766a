use ph_curves::gen::transfer::expansion::expand_families;
use ph_curves::gen::transfer::family::{
    DeclaredSource, FamilyGapDef, GapStatus, MemberStatus, SelectorAxis, SelectorIdentity,
    SelectorUniverse, SelectorValue,
};
use ph_curves::gen::transfer::member::{MemberFields, ModelKind};
use ph_curves::gen::transfer::provenance::{
    GenerationPolicy, SourceProvenance, SourceProvenanceOverride,
};
use ph_curves::gen::report::{enforce_family_budgets, FamilyReport, ResourceTotals};
use ph_curves::gen::transfer::selectors::{resolved_member_provenance, resolved_selector_universe};
use ph_curves::gen::transfer::{BoundaryDef, ObservationGuardBehaviorDef, ObservationGuardDef};
use ph_curves::gen::transfer::validation::{
    default_family_max_knots, validate_family, FamilyFields, FAMILY_MAX_KNOTS_HARD,
};

fn text(s: &str) -> SelectorValue {
    SelectorValue::String(s.into())
}

fn selectors(gain: &str, integration_time_ms: i64) -> SelectorIdentity {
    vec![
        ("gain".to_string(), text(gain)),
        ("integration_time_ms".to_string(), SelectorValue::Integer(integration_time_ms)),
    ]
}

fn formula_member(gain: &str, integration_time_ms: i64, status: MemberStatus, reason: Option<&str>) -> MemberFields {
    MemberFields {
        selectors: selectors(gain, integration_time_ms),
        emitted_name: None,
        status,
        reason: reason.map(str::to_string),
        provenance: None,
        input_transform: None,
        observation: Some([1, 10]),
        model_input: false,
        physical: false,
    }
}

fn emit_member(gain: &str, integration_time_ms: i64) -> MemberFields {
    formula_member(gain, integration_time_ms, MemberStatus::Emit, None)
}

fn described(gain: &str, integration_time_ms: i64, status: MemberStatus) -> MemberFields {
    formula_member(gain, integration_time_ms, status, Some("fixture description-only member"))
}

fn same(a: &SelectorIdentity, b: &SelectorIdentity) -> bool {
    a == b
}

fn expected_from_members(members: &[MemberFields], gaps: &[FamilyGapDef]) -> Vec<SelectorIdentity> {
    let mut identities: Vec<SelectorIdentity> = Vec::new();
    for selectors in members.iter().map(|m| &m.selectors).chain(gaps.iter().map(|g| &g.selectors)) {
        if selectors.is_empty() {
            continue;
        }
        if !identities.iter().any(|identity| same(identity, selectors)) {
            identities.push(selectors.clone());
        }
    }
    if identities.is_empty() {
        identities.push(vec![("gain".to_string(), text("div4"))]);
    }
    identities
}

fn formula_family(members: Vec<MemberFields>) -> FamilyFields {
    FamilyFields {
        provenance: Some(SourceProvenance::new("test fixture")),
        max_interpolation_error: 50,
        max_knots: 64,
        max_total_knots: None,
        max_table_bytes: None,
        below: BoundaryDef::Error,
        above: BoundaryDef::Error,
        observation_guard: None,
        formula: true,
        points: false,
        model: None,
        model_scale: false,
        selector_axes: None,
        expected_selectors: Some(expected_from_members(&members, &[])),
        members,
        gaps: Vec::new(),
    }
}

fn validate(name: &str, family: &FamilyFields) -> Result<(), String> {
    validate_family(name, family, None, &[])
}

fn two_axis(range: &str, gain: i64) -> SelectorIdentity {
    vec![("gain".to_string(), SelectorValue::Integer(gain)), ("range".to_string(), text(range))]
}

fn two_axis_emit(range: &str, gain: i64) -> MemberFields {
    let mut member = emit_member("div4", 100);
    member.selectors = two_axis(range, gain);
    member
}

fn two_axis_axes() -> Vec<SelectorAxis> {
    vec![
        ("gain".to_string(), vec![SelectorValue::Integer(1), SelectorValue::Integer(8)]),
        ("range".to_string(), vec![text("low"), text("high")]),
    ]
}

fn cartesian_family(members: Vec<MemberFields>, gaps: Vec<FamilyGapDef>) -> FamilyFields {
    let mut family = formula_family(members);
    family.selector_axes = Some(two_axis_axes());
    family.expected_selectors = None;
    family.gaps = gaps;
    family
}

fn binary_axes(axis_count: usize) -> Vec<SelectorAxis> {
    (0..axis_count)
        .map(|index| {
            (format!("axis_{index:03}"), vec![SelectorValue::Integer(0), SelectorValue::Integer(1)])
        })
        .collect()
}

#[test]
fn family_knot_defaults() {
    assert_eq!(default_family_max_knots(), 64);
    assert_eq!(FAMILY_MAX_KNOTS_HARD, 256);
}

#[test]
fn duplicate_selector_maps_are_rejected_across_statuses() {
    let family = formula_family(vec![
        emit_member("div4", 100),
        described("div4", 100, MemberStatus::Unnecessary),
    ]);
    let error = validate("als", &family).unwrap_err();
    assert!(error.contains("share selector identity"));
    assert!(error.contains("gain=\"div4\""));
    assert_eq!(
        error,
        "transfer family `als`: members 0 and 1 share selector identity \
         {gain=\"div4\", integration_time_ms=100}"
    );
}

#[test]
fn integer_and_string_selector_values_remain_distinct_identities() {
    let mut string_one = emit_member("div4", 100);
    string_one.selectors = vec![("a".into(), text("1"))];
    let mut int_one = emit_member("div8", 100);
    int_one.selectors = vec![("a".into(), SelectorValue::Integer(1))];
    let error = validate("als", &formula_family(vec![string_one, int_one])).unwrap_err();
    assert!(error.contains("both resolve to `als_a_1`"));
    assert!(error.contains("a=\"1\""));
    assert!(error.contains("a=1"));
}

#[test]
fn member_missing_a_declared_selector_key_is_rejected() {
    let mut first = emit_member("div4", 100);
    first.selectors = vec![("a".into(), text("x")), ("b".into(), text("y"))];
    let mut second = emit_member("div8", 100);
    second.selectors = vec![("a".into(), text("x_b_y"))];
    let mut family = formula_family(vec![first, second]);
    family.expected_selectors = None;
    family.selector_axes = Some(vec![
        ("a".into(), vec![text("x")]),
        ("b".into(), vec![text("y")]),
    ]);
    let error = validate("als", &family).unwrap_err();
    assert!(error.contains("selector keys"), "{error}");
    assert!(error.contains("`b`"), "{error}");
}

#[test]
fn max_knots_above_family_cap_is_rejected() {
    let mut family = formula_family(vec![emit_member("div4", 100)]);
    family.max_knots = 257;
    let error = validate("als", &family).unwrap_err();
    assert!(error.contains("max_knots must be in 2..=256"));
}

#[test]
fn omitted_cartesian_cell_is_rejected() {
    let family = cartesian_family(
        vec![two_axis_emit("low", 1), two_axis_emit("high", 1), two_axis_emit("high", 8)],
        Vec::new(),
    );
    let error = validate("front_end", &family).unwrap_err();
    assert!(error.contains("contains 4 identities"), "{error}");
    assert!(error.contains("occupy 3"), "{error}");
}

#[test]
fn cartesian_cardinality_overflow_is_rejected_without_expansion() {
    let axes = binary_axes(usize::BITS as usize);
    let mut member = emit_member("div4", 100);
    member.selectors = axes.iter().map(|(key, _)| (key.clone(), SelectorValue::Integer(0))).collect();
    let mut family = formula_family(vec![member]);
    family.selector_axes = Some(axes);
    family.expected_selectors = None;
    let error = validate("front_end", &family).unwrap_err();
    assert!(error.contains("Cartesian product cardinality"), "{error}");
    assert!(error.contains("usize capacity"), "{error}");
}

#[test]
fn integer_and_string_axis_values_remain_distinct_expected_identities() {
    let mut int_member = emit_member("div4", 100);
    int_member.selectors = vec![("n".into(), SelectorValue::Integer(1))];
    let mut family = formula_family(vec![int_member]);
    family.expected_selectors = None;
    family.selector_axes = Some(vec![("n".into(), vec![SelectorValue::Integer(1), text("1")])]);
    let error = validate("als", &family).unwrap_err();
    assert!(error.contains("contains 2 identities"), "{error}");
    assert!(error.contains("occupy 1"), "{error}");
}

#[test]
fn selector_value_type_mismatch_is_rejected() {
    let mut member = emit_member("div4", 100);
    member.selectors = vec![("n".into(), text("1"))];
    let mut family = formula_family(vec![member]);
    family.expected_selectors = None;
    family.selector_axes =
        Some(vec![("n".into(), vec![SelectorValue::Integer(1), SelectorValue::Integer(2)])]);
    let error = validate("als", &family).unwrap_err();
    assert!(error.contains("has a string value"), "{error}");
    assert!(error.contains("uses integer"), "{error}");
}

#[test]
fn identity_outside_the_declared_universe_is_rejected() {
    let mut extra = emit_member("div4", 100);
    extra.selectors = vec![("n".into(), SelectorValue::Integer(3))];
    let mut covered = emit_member("div8", 100);
    covered.selectors = vec![("n".into(), SelectorValue::Integer(1))];
    let mut family = formula_family(vec![covered, extra]);
    family.expected_selectors = None;
    family.selector_axes =
        Some(vec![("n".into(), vec![SelectorValue::Integer(1), SelectorValue::Integer(2)])]);
    let error = validate("als", &family).unwrap_err();
    assert!(error.contains("outside the declared universe"), "{error}");
    assert!(error.contains("n=3"), "{error}");
}

#[test]
fn member_and_family_gap_for_the_same_identity_are_rejected() {
    let gap = FamilyGapDef {
        selectors: two_axis("low", 1),
        status: GapStatus::Undefined,
        reason: "conflicts with the emitted member".into(),
        provenance: None,
    };
    let family = cartesian_family(
        vec![
            two_axis_emit("low", 1),
            two_axis_emit("low", 8),
            two_axis_emit("high", 1),
            two_axis_emit("high", 8),
        ],
        vec![gap],
    );
    let error = validate("front_end", &family).unwrap_err();
    assert!(error.contains("member 0 and family-scoped gap 0 share selector identity"), "{error}");
}

#[test]
fn family_scoped_gap_requires_a_non_blank_reason() {
    let gap = FamilyGapDef {
        selectors: two_axis("low", 8),
        status: GapStatus::Undefined,
        reason: "   ".into(),
        provenance: None,
    };
    let family = cartesian_family(
        vec![two_axis_emit("low", 1), two_axis_emit("high", 1), two_axis_emit("high", 8)],
        vec![gap],
    );
    let error = validate("front_end", &family).unwrap_err();
    assert!(error.contains("reason must not be blank"), "{error}");
}

#[test]
fn repeated_family_scoped_gaps_are_rejected() {
    let gap = FamilyGapDef {
        selectors: two_axis("low", 8),
        status: GapStatus::Undefined,
        reason: "not characterized".into(),
        provenance: None,
    };
    let family = cartesian_family(
        vec![two_axis_emit("low", 1), two_axis_emit("high", 1)],
        vec![gap.clone(), gap],
    );
    assert_eq!(
        validate("front_end", &family).unwrap_err(),
        "transfer family `front_end`: family-scoped gaps 0 and 1 share selector identity \
         {gain=8, range=\"low\"}"
    );
}

#[test]
fn selector_axes_and_expected_selectors_are_mutually_exclusive() {
    let mut family = formula_family(vec![emit_member("div4", 100)]);
    family.selector_axes = Some(vec![("gain".into(), vec![text("div4")])]);
    let error = validate("als", &family).unwrap_err();
    assert!(error.contains("mutually exclusive"), "{error}");
}

#[test]
fn missing_selector_universe_is_rejected() {
    let mut family = formula_family(vec![emit_member("div4", 100)]);
    family.selector_axes = None;
    family.expected_selectors = None;
    let error = validate("als", &family).unwrap_err();
    assert!(error.contains("exactly one of selector_axes or expected_selectors"), "{error}");
}

#[test]
fn source_backed_family_requires_provenance_identity() {
    let mut family = formula_family(vec![emit_member("div4", 100)]);
    family.provenance = None;
    let error = validate("als", &family).unwrap_err();
    assert!(error.contains("source-backed family requires provenance.identity"), "{error}");
}

#[test]
fn blank_family_provenance_identity_is_rejected() {
    let mut family = formula_family(vec![emit_member("div4", 100)]);
    family.provenance = Some(SourceProvenance::new("  "));
    let error = validate("als", &family).unwrap_err();
    assert!(error.contains("provenance.identity must not be blank"), "{error}");
}

#[test]
fn explicit_and_derived_stems_collide() {
    let mut first = emit_member("div4", 100);
    first.emitted_name = Some("shared_stem".into());
    let mut second = emit_member("div8", 100);
    second.emitted_name = Some("shared_stem".into());
    let error = validate("als", &formula_family(vec![first, second])).unwrap_err();
    assert!(error.contains("both resolve to `shared_stem`"), "{error}");
}

#[test]
fn family_header_diagnostics_are_exact() {
    let mut family = formula_family(vec![emit_member("div4", 100)]);
    family.max_total_knots = Some(0);
    assert_eq!(
        validate("als", &family).unwrap_err(),
        "transfer family `als`: max_total_knots must be positive"
    );
    family.max_total_knots = None;
    family.max_table_bytes = Some(0);
    assert_eq!(
        validate("als", &family).unwrap_err(),
        "transfer family `als`: max_table_bytes must be positive"
    );
    family.max_table_bytes = Some(600);
    family.points = true;
    assert_eq!(
        validate("als", &family).unwrap_err(),
        "transfer family `als`: exactly one of points, formula, or model must be specified"
    );
    family.points = false;
    family.formula = false;
    family.model = Some(ModelKind::ScaledPolynomial);
    family.model_scale = true;
    assert_eq!(
        validate("als", &family).unwrap_err(),
        "transfer family `als`: scale belongs on members as input_transform, not the shared model"
    );
    family.model_scale = false;
    let cause = "scaled_polynomial coefficients must not be empty".to_string();
    assert_eq!(
        validate_family("als", &family, Some(&cause), &[]).unwrap_err(),
        "transfer family `als`: scaled_polynomial coefficients must not be empty"
    );
    let empty = formula_family(Vec::new());
    assert_eq!(
        validate("als", &empty).unwrap_err(),
        "transfer family `als`: members must not be empty"
    );
}

#[test]
fn host_window_errors_are_reported_for_mapped_members_only() {
    let family = formula_family(vec![
        emit_member("div4", 100),
        described("x1", 100, MemberStatus::Forbidden),
    ]);
    let windows = vec![None, Some("window failure".to_string())];
    assert_eq!(validate_family("als", &family, None, &windows).unwrap_err(), "window failure");

    let mut unsupported = formula_family(vec![emit_member("div4", 100)]);
    let mut member = described("x1", 100, MemberStatus::Unsupported);
    member.observation = None;
    unsupported.members.push(member);
    unsupported.expected_selectors = Some(expected_from_members(&unsupported.members, &[]));
    let windows = vec![None, Some("never consulted".to_string())];
    assert!(validate_family("als", &unsupported, None, &windows).is_ok());
}

#[test]
fn member_provenance_inherits_or_merges_the_family_citation() {
    let base = SourceProvenance::new("synthetic ALS application note")
        .with_revision("1.0")
        .with_locator("Table 1");
    assert_eq!(resolved_member_provenance("als", Some(&base), None).unwrap(), base);
    let mut overlay = SourceProvenanceOverride::default();
    overlay.locator = Some("\u{a7}4.2 forbidden matrix".into());
    assert_eq!(
        resolved_member_provenance("als", Some(&base), Some(&overlay)).unwrap(),
        SourceProvenance::new("synthetic ALS application note")
            .with_revision("1.0")
            .with_locator("\u{a7}4.2 forbidden matrix")
    );
    assert_eq!(
        resolved_member_provenance("als", None, None).unwrap_err(),
        "transfer family `als`: source-backed family requires provenance.identity"
    );
    let blank = SourceProvenance::new(" ");
    let error = resolved_member_provenance("als", Some(&blank), None).unwrap_err();
    assert!(error.starts_with("transfer family `als`: "), "{error}");
    assert!(error.contains("provenance.identity must not be blank"), "{error}");
}

#[test]
fn zero_aggregate_budgets_fail_during_validation() {
    for field in ["max_total_knots = 0", "max_table_bytes = 0"] {
        let mut family = formula_family(vec![emit_member("div4", 100)]);
        if field.starts_with("max_total_knots") {
            family.max_total_knots = Some(0);
        } else {
            family.max_table_bytes = Some(0);
        }
        let error = validate("front_end", &family).unwrap_err();
        assert!(error.contains("must be positive"), "{field}: {error}");
    }
}

#[test]
fn family_budgets_are_enforced_in_family_order() {
    let mut front_end = formula_family(vec![emit_member("div4", 100)]);
    front_end.max_total_knots = Some(5);
    front_end.max_table_bytes = Some(24);
    let mut quiet = formula_family(vec![emit_member("div4", 100)]);
    quiet.max_total_knots = Some(1);
    let families = vec![("front_end".to_string(), front_end), ("quiet".to_string(), quiet)];
    let reports = vec![FamilyReport {
        name: "front_end".into(),
        member_count: 3,
        totals: ResourceTotals { member_count: 3, knot_count: 6, table_bytes: 36 },
    }];
    assert_eq!(
        enforce_family_budgets(&families, &reports).unwrap_err(),
        "transfer family `front_end`: max_total_knots=5 exceeded: 6 knots across 3 emitted members"
    );
    let mut bytes_only = families.clone();
    bytes_only[0].1.max_total_knots = None;
    assert_eq!(
        enforce_family_budgets(&bytes_only, &reports).unwrap_err(),
        "transfer family `front_end`: max_table_bytes=24 exceeded: 36 bytes array payload across 3 emitted members"
    );
    bytes_only[0].1.max_table_bytes = None;
    assert!(enforce_family_budgets(&bytes_only, &reports).is_ok());
}

#[test]
fn policy_is_independently_inspectable_from_provenance() {
    let mut tight = formula_family(vec![emit_member("div4", 100)]);
    tight.provenance = Some(SourceProvenance::new("shared datasheet"));
    tight.max_interpolation_error = 1;
    tight.max_knots = 8;
    let mut loose = formula_family(vec![emit_member("div4", 100)]);
    loose.provenance = Some(SourceProvenance::new("shared datasheet"));
    loose.max_interpolation_error = 50;
    loose.max_knots = 64;
    loose.below = BoundaryDef::Clamp;
    loose.above = BoundaryDef::Clamp;
    loose.observation_guard = Some(ObservationGuardDef {
        code: 65_535,
        behavior: ObservationGuardBehaviorDef::Error,
        provenance: None,
    });
    assert!(validate("tight", &tight).is_ok());
    assert!(validate("loose", &loose).is_ok());
    assert_eq!(tight.provenance, loose.provenance);
    assert_ne!(tight.policy(), loose.policy());
    assert_eq!(tight.policy().max_knots, 8);
    assert_eq!(loose.policy().max_knots, 64);
    assert!(loose.policy().observation_guard.is_some());
    assert!(tight.policy().observation_guard.is_none());
}

#[test]
fn guard_policy_carries_code_and_behavior_only() {
    let guard = |locator: &str| {
        let mut overlay = SourceProvenanceOverride::default();
        overlay.locator = Some(locator.into());
        ObservationGuardDef {
            code: 65_535,
            behavior: ObservationGuardBehaviorDef::Error,
            provenance: Some(overlay),
        }
    };
    let mut first = formula_family(vec![emit_member("low", 1)]);
    first.provenance = Some(SourceProvenance::new("family source"));
    first.observation_guard = Some(guard("guard table"));
    let mut second = formula_family(vec![emit_member("low", 1)]);
    second.provenance = Some(SourceProvenance::new("another family source"));
    second.observation_guard = Some(guard("another guard table"));
    assert_eq!(first.policy(), second.policy());
    assert_eq!(
        first.policy().observation_guard.map(|g| (g.code, g.behavior)),
        Some((65_535, ObservationGuardBehaviorDef::Error))
    );
}

#[test]
fn policy_clause_names_budget_and_boundaries() {
    let mut family = formula_family(vec![emit_member("div4", 100)]);
    family.max_interpolation_error = 5;
    family.max_knots = 12;
    family.above = BoundaryDef::Clamp;
    assert_eq!(
        family.policy().rustdoc_clause(),
        "requested interpolation error <= 5; max_knots = 12; below = error; above = clamp"
    );
    let direct = GenerationPolicy::new(1, 2, BoundaryDef::Clamp, BoundaryDef::Error, None);
    assert_eq!(direct.observation_guard, None);
    assert_eq!(BoundaryDef::Clamp.toml_name(), "clamp");
    assert_eq!(family.declared_source(), Some(DeclaredSource::Formula));
    family.points = true;
    assert_eq!(family.declared_source(), None);
}

#[test]
fn global_named_gap_does_not_satisfy_family_completeness() {
    // A document-level gap named `low_gain_8` is no family-scoped identity,
    // so the family still occupies only three of its four cells.
    let family = cartesian_family(
        vec![two_axis_emit("low", 1), two_axis_emit("high", 1), two_axis_emit("high", 8)],
        Vec::new(),
    );
    let error = validate("front_end", &family).unwrap_err();
    assert!(error.contains("contains 4 identities"), "{error}");
    assert!(error.contains("occupy 3"), "{error}");
}

#[test]
fn expected_selectors_do_not_invent_cartesian_cells() {
    let mut family = formula_family(vec![two_axis_emit("low", 1), two_axis_emit("high", 8)]);
    family.expected_selectors = Some(vec![two_axis("low", 1), two_axis("high", 8)]);
    assert_eq!(validate("front_end", &family), Ok(()));
    let universe = resolved_selector_universe(
        "front_end",
        family.selector_axes.as_ref(),
        family.expected_selectors.as_ref(),
    )
    .unwrap();
    match &universe {
        SelectorUniverse::Explicit { identities } => assert_eq!(identities.len(), 2),
        other => panic!("expected explicit universe, got {other:?}"),
    }
    assert_eq!(universe.identity_count(), Some(2));
    let emitted = expand_families(&vec![("front_end".to_string(), family)], &Vec::new()).unwrap();
    assert_eq!(emitted.len(), 2);
}
