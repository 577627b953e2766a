use ph_curves::gen::document::{
    check_capabilities, check_capability_markers, reject_misplaced_reserved_transfer_fields,
    reject_nested_reserved_transfer_fields, reject_unknown_family_source_fields, TomlValue,
};

fn table(entries: Vec<(&str, TomlValue)>) -> TomlValue {
    TomlValue::Table(entries.into_iter().map(|(k, v)| (k.to_string(), v)).collect())
}

fn text(s: &str) -> TomlValue {
    TomlValue::String(s.into())
}

fn point(extra: Option<(&str, TomlValue)>) -> TomlValue {
    let mut entries = vec![("input", TomlValue::Other), ("output", TomlValue::Other)];
    if let Some(e) = extra {
        entries.push(e);
    }
    entries.sort_by(|a, b| a.0.cmp(b.0));
    table(entries)
}

fn ntc_model(extra: Option<(&str, TomlValue)>) -> TomlValue {
    let mut entries = vec![
        ("adc_max_code", TomlValue::Other),
        ("beta_kelvin", TomlValue::Other),
        ("fixed_resistance_ohms", TomlValue::Other),
        ("kind", text("ntc_beta_divider")),
        ("nominal_resistance_ohms", TomlValue::Other),
        ("nominal_temperature_celsius", TomlValue::Other),
        ("topology", text("ntc_to_ground")),
    ];
    if let Some(e) = extra {
        entries.push(e);
    }
    entries.sort_by(|a, b| a.0.cmp(b.0));
    table(entries)
}

fn guard() -> TomlValue {
    table(vec![("behavior", text("error")), ("code", TomlValue::Other)])
}

#[test]
fn guard_nested_in_a_point_is_misplaced() {
    let def = table(vec![
        ("input_unit", text("count")),
        ("points", TomlValue::Array(vec![point(Some(("saturation", guard()))), point(None)])),
    ]);
    let error = reject_misplaced_reserved_transfer_fields(
        "standalone transfer `guarded`",
        "[transfers.guarded]",
        &def,
    )
    .unwrap_err();
    assert_eq!(
        error,
        "standalone transfer `guarded`: misplaced `saturation` at `points[0].saturation`; \
         declare `saturation` directly under `[transfers.guarded]`"
    );
}

#[test]
fn guard_and_citation_nested_in_a_model_are_misplaced() {
    let def = table(vec![("model", ntc_model(Some(("saturation", guard()))))]);
    let error =
        reject_misplaced_reserved_transfer_fields("standalone transfer `ntc`", "[transfers.ntc]", &def)
            .unwrap_err();
    assert!(
        error.contains("misplaced `saturation` at `model.saturation`")
            && error.contains("directly under `[transfers.ntc]`"),
        "{error}"
    );

    let def = table(vec![("model", ntc_model(Some(("observation_guard", guard()))))]);
    let error =
        reject_misplaced_reserved_transfer_fields("standalone transfer `ntc`", "[transfers.ntc]", &def)
            .unwrap_err();
    assert!(error.contains("misplaced `observation_guard` at `model.observation_guard`; declare `saturation`"), "{error}");

    let cited = table(vec![("identity", text("silently ignored"))]);
    let def = table(vec![(
        "points",
        TomlValue::Array(vec![point(Some(("provenance", cited))), point(None)]),
    )]);
    let error = reject_misplaced_reserved_transfer_fields(
        "standalone transfer `misplaced`",
        "[transfers.misplaced]",
        &def,
    )
    .unwrap_err();
    assert!(
        error.contains("standalone transfer `misplaced`")
            && error.contains("misplaced `provenance` at `points[0].provenance`")
            && error.contains("directly under `[transfers.misplaced]`"),
        "{error}"
    );
}

#[test]
fn reserved_words_outside_source_values_are_not_scanned() {
    let selectors = table(vec![("saturation", text("high"))]);
    let def = table(vec![
        ("provenance", table(vec![("identity", text("datasheet"))])),
        ("saturation", guard()),
        ("selectors", selectors),
    ]);
    assert!(reject_misplaced_reserved_transfer_fields("transfer family `als`", "[transfer_families.als]", &def).is_ok());
    assert!(reject_misplaced_reserved_transfer_fields("x", "y", &TomlValue::Other).is_ok());
}

#[test]
fn nested_paths_follow_tables_and_arrays() {
    let deep = TomlValue::Array(vec![
        TomlValue::Other,
        table(vec![("inner", TomlValue::Array(vec![table(vec![("provenance", TomlValue::Other)])]))]),
    ]);
    assert_eq!(
        reject_nested_reserved_transfer_fields("L", "[T]", &deep, "points").unwrap_err(),
        "L: misplaced `provenance` at `points[1].inner[0].provenance`; declare `provenance` directly under `[T]`"
    );
}

#[test]
fn family_point_unknown_fields_are_named_with_their_path() {
    let family = table(vec![(
        "points",
        TomlValue::Array(vec![point(Some(("scale", TomlValue::Other))), point(None)]),
    )]);
    assert_eq!(
        reject_unknown_family_source_fields("als", &family).unwrap_err(),
        "transfer family `als`: unknown field `scale` at `points[0].scale`; family point fields are `input` and `output`"
    );
    let family = table(vec![("points", TomlValue::Array(vec![point(None), TomlValue::Other]))]);
    assert!(reject_unknown_family_source_fields("als", &family).is_ok());
}

#[test]
fn family_ntc_unknown_fields_are_named_with_their_path() {
    let family = table(vec![("model", ntc_model(Some(("scale", TomlValue::Other))))]);
    let error = reject_unknown_family_source_fields("ntc", &family).unwrap_err();
    assert_eq!(
        error,
        "transfer family `ntc`: unknown field `scale` at `model.scale` for `ntc_beta_divider`"
    );
    assert!(reject_unknown_family_source_fields("ntc", &table(vec![("model", ntc_model(None))])).is_ok());
    let polynomial = table(vec![(
        "model",
        table(vec![("kind", text("scaled_polynomial")), ("scale", TomlValue::Other)]),
    )]);
    assert!(reject_unknown_family_source_fields("als", &polynomial).is_ok());
}

#[test]
fn capability_markers_must_be_supported_and_used() {
    let guard_marker = vec!["observation_guard_v1".to_string()];
    let citation_marker = vec!["source_provenance_v1".to_string()];
    assert!(check_capabilities(&[guard_marker[0].clone(), citation_marker[0].clone()]).is_ok());
    assert_eq!(
        check_capabilities(&["observation_guard_v2".to_string()]).unwrap_err(),
        "unsupported [transfers] capability `observation_guard_v2`"
    );

    assert!(check_capability_markers(&guard_marker, true, false, false).is_ok());
    assert!(check_capability_markers(&[], false, false, true).is_ok());
    assert_eq!(
        check_capability_markers(&[], true, false, false).unwrap_err(),
        "standalone transfers using `saturation` require `[transfers] requires = [\"observation_guard_v1\"]`; the marker makes older generators reject the document instead of silently dropping the guard"
    );
    assert_eq!(
        check_capability_markers(&[], true, false, true).unwrap_err(),
        "a standalone transfer named `requires` cannot coexist with observation guards; rename that transfer before declaring the `[transfers] requires` capability marker"
    );
    assert_eq!(
        check_capability_markers(&guard_marker, false, false, false).unwrap_err(),
        "[transfers] requires `observation_guard_v1`, but no standalone transfer declared a direct `saturation` guard; check the guard spelling and TOML table placement"
    );
    assert_eq!(
        check_capability_markers(&guard_marker, true, true, false).unwrap_err(),
        "standalone transfers using `provenance` require `[transfers] requires = [\"source_provenance_v1\"]`; the marker makes older generators reject the document instead of silently dropping the citation"
    );
    assert_eq!(
        check_capability_markers(&[], false, true, true).unwrap_err(),
        "a standalone transfer named `requires` cannot coexist with source provenance; rename that transfer before declaring the `[transfers] requires` capability marker"
    );
    assert_eq!(
        check_capability_markers(&citation_marker, false, false, false).unwrap_err(),
        "[transfers] requires `source_provenance_v1`, but no standalone transfer declared source provenance; check the provenance spelling and TOML table placement"
    );
    assert!(check_capability_markers(&citation_marker, false, true, false).is_ok());
}
