use ph_curves::gen::curve::CurveDef;
use ph_curves::gen::definitions::{
    check_expanded_names, check_gaps, check_insert_name, resolved_transfers, DefinitionsFile,
};
use ph_curves::gen::transfer::expansion::FamilyEvaluation;
use ph_curves::gen::transfer::family::{GapDef, GapStatus, MemberStatus, SelectorValue};
use ph_curves::gen::transfer::member::MemberFields;
use ph_curves::gen::transfer::provenance::{SourceProvenance, SourceProvenanceOverride};
use ph_curves::gen::transfer::standalone::TransferFields;
use ph_curves::gen::transfer::BoundaryDef;
use ph_curves::gen::transfer::validation::FamilyFields;

fn gap(reason: &str, provenance: Option<SourceProvenanceOverride>) -> GapDef {
    GapDef { status: GapStatus::Undefined, reason: reason.into(), provenance }
}

fn linear() -> CurveDef {
    CurveDef { builtin: Some("linear".into()), formula: None, points: None, monotonic: true }
}

fn battery() -> TransferFields {
    TransferFields {
        output_scale: 1000,
        max_knots: 256,
        points: false,
        formula: true,
        model: None,
        model_scale: None,
        domain: Some([0, 4095]),
        output_range: false,
    }
}

fn member(gain: &str) -> MemberFields {
    MemberFields {
        selectors: vec![("gain".to_string(), SelectorValue::String(gain.into()))],
        emitted_name: None,
        status: MemberStatus::Emit,
        reason: None,
        provenance: None,
        input_transform: None,
        observation: Some([1, 10]),
        model_input: false,
        physical: false,
    }
}

fn als() -> FamilyFields {
    FamilyFields {
        provenance: Some(SourceProvenance::new("test fixture")),
        max_interpolation_error: 50,
        max_knots: 64,
        max_total_knots: None,
        max_table_bytes: None,
        below: BoundaryDef::Error,
        above: BoundaryDef::Error,
        observation_guard: None,
        formula: true,
        points: false,
        model: None,
        model_scale: false,
        selector_axes: Some(vec![(
            "gain".to_string(),
            vec![SelectorValue::String("div4".into()), SelectorValue::String("x1".into())],
        )]),
        expected_selectors: None,
        members: vec![member("div4"), member("x1")],
        gaps: Vec::new(),
    }
}

fn document() -> DefinitionsFile {
    DefinitionsFile {
        curves: vec![("fade".into(), linear())],
        transfers: vec![("battery".into(), battery())],
        transfer_families: vec![("als".into(), als())],
        gaps: vec![("white_channel".into(), gap("counts only; no conversion", None))],
    }
}

#[test]
fn inserted_transfer_name_must_be_new_and_non_blank() {
    let defs = document();
    assert!(check_insert_name(&defs, "thermistor").is_ok());
    assert_eq!(
        check_insert_name(&defs, " \t").unwrap_err().message(),
        "transfer name must not be blank"
    );
    assert_eq!(
        check_insert_name(&defs, "fade").unwrap_err().message(),
        "transfer `fade` collides with a [curves] entry"
    );
    assert_eq!(
        check_insert_name(&defs, "battery").unwrap_err().message(),
        "transfer `battery` collides with a [transfers] entry"
    );
    assert_eq!(
        check_insert_name(&defs, "als").unwrap_err().message(),
        "transfer `als` collides with a [transfer_families] entry"
    );
    assert_eq!(
        check_insert_name(&defs, "white_channel").unwrap_err().message(),
        "transfer `white_channel` collides with a [gaps] entry"
    );
}

#[test]
fn gaps_need_a_reason_a_standalone_citation_and_their_own_name() {
    assert!(check_gaps(&document()).is_ok());

    let mut defs = document();
    defs.gaps[0].1.reason = "   ".into();
    assert_eq!(check_gaps(&defs).unwrap_err(), "gap `white_channel`: reason must not be blank");

    let mut defs = document();
    defs.gaps.push(("battery".into(), gap("retired", None)));
    assert_eq!(check_gaps(&defs).unwrap_err(), "gap `battery` collides with a [transfers] entry");

    let mut defs = document();
    defs.gaps.insert(0, ("als".into(), gap("retired", None)));
    assert_eq!(
        check_gaps(&defs).unwrap_err(),
        "gap `als` collides with a [transfer_families] entry"
    );

    let mut defs = document();
    defs.gaps.push(("fade".into(), gap("retired", None)));
    assert_eq!(check_gaps(&defs).unwrap_err(), "gap `fade` collides with a [curves] entry");
}

#[test]
fn gap_provenance_without_identity_fails_validation() {
    let mut defs = document();
    let mut overlay = SourceProvenanceOverride::default();
    overlay.locator = Some("\u{a7}9".into());
    defs.gaps[0].1.provenance = Some(overlay);
    let error = check_gaps(&defs).unwrap_err();
    assert!(
        error.contains("gap `white_channel`")
            && error.contains("source-backed citation requires provenance.identity"),
        "{error}"
    );
}

#[test]
fn emitted_member_names_must_not_shadow_gaps_or_transfers() {
    let defs = document();
    let fine = vec!["als_gain_div4".to_string()];
    assert!(check_expanded_names(&defs, &fine).is_ok());
    let names = vec!["als_gain_div4".to_string(), "white_channel".to_string()];
    assert_eq!(
        check_expanded_names(&defs, &names).unwrap_err(),
        "gap `white_channel` collides with an emitted family member"
    );
    let names = vec!["battery".to_string(), "white_channel".to_string()];
    assert_eq!(
        check_expanded_names(&defs, &names).unwrap_err(),
        "expanded family member `battery` collides with a standalone [transfers] entry"
    );
}

#[test]
fn document_getters_return_each_table() {
    let defs = document();
    assert_eq!(defs.curves().len(), 1);
    assert_eq!(defs.transfers()[0].0, "battery");
    assert_eq!(defs.transfer_families()[0].0, "als");
    assert_eq!(defs.gaps()[0].0, "white_channel");
}

#[test]
fn resolved_transfers_are_standalone_then_emitted_members() {
    let defs = document();
    assert_eq!(
        resolved_transfers(&defs, &Vec::new()).unwrap(),
        vec!["battery".to_string(), "als_gain_div4".to_string(), "als_gain_x1".to_string()]
    );

    let mut shadowed = document();
    shadowed.gaps.push(("als_gain_x1".into(), gap("documented only", None)));
    assert_eq!(
        resolved_transfers(&shadowed, &Vec::new()).unwrap_err(),
        "gap `als_gain_x1` collides with an emitted family member"
    );

    let mut clash = document();
    clash.transfers.push(("als_gain_div4".into(), battery()));
    assert_eq!(
        resolved_transfers(&clash, &Vec::new()).unwrap_err(),
        "expanded family member `als_gain_div4` collides with a standalone [transfers] entry"
    );

    let evaluations = vec![FamilyEvaluation {
        coefficients: None,
        windows: vec![Some("transfer family `als` member 0: window failed".to_string())],
        transfers: Vec::new(),
    }];
    assert_eq!(
        resolved_transfers(&document(), &evaluations).unwrap_err(),
        "transfer family `als` member 0: window failed"
    );

    let mut blank = document();
    blank.gaps[0].1.reason = " ".into();
    assert_eq!(
        resolved_transfers(&blank, &Vec::new()).unwrap_err(),
        "gap `white_channel`: reason must not be blank"
    );
}
