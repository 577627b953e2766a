use ph_curves::gen::report::{
    assemble_report, check_family_budget, table_bytes, GenerationPath, GenerationResult,
    ObservationGuardBehavior, ObservationGuardMetadata, ResourceTotals, TransferReport,
    TABLE_BYTES_PER_KNOT,
};
use ph_curves::gen::transfer::family::SelectorValue;

#[test]
fn totals_accumulate_members_knots_and_bytes() {
    let mut totals = ResourceTotals::default();
    totals.add_member(2, table_bytes(2));
    totals.add_member(5, table_bytes(5));
    assert_eq!(
        totals,
        ResourceTotals {
            member_count: 2,
            knot_count: 7,
            table_bytes: 7 * TABLE_BYTES_PER_KNOT,
        }
    );
    assert_eq!(table_bytes(2), 12);
}

#[test]
fn knot_budget_is_diagnosed_before_byte_budget() {
    let totals = ResourceTotals {
        member_count: 3,
        knot_count: 9,
        table_bytes: 54,
    };
    assert_eq!(
        check_family_budget("front_end", totals, Some(8), Some(10)).unwrap_err(),
        "transfer family `front_end`: max_total_knots=8 exceeded: 9 knots across 3 emitted members"
    );
    assert_eq!(
        check_family_budget("front_end", totals, Some(9), Some(53)).unwrap_err(),
        "transfer family `front_end`: max_table_bytes=53 exceeded: 54 bytes array payload across 3 emitted members"
    );
    assert!(check_family_budget("front_end", totals, Some(9), Some(54)).is_ok());
    assert!(check_family_budget("front_end", totals, None, None).is_ok());
}

#[test]
fn generation_paths_are_distinct() {
    assert_ne!(GenerationPath::Formula, GenerationPath::PrefittedKnots);
}

fn emitted(family: Option<&str>, table: &str, symbol: &str, domain: (u16, u16), knots: usize) -> TransferReport {
    TransferReport {
        family: family.map(|f| f.to_string()),
        selectors: Vec::new(),
        table_name: table.to_string(),
        symbol: symbol.to_string(),
        domain_min: domain.0,
        domain_max: domain.1,
        range_min: domain.0 as i32,
        range_max: domain.1 as i32,
        requested_max_error: 1,
        achieved_max_error: 0,
        worst_case_input: domain.0,
        knot_count: knots,
        table_bytes: table_bytes(knots),
        generation_path: GenerationPath::Formula,
        observation_guard: None,
    }
}

#[test]
fn assembled_report_counts_family_and_document_totals() {
    let mut high = emitted(Some("front_end"), "front_end_range_high", "FRONT_END_RANGE_HIGH", (10, 20), 2);
    high.selectors = vec![("range".to_string(), SelectorValue::String("high".to_string()))];
    let low = emitted(Some("front_end"), "front_end_range_low", "FRONT_END_RANGE_LOW", (0, 4), 2);
    let standalone = emitted(None, "standalone", "STANDALONE", (0, 2), 2);
    let report = assemble_report(vec![high.clone(), low.clone(), standalone.clone()]);

    assert_eq!(report.transfers, vec![high, low, standalone]);
    assert_eq!(report.transfers[0].table_bytes, 12);
    assert_eq!(report.families.len(), 1);
    assert_eq!(report.families[0].name, "front_end");
    assert_eq!(report.families[0].member_count, 2);
    assert_eq!(
        report.families[0].totals,
        ResourceTotals { member_count: 2, knot_count: 4, table_bytes: 24 }
    );
    assert_eq!(
        report.totals,
        ResourceTotals { member_count: 3, knot_count: 6, table_bytes: 36 }
    );
}

#[test]
fn assembled_families_are_sorted_by_name() {
    let report = assemble_report(vec![
        emitted(Some("zeta"), "zeta_a", "ZETA_A", (0, 4), 3),
        emitted(Some("alpha"), "alpha_a", "ALPHA_A", (0, 4), 2),
        emitted(Some("zeta"), "zeta_b", "ZETA_B", (0, 4), 4),
        emitted(Some("beta"), "beta_a", "BETA_A", (0, 4), 5),
    ]);
    let names: Vec<&str> = report.families.iter().map(|f| f.name.as_str()).collect();
    assert_eq!(names, vec!["alpha", "beta", "zeta"]);
    assert_eq!(
        report.families[2].totals,
        ResourceTotals { member_count: 2, knot_count: 7, table_bytes: 42 }
    );
    assert_eq!(report.families[2].member_count, 2);
    assert_eq!(report.totals.knot_count, 14);
}

#[test]
fn assembled_duplicate_tables_count_payload_twice() {
    let a = emitted(Some("front_end"), "front_end_range_a", "FRONT_END_RANGE_A", (0, 4), 2);
    let b = emitted(Some("front_end"), "front_end_range_b", "FRONT_END_RANGE_B", (0, 4), 2);
    let report = assemble_report(vec![a, b]);
    assert_eq!(report.families[0].totals.table_bytes, 24);
    assert_eq!(report.totals.table_bytes, 24);
}

#[test]
fn assembled_report_of_standalones_lists_no_family() {
    let report = assemble_report(vec![emitted(None, "solo", "SOLO", (0, 2), 2)]);
    assert!(report.families.is_empty());
    assert_eq!(report.totals, ResourceTotals { member_count: 1, knot_count: 2, table_bytes: 12 });
    let empty = assemble_report(Vec::new());
    assert!(empty.transfers.is_empty() && empty.families.is_empty());
    assert_eq!(empty.totals, ResourceTotals::default());
}

#[test]
fn observation_guard_rides_along_in_the_report() {
    let mut guarded = emitted(None, "guarded", "GUARDED", (1, 10), 2);
    guarded.observation_guard = Some(ObservationGuardMetadata {
        code: 65_535,
        behavior: ObservationGuardBehavior::Error,
    });
    let result = GenerationResult {
        source: String::new(),
        report: assemble_report(vec![guarded]),
    };
    assert_eq!(
        result.report.transfers[0].observation_guard,
        Some(ObservationGuardMetadata { code: 65_535, behavior: ObservationGuardBehavior::Error })
    );
}
