use ph_curves::gen::transfer::family::{
    declared_source, DeclaredSource, GapDef, GapStatus, SelectorAxis, SelectorIdentities,
    SelectorIdentity, SelectorUniverse, SelectorValue,
};
use ph_curves::gen::transfer::provenance::{SourceProvenance, SourceProvenanceOverride};

fn binary_axes(axis_count: usize) -> Vec<SelectorAxis> {
    (0..axis_count)
        .map(|index| {
            (
                format!("axis_{index:03}"),
                vec![SelectorValue::Integer(0), SelectorValue::Integer(1)],
            )
        })
        .collect()
}

fn take(mut it: SelectorIdentities<'_>, limit: usize) -> Vec<SelectorIdentity> {
    let mut out = Vec::new();
    while out.len() < limit {
        match it.next() {
            Some(identity) => out.push(identity),
            None => break,
        }
    }
    out
}

fn count(mut it: SelectorIdentities<'_>) -> usize {
    let mut n = 0;
    while it.next().is_some() {
        n += 1;
    }
    n
}

fn lookup<'a>(identity: &'a SelectorIdentity, key: &str) -> &'a SelectorValue {
    &identity.iter().find(|(k, _)| k == key).unwrap().1
}

#[test]
fn cartesian_identity_enumeration_is_lazy_even_when_cardinality_overflows() {
    let axis_count = usize::BITS as usize;
    let universe = SelectorUniverse::Cartesian {
        axes: binary_axes(axis_count),
    };
    assert_eq!(universe.identity_count(), None);

    let identities: Vec<_> = take(universe.identities(), 3);
    assert_eq!(identities.len(), 3);
    assert!(identities[0]
        .iter()
        .all(|(_, value)| value == &SelectorValue::Integer(0)));
    assert_eq!(
        lookup(&identities[1], &format!("axis_{:03}", axis_count - 1)),
        &SelectorValue::Integer(1)
    );
    assert_eq!(
        lookup(&identities[2], &format!("axis_{:03}", axis_count - 2)),
        &SelectorValue::Integer(1)
    );
    assert_eq!(
        lookup(&identities[2], &format!("axis_{:03}", axis_count - 1)),
        &SelectorValue::Integer(0)
    );
}

#[test]
fn empty_axis_makes_cardinality_zero_after_an_overflowing_prefix() {
    let mut axes = binary_axes(usize::BITS as usize);
    axes.push(("zzz_empty".into(), Vec::new()));
    let universe = SelectorUniverse::Cartesian { axes };

    assert_eq!(universe.identity_count(), Some(0));
    assert_eq!(count(universe.identities()), 0);
}

#[test]
fn cartesian_product_is_walked_in_order_with_the_last_axis_fastest() {
    let universe = SelectorUniverse::Cartesian {
        axes: vec![
            (
                "gain".into(),
                vec![SelectorValue::Integer(1), SelectorValue::Integer(8)],
            ),
            (
                "range".into(),
                vec![
                    SelectorValue::String("high".into()),
                    SelectorValue::String("low".into()),
                    SelectorValue::String("mid".into()),
                ],
            ),
        ],
    };
    assert_eq!(universe.identity_count(), Some(6));
    let all = take(universe.identities(), 10);
    assert_eq!(all.len(), 6);
    let flat: Vec<(i64, String)> = all
        .iter()
        .map(|id| {
            let gain = match lookup(id, "gain") {
                SelectorValue::Integer(v) => *v,
                other => panic!("unexpected {other:?}"),
            };
            let range = match lookup(id, "range") {
                SelectorValue::String(s) => s.clone(),
                other => panic!("unexpected {other:?}"),
            };
            (gain, range)
        })
        .collect();
    assert_eq!(
        flat,
        vec![
            (1, "high".to_string()),
            (1, "low".to_string()),
            (1, "mid".to_string()),
            (8, "high".to_string()),
            (8, "low".to_string()),
            (8, "mid".to_string()),
        ]
    );
}

#[test]
fn no_axes_is_one_empty_identity() {
    let universe = SelectorUniverse::Cartesian { axes: Vec::new() };
    assert_eq!(universe.identity_count(), Some(1));
    let all = take(universe.identities(), 5);
    assert_eq!(all, vec![Vec::new()]);
}

#[test]
fn explicit_universe_keeps_declaration_order() {
    let first: SelectorIdentity = vec![("mode".into(), SelectorValue::String("b".into()))];
    let second: SelectorIdentity = vec![("mode".into(), SelectorValue::Integer(-3))];
    let universe = SelectorUniverse::Explicit {
        identities: vec![first.clone(), second.clone()],
    };
    assert_eq!(universe.identity_count(), Some(2));
    assert_eq!(take(universe.identities(), 5), vec![first, second]);
    let empty = SelectorUniverse::Explicit { identities: Vec::new() };
    assert_eq!(count(empty.identities()), 0);
}

#[test]
fn exactly_one_declared_source_is_recognised() {
    assert_eq!(declared_source(true, false, false), Some(DeclaredSource::Formula));
    assert_eq!(declared_source(false, true, false), Some(DeclaredSource::Points));
    assert_eq!(declared_source(false, false, true), Some(DeclaredSource::Model));
    assert_eq!(declared_source(false, false, false), None);
    assert_eq!(declared_source(true, true, false), None);
}

#[test]
fn gap_provenance_resolves_without_a_parent() {
    let gap = GapDef {
        status: GapStatus::Undefined,
        reason: "not characterized".into(),
        provenance: Some(SourceProvenanceOverride::new("catalog")),
    };
    assert_eq!(
        gap.resolved_provenance().unwrap(),
        Some(SourceProvenance::new("catalog"))
    );
    let missing = GapDef {
        provenance: Some(SourceProvenanceOverride::default()),
        ..gap.clone()
    };
    assert_eq!(
        missing.resolved_provenance().unwrap_err(),
        "source-backed citation requires provenance.identity"
    );
    let none = GapDef {
        provenance: None,
        ..gap
    };
    assert_eq!(none.resolved_provenance().unwrap(), None);
    assert!(none.provenance().is_none());
}
