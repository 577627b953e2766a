use ph_curves::gen::transfer::provenance::{
    CitationField, ProvenanceError, SourceProvenance, SourceProvenanceField, SourceProvenanceOverride,
};

#[test]
fn override_replaces_only_declared_fields() {
    let base = SourceProvenance::new("datasheet")
        .with_revision("1.0")
        .with_locator("Table 1");
    let overlay = SourceProvenanceOverride {
        locator: Some("§4.2".into()),
        ..SourceProvenanceOverride::default()
    };
    let resolved = base.merge(&overlay).unwrap();
    assert_eq!(resolved.identity, "datasheet");
    assert_eq!(resolved.revision.as_deref(), Some("1.0"));
    assert_eq!(resolved.locator.as_deref(), Some("§4.2"));
}

#[test]
fn override_without_parent_requires_identity() {
    let overlay = SourceProvenanceOverride {
        locator: Some("Table 1".into()),
        ..SourceProvenanceOverride::default()
    };
    let error = overlay.resolve(None).unwrap_err();
    assert!(
        error.contains("source-backed citation requires provenance.identity"),
        "{error}"
    );
}

#[test]
fn replacing_identity_does_not_inherit_old_document_fields() {
    let base = SourceProvenance::new("old document")
        .with_revision("old revision")
        .with_locator("old table")
        .with_url("https://old.invalid")
        .with_note("old note");
    let resolved = base
        .merge(&SourceProvenanceOverride::new("new document"))
        .unwrap();

    assert_eq!(resolved.identity, "new document");
    assert_eq!(resolved.revision, None);
    assert_eq!(resolved.locator, None);
    assert_eq!(resolved.url, None);
    assert_eq!(resolved.note, None);
}

#[test]
fn override_can_clear_one_inherited_optional_field() {
    let base = SourceProvenance::new("datasheet")
        .with_revision("1.0")
        .with_locator("Table 1");
    let overlay = SourceProvenanceOverride::default().clearing(SourceProvenanceField::Locator);
    let resolved = base.merge(&overlay).unwrap();

    assert_eq!(resolved.identity, "datasheet");
    assert_eq!(resolved.revision.as_deref(), Some("1.0"));
    assert_eq!(resolved.locator, None);
}

#[test]
fn override_rejects_setting_and_clearing_the_same_field() {
    let overlay = SourceProvenanceOverride {
        locator: Some("Table 2".into()),
        clear: vec![SourceProvenanceField::Locator],
        ..SourceProvenanceOverride::default()
    };
    let error = SourceProvenance::new("datasheet")
        .merge(&overlay)
        .unwrap_err();
    assert!(
        error.contains("provenance.locator cannot be both set and cleared"),
        "{error}"
    );
}

#[test]
fn override_rejects_duplicate_clear_fields() {
    let overlay = SourceProvenanceOverride {
        clear: vec![
            SourceProvenanceField::Locator,
            SourceProvenanceField::Locator,
        ],
        ..SourceProvenanceOverride::default()
    };
    let error = SourceProvenance::new("datasheet")
        .merge(&overlay)
        .unwrap_err();
    assert!(
        error.contains("provenance.clear contains duplicate field `locator`"),
        "{error}"
    );
}

#[test]
fn override_rejects_clear_without_parent_provenance() {
    let overlay =
        SourceProvenanceOverride::new("standalone").clearing(SourceProvenanceField::Locator);
    let error = overlay.resolve(None).unwrap_err();
    assert!(
        error.contains(
            "provenance.clear cannot remove `locator` without inherited source provenance"
        ),
        "{error}"
    );
}

#[test]
fn rustdoc_clause_escapes_markdown_html_urls_and_backtick_runs() {
    let clause = SourceProvenance::new("[datasheet]")
        .with_url("https://example.com/datasheet.pdf")
        .with_note("`code` ````` <tag> & http://example.org/note")
        .rustdoc_clause();
    assert!(clause.contains(r#"identity "\[datasheet\]""#), "{clause}");
    assert!(
        clause.contains(r#"url `"https://example.com/datasheet.pdf"`"#),
        "{clause}"
    );
    assert!(clause.contains("note ``````\""), "{clause}");
    assert!(clause.ends_with("\"``````"), "{clause}");
}

#[test]
fn blank_identity_is_rejected() {
    let error = SourceProvenance::new("   ").validate().unwrap_err();
    assert!(
        error.contains("provenance.identity must not be blank"),
        "{error}"
    );
}

#[test]
fn blank_optional_field_is_rejected() {
    let error = SourceProvenance::new("datasheet")
        .with_url("  ")
        .validate()
        .unwrap_err();
    assert!(
        error.contains("provenance.url must not be blank"),
        "{error}"
    );
}

#[test]
fn blank_fields_are_reported_in_order() {
    let error = SourceProvenance::new("  \t").merge(&SourceProvenanceOverride::default());
    assert_eq!(error.unwrap_err(), "provenance.identity must not be blank");
    let error = SourceProvenanceOverride::new(" ").resolve(None).unwrap_err();
    assert_eq!(error, "provenance.identity must not be blank");
    let overlay = SourceProvenanceOverride {
        note: Some("\u{3000}\n".into()),
        ..SourceProvenanceOverride::new("datasheet")
    };
    assert_eq!(
        overlay.resolve(None).unwrap_err(),
        "provenance.note must not be blank"
    );
    let base = SourceProvenance::new("datasheet").with_url(" ").with_note("");
    assert_eq!(
        base.check(),
        Err(ProvenanceError::Blank(CitationField::Optional(
            SourceProvenanceField::Url
        )))
    );
}

#[test]
fn same_identity_keeps_inherited_fields() {
    let base = SourceProvenance::new("datasheet").with_revision("2");
    let resolved = base
        .merge(&SourceProvenanceOverride::new("datasheet"))
        .unwrap();
    assert_eq!(resolved, base);
}

#[test]
fn orphan_override_keeps_its_own_fields() {
    let overlay = SourceProvenanceOverride {
        url: Some("https://example.com".into()),
        ..SourceProvenanceOverride::new("catalog")
    };
    let resolved = overlay.resolve(None).unwrap();
    assert_eq!(
        resolved,
        SourceProvenance::new("catalog").with_url("https://example.com")
    );
}

#[test]
fn clearing_twice_records_the_field_once() {
    let overlay = SourceProvenanceOverride::default()
        .clearing(SourceProvenanceField::Url)
        .clearing(SourceProvenanceField::Url);
    assert_eq!(overlay.clear, vec![SourceProvenanceField::Url]);
}

#[test]
fn plain_text_is_escaped_for_markdown() {
    let clause = SourceProvenance::new("a_b & <c>").rustdoc_clause();
    assert_eq!(clause, "identity \"a\\_b &amp; \\<c\\>\"");
}
