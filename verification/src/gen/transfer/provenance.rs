//! Structured source citation, kept apart from generation policy.
//!
//! A [`SourceProvenance`] names an external document; a
//! [`SourceProvenanceOverride`] replaces some of its fields, clears others
//! and, when it names a different document, starts a fresh citation.

use vstd::prelude::*;

use super::super::rustdoc::{rustdoc_debug, rustdoc_text};
use super::super::text::{blank, decimal, decimal_spec, is_blank, join2};
use super::{boundary_toml_name, BoundaryDef, ObservationGuardBehaviorDef, ObservationGuardDef};

verus! {

/// Optional citation field that an override can explicitly clear.
#[derive(Clone, Copy, Debug, PartialEq, Eq, Structural, PartialOrd, Ord)]
pub enum SourceProvenanceField {
    /// Document revision or version.
    Revision,
    /// Section, table, page, row, or equation locator.
    Locator,
    /// Opaque source URL.
    Url,
    /// Free-form source note.
    Note,
}

/// Any citation field, as named in diagnostics.
#[derive(Clone, Copy, Debug, PartialEq, Eq, Structural)]
pub enum CitationField {
    /// The document identity.
    Identity,
    /// One of the optional fields.
    Optional(SourceProvenanceField),
}

/// Why a citation or an override was refused.
#[derive(Clone, Copy, Debug, PartialEq, Eq, Structural)]
pub enum ProvenanceError {
    /// A present field holds only white space.
    Blank(CitationField),
    /// The clear list names a field twice.
    DuplicateClear(SourceProvenanceField),
    /// The override both sets and clears a field.
    SetAndCleared(SourceProvenanceField),
    /// A clear was requested with no parent citation to clear from.
    ClearWithoutParent(SourceProvenanceField),
    /// No identity was given and none could be inherited.
    MissingIdentity,
}

impl SourceProvenanceField {
    /// The field's TOML name.
    pub open spec fn name_text(self) -> Seq<char> {
        match self {
            SourceProvenanceField::Revision => "revision"@,
            SourceProvenanceField::Locator => "locator"@,
            SourceProvenanceField::Url => "url"@,
            SourceProvenanceField::Note => "note"@,
        }
    }

    /// The field's TOML name.
    pub fn name(self) -> (s: &'static str)
        ensures
            s@ == self.name_text(),
    {
        match self {
            SourceProvenanceField::Revision => "revision",
            SourceProvenanceField::Locator => "locator",
            SourceProvenanceField::Url => "url",
            SourceProvenanceField::Note => "note",
        }
    }
}

impl CitationField {
    /// The field's path in diagnostics, such as `provenance.identity`.
    pub open spec fn path_text(self) -> Seq<char> {
        match self {
            CitationField::Identity => "provenance.identity"@,
            CitationField::Optional(SourceProvenanceField::Revision) => "provenance.revision"@,
            CitationField::Optional(SourceProvenanceField::Locator) => "provenance.locator"@,
            CitationField::Optional(SourceProvenanceField::Url) => "provenance.url"@,
            CitationField::Optional(SourceProvenanceField::Note) => "provenance.note"@,
        }
    }

    /// The field's path in diagnostics.
    pub fn path(self) -> (s: &'static str)
        ensures
            s@ == self.path_text(),
    {
        match self {
            CitationField::Identity => "provenance.identity",
            CitationField::Optional(SourceProvenanceField::Revision) => "provenance.revision",
            CitationField::Optional(SourceProvenanceField::Locator) => "provenance.locator",
            CitationField::Optional(SourceProvenanceField::Url) => "provenance.url",
            CitationField::Optional(SourceProvenanceField::Note) => "provenance.note",
        }
    }
}

impl ProvenanceError {
    /// The diagnostic text of this error.
    pub open spec fn text(self) -> Seq<char> {
        match self {
            ProvenanceError::Blank(f) => f.path_text() + " must not be blank"@,
            ProvenanceError::DuplicateClear(f) => "provenance.clear contains duplicate field `"@
                + f.name_text() + "`"@,
            ProvenanceError::SetAndCleared(f) => "provenance."@ + f.name_text()
                + " cannot be both set and cleared"@,
            ProvenanceError::ClearWithoutParent(f) => "provenance.clear cannot remove `"@
                + f.name_text() + "` without inherited source provenance"@,
            ProvenanceError::MissingIdentity => "source-backed citation requires provenance.identity"@,
        }
    }

    /// Render the diagnostic.
    pub fn message(&self) -> (s: String)
        ensures
            s@ == self.text(),
    {
        match *self {
            ProvenanceError::Blank(f) => join2(f.path(), " must not be blank"),
            ProvenanceError::DuplicateClear(f) => {
                let mut s = join2("provenance.clear contains duplicate field `", f.name());
                s.append("`");
                s
            },
            ProvenanceError::SetAndCleared(f) => {
                let mut s = join2("provenance.", f.name());
                s.append(" cannot be both set and cleared");
                s
            },
            ProvenanceError::ClearWithoutParent(f) => {
                let mut s = join2("provenance.clear cannot remove `", f.name());
                s.append("` without inherited source provenance");
                s
            },
            ProvenanceError::MissingIdentity => String::from_str(
                "source-backed citation requires provenance.identity",
            ),
        }
    }
}

/// The contents of a citation.
pub ghost struct CitationView {
    pub identity: Seq<char>,
    pub revision: Option<Seq<char>>,
    pub locator: Option<Seq<char>>,
    pub url: Option<Seq<char>>,
    pub note: Option<Seq<char>>,
}

/// The contents of an override.
pub ghost struct OverrideView {
    pub identity: Option<Seq<char>>,
    pub revision: Option<Seq<char>>,
    pub locator: Option<Seq<char>>,
    pub url: Option<Seq<char>>,
    pub note: Option<Seq<char>>,
    pub clear: Seq<SourceProvenanceField>,
}

/// Caller-declared source citation.
///
/// This identifies an external document or catalog entry. URLs are stored
/// as opaque strings and are never fetched.
#[derive(Clone, Debug, PartialEq, Eq)]
pub struct SourceProvenance {
    /// Source title or stable identifier.
    pub identity: String,
    /// Document revision or version, when known.
    pub revision: Option<String>,
    /// Section, table, page, row, or equation locator.
    pub locator: Option<String>,
    /// Optional URL. Stored, never fetched.
    pub url: Option<String>,
    /// Optional free-form note.
    pub note: Option<String>,
}

/// Partial citation that replaces declared fields and can clear optional
/// ones. Unset optional fields inherit unless `identity` changes, which
/// starts a new citation and resets them.
#[derive(Clone, Debug, PartialEq, Eq)]
pub struct SourceProvenanceOverride {
    /// Replacement identity. Inherited when omitted.
    pub identity: Option<String>,
    /// Replacement revision.
    pub revision: Option<String>,
    /// Replacement locator.
    pub locator: Option<String>,
    /// Replacement URL. Never fetched.
    pub url: Option<String>,
    /// Replacement note.
    pub note: Option<String>,
    /// Optional inherited fields to remove.
    pub clear: Vec<SourceProvenanceField>,
}

impl View for SourceProvenance {
    type V = CitationView;

    open spec fn view(&self) -> CitationView {
        CitationView {
            identity: self.identity@,
            revision: self.revision.deep_view(),
            locator: self.locator.deep_view(),
            url: self.url.deep_view(),
            note: self.note.deep_view(),
        }
    }
}

impl View for SourceProvenanceOverride {
    type V = OverrideView;

    open spec fn view(&self) -> OverrideView {
        OverrideView {
            identity: self.identity.deep_view(),
            revision: self.revision.deep_view(),
            locator: self.locator.deep_view(),
            url: self.url.deep_view(),
            note: self.note.deep_view(),
            clear: self.clear@,
        }
    }
}

/// The first of two checks that fails, if any.
pub open spec fn first_error(a: Option<ProvenanceError>, b: Option<ProvenanceError>) -> Option<
    ProvenanceError,
> {
    if a is Some {
        a
    } else {
        b
    }
}

/// A present field must not be blank.
pub open spec fn blank_error(field: CitationField, value: Option<Seq<char>>) -> Option<
    ProvenanceError,
> {
    match value {
        Some(v) => if is_blank(v) {
            Some(ProvenanceError::Blank(field))
        } else {
            None
        },
        None => None,
    }
}

/// The first blank field of a citation, in declaration order.
pub open spec fn citation_error(c: CitationView) -> Option<ProvenanceError> {
    first_error(
        blank_error(CitationField::Identity, Some(c.identity)),
        first_error(
            blank_error(CitationField::Optional(SourceProvenanceField::Revision), c.revision),
            first_error(
                blank_error(CitationField::Optional(SourceProvenanceField::Locator), c.locator),
                first_error(
                    blank_error(CitationField::Optional(SourceProvenanceField::Url), c.url),
                    blank_error(CitationField::Optional(SourceProvenanceField::Note), c.note),
                ),
            ),
        ),
    )
}

/// Whether the override sets `field`.
pub open spec fn sets(o: OverrideView, field: SourceProvenanceField) -> bool {
    match field {
        SourceProvenanceField::Revision => o.revision is Some,
        SourceProvenanceField::Locator => o.locator is Some,
        SourceProvenanceField::Url => o.url is Some,
        SourceProvenanceField::Note => o.note is Some,
    }
}

/// The first bad entry of the clear list from index `i` on: a repeat of an
/// earlier entry, or a field the override also sets.
pub open spec fn clear_error(o: OverrideView, i: int) -> Option<ProvenanceError>
    decreases o.clear.len() - i,
{
    if i < 0 || i >= o.clear.len() {
        None
    } else if o.clear.subrange(0, i).contains(o.clear[i]) {
        Some(ProvenanceError::DuplicateClear(o.clear[i]))
    } else if sets(o, o.clear[i]) {
        Some(ProvenanceError::SetAndCleared(o.clear[i]))
    } else {
        clear_error(o, i + 1)
    }
}

/// The first problem of an override: a blank field, then a bad clear entry.
pub open spec fn override_error(o: OverrideView) -> Option<ProvenanceError> {
    first_error(
        blank_error(CitationField::Identity, o.identity),
        first_error(
            blank_error(CitationField::Optional(SourceProvenanceField::Revision), o.revision),
            first_error(
                blank_error(CitationField::Optional(SourceProvenanceField::Locator), o.locator),
                first_error(
                    blank_error(CitationField::Optional(SourceProvenanceField::Url), o.url),
                    first_error(
                        blank_error(CitationField::Optional(SourceProvenanceField::Note), o.note),
                        clear_error(o, 0),
                    ),
                ),
            ),
        ),
    )
}

/// One optional field after a merge: cleared, replaced, reset by a new
/// identity, or inherited.
pub open spec fn merge_field(
    base: Option<Seq<char>>,
    replacement: Option<Seq<char>>,
    clear: bool,
    replaces_identity: bool,
) -> Option<Seq<char>> {
    if clear {
        None
    } else if replacement is Some {
        replacement
    } else if replaces_identity {
        None
    } else {
        base
    }
}

/// The override names a different document than `base`.
pub open spec fn replaces_identity(base: CitationView, o: OverrideView) -> bool {
    o.identity matches Some(id) && id != base.identity
}

/// The citation that merging `o` into `base` produces.
pub open spec fn merged(base: CitationView, o: OverrideView) -> CitationView {
    let r = replaces_identity(base, o);
    CitationView {
        identity: match o.identity {
            Some(id) => id,
            None => base.identity,
        },
        revision: merge_field(
            base.revision,
            o.revision,
            o.clear.contains(SourceProvenanceField::Revision),
            r,
        ),
        locator: merge_field(
            base.locator,
            o.locator,
            o.clear.contains(SourceProvenanceField::Locator),
            r,
        ),
        url: merge_field(base.url, o.url, o.clear.contains(SourceProvenanceField::Url), r),
        note: merge_field(base.note, o.note, o.clear.contains(SourceProvenanceField::Note), r),
    }
}

/// Why merging `o` into `base` fails: the override is bad, or the merged
/// citation has a blank field.
pub open spec fn merge_error(base: CitationView, o: OverrideView) -> Option<ProvenanceError> {
    first_error(override_error(o), citation_error(merged(base, o)))
}

/// Why resolving `o` without a parent fails.
pub open spec fn orphan_error(o: OverrideView) -> Option<ProvenanceError> {
    if override_error(o) is Some {
        override_error(o)
    } else if o.clear.len() > 0 {
        Some(ProvenanceError::ClearWithoutParent(o.clear[0]))
    } else if o.identity is None {
        Some(ProvenanceError::MissingIdentity)
    } else {
        None
    }
}

/// The citation an override stands for on its own.
pub open spec fn orphan(o: OverrideView) -> CitationView {
    CitationView {
        identity: o.identity.unwrap(),
        revision: o.revision,
        locator: o.locator,
        url: o.url,
        note: o.note,
    }
}

/// `o` with `field` added to its clear list unless already there.
pub open spec fn with_clear(o: OverrideView, field: SourceProvenanceField) -> OverrideView {
    OverrideView {
        clear: if o.clear.contains(field) {
            o.clear
        } else {
            o.clear.push(field)
        },
        ..o
    }
}

/// The override that changes nothing.
pub open spec fn empty_override() -> OverrideView {
    OverrideView {
        identity: None,
        revision: None,
        locator: None,
        url: None,
        note: None,
        clear: Seq::empty(),
    }
}

/// Merging the empty override into a valid citation succeeds and gives the
/// citation back unchanged.
pub proof fn lemma_empty_override_keeps_citation(base: CitationView)
    requires
        citation_error(base) is None,
    ensures
        merge_error(base, empty_override()) is None,
        merged(base, empty_override()) == base,
{
    let o = empty_override();
    assert(!o.clear.contains(SourceProvenanceField::Revision));
    assert(!o.clear.contains(SourceProvenanceField::Locator));
    assert(!o.clear.contains(SourceProvenanceField::Url));
    assert(!o.clear.contains(SourceProvenanceField::Note));
    assert(clear_error(o, 0) is None);
    assert(merged(base, o) == base);
}

/// While the identity is unchanged, a field the override neither sets nor
/// clears is inherited from the parent.
pub proof fn lemma_unchanged_identity_inherits(
    base: CitationView,
    o: OverrideView,
    field: SourceProvenanceField,
)
    requires
        o.identity is None || o.identity == Some(base.identity),
        !sets(o, field),
        !o.clear.contains(field),
    ensures
        field_of(merged(base, o), field) == field_of(base, field),
{
}

/// Naming a different document starts a new citation: every optional field
/// the override does not set is absent from the result.
pub proof fn lemma_new_identity_resets_unset_fields(
    base: CitationView,
    o: OverrideView,
    field: SourceProvenanceField,
)
    requires
        o.identity matches Some(id) && id != base.identity,
        !sets(o, field),
    ensures
        field_of(merged(base, o), field) is None,
        merged(base, o).identity == o.identity->0,
{
}

/// A cleared field is absent after the merge, whatever the parent held.
pub proof fn lemma_cleared_field_is_absent(
    base: CitationView,
    o: OverrideView,
    field: SourceProvenanceField,
)
    requires
        o.clear.contains(field),
    ensures
        field_of(merged(base, o), field) is None,
{
}

/// A successful merge is itself a valid citation.
pub proof fn lemma_merge_result_is_valid(base: CitationView, o: OverrideView)
    requires
        merge_error(base, o) is None,
    ensures
        citation_error(merged(base, o)) is None,
        override_error(o) is None,
{
}

/// Clearing a field twice is the same as clearing it once.
pub proof fn lemma_clearing_is_idempotent(o: OverrideView, field: SourceProvenanceField)
    ensures
        with_clear(with_clear(o, field), field) == with_clear(o, field),
{
    if !o.clear.contains(field) {
        assert(o.clear.push(field)[o.clear.len() as int] == field);
        assert(o.clear.push(field).contains(field));
    }
}

/// One optional field of a citation.
pub open spec fn field_of(c: CitationView, field: SourceProvenanceField) -> Option<Seq<char>> {
    match field {
        SourceProvenanceField::Revision => c.revision,
        SourceProvenanceField::Locator => c.locator,
        SourceProvenanceField::Url => c.url,
        SourceProvenanceField::Note => c.note,
    }
}

/// What [`SourceProvenance::rustdoc_clause`] renders for one optional field.
pub open spec fn clause_part(label: Seq<char>, value: Option<Seq<char>>) -> Seq<char> {
    match value {
        Some(v) => label + rustdoc_text(v),
        None => Seq::empty(),
    }
}

/// The generated-rustdoc clause of a citation: `identity …` followed by
/// `; revision …`, `; locator …`, `; url …`, `; note …` for present fields.
pub open spec fn citation_clause(c: CitationView) -> Seq<char> {
    "identity "@ + rustdoc_text(c.identity) + clause_part("; revision "@, c.revision)
        + clause_part("; locator "@, c.locator) + clause_part("; url "@, c.url) + clause_part(
        "; note "@,
        c.note,
    )
}

/// Copy an optional string.
fn copy_text(o: &Option<String>) -> (r: Option<String>)
    ensures
        r.deep_view() == o.deep_view(),
{
    match o {
        Some(s) => Some(s.clone()),
        None => None,
    }
}

/// A present field must not be blank.
fn check_blank(field: CitationField, value: &Option<String>) -> (r: Result<(), ProvenanceError>)
    ensures
        r is Err <==> blank_error(field, value.deep_view()) is Some,
        r matches Err(e) ==> blank_error(field, value.deep_view()) == Some(e),
{
    match value {
        Some(v) => if blank(v.as_str()) {
            Err(ProvenanceError::Blank(field))
        } else {
            Ok(())
        },
        None => Ok(()),
    }
}

/// Whether `field` occurs among the first `end` entries of `fields`.
fn contains_field_before(fields: &[SourceProvenanceField], field: SourceProvenanceField, end: usize) -> (b: bool)
    requires
        end <= fields@.len(),
    ensures
        b == fields@.subrange(0, end as int).contains(field),
{
    let mut i: usize = 0;
    while i < end
        invariant
            end <= fields@.len(),
            i <= end,
            forall|j: int| 0 <= j < i ==> fields@[j] != field,
        decreases end - i,
    {
        if fields[i] == field {
            assert(fields@.subrange(0, end as int)[i as int] == field);
            return true;
        }
        i = i + 1;
    }
    assert forall|j: int| 0 <= j < end implies fields@.subrange(0, end as int)[j] != field by {}
    false
}

/// Whether `field` occurs in `fields`.
fn contains_field(fields: &[SourceProvenanceField], field: SourceProvenanceField) -> (b: bool)
    ensures
        b == fields@.contains(field),
{
    let b = contains_field_before(fields, field, fields.len());
    assert(fields@.subrange(0, fields@.len() as int) =~= fields@);
    b
}

impl SourceProvenance {
    /// Citation whose only field is `identity`.
    pub fn new(identity: &str) -> (p: Self)
        ensures
            p@ == (CitationView {
                identity: identity@,
                revision: None,
                locator: None,
                url: None,
                note: None,
            }),
    {
        SourceProvenance {
            identity: String::from_str(identity),
            revision: None,
            locator: None,
            url: None,
            note: None,
        }
    }

    /// Set the document revision or version.
    pub fn with_revision(self, revision: &str) -> (p: Self)
        ensures
            p@ == (CitationView { revision: Some(revision@), ..self@ }),
    {
        SourceProvenance { revision: Some(String::from_str(revision)), ..self }
    }

    /// Set the section, table, page, row, or equation locator.
    pub fn with_locator(self, locator: &str) -> (p: Self)
        ensures
            p@ == (CitationView { locator: Some(locator@), ..self@ }),
    {
        SourceProvenance { locator: Some(String::from_str(locator)), ..self }
    }

    /// Set the opaque URL. Never fetched.
    pub fn with_url(self, url: &str) -> (p: Self)
        ensures
            p@ == (CitationView { url: Some(url@), ..self@ }),
    {
        SourceProvenance { url: Some(String::from_str(url)), ..self }
    }

    /// Set the free-form note.
    pub fn with_note(self, note: &str) -> (p: Self)
        ensures
            p@ == (CitationView { note: Some(note@), ..self@ }),
    {
        SourceProvenance { note: Some(String::from_str(note)), ..self }
    }

    /// A copy of this citation.
    pub(crate) fn duplicate(&self) -> (p: Self)
        ensures
            p@ == self@,
    {
        SourceProvenance {
            identity: self.identity.clone(),
            revision: copy_text(&self.revision),
            locator: copy_text(&self.locator),
            url: copy_text(&self.url),
            note: copy_text(&self.note),
        }
    }

    /// Check that no field is blank, reporting the first in declaration
    /// order.
    pub fn check(&self) -> (r: Result<(), ProvenanceError>)
        ensures
            r is Err <==> citation_error(self@) is Some,
            r matches Err(e) ==> citation_error(self@) == Some(e),
    {
        if blank(self.identity.as_str()) {
            return Err(ProvenanceError::Blank(CitationField::Identity));
        }
        check_blank(CitationField::Optional(SourceProvenanceField::Revision), &self.revision)?;
        check_blank(CitationField::Optional(SourceProvenanceField::Locator), &self.locator)?;
        check_blank(CitationField::Optional(SourceProvenanceField::Url), &self.url)?;
        check_blank(CitationField::Optional(SourceProvenanceField::Note), &self.note)?;
        Ok(())
    }

    /// [`Self::check`] with the error rendered as text.
    pub fn validate(&self) -> (r: Result<(), String>)
        ensures
            r is Err <==> citation_error(self@) is Some,
            r matches Err(e) ==> e@ == citation_error(self@)->0.text(),
    {
        match self.check() {
            Ok(()) => Ok(()),
            Err(e) => Err(e.message()),
        }
    }

    /// Merge an override.
    ///
    /// Set fields replace and explicitly cleared fields become absent. Unset
    /// fields inherit while identity is unchanged. Replacing identity starts a
    /// new citation, so every unspecified optional field is cleared.
    pub fn merge_checked(&self, overlay: &SourceProvenanceOverride) -> (r: Result<
        Self,
        ProvenanceError,
    >)
        ensures
            r is Ok <==> merge_error(self@, overlay@) is None,
            r matches Ok(p) ==> p@ == merged(self@, overlay@),
            r matches Err(e) ==> merge_error(self@, overlay@) == Some(e),
    {
        overlay.check()?;
        let replaces = match &overlay.identity {
            Some(identity) => !(identity.eq(&self.identity)),
            None => false,
        };
        let identity = match &overlay.identity {
            Some(identity) => identity.clone(),
            None => self.identity.clone(),
        };
        let merged_citation = SourceProvenance {
            identity,
            revision: merge_optional_field(
                &self.revision,
                &overlay.revision,
                contains_field(overlay.clear.as_slice(), SourceProvenanceField::Revision),
                replaces,
            ),
            locator: merge_optional_field(
                &self.locator,
                &overlay.locator,
                contains_field(overlay.clear.as_slice(), SourceProvenanceField::Locator),
                replaces,
            ),
            url: merge_optional_field(
                &self.url,
                &overlay.url,
                contains_field(overlay.clear.as_slice(), SourceProvenanceField::Url),
                replaces,
            ),
            note: merge_optional_field(
                &self.note,
                &overlay.note,
                contains_field(overlay.clear.as_slice(), SourceProvenanceField::Note),
                replaces,
            ),
        };
        assert(merged_citation@ == merged(self@, overlay@));
        merged_citation.check()?;
        Ok(merged_citation)
    }

    /// [`Self::merge_checked`] with the error rendered as text.
    pub fn merge(&self, overlay: &SourceProvenanceOverride) -> (r: Result<Self, String>)
        ensures
            r is Ok <==> merge_error(self@, overlay@) is None,
            r matches Ok(p) ==> p@ == merged(self@, overlay@),
            r matches Err(e) ==> e@ == merge_error(self@, overlay@)->0.text(),
    {
        match self.merge_checked(overlay) {
            Ok(p) => Ok(p),
            Err(e) => Err(e.message()),
        }
    }

    /// Debug-formatted citation fields for generated rustdoc.
    pub fn rustdoc_clause(&self) -> (s: String)
        ensures
            s@ == citation_clause(self@),
    {
        let mut s = String::from_str("identity ");
        s.append(rustdoc_debug(self.identity.as_str()).as_str());
        append_part(&mut s, "; revision ", &self.revision);
        append_part(&mut s, "; locator ", &self.locator);
        append_part(&mut s, "; url ", &self.url);
        append_part(&mut s, "; note ", &self.note);
        s
    }
}

/// Append `label` and the rendered value when the field is present.
fn append_part(s: &mut String, label: &str, value: &Option<String>)
    ensures
        final(s)@ == old(s)@ + clause_part(label@, value.deep_view()),
{
    match value {
        Some(v) => {
            s.append(label);
            s.append(rustdoc_debug(v.as_str()).as_str());
        },
        None => {
            assert(old(s)@ + clause_part(label@, value.deep_view()) =~= old(s)@);
        },
    }
}

/// One optional field after a merge.
fn merge_optional_field(
    base: &Option<String>,
    replacement: &Option<String>,
    clear: bool,
    replaces_identity: bool,
) -> (r: Option<String>)
    ensures
        r.deep_view() == merge_field(
            base.deep_view(),
            replacement.deep_view(),
            clear,
            replaces_identity,
        ),
{
    if clear {
        None
    } else if replacement.is_some() {
        copy_text(replacement)
    } else if replaces_identity {
        None
    } else {
        copy_text(base)
    }
}

impl SourceProvenanceOverride {
    /// Citation override that sets only `identity`.
    pub fn new(identity: &str) -> (o: Self)
        ensures
            o@ == (OverrideView {
                identity: Some(identity@),
                revision: None,
                locator: None,
                url: None,
                note: None,
                clear: Seq::empty(),
            }),
    {
        SourceProvenanceOverride {
            identity: Some(String::from_str(identity)),
            revision: None,
            locator: None,
            url: None,
            note: None,
            clear: Vec::new(),
        }
    }

    /// A copy of this override.
    pub(crate) fn duplicate(&self) -> (o: Self)
        ensures
            o@ == self@,
    {
        let mut clear: Vec<SourceProvenanceField> = Vec::new();
        let mut i: usize = 0;
        while i < self.clear.len()
            invariant
                i <= self.clear@.len(),
                clear@ == self.clear@.subrange(0, i as int),
            decreases self.clear@.len() - i,
        {
            clear.push(self.clear[i]);
            assert(clear@ =~= self.clear@.subrange(0, i + 1));
            i = i + 1;
        }
        assert(clear@ =~= self.clear@);
        SourceProvenanceOverride {
            identity: copy_text(&self.identity),
            revision: copy_text(&self.revision),
            locator: copy_text(&self.locator),
            url: copy_text(&self.url),
            note: copy_text(&self.note),
            clear,
        }
    }

    /// Explicitly remove one inherited optional field (once).
    pub fn clearing(self, field: SourceProvenanceField) -> (o: Self)
        ensures
            o@ == with_clear(self@, field),
    {
        let mut o = self;
        if !contains_field(o.clear.as_slice(), field) {
            o.clear.push(field);
        }
        o
    }

    /// Check every field: none blank, then no repeated clear entry and no
    /// field both set and cleared.
    pub fn check(&self) -> (r: Result<(), ProvenanceError>)
        ensures
            r is Err <==> override_error(self@) is Some,
            r matches Err(e) ==> override_error(self@) == Some(e),
    {
        check_blank(CitationField::Identity, &self.identity)?;
        check_blank(CitationField::Optional(SourceProvenanceField::Revision), &self.revision)?;
        check_blank(CitationField::Optional(SourceProvenanceField::Locator), &self.locator)?;
        check_blank(CitationField::Optional(SourceProvenanceField::Url), &self.url)?;
        check_blank(CitationField::Optional(SourceProvenanceField::Note), &self.note)?;
        let n = self.clear.len();
        let mut i: usize = 0;
        while i < n
            invariant
                n == self@.clear.len(),
                i <= n,
                clear_error(self@, 0) == clear_error(self@, i as int),
                override_error(self@) == clear_error(self@, 0),
            decreases n - i,
        {
            assert(self@.clear[i as int] == self.clear@[i as int]);
            let field = self.clear[i];
            if contains_field_before(self.clear.as_slice(), field, i) {
                return Err(ProvenanceError::DuplicateClear(field));
            }
            let is_set = match field {
                SourceProvenanceField::Revision => self.revision.is_some(),
                SourceProvenanceField::Locator => self.locator.is_some(),
                SourceProvenanceField::Url => self.url.is_some(),
                SourceProvenanceField::Note => self.note.is_some(),
            };
            if is_set {
                return Err(ProvenanceError::SetAndCleared(field));
            }
            i = i + 1;
        }
        Ok(())
    }

    /// Resolve against an optional parent citation.
    ///
    /// With a parent this is [`SourceProvenance::merge_checked`]. Without
    /// one, nothing can be cleared and `identity` must be given.
    pub fn resolve_checked(&self, base: Option<&SourceProvenance>) -> (r: Result<
        SourceProvenance,
        ProvenanceError,
    >)
        ensures
            base matches Some(b) ==> {
                &&& r is Ok <==> merge_error(b@, self@) is None
                &&& r matches Ok(p) ==> p@ == merged(b@, self@)
                &&& r matches Err(e) ==> merge_error(b@, self@) == Some(e)
            },
            base is None ==> {
                &&& r is Ok <==> orphan_error(self@) is None
                &&& r matches Ok(p) ==> p@ == orphan(self@)
                &&& r matches Err(e) ==> orphan_error(self@) == Some(e)
            },
    {
        match base {
            Some(base) => base.merge_checked(self),
            None => {
                self.check()?;
                if self.clear.len() > 0 {
                    return Err(ProvenanceError::ClearWithoutParent(self.clear[0]));
                }
                let identity = match &self.identity {
                    Some(identity) => identity.clone(),
                    None => {
                        return Err(ProvenanceError::MissingIdentity);
                    },
                };
                let provenance = SourceProvenance {
                    identity,
                    revision: copy_text(&self.revision),
                    locator: copy_text(&self.locator),
                    url: copy_text(&self.url),
                    note: copy_text(&self.note),
                };
                provenance.check()?;
                Ok(provenance)
            },
        }
    }

    /// [`Self::resolve_checked`] with the error rendered as text.
    pub fn resolve(&self, base: Option<&SourceProvenance>) -> (r: Result<SourceProvenance, String>)
        ensures
            base matches Some(b) ==> {
                &&& r is Ok <==> merge_error(b@, self@) is None
                &&& r matches Ok(p) ==> p@ == merged(b@, self@)
                &&& r matches Err(e) ==> e@ == merge_error(b@, self@)->0.text()
            },
            base is None ==> {
                &&& r is Ok <==> orphan_error(self@) is None
                &&& r matches Ok(p) ==> p@ == orphan(self@)
                &&& r matches Err(e) ==> e@ == orphan_error(self@)->0.text()
            },
    {
        match self.resolve_checked(base) {
            Ok(p) => Ok(p),
            Err(e) => Err(e.message()),
        }
    }
}

impl Default for SourceProvenanceOverride {
    fn default() -> (o: Self)
        ensures
            o@ == empty_override(),
    {
        SourceProvenanceOverride {
            identity: None,
            revision: None,
            locator: None,
            url: None,
            note: None,
            clear: Vec::new(),
        }
    }
}

/// Observation-guard behavior projected without any source citation.
#[derive(Clone, Copy, Debug, PartialEq, Eq, Structural)]
pub struct ObservationGuardPolicy {
    /// Observation code classified by this policy.
    pub code: u16,
    /// Behavior applied when the code is observed.
    pub behavior: ObservationGuardBehaviorDef,
}

/// Consumer and generator policy, distinct from [`SourceProvenance`]: the
/// fitting budget, knot cap, boundary behavior and observation-guard
/// classification. Applicability windows stay on the member as source
/// facts.
#[derive(Clone, Copy, Debug, PartialEq, Eq, Structural)]
pub struct GenerationPolicy {
    /// Requested interpolation error bound in output quanta.
    pub max_interpolation_error: u32,
    /// Knot budget for the greedy fitter.
    pub max_knots: usize,
    /// Observation-domain below policy.
    pub below: BoundaryDef,
    /// Observation-domain above policy.
    pub above: BoundaryDef,
    /// Explicit observation-code guard (TOML `saturation`), when declared.
    pub observation_guard: Option<ObservationGuardPolicy>,
}

/// `requested interpolation error <= E; max_knots = K; below = B; above = A`
pub open spec fn policy_clause(p: GenerationPolicy) -> Seq<char> {
    "requested interpolation error <= "@ + decimal_spec(p.max_interpolation_error as nat)
        + "; max_knots = "@ + decimal_spec(p.max_knots as nat) + "; below = "@
        + boundary_toml_name(p.below) + "; above = "@ + boundary_toml_name(p.above)
}

impl GenerationPolicy {
    /// The policy of a definition: its budgets and boundaries, and the code
    /// and behavior of its guard without the guard's citation.
    pub fn new(
        max_interpolation_error: u32,
        max_knots: usize,
        below: BoundaryDef,
        above: BoundaryDef,
        observation_guard: Option<&ObservationGuardDef>,
    ) -> (p: Self)
        ensures
            p.max_interpolation_error == max_interpolation_error,
            p.max_knots == max_knots,
            p.below == below,
            p.above == above,
            p.observation_guard == match observation_guard {
                Some(g) => Some(ObservationGuardPolicy { code: g.code, behavior: g.behavior }),
                None => None,
            },
    {
        GenerationPolicy {
            max_interpolation_error,
            max_knots,
            below,
            above,
            observation_guard: match observation_guard {
                Some(g) => Some(ObservationGuardPolicy { code: g.code, behavior: g.behavior }),
                None => None,
            },
        }
    }

    /// The policy clause of generated rustdoc.
    pub fn rustdoc_clause(&self) -> (s: String)
        ensures
            s@ == policy_clause(*self),
    {
        let mut s = String::from_str("requested interpolation error <= ");
        s.append(decimal(self.max_interpolation_error as u64).as_str());
        s.append("; max_knots = ");
        s.append(decimal(self.max_knots as u64).as_str());
        s.append("; below = ");
        s.append(self.below.toml_name());
        s.append("; above = ");
        s.append(self.above.toml_name());
        s
    }
}

} // verus!
