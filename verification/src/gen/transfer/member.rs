//! The declaration rules of one transfer-family member.
//!
//! A member names its selector identity, a status, an optional reason and
//! citation override, and the applicability window its shared source needs.
//! Which window fields are allowed depends on the source: a formula or
//! points family reads an integer observation window, a scaled polynomial
//! an exact input transform plus a model-input window, an NTC divider a
//! physical window. An `unsupported` member has no mapping and takes none.
//!
//! The model-input and physical windows are floating-point ranges that the
//! host tool evaluates; the rules here read only whether they are declared,
//! and say which window the tool goes on to evaluate.

use vstd::prelude::*;

use super::super::text::{blank, is_blank};
use super::family::{InputTransform, MemberStatus, SelectorIdentity};
use super::provenance::{merge_error, CitationView, SourceProvenance, SourceProvenanceOverride};
use super::selectors::{
    blank_value, family_prefix, family_prefix_text, gap_pair_error, member_label,
    member_label_text, observation_window, opt_citation, status_reason_error,
    validate_status_reason,
};

verus! {

/// The built-in model a family's `model` table selects.
#[derive(Debug, Clone, Copy, PartialEq, Eq, Structural)]
pub enum ModelKind {
    /// `kind = "scaled_polynomial"`.
    ScaledPolynomial,
    /// `kind = "ntc_beta_divider"`.
    NtcBetaDivider,
}

/// The kind of shared source a family declares.
#[derive(Debug, Clone, Copy, PartialEq, Eq, Structural)]
pub enum SourceKind {
    /// A formula over the observation.
    Formula,
    /// Physical control points.
    Points,
    /// A polynomial over an exactly scaled observation.
    ScaledPolynomial,
    /// An NTC thermistor behind a divider.
    NtcBetaDivider,
    /// No source, or more than one.
    Unknown,
}

/// The name a source kind goes by in diagnostics.
pub open spec fn kind_text(kind: SourceKind) -> Seq<char> {
    match kind {
        SourceKind::Formula => "formula"@,
        SourceKind::Points => "points"@,
        SourceKind::ScaledPolynomial => "scaled_polynomial"@,
        SourceKind::NtcBetaDivider => "ntc_beta_divider"@,
        SourceKind::Unknown => "unknown"@,
    }
}

impl SourceKind {
    /// The name of this source kind.
    pub fn name(self) -> (s: &'static str)
        ensures
            s@ == kind_text(self),
    {
        match self {
            SourceKind::Formula => "formula",
            SourceKind::Points => "points",
            SourceKind::ScaledPolynomial => "scaled_polynomial",
            SourceKind::NtcBetaDivider => "ntc_beta_divider",
            SourceKind::Unknown => "unknown",
        }
    }
}

/// The source kind of a family: its model when it declares one, else its
/// formula, else its points.
pub open spec fn source_kind_of(model: Option<ModelKind>, formula: bool, points: bool) -> SourceKind {
    match model {
        Some(ModelKind::ScaledPolynomial) => SourceKind::ScaledPolynomial,
        Some(ModelKind::NtcBetaDivider) => SourceKind::NtcBetaDivider,
        None => if formula {
            SourceKind::Formula
        } else if points {
            SourceKind::Points
        } else {
            SourceKind::Unknown
        },
    }
}

/// The source kind of a family: its model when it declares one, else its
/// formula, else its points.
pub fn source_kind(model: Option<ModelKind>, formula: bool, points: bool) -> (k: SourceKind)
    ensures
        k == source_kind_of(model, formula, points),
{
    match model {
        Some(ModelKind::ScaledPolynomial) => SourceKind::ScaledPolynomial,
        Some(ModelKind::NtcBetaDivider) => SourceKind::NtcBetaDivider,
        None => if formula {
            SourceKind::Formula
        } else if points {
            SourceKind::Points
        } else {
            SourceKind::Unknown
        },
    }
}

/// One family member as its declaration rules read it: the observation
/// window by value, the floating-point model-input and physical windows
/// by whether they are declared.
#[derive(Debug, Clone)]
pub struct MemberFields {
    /// The member's selector identity.
    pub selectors: SelectorIdentity,
    /// Explicit table-name stem, replacing the selector expansion.
    pub emitted_name: Option<String>,
    /// Whether the member is generated, and if not, why.
    pub status: MemberStatus,
    /// Rationale, required for every status but `emit`.
    pub reason: Option<String>,
    /// Citation override applied to the family citation.
    pub provenance: Option<SourceProvenanceOverride>,
    /// Exact observation scale for a scaled polynomial.
    pub input_transform: Option<InputTransform>,
    /// Integer observation window `[lo, hi]`.
    pub observation: Option<[u16; 2]>,
    /// Whether a model-input window is declared.
    pub model_input: bool,
    /// Whether a physical window is declared.
    pub physical: bool,
}

/// The window an accepted member leaves for the host tool to evaluate.
#[derive(Debug, Clone, Copy)]
pub enum MemberWindow {
    /// An `unsupported` member: no mapping, nothing to evaluate.
    Unmapped,
    /// The strictly increasing observation window of a formula or points
    /// member.
    Observation([u16; 2]),
    /// The input transform of a scaled-polynomial member, whose
    /// model-input window is declared.
    ScaledInput(InputTransform),
    /// An NTC member, whose physical window is declared.
    Physical,
}

/// `L: `FIELD` is not supported for KIND sources`
pub open spec fn unsupported_field_text(label: Seq<char>, field: Seq<char>, kind: Seq<char>) -> Seq<
    char,
> {
    label + ": `"@ + field + "` is not supported for "@ + kind + " sources"@
}

/// `L: `FIELD` is forbidden for status = "unsupported" ...`
pub open spec fn unmapped_field_text(label: Seq<char>, field: Seq<char>) -> Seq<char> {
    label + ": `"@ + field
        + "` is forbidden for status = \"unsupported\" because unsupported members have no source mapping"@
}

/// The reason text, if any.
pub open spec fn reason_text(m: MemberFields) -> Option<Seq<char>> {
    match m.reason {
        Some(t) => Some(t@),
        None => None,
    }
}

/// What an `unsupported` member's window fields give: any declared one
/// is refused, in the order input transform, observation, model input,
/// physical.
pub open spec fn unmapped_outcome(label: Seq<char>, m: MemberFields) -> Result<
    MemberWindow,
    Seq<char>,
> {
    if m.input_transform is Some {
        Err(unmapped_field_text(label, "input_transform"@))
    } else if m.observation is Some {
        Err(unmapped_field_text(label, "applicability.observation"@))
    } else if m.model_input {
        Err(unmapped_field_text(label, "applicability.model_input"@))
    } else if m.physical {
        Err(unmapped_field_text(label, "applicability.physical"@))
    } else {
        Ok(MemberWindow::Unmapped)
    }
}

/// What a mapped member's window fields give for its family's source.
pub open spec fn mapped_outcome(f: Seq<char>, label: Seq<char>, kind: SourceKind, m: MemberFields) -> Result<
    MemberWindow,
    Seq<char>,
> {
    let k = kind_text(kind);
    match kind {
        SourceKind::Formula | SourceKind::Points => if m.input_transform is Some {
            Err(unsupported_field_text(label, "input_transform"@, k))
        } else if m.model_input {
            Err(unsupported_field_text(label, "applicability.model_input"@, k))
        } else if m.physical {
            Err(unsupported_field_text(label, "applicability.physical"@, k))
        } else {
            match m.observation {
                None => Err(label + ": applicability.observation is required for this source"@),
                Some(w) => if w[0] >= w[1] {
                    Err(label + ": applicability.observation must be two strictly increasing values"@)
                } else {
                    Ok(MemberWindow::Observation(w))
                },
            }
        },
        SourceKind::ScaledPolynomial => if m.observation is Some {
            Err(unsupported_field_text(label, "applicability.observation"@, k))
        } else if m.physical {
            Err(unsupported_field_text(label, "applicability.physical"@, k))
        } else {
            match m.input_transform {
                None => Err(label + ": input_transform is required for scaled_polynomial sources"@),
                Some(t) => if t.numerator == 0 {
                    Err(label + ": input_transform.numerator must be positive"@)
                } else if t.denominator == 0 {
                    Err(label + ": input_transform.denominator must be nonzero"@)
                } else if !m.model_input {
                    Err(label + ": applicability.model_input is required for this source"@)
                } else {
                    Ok(MemberWindow::ScaledInput(t))
                },
            }
        },
        SourceKind::NtcBetaDivider => if m.input_transform is Some {
            Err(unsupported_field_text(label, "input_transform"@, k))
        } else if m.observation is Some {
            Err(unsupported_field_text(label, "applicability.observation"@, k))
        } else if m.model_input {
            Err(unsupported_field_text(label, "applicability.model_input"@, k))
        } else if !m.physical {
            Err(label + ": applicability.physical is required for this source"@)
        } else {
            Ok(MemberWindow::Physical)
        },
        SourceKind::Unknown => Err(
            family_prefix(f) + ": exactly one of points, formula, or model must be specified"@,
        ),
    }
}

/// What validating member `index` of family `f` gives, in the order the
/// rules apply: a non-empty identity, a non-blank explicit name, non-blank
/// selector keys and string values, a reason that fits the status, a
/// citation override that merges onto the family citation, then the
/// window fields of an unmapped or a mapped member.
pub open spec fn member_outcome(
    f: Seq<char>,
    fam: Option<CitationView>,
    kind: SourceKind,
    index: nat,
    m: MemberFields,
) -> Result<MemberWindow, Seq<char>> {
    let label = member_label(f, index);
    if m.selectors@.len() == 0 {
        Err(label + ": selectors must not be empty"@)
    } else if m.emitted_name matches Some(n) && is_blank(n@) {
        Err(label + ": emitted_name must not be blank"@)
    } else if gap_pair_error(label, m.selectors@, 0) is Some {
        Err(gap_pair_error(label, m.selectors@, 0)->0)
    } else if status_reason_error(label, m.status, reason_text(m)) is Some {
        Err(status_reason_error(label, m.status, reason_text(m))->0)
    } else if m.provenance is Some && fam is None {
        Err(family_prefix(f) + ": source-backed family requires provenance.identity"@)
    } else if m.provenance is Some && merge_error(fam->0, m.provenance->0@) is Some {
        Err(label + ": "@ + merge_error(fam->0, m.provenance->0@)->0.text())
    } else if m.status == MemberStatus::Unsupported {
        unmapped_outcome(label, m)
    } else {
        mapped_outcome(f, label, kind, m)
    }
}

fn unsupported_field(label: &str, field: &str, kind: SourceKind) -> (s: String)
    ensures
        s@ == unsupported_field_text(label@, field@, kind_text(kind)),
{
    let mut s = String::from_str(label);
    s.append(": `");
    s.append(field);
    s.append("` is not supported for ");
    s.append(kind.name());
    s.append(" sources");
    s
}

fn unmapped_field(label: &str, field: &str) -> (s: String)
    ensures
        s@ == unmapped_field_text(label@, field@),
{
    let mut s = String::from_str(label);
    s.append(": `");
    s.append(field);
    s.append(
        "` is forbidden for status = \"unsupported\" because unsupported members have no source mapping",
    );
    s
}

fn labelled(label: &str, rest: &str) -> (s: String)
    ensures
        s@ == label@ + rest@,
{
    let mut s = String::from_str(label);
    s.append(rest);
    s
}

fn check_unmapped(label: &str, m: &MemberFields) -> (r: Result<MemberWindow, String>)
    ensures
        match (r, unmapped_outcome(label@, *m)) {
            (Ok(w), Ok(v)) => w == v,
            (Err(e), Err(t)) => e@ == t,
            _ => false,
        },
{
    if m.input_transform.is_some() {
        return Err(unmapped_field(label, "input_transform"));
    }
    if m.observation.is_some() {
        return Err(unmapped_field(label, "applicability.observation"));
    }
    if m.model_input {
        return Err(unmapped_field(label, "applicability.model_input"));
    }
    if m.physical {
        return Err(unmapped_field(label, "applicability.physical"));
    }
    Ok(MemberWindow::Unmapped)
}

fn check_mapped(family_name: &str, label: &str, kind: SourceKind, m: &MemberFields) -> (r: Result<
    MemberWindow,
    String,
>)
    ensures
        match (r, mapped_outcome(family_name@, label@, kind, *m)) {
            (Ok(w), Ok(v)) => w == v,
            (Err(e), Err(t)) => e@ == t,
            _ => false,
        },
{
    match kind {
        SourceKind::Formula | SourceKind::Points => {
            if m.input_transform.is_some() {
                return Err(unsupported_field(label, "input_transform", kind));
            }
            if m.model_input {
                return Err(unsupported_field(label, "applicability.model_input", kind));
            }
            if m.physical {
                return Err(unsupported_field(label, "applicability.physical", kind));
            }
            match observation_window(label, m.observation) {
                Ok(w) => Ok(MemberWindow::Observation(w)),
                Err(e) => Err(e),
            }
        },
        SourceKind::ScaledPolynomial => {
            if m.observation.is_some() {
                return Err(unsupported_field(label, "applicability.observation", kind));
            }
            if m.physical {
                return Err(unsupported_field(label, "applicability.physical", kind));
            }
            let t = match m.input_transform {
                Some(t) => t,
                None => {
                    return Err(
                        labelled(label, ": input_transform is required for scaled_polynomial sources"),
                    );
                },
            };
            if t.numerator == 0 {
                return Err(labelled(label, ": input_transform.numerator must be positive"));
            }
            if t.denominator == 0 {
                return Err(labelled(label, ": input_transform.denominator must be nonzero"));
            }
            if !m.model_input {
                return Err(
                    labelled(label, ": applicability.model_input is required for this source"),
                );
            }
            Ok(MemberWindow::ScaledInput(t))
        },
        SourceKind::NtcBetaDivider => {
            if m.input_transform.is_some() {
                return Err(unsupported_field(label, "input_transform", kind));
            }
            if m.observation.is_some() {
                return Err(unsupported_field(label, "applicability.observation", kind));
            }
            if m.model_input {
                return Err(unsupported_field(label, "applicability.model_input", kind));
            }
            if !m.physical {
                return Err(labelled(label, ": applicability.physical is required for this source"));
            }
            Ok(MemberWindow::Physical)
        },
        SourceKind::Unknown => {
            let mut e = family_prefix_text(family_name);
            e.append(": exactly one of points, formula, or model must be specified");
            Err(e)
        },
    }
}

/// Check the declaration of member `index` of family `family_name`,
/// whose shared source is of kind `kind` and whose own citation, when
/// declared, is `family_provenance`. On success, returns the window the
/// host tool evaluates next.
pub fn validate_member(
    family_name: &str,
    family_provenance: Option<&SourceProvenance>,
    kind: SourceKind,
    index: usize,
    member: &MemberFields,
) -> (r: Result<MemberWindow, String>)
    ensures
        match (
            r,
            member_outcome(family_name@, opt_citation(family_provenance), kind, index as nat, *member),
        ) {
            (Ok(w), Ok(v)) => w == v,
            (Err(e), Err(t)) => e@ == t,
            _ => false,
        },
{
    let label = member_label_text(family_name, index);
    if member.selectors.len() == 0 {
        return Err(labelled(label.as_str(), ": selectors must not be empty"));
    }
    match &member.emitted_name {
        Some(n) => if blank(n.as_str()) {
            return Err(labelled(label.as_str(), ": emitted_name must not be blank"));
        },
        None => {},
    }
    let mut p: usize = 0;
    while p < member.selectors.len()
        invariant
            label@ == member_label(family_name@, index as nat),
            member.selectors@.len() > 0,
            !(member.emitted_name matches Some(n) && is_blank(n@)),
            p <= member.selectors@.len(),
            gap_pair_error(label@, member.selectors@, 0) == gap_pair_error(
                label@,
                member.selectors@,
                p as int,
            ),
        decreases member.selectors@.len() - p,
    {
        if blank(member.selectors[p].0.as_str()) {
            let e = labelled(label.as_str(), ": selector keys must not be blank");
            assert(gap_pair_error(label@, member.selectors@, p as int) == Some(e@));
            return Err(e);
        }
        if blank_value(&member.selectors[p].1) {
            let mut e = labelled(label.as_str(), ": selector `");
            e.append(member.selectors[p].0.as_str());
            e.append("` must not be blank");
            assert(gap_pair_error(label@, member.selectors@, p as int) == Some(e@));
            return Err(e);
        }
        assert(gap_pair_error(label@, member.selectors@, p as int) == gap_pair_error(
            label@,
            member.selectors@,
            p + 1,
        ));
        p = p + 1;
    }
    match validate_status_reason(label.as_str(), member.status, member.reason.as_ref()) {
        Err(e) => {
            return Err(e);
        },
        Ok(()) => {},
    }
    match &member.provenance {
        Some(overlay) => match family_provenance {
            None => {
                let mut e = family_prefix_text(family_name);
                e.append(": source-backed family requires provenance.identity");
                return Err(e);
            },
            Some(base) => match base.merge(overlay) {
                Err(cause) => {
                    let mut e = labelled(label.as_str(), ": ");
                    e.append(cause.as_str());
                    return Err(e);
                },
                Ok(_) => {},
            },
        },
        None => {},
    }
    if member.status == MemberStatus::Unsupported {
        return check_unmapped(label.as_str(), member);
    }
    check_mapped(family_name, label.as_str(), kind, member)
}

/// The indices of the first `n` points whose observation input lies in
/// the inclusive window `[lo, hi]`, in order.
pub open spec fn kept_points(inputs: Seq<u16>, lo: u16, hi: u16, n: int) -> Seq<usize>
    decreases n,
{
    if n <= 0 {
        Seq::empty()
    } else if lo <= inputs[n - 1] <= hi {
        kept_points(inputs, lo, hi, n - 1).push((n - 1) as usize)
    } else {
        kept_points(inputs, lo, hi, n - 1)
    }
}

/// Clip a points source to a member's inclusive observation window.
///
/// `inputs` are the observation inputs of the family's points, in order;
/// the result names the points kept by their indices, or fails when fewer
/// than two remain.
pub fn clip_points(inputs: &[u16], window: [u16; 2]) -> (r: Result<Vec<usize>, String>)
    ensures
        r is Ok <==> kept_points(inputs@, window[0], window[1], inputs@.len() as int).len() >= 2,
        r matches Ok(kept) ==> kept@ == kept_points(
            inputs@,
            window[0],
            window[1],
            inputs@.len() as int,
        ),
        r matches Err(e) ==> e@
            == "applicability.observation contains fewer than two points after inclusive clip"@,
{
    let lo = window[0];
    let hi = window[1];
    let mut kept: Vec<usize> = Vec::new();
    let mut i: usize = 0;
    while i < inputs.len()
        invariant
            i <= inputs@.len(),
            lo == window[0],
            hi == window[1],
            kept@ == kept_points(inputs@, lo, hi, i as int),
        decreases inputs@.len() - i,
    {
        if lo <= inputs[i] && inputs[i] <= hi {
            kept.push(i);
        }
        i = i + 1;
    }
    if kept.len() < 2 {
        return Err(
            String::from_str("applicability.observation contains fewer than two points after inclusive clip"),
        );
    }
    Ok(kept)
}

} // verus!
