//! Validated definitions: the checked, fully resolved view of a family's
//! declared items.

use vstd::prelude::*;

use super::transfer::family::{identity_view, copy_identity, FamilyGapDef, GapStatus, SelectorIdentity, SelectorValueView};
use super::transfer::provenance::{CitationView, OverrideView, SourceProvenance, SourceProvenanceOverride};
use super::transfer::selectors::{
    family_gap_error, gap_provenance, opt_citation, opt_override, resolved_family_gap_provenance,
    validate_family_gap,
};

verus! {

/// One validated family-scoped gap with its resolved citation.
#[derive(Clone, Debug)]
pub struct ValidatedFamilyGap {
    selectors: SelectorIdentity,
    status: GapStatus,
    reason: String,
    provenance: SourceProvenance,
    provenance_override: Option<SourceProvenanceOverride>,
}

impl ValidatedFamilyGap {
    /// The identity the gap covers.
    pub closed spec fn spec_selectors(&self) -> Seq<(Seq<char>, SelectorValueView)> {
        identity_view(self.selectors@)
    }

    /// The gap's reason.
    pub closed spec fn spec_reason(&self) -> Seq<char> {
        self.reason@
    }

    /// The resolved citation.
    pub closed spec fn spec_provenance(&self) -> CitationView {
        self.provenance@
    }

    /// The override the gap declared.
    pub closed spec fn spec_provenance_override(&self) -> Option<OverrideView> {
        opt_override(self.provenance_override)
    }

    /// The gap's status.
    pub closed spec fn spec_status(&self) -> GapStatus {
        self.status
    }

    /// Check a family-scoped gap and resolve its citation against the
    /// family's.
    pub fn validate(
        family_name: &str,
        family_provenance: Option<&SourceProvenance>,
        index: usize,
        gap: &FamilyGapDef,
    ) -> (r: Result<Self, String>)
        ensures
            r is Err <==> family_gap_error(
                family_name@,
                opt_citation(family_provenance),
                index as nat,
                *gap,
            ) is Some,
            r matches Err(e) ==> e@ == family_gap_error(
                family_name@,
                opt_citation(family_provenance),
                index as nat,
                *gap,
            )->0,
            r matches Ok(v) ==> {
                &&& v.spec_selectors() == identity_view(gap.selectors@)
                &&& v.spec_status() == gap.status
                &&& v.spec_reason() == gap.reason@
                &&& v.spec_provenance_override() == opt_override(gap.provenance)
                &&& gap_provenance(
                    family_name@,
                    opt_citation(family_provenance),
                    index as nat,
                    opt_override(gap.provenance),
                ) == Ok::<CitationView, Seq<char>>(v.spec_provenance())
            },
    {
        validate_family_gap(family_name, family_provenance, index, gap)?;
        let provenance = resolved_family_gap_provenance(family_name, family_provenance, index, gap)?;
        let provenance_override = match &gap.provenance {
            Some(o) => Some(o.duplicate()),
            None => None,
        };
        Ok(ValidatedFamilyGap {
            selectors: copy_identity(&gap.selectors),
            status: gap.status,
            reason: gap.reason.clone(),
            provenance,
            provenance_override,
        })
    }

    /// Selector identity this gap covers.
    pub fn selectors(&self) -> (r: &SelectorIdentity)
        ensures
            identity_view(r@) == self.spec_selectors(),
    {
        &self.selectors
    }

    /// Gap status.
    pub fn status(&self) -> (r: GapStatus)
        ensures
            r == self.spec_status(),
    {
        self.status
    }

    /// Human-readable reason.
    pub fn reason(&self) -> (r: &str)
        ensures
            r@ == self.spec_reason(),
    {
        self.reason.as_str()
    }

    /// Resolved citation: the family's, with the gap's override merged in.
    pub fn provenance(&self) -> (r: &SourceProvenance)
        ensures
            r@ == self.spec_provenance(),
    {
        &self.provenance
    }

    /// The override the gap declared, if any.
    pub fn provenance_override(&self) -> (r: Option<&SourceProvenanceOverride>)
        ensures
            match r {
                Some(o) => self.spec_provenance_override() == Some(o@),
                None => self.spec_provenance_override() is None,
            },
    {
        match &self.provenance_override {
            Some(o) => Some(o),
            None => None,
        }
    }
}

} // verus!
