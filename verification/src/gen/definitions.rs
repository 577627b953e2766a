//! The table names of a definitions document and the rules that keep them
//! apart: a gap may not share a name with a curve, a transfer, a family or
//! an emitted family member, and a transfer added by hand may share a name
//! with nothing.
//!
//! Transfer and family bodies hold floating-point sources that the host
//! tool evaluates; the name rules read only the table names, so the
//! document here keeps those names, the curves and the gaps.

use vstd::prelude::*;

use super::api::Error;
use super::curve::CurveDef;
use super::text::{ascending_keys, is_blank, blank, join3, same_text};
use super::transfer::family::GapDef;
use super::transfer::expansion::{emitted_view, expand_families, families_from, FamilyEvaluation};
use super::transfer::provenance::orphan_error;
use super::transfer::standalone::TransferFields;
use super::transfer::validation::{keys_ascending, FamilyFields};

verus! {

/// The table names and name-bearing entries of a definitions document,
/// each table in key order.
#[derive(Debug, Clone)]
pub struct DefinitionsFile {
    /// Normalized LUT curves keyed by table name.
    pub curves: Vec<(String, CurveDef)>,
    /// Standalone transfers keyed by table name.
    pub transfers: Vec<(String, TransferFields)>,
    /// Transfer families keyed by table name.
    pub transfer_families: Vec<(String, FamilyFields)>,
    /// Declared gaps keyed by name.
    pub gaps: Vec<(String, GapDef)>,
}

/// The names of a table of keyed entries.
pub open spec fn keys_in<T>(entries: Seq<(String, T)>) -> Seq<Seq<char>> {
    Seq::new(entries.len(), |i: int| entries[i].0@)
}

/// The contents of a list of names.
pub open spec fn names_in(names: Seq<String>) -> Seq<Seq<char>> {
    Seq::new(names.len(), |i: int| names[i]@)
}

/// Whether a keyed table has an entry named `name`.
fn keys_name<T>(entries: &Vec<(String, T)>, name: &str) -> (b: bool)
    ensures
        b == keys_in(entries@).contains(name@),
{
    let mut i: usize = 0;
    while i < entries.len()
        invariant
            i <= entries@.len(),
            forall|j: int| 0 <= j < i ==> entries@[j].0@ != name@,
        decreases entries@.len() - i,
    {
        if same_text(entries[i].0.as_str(), name) {
            assert(keys_in(entries@)[i as int] == name@);
            return true;
        }
        i = i + 1;
    }
    assert(!keys_in(entries@).contains(name@)) by {
        if keys_in(entries@).contains(name@) {
            let j = choose|j: int| 0 <= j < keys_in(entries@).len() && keys_in(entries@)[j] == name@;
            assert(entries@[j].0@ == name@);
        }
    }
    false
}

impl DefinitionsFile {
    /// Every table is keyed in ascending order, and so is every selector
    /// map of its families, as a parsed document holds them.
    pub open spec fn tables_ascending(&self) -> bool {
        &&& ascending_keys(self.curves@)
        &&& ascending_keys(self.transfers@)
        &&& ascending_keys(self.transfer_families@)
        &&& ascending_keys(self.gaps@)
        &&& forall|k: int|
            0 <= k < self.transfer_families@.len() ==> keys_ascending(
                (#[trigger] self.transfer_families@[k]).1,
            )
    }

    /// Names of the `[curves]` entries.
    pub open spec fn curve_names(&self) -> Seq<Seq<char>> {
        keys_in(self.curves@)
    }

    /// Names of the standalone `[transfers]` entries.
    pub open spec fn transfer_names(&self) -> Seq<Seq<char>> {
        keys_in(self.transfers@)
    }

    /// Names of the `[transfer_families]` entries.
    pub open spec fn family_names(&self) -> Seq<Seq<char>> {
        keys_in(self.transfer_families@)
    }

    /// Names of the `[gaps]` entries.
    pub open spec fn gap_names(&self) -> Seq<Seq<char>> {
        keys_in(self.gaps@)
    }

    /// Normalized LUT curves keyed by table name.
    pub fn curves(&self) -> (r: &Vec<(String, CurveDef)>)
        ensures
            r == &self.curves,
    {
        &self.curves
    }

    /// Standalone `[transfers]` entries. Family members are not among
    /// them.
    pub fn transfers(&self) -> (r: &Vec<(String, TransferFields)>)
        ensures
            r == &self.transfers,
    {
        &self.transfers
    }

    /// Declared transfer families.
    pub fn transfer_families(&self) -> (r: &Vec<(String, FamilyFields)>)
        ensures
            r == &self.transfer_families,
    {
        &self.transfer_families
    }

    /// Declared gaps. A missing gap is not the same as an undefined one.
    pub fn gaps(&self) -> (r: &Vec<(String, GapDef)>)
        ensures
            r == &self.gaps,
    {
        &self.gaps
    }
}

/// `transfer `N` collides with a [T] entry`
pub open spec fn collision_text(subject: Seq<char>, name: Seq<char>, table: Seq<char>) -> Seq<
    char,
> {
    subject + " `"@ + name + "` collides with a ["@ + table + "] entry"@
}

/// Why a transfer added by hand under `name` is refused, if it is: the
/// name is blank or already names a curve, a transfer, a family or a gap.
pub open spec fn insert_name_error(d: DefinitionsFile, name: Seq<char>) -> Option<Seq<char>> {
    if is_blank(name) {
        Some("transfer name must not be blank"@)
    } else if d.curve_names().contains(name) {
        Some(collision_text("transfer"@, name, "curves"@))
    } else if d.transfer_names().contains(name) {
        Some(collision_text("transfer"@, name, "transfers"@))
    } else if d.family_names().contains(name) {
        Some(collision_text("transfer"@, name, "transfer_families"@))
    } else if d.gap_names().contains(name) {
        Some(collision_text("transfer"@, name, "gaps"@))
    } else {
        None
    }
}

fn collision_message(subject: &str, name: &str, table: &str) -> (s: String)
    ensures
        s@ == collision_text(subject@, name@, table@),
{
    let mut s = String::from_str(subject);
    s.append(" `");
    s.append(name);
    s.append("` collides with a [");
    s.append(table);
    s.append("] entry");
    s
}

/// Check that a transfer added by hand under `name` would collide with no
/// table of the document.
pub fn check_insert_name(defs: &DefinitionsFile, name: &str) -> (r: Result<(), Error>)
    ensures
        r is Ok <==> insert_name_error(*defs, name@) is None,
        r matches Err(e) ==> Some(e.text()) == insert_name_error(*defs, name@),
{
    if blank(name) {
        return Err(Error::Validation(String::from_str("transfer name must not be blank")));
    }
    if keys_name(&defs.curves, name) {
        return Err(Error::Validation(collision_message("transfer", name, "curves")));
    }
    if keys_name(&defs.transfers, name) {
        return Err(Error::Validation(collision_message("transfer", name, "transfers")));
    }
    if keys_name(&defs.transfer_families, name) {
        return Err(Error::Validation(collision_message("transfer", name, "transfer_families")));
    }
    if keys_name(&defs.gaps, name) {
        return Err(Error::Validation(collision_message("transfer", name, "gaps")));
    }
    Ok(())
}

/// `gap `N``
pub open spec fn gap_prefix(name: Seq<char>) -> Seq<char> {
    "gap `"@ + name + "`"@
}

fn gap_prefix_text(name: &str) -> (s: String)
    ensures
        s@ == gap_prefix(name@),
{
    join3("gap `", name, "`")
}

/// Why the gap at `i` is refused, if it is: a blank reason, a citation
/// that cannot stand on its own, or a name shared with a curve, a
/// transfer or a family.
pub open spec fn gap_entry_error(d: DefinitionsFile, i: int) -> Option<Seq<char>> {
    let name = d.gaps@[i].0@;
    let gap = d.gaps@[i].1;
    if is_blank(gap.reason@) {
        Some(gap_prefix(name) + ": reason must not be blank"@)
    } else if gap.provenance matches Some(o) && orphan_error(o@) is Some {
        Some(gap_prefix(name) + ": "@ + orphan_error(gap.provenance->0@)->0.text())
    } else if d.curve_names().contains(name) {
        Some(collision_text("gap"@, name, "curves"@))
    } else if d.transfer_names().contains(name) {
        Some(collision_text("gap"@, name, "transfers"@))
    } else if d.family_names().contains(name) {
        Some(collision_text("gap"@, name, "transfer_families"@))
    } else {
        None
    }
}

/// The first refused gap from index `i` on, in table order.
pub open spec fn gaps_error_from(d: DefinitionsFile, i: int) -> Option<Seq<char>>
    decreases d.gaps@.len() - i,
{
    if i < 0 || i >= d.gaps@.len() {
        None
    } else if gap_entry_error(d, i) is Some {
        gap_entry_error(d, i)
    } else {
        gaps_error_from(d, i + 1)
    }
}

proof fn lemma_gaps_error_prefix(d: DefinitionsFile, i: int)
    requires
        0 <= i <= d.gaps@.len(),
        forall|j: int| 0 <= j < i ==> gap_entry_error(d, j) is None,
    ensures
        gaps_error_from(d, 0) == gaps_error_from(d, i),
    decreases i,
{
    if i > 0 {
        lemma_gaps_error_prefix(d, i - 1);
    }
}

/// Check every declared gap in table order, as generation does before it
/// expands families: each needs a non-blank reason and, where it cites a
/// source, a citation with an identity, and no gap may share its name
/// with a curve, a standalone transfer or a family.
pub fn check_gaps(defs: &DefinitionsFile) -> (r: Result<(), String>)
    ensures
        r is Ok <==> gaps_error_from(*defs, 0) is None,
        r matches Err(e) ==> Some(e@) == gaps_error_from(*defs, 0),
{
    let mut i: usize = 0;
    while i < defs.gaps.len()
        invariant
            i <= defs.gaps@.len(),
            forall|j: int| 0 <= j < i ==> gap_entry_error(*defs, j) is None,
        decreases defs.gaps@.len() - i,
    {
        proof {
            lemma_gaps_error_prefix(*defs, i as int);
        }
        let name = defs.gaps[i].0.as_str();
        let gap = &defs.gaps[i].1;
        if blank(gap.reason.as_str()) {
            let mut e = gap_prefix_text(name);
            e.append(": reason must not be blank");
            return Err(e);
        }
        match gap.resolved_provenance() {
            Err(cause) => {
                let mut e = gap_prefix_text(name);
                e.append(": ");
                e.append(cause.as_str());
                return Err(e);
            },
            Ok(_) => {},
        }
        if keys_name(&defs.curves, name) {
            return Err(collision_message("gap", name, "curves"));
        }
        if keys_name(&defs.transfers, name) {
            return Err(collision_message("gap", name, "transfers"));
        }
        if keys_name(&defs.transfer_families, name) {
            return Err(collision_message("gap", name, "transfer_families"));
        }
        i = i + 1;
    }
    proof {
        lemma_gaps_error_prefix(*defs, i as int);
    }
    Ok(())
}

/// Why the emitted family member name at `i` is refused, if it is: a gap
/// or a standalone transfer already has it.
pub open spec fn expanded_name_error(d: DefinitionsFile, expanded: Seq<Seq<char>>, i: int) -> Option<
    Seq<char>,
> {
    let name = expanded[i];
    if d.gap_names().contains(name) {
        Some(gap_prefix(name) + " collides with an emitted family member"@)
    } else if d.transfer_names().contains(name) {
        Some("expanded family member `"@ + name
            + "` collides with a standalone [transfers] entry"@)
    } else {
        None
    }
}

/// The first refused emitted name from index `i` on.
pub open spec fn expanded_error_from(d: DefinitionsFile, expanded: Seq<Seq<char>>, i: int) -> Option<
    Seq<char>,
>
    decreases expanded.len() - i,
{
    if i < 0 || i >= expanded.len() {
        None
    } else if expanded_name_error(d, expanded, i) is Some {
        expanded_name_error(d, expanded, i)
    } else {
        expanded_error_from(d, expanded, i + 1)
    }
}

proof fn lemma_expanded_error_prefix(d: DefinitionsFile, expanded: Seq<Seq<char>>, i: int)
    requires
        0 <= i <= expanded.len(),
        forall|j: int| 0 <= j < i ==> expanded_name_error(d, expanded, j) is None,
    ensures
        expanded_error_from(d, expanded, 0) == expanded_error_from(d, expanded, i),
    decreases i,
{
    if i > 0 {
        lemma_expanded_error_prefix(d, expanded, i - 1);
    }
}

/// Check the names that expanding the families emitted, in order: none
/// may be a gap's name or a standalone transfer's.
pub fn check_expanded_names(defs: &DefinitionsFile, expanded: &[String]) -> (r: Result<(), String>)
    ensures
        r is Ok <==> expanded_error_from(*defs, names_in(expanded@), 0) is None,
        r matches Err(e) ==> Some(e@) == expanded_error_from(*defs, names_in(expanded@), 0),
{
    let mut i: usize = 0;
    while i < expanded.len()
        invariant
            i <= expanded@.len(),
            forall|j: int| 0 <= j < i ==> expanded_name_error(*defs, names_in(expanded@), j) is None,
        decreases expanded@.len() - i,
    {
        proof {
            lemma_expanded_error_prefix(*defs, names_in(expanded@), i as int);
        }
        let name = expanded[i].as_str();
        if keys_name(&defs.gaps, name) {
            let mut e = gap_prefix_text(name);
            e.append(" collides with an emitted family member");
            return Err(e);
        }
        if keys_name(&defs.transfers, name) {
            let mut e = String::from_str("expanded family member `");
            e.append(name);
            e.append("` collides with a standalone [transfers] entry");
            return Err(e);
        }
        i = i + 1;
    }
    proof {
        lemma_expanded_error_prefix(*defs, names_in(expanded@), i as int);
    }
    Ok(())
}

proof fn lemma_names_push(s: Seq<String>, x: String)
    ensures
        names_in(s.push(x)) == names_in(s).push(x@),
{
    assert(names_in(s.push(x)) =~= names_in(s).push(x@));
}

/// The names expansion emitted, in order.
pub open spec fn emitted_names(o: Seq<(Seq<char>, int, int)>) -> Seq<Seq<char>> {
    Seq::new(o.len(), |p: int| o[p].0)
}

/// What resolving the document's transfers gives: the gap checks, the
/// expansion of every family, and the name checks on what it emitted, in
/// that order; on success the standalone transfer names followed by the
/// emitted member names.
pub open spec fn resolved_outcome(d: DefinitionsFile, evals: Seq<FamilyEvaluation>) -> Result<
    Seq<Seq<char>>,
    Seq<char>,
> {
    if gaps_error_from(d, 0) is Some {
        Err(gaps_error_from(d, 0)->0)
    } else {
        match families_from(d.transfer_families@, evals, Seq::empty(), 0) {
            Err(m) => Err(m),
            Ok(o) => if expanded_error_from(d, emitted_names(o), 0) is Some {
                Err(expanded_error_from(d, emitted_names(o), 0)->0)
            } else {
                Ok(d.transfer_names() + emitted_names(o))
            },
        }
    }
}

/// Resolve the transfers a document generates: its standalone transfers
/// and the `emit` members of its families, given the host tool's
/// evaluation of each family.
pub fn resolved_transfers(defs: &DefinitionsFile, evaluations: &Vec<FamilyEvaluation>) -> (r: Result<
    Vec<String>,
    String,
>)
    requires
        defs.tables_ascending(),
    ensures
        match resolved_outcome(*defs, evaluations@) {
            Ok(names) => r matches Ok(v) && names_in(v@) == names,
            Err(m) => r matches Err(e) && e@ == m,
        },
{
    check_gaps(defs)?;
    let emitted = expand_families(&defs.transfer_families, evaluations)?;
    let ghost o = emitted_view(emitted@);
    let mut expanded: Vec<String> = Vec::new();
    let mut p: usize = 0;
    while p < emitted.len()
        invariant
            o == emitted_view(emitted@),
            p <= emitted@.len(),
            names_in(expanded@) == emitted_names(o).subrange(0, p as int),
        decreases emitted@.len() - p,
    {
        let ghost before = expanded@;
        expanded.push(emitted[p].name.clone());
        proof {
            lemma_names_push(before, emitted@[p as int].name);
            assert(emitted_names(o).subrange(0, p + 1) =~= emitted_names(o).subrange(0, p as int).push(
                o[p as int].0,
            ));
        }
        p = p + 1;
    }
    assert(names_in(expanded@) =~= emitted_names(o));
    check_expanded_names(defs, expanded.as_slice())?;
    let mut names: Vec<String> = Vec::new();
    let mut i: usize = 0;
    while i < defs.transfers.len()
        invariant
            i <= defs.transfers@.len(),
            names_in(names@) == defs.transfer_names().subrange(0, i as int),
        decreases defs.transfers@.len() - i,
    {
        let ghost before = names@;
        names.push(defs.transfers[i].0.clone());
        proof {
            lemma_names_push(before, defs.transfers@[i as int].0);
            assert(defs.transfer_names().subrange(0, i + 1) =~= defs.transfer_names().subrange(
                0,
                i as int,
            ).push(defs.transfers@[i as int].0@));
        }
        i = i + 1;
    }
    assert(names_in(names@) =~= defs.transfer_names());
    let ghost standalone = names_in(names@);
    let mut j: usize = 0;
    while j < expanded.len()
        invariant
            j <= expanded@.len(),
            names_in(names@) == standalone + names_in(expanded@).subrange(0, j as int),
        decreases expanded@.len() - j,
    {
        let ghost before = names@;
        names.push(expanded[j].clone());
        proof {
            lemma_names_push(before, expanded@[j as int]);
            assert(standalone + names_in(expanded@).subrange(0, j + 1) =~= (standalone + names_in(
                expanded@,
            ).subrange(0, j as int)).push(expanded@[j as int]@));
        }
        j = j + 1;
    }
    assert(names_in(expanded@).subrange(0, j as int) =~= names_in(expanded@));
    Ok(names)
}

} // verus!
