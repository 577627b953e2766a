//! The declaration rules of a transfer family as a whole.
//!
//! A family needs a valid citation, a knot budget within the family cap,
//! exactly one shared source and at least one member. Every member must
//! pass its own rules and carry an identity no other member has; the
//! declared selector universe must resolve; every member and
//! family-scoped gap must sit inside it, emitted members must resolve to
//! distinct table names, gaps may not repeat an identity or take a
//! member's, and members and gaps together must occupy exactly the
//! identities the universe expects.
//!
//! Two checks read floating-point data that the host tool evaluates: the
//! shared polynomial's coefficients and the window each mapped member
//! declares. Their outcomes are arguments here, and the rules place them
//! where the evaluation happens.

use vstd::prelude::*;

use super::super::text::{ascending_keys, decimal, decimal_spec, is_blank, same_text};
use vstd::seq_lib::seq_to_set_is_finite;
use vstd::set_lib::{lemma_int_range, lemma_subset_equality, set_int_range};

use super::family::{
    axis_has_value, axis_lens, cardinality, cartesian_identity, identity_at, identity_view,
    lemma_cartesian_position, product,
    FamilyGapDef, MemberStatus, SelectorAxis, SelectorIdentity, SelectorUniverse, SelectorValue,
    SelectorValueView,
};
use super::member::{
    member_outcome, source_kind, source_kind_of, validate_member, MemberFields, MemberWindow,
    ModelKind, SourceKind,
};
use super::family::{declared_source, DeclaredSource};
use super::provenance::{
    citation_error, CitationView, GenerationPolicy, ObservationGuardPolicy, SourceProvenance,
};
use super::{BoundaryDef, ObservationGuardDef};
use super::selectors::{
    expanded_text, family_gap_error, family_prefix, family_prefix_text, format_selectors,
    gap_label, gap_label_text, lemma_same_universe_same_membership, member_emitted_name,
    axes_list, in_universe, keys_of, member_label, member_label_text, resolved_selector_universe,
    same_identity, same_universe, universe_keys,
    selectors_text, universe_error, universe_membership_error, validate_completeness,
    validate_family_gap, validate_identity_in_universe,
};

verus! {

/// Hard cap on knots for a family member. Stricter than the standalone
/// transfer cap: families must not become dense ADC tables.
pub const FAMILY_MAX_KNOTS_HARD: usize = 256;

/// The knot budget of a family member when none is declared.
pub fn default_family_max_knots() -> (n: usize)
    ensures
        n == 64,
{
    64
}

/// One transfer family as its declaration rules read it. The shared
/// source is described by which of formula, points and model it declares.
#[derive(Debug, Clone)]
pub struct FamilyFields {
    /// Shared source citation. Required for a source-backed family.
    pub provenance: Option<SourceProvenance>,
    /// Requested interpolation error bound, copied onto each member.
    pub max_interpolation_error: u32,
    /// Knot budget for each emitted member.
    pub max_knots: usize,
    /// Optional aggregate knot budget across every emitted member.
    pub max_total_knots: Option<usize>,
    /// Optional aggregate table-payload budget in bytes.
    pub max_table_bytes: Option<usize>,
    /// Observation-domain below policy copied onto emitted members.
    pub below: BoundaryDef,
    /// Observation-domain above policy copied onto emitted members.
    pub above: BoundaryDef,
    /// Explicit observation-code guard copied onto emitted members.
    pub observation_guard: Option<ObservationGuardDef>,
    /// Whether a shared formula is declared.
    pub formula: bool,
    /// Whether shared control points are declared.
    pub points: bool,
    /// The shared built-in model, when one is declared.
    pub model: Option<ModelKind>,
    /// Whether a shared scaled-polynomial model declares its own `scale`.
    pub model_scale: bool,
    /// Named selector axes whose Cartesian product is the universe.
    pub selector_axes: Option<Vec<SelectorAxis>>,
    /// Explicit expected selector identities.
    pub expected_selectors: Option<Vec<SelectorIdentity>>,
    /// Explicit selector combinations, in declaration order.
    pub members: Vec<MemberFields>,
    /// Family-scoped gaps, in declaration order.
    pub gaps: Vec<FamilyGapDef>,
}

impl FamilyFields {
    /// Fit budget, boundaries, and observation-guard classification.
    pub fn policy(&self) -> (p: GenerationPolicy)
        ensures
            p.max_interpolation_error == self.max_interpolation_error,
            p.max_knots == self.max_knots,
            p.below == self.below,
            p.above == self.above,
            p.observation_guard == match self.observation_guard {
                Some(g) => Some(ObservationGuardPolicy { code: g.code, behavior: g.behavior }),
                None => None,
            },
    {
        GenerationPolicy::new(
            self.max_interpolation_error,
            self.max_knots,
            self.below,
            self.above,
            self.observation_guard.as_ref(),
        )
    }

    /// Which of formula, points, or model is set; `None` if the source is
    /// missing or mixed.
    pub fn declared_source(&self) -> (r: Option<DeclaredSource>)
        ensures
            r == (if self.formula && !self.points && self.model is None {
                Some(DeclaredSource::Formula)
            } else if !self.formula && self.points && self.model is None {
                Some(DeclaredSource::Points)
            } else if !self.formula && !self.points && self.model is Some {
                Some(DeclaredSource::Model)
            } else {
                None
            }),
    {
        declared_source(self.formula, self.points, self.model.is_some())
    }
}

/// The family's citation, if declared.
pub open spec fn family_citation(fam: FamilyFields) -> Option<CitationView> {
    match fam.provenance {
        Some(p) => Some(p@),
        None => None,
    }
}

/// The universe a family declares, taken as written.
pub open spec fn declared_universe(fam: FamilyFields) -> SelectorUniverse {
    match fam.selector_axes {
        Some(a) => SelectorUniverse::Cartesian { axes: a },
        None => SelectorUniverse::Explicit { identities: fam.expected_selectors->0 },
    }
}

/// The declared axes, as the universe rules read them.
pub open spec fn axes_of(fam: FamilyFields) -> Option<Seq<SelectorAxis>> {
    match fam.selector_axes {
        Some(a) => Some(a@),
        None => None,
    }
}

/// The declared identities, as the universe rules read them.
pub open spec fn identities_of(fam: FamilyFields) -> Option<Seq<SelectorIdentity>> {
    match fam.expected_selectors {
        Some(i) => Some(i@),
        None => None,
    }
}

/// The family's shared source kind.
pub open spec fn kind_of(fam: FamilyFields) -> SourceKind {
    source_kind_of(fam.model, fam.formula, fam.points)
}

/// How many of formula, points and model a family declares.
pub open spec fn source_count(fam: FamilyFields) -> int {
    (if fam.formula { 1int } else { 0 }) + (if fam.points { 1int } else { 0 }) + (if fam.model
        is Some {
        1int
    } else {
        0
    })
}

/// Why a family's own fields are refused, if they are, in the order the
/// rules apply. `coefficients` is the error checking the shared
/// polynomial's coefficients gave, if that check failed.
pub open spec fn header_error(f: Seq<char>, fam: FamilyFields, coefficients: Option<Seq<char>>) -> Option<
    Seq<char>,
> {
    let p = family_prefix(f);
    if fam.provenance is None {
        Some(p + ": source-backed family requires provenance.identity"@)
    } else if citation_error(fam.provenance->0@) is Some {
        Some(p + ": "@ + citation_error(fam.provenance->0@)->0.text())
    } else if !(2 <= fam.max_knots <= FAMILY_MAX_KNOTS_HARD) {
        Some(p + ": max_knots must be in 2..=256"@)
    } else if fam.max_total_knots == Some(0usize) {
        Some(p + ": max_total_knots must be positive"@)
    } else if fam.max_table_bytes == Some(0usize) {
        Some(p + ": max_table_bytes must be positive"@)
    } else if source_count(fam) != 1 {
        Some(p + ": exactly one of points, formula, or model must be specified"@)
    } else if fam.members@.len() == 0 {
        Some(p + ": members must not be empty"@)
    } else if fam.model == Some(ModelKind::ScaledPolynomial) && fam.model_scale {
        Some(p + ": scale belongs on members as input_transform, not the shared model"@)
    } else if fam.model == Some(ModelKind::ScaledPolynomial) && coefficients is Some {
        Some(p + ": "@ + coefficients->0)
    } else {
        None
    }
}

/// Some earlier member has the same identity as member `i`.
pub open spec fn repeats_member(members: Seq<MemberFields>, i: int) -> bool {
    exists|j: int|
        0 <= j < i && identity_view(members[j].selectors@) == identity_view(members[i].selectors@)
}

/// The first earlier member with the identity of member `i`.
pub open spec fn first_repeat(members: Seq<MemberFields>, i: int) -> int {
    choose|j: int|
        0 <= j < i && identity_view(members[j].selectors@) == identity_view(members[i].selectors@)
            && forall|k: int|
            0 <= k < j ==> identity_view(members[k].selectors@) != identity_view(
                members[i].selectors@,
            )
}

/// Why member `i` is refused in the member pass, if it is: its own rules,
/// then the host's evaluation of its window (`windows[i]`, consulted for
/// mapped members), then an identity an earlier member already has.
pub open spec fn member_step_error(
    f: Seq<char>,
    fam: FamilyFields,
    windows: Seq<Option<String>>,
    i: int,
) -> Option<Seq<char>> {
    let m = fam.members@[i];
    match member_outcome(f, family_citation(fam), kind_of(fam), i as nat, m) {
        Err(e) => Some(e),
        Ok(w) => if !(w is Unmapped) && i < windows.len() && windows[i] is Some {
            Some(windows[i]->0@)
        } else if repeats_member(fam.members@, i) {
            Some(family_prefix(f) + ": members "@ + decimal_spec(
                first_repeat(fam.members@, i) as nat,
            ) + " and "@ + decimal_spec(i as nat) + " share selector identity "@ + selectors_text(
                m.selectors@,
            ))
        } else {
            None
        },
    }
}

/// The first member refused in the member pass, from `i` on.
pub open spec fn members_error_from(
    f: Seq<char>,
    fam: FamilyFields,
    windows: Seq<Option<String>>,
    i: int,
) -> Option<Seq<char>>
    decreases fam.members@.len() - i,
{
    if i < 0 || i >= fam.members@.len() {
        None
    } else if member_step_error(f, fam, windows, i) is Some {
        member_step_error(f, fam, windows, i)
    } else {
        members_error_from(f, fam, windows, i + 1)
    }
}

/// The table-name stem of a member: its explicit name, or the expansion
/// of its selectors.
pub open spec fn emitted_text(f: Seq<char>, m: MemberFields) -> Seq<char> {
    match m.emitted_name {
        Some(n) => n@,
        None => expanded_text(f, m.selectors@),
    }
}

/// Member `j` is emitted under `name`.
pub open spec fn emits_as(f: Seq<char>, m: MemberFields, name: Seq<char>) -> bool {
    m.status == MemberStatus::Emit && emitted_text(f, m) == name
}

/// The first member before `i` emitted under `name`.
pub open spec fn first_emitted_as(f: Seq<char>, members: Seq<MemberFields>, i: int, name: Seq<char>) -> int {
    choose|j: int|
        0 <= j < i && emits_as(f, members[j], name) && forall|k: int|
            0 <= k < j ==> !emits_as(f, members[k], name)
}

/// Why member `i`'s table name is refused, if it is: it is emitted under
/// the name of an earlier emitted member.
pub open spec fn collision_error(f: Seq<char>, fam: FamilyFields, i: int) -> Option<Seq<char>> {
    let m = fam.members@[i];
    let name = emitted_text(f, m);
    if m.status == MemberStatus::Emit && exists|j: int|
        0 <= j < i && emits_as(f, fam.members@[j], name) {
        Some(family_prefix(f) + ": selector maps "@ + selectors_text(
            fam.members@[first_emitted_as(f, fam.members@, i, name)].selectors@,
        ) + " and "@ + selectors_text(m.selectors@) + " both resolve to `"@ + name + "`"@)
    } else {
        None
    }
}

/// Why member `i` is refused in the identity pass, if it is: it lies
/// outside the universe, or it is emitted under the name of an earlier
/// emitted member.
pub open spec fn identity_step_error(f: Seq<char>, fam: FamilyFields, i: int) -> Option<Seq<char>> {
    let m = fam.members@[i];
    let u = declared_universe(fam);
    if universe_membership_error(member_label(f, i as nat), f, m.selectors@, u) is Some {
        universe_membership_error(member_label(f, i as nat), f, m.selectors@, u)
    } else {
        collision_error(f, fam, i)
    }
}

/// The first member refused in the identity pass, from `i` on.
pub open spec fn identities_error_from(f: Seq<char>, fam: FamilyFields, i: int) -> Option<Seq<char>>
    decreases fam.members@.len() - i,
{
    if i < 0 || i >= fam.members@.len() {
        None
    } else if identity_step_error(f, fam, i) is Some {
        identity_step_error(f, fam, i)
    } else {
        identities_error_from(f, fam, i + 1)
    }
}

/// Some earlier gap has the identity of gap `g`.
pub open spec fn repeats_gap(gaps: Seq<FamilyGapDef>, g: int) -> bool {
    exists|j: int|
        0 <= j < g && identity_view(gaps[j].selectors@) == identity_view(gaps[g].selectors@)
}

/// The first earlier gap with the identity of gap `g`.
pub open spec fn first_gap_repeat(gaps: Seq<FamilyGapDef>, g: int) -> int {
    choose|j: int|
        0 <= j < g && identity_view(gaps[j].selectors@) == identity_view(gaps[g].selectors@)
            && forall|k: int|
            0 <= k < j ==> identity_view(gaps[k].selectors@) != identity_view(gaps[g].selectors@)
}

/// Some member has the identity of gap `g`.
pub open spec fn gap_takes_member(members: Seq<MemberFields>, gaps: Seq<FamilyGapDef>, g: int) -> bool {
    exists|i: int|
        0 <= i < members.len() && identity_view(members[i].selectors@) == identity_view(
            gaps[g].selectors@,
        )
}

/// The first member with the identity of gap `g`.
pub open spec fn first_member_of_gap(members: Seq<MemberFields>, gaps: Seq<FamilyGapDef>, g: int) -> int {
    choose|i: int|
        0 <= i < members.len() && identity_view(members[i].selectors@) == identity_view(
            gaps[g].selectors@,
        ) && forall|k: int|
            0 <= k < i ==> identity_view(members[k].selectors@) != identity_view(
                gaps[g].selectors@,
            )
}

/// Why gap `g` is refused, if it is: its own rules, an identity an earlier
/// gap or a member already has, or an identity outside the universe.
pub open spec fn gap_step_error(f: Seq<char>, fam: FamilyFields, g: int) -> Option<Seq<char>> {
    let gap = fam.gaps@[g];
    let p = family_prefix(f);
    if family_gap_error(f, family_citation(fam), g as nat, gap) is Some {
        family_gap_error(f, family_citation(fam), g as nat, gap)
    } else if repeats_gap(fam.gaps@, g) {
        Some(p + ": family-scoped gaps "@ + decimal_spec(first_gap_repeat(fam.gaps@, g) as nat)
            + " and "@ + decimal_spec(g as nat) + " share selector identity "@ + selectors_text(
            gap.selectors@,
        ))
    } else if gap_takes_member(fam.members@, fam.gaps@, g) {
        Some(p + ": member "@ + decimal_spec(first_member_of_gap(fam.members@, fam.gaps@, g) as nat)
            + " and family-scoped gap "@ + decimal_spec(g as nat) + " share selector identity "@
            + selectors_text(gap.selectors@))
    } else {
        universe_membership_error(gap_label(f, g as nat), f, gap.selectors@, declared_universe(fam))
    }
}

/// The first gap refused, from `g` on.
pub open spec fn gaps_error_from(f: Seq<char>, fam: FamilyFields, g: int) -> Option<Seq<char>>
    decreases fam.gaps@.len() - g,
{
    if g < 0 || g >= fam.gaps@.len() {
        None
    } else if gap_step_error(f, fam, g) is Some {
        gap_step_error(f, fam, g)
    } else {
        gaps_error_from(f, fam, g + 1)
    }
}

/// Why the occupancy is refused, if it is: members and gaps together must
/// occupy exactly the `count` identities the universe expects.
pub open spec fn completeness_error(f: Seq<char>, members: nat, gaps: nat, count: nat) -> Option<
    Seq<char>,
> {
    if members + gaps > usize::MAX {
        Some(family_prefix(f) + ": selector occupancy count exceeds usize"@)
    } else if members + gaps != count {
        Some(family_prefix(f) + ": declared selector universe contains "@ + decimal_spec(count)
            + " identities, but members and family-scoped gaps occupy "@ + decimal_spec(
            members + gaps,
        ))
    } else {
        None
    }
}

/// Why family `f` is refused, if it is: its own fields, the member pass,
/// the universe, the identity pass, the gaps and the occupancy, in that
/// order, each reporting its first failure.
pub open spec fn family_error(
    f: Seq<char>,
    fam: FamilyFields,
    coefficients: Option<Seq<char>>,
    windows: Seq<Option<String>>,
) -> Option<Seq<char>> {
    if header_error(f, fam, coefficients) is Some {
        header_error(f, fam, coefficients)
    } else if members_error_from(f, fam, windows, 0) is Some {
        members_error_from(f, fam, windows, 0)
    } else if universe_error(f, axes_of(fam), identities_of(fam)) is Some {
        universe_error(f, axes_of(fam), identities_of(fam))
    } else if identities_error_from(f, fam, 0) is Some {
        identities_error_from(f, fam, 0)
    } else if gaps_error_from(f, fam, 0) is Some {
        gaps_error_from(f, fam, 0)
    } else {
        completeness_error(
            f,
            fam.members@.len(),
            fam.gaps@.len(),
            cardinality(declared_universe(fam)),
        )
    }
}

fn prefixed(family_name: &str, rest: &str) -> (s: String)
    ensures
        s@ == family_prefix(family_name@) + rest@,
{
    let mut s = family_prefix_text(family_name);
    s.append(rest);
    s
}

fn check_header(family_name: &str, family: &FamilyFields, coefficients: Option<&String>) -> (r:
    Result<(), String>)
    ensures
        ({
            let c = match coefficients {
                Some(c) => Some(c@),
                None => None,
            };
            &&& r is Ok <==> header_error(family_name@, *family, c) is None
            &&& r matches Err(e) ==> Some(e@) == header_error(family_name@, *family, c)
        }),
{
    let provenance = match &family.provenance {
        Some(p) => p,
        None => {
            return Err(prefixed(family_name, ": source-backed family requires provenance.identity"));
        },
    };
    match provenance.validate() {
        Err(cause) => {
            let mut e = prefixed(family_name, ": ");
            e.append(cause.as_str());
            return Err(e);
        },
        Ok(()) => {},
    }
    if !(2 <= family.max_knots && family.max_knots <= FAMILY_MAX_KNOTS_HARD) {
        return Err(prefixed(family_name, ": max_knots must be in 2..=256"));
    }
    if family.max_total_knots == Some(0usize) {
        return Err(prefixed(family_name, ": max_total_knots must be positive"));
    }
    if family.max_table_bytes == Some(0usize) {
        return Err(prefixed(family_name, ": max_table_bytes must be positive"));
    }
    let count: u8 = (if family.formula { 1u8 } else { 0u8 }) + (if family.points { 1u8 } else { 0u8 })
        + (if family.model.is_some() { 1u8 } else { 0u8 });
    if count != 1 {
        return Err(
            prefixed(family_name, ": exactly one of points, formula, or model must be specified"),
        );
    }
    if family.members.len() == 0 {
        return Err(prefixed(family_name, ": members must not be empty"));
    }
    if family.model == Some(ModelKind::ScaledPolynomial) {
        if family.model_scale {
            return Err(
                prefixed(
                    family_name,
                    ": scale belongs on members as input_transform, not the shared model",
                ),
            );
        }
        match coefficients {
            Some(cause) => {
                let mut e = prefixed(family_name, ": ");
                e.append(cause.as_str());
                return Err(e);
            },
            None => {},
        }
    }
    Ok(())
}

proof fn lemma_members_prefix(f: Seq<char>, fam: FamilyFields, windows: Seq<Option<String>>, i: int)
    requires
        0 <= i <= fam.members@.len(),
        forall|j: int| 0 <= j < i ==> member_step_error(f, fam, windows, j) is None,
    ensures
        members_error_from(f, fam, windows, 0) == members_error_from(f, fam, windows, i),
    decreases i,
{
    if i > 0 {
        lemma_members_prefix(f, fam, windows, i - 1);
    }
}

/// The first member before `i` with the identity of member `i`.
fn earlier_member_with(members: &Vec<MemberFields>, i: usize) -> (r: Option<usize>)
    requires
        i < members@.len(),
    ensures
        r is None <==> !repeats_member(members@, i as int),
        r matches Some(j) ==> j == first_repeat(members@, i as int),
{
    let mut j: usize = 0;
    while j < i
        invariant
            i < members@.len(),
            j <= i,
            forall|k: int|
                0 <= k < j ==> identity_view(members@[k].selectors@) != identity_view(
                    members@[i as int].selectors@,
                ),
        decreases i - j,
    {
        if same_identity(&members[j].selectors, &members[i].selectors) {
            proof {
                let ms = members@;
                assert(0 <= j < i && identity_view(ms[j as int].selectors@) == identity_view(
                    ms[i as int].selectors@,
                ) && forall|k: int|
                    0 <= k < j ==> identity_view(ms[k].selectors@) != identity_view(
                        ms[i as int].selectors@,
                    ));
                let first = first_repeat(ms, i as int);
                assert(first == j) by {
                    if first < j {
                    } else if first > j {
                    }
                }
            }
            return Some(j);
        }
        j = j + 1;
    }
    None
}

/// The member pass. On success every member passed its own rules.
fn check_members(family_name: &str, family: &FamilyFields, windows: &[Option<String>]) -> (r:
    Result<(), String>)
    ensures
        r is Ok <==> members_error_from(family_name@, *family, windows@, 0) is None,
        r matches Err(e) ==> Some(e@) == members_error_from(family_name@, *family, windows@, 0),
        r is Ok ==> forall|i: int|
            0 <= i < family.members@.len() ==> member_outcome(
                family_name@,
                family_citation(*family),
                kind_of(*family),
                i as nat,
                #[trigger] family.members@[i],
            ) is Ok,
{
    let kind = source_kind(family.model, family.formula, family.points);
    let mut i: usize = 0;
    while i < family.members.len()
        invariant
            i <= family.members@.len(),
            kind == kind_of(*family),
            forall|j: int| 0 <= j < i ==> member_step_error(family_name@, *family, windows@, j) is None,
            forall|j: int|
                0 <= j < i ==> member_outcome(
                    family_name@,
                    family_citation(*family),
                    kind_of(*family),
                    j as nat,
                    #[trigger] family.members@[j],
                ) is Ok,
        decreases family.members@.len() - i,
    {
        proof {
            lemma_members_prefix(family_name@, *family, windows@, i as int);
        }
        let m = &family.members[i];
        let window = match validate_member(family_name, family.provenance.as_ref(), kind, i, m) {
            Ok(w) => w,
            Err(e) => {
                return Err(e);
            },
        };
        let unmapped = match window {
            MemberWindow::Unmapped => true,
            _ => false,
        };
        if !unmapped && i < windows.len() {
            match &windows[i] {
                Some(e) => {
                    return Err(e.clone());
                },
                None => {},
            }
        }
        match earlier_member_with(&family.members, i) {
            Some(j) => {
                let mut e = prefixed(family_name, ": members ");
                e.append(decimal(j as u64).as_str());
                e.append(" and ");
                e.append(decimal(i as u64).as_str());
                e.append(" share selector identity ");
                e.append(format_selectors(&family.members[i].selectors).as_str());
                return Err(e);
            },
            None => {},
        }
        i = i + 1;
    }
    proof {
        lemma_members_prefix(family_name@, *family, windows@, i as int);
    }
    Ok(())
}

/// The first member before `i` emitted under `name`.
fn earlier_emitted_as(family_name: &str, members: &Vec<MemberFields>, i: usize, name: &str) -> (r:
    Option<usize>)
    requires
        i < members@.len(),
        forall|k: int|
            0 <= k < members@.len() ==> !(#[trigger] members@[k].emitted_name matches Some(n)
                && is_blank(n@)),
    ensures
        r is None <==> !exists|j: int| 0 <= j < i && emits_as(family_name@, members@[j], name@),
        r matches Some(j) ==> j < i && j == first_emitted_as(family_name@, members@, i as int, name@),
{
    let mut j: usize = 0;
    while j < i
        invariant
            i < members@.len(),
            j <= i,
            forall|k: int|
                0 <= k < members@.len() ==> !(#[trigger] members@[k].emitted_name matches Some(n)
                    && is_blank(n@)),
            forall|k: int| 0 <= k < j ==> !emits_as(family_name@, #[trigger] members@[k], name@),
        decreases i - j,
    {
        let m = &members[j];
        if m.status == MemberStatus::Emit {
            match member_emitted_name(family_name, m.emitted_name.as_ref(), &m.selectors) {
                Ok(n) => {
                    if same_text(n.as_str(), name) {
                        proof {
                            let ms = members@;
                            assert(emits_as(family_name@, ms[j as int], name@));
                            let first = first_emitted_as(family_name@, ms, i as int, name@);
                            assert(first == j) by {
                                if first < j {
                                    assert(!emits_as(family_name@, ms[first], name@));
                                } else if first > j {
                                }
                            }
                        }
                        return Some(j);
                    }
                },
                Err(_) => {},
            }
        }
        j = j + 1;
    }
    None
}

proof fn lemma_identities_prefix(f: Seq<char>, fam: FamilyFields, i: int)
    requires
        0 <= i <= fam.members@.len(),
        forall|j: int| 0 <= j < i ==> identity_step_error(f, fam, j) is None,
    ensures
        identities_error_from(f, fam, 0) == identities_error_from(f, fam, i),
    decreases i,
{
    if i > 0 {
        lemma_identities_prefix(f, fam, i - 1);
    }
}

/// Member `i`'s table-name check.
fn check_collision(family_name: &str, family: &FamilyFields, i: usize) -> (r: Result<(), String>)
    requires
        i < family.members@.len(),
        forall|k: int|
            0 <= k < family.members@.len() ==> !(#[trigger] family.members@[k].emitted_name matches Some(
                n,
            ) && is_blank(n@)),
    ensures
        r is Ok <==> collision_error(family_name@, *family, i as int) is None,
        r matches Err(e) ==> Some(e@) == collision_error(family_name@, *family, i as int),
{
    let m = &family.members[i];
    if m.status == MemberStatus::Emit {
        let name = match member_emitted_name(family_name, m.emitted_name.as_ref(), &m.selectors) {
            Ok(n) => n,
            Err(e) => {
                return Err(e);
            },
        };
        assert(name@ == emitted_text(family_name@, *m));
        match earlier_emitted_as(family_name, &family.members, i, name.as_str()) {
            Some(j) => {
                let mut e = prefixed(family_name, ": selector maps ");
                e.append(format_selectors(&family.members[j].selectors).as_str());
                e.append(" and ");
                e.append(format_selectors(&m.selectors).as_str());
                e.append(" both resolve to `");
                e.append(name.as_str());
                e.append("`");
                return Err(e);
            },
            None => {},
        }
    }
    Ok(())
}

/// Member `i`'s step of the identity pass.
fn identity_step(family_name: &str, family: &FamilyFields, universe: &SelectorUniverse, i: usize) -> (r:
    Result<(), String>)
    requires
        i < family.members@.len(),
        forall|label: Seq<char>, f: Seq<char>, sel: Seq<(String, SelectorValue)>|
            #[trigger] universe_membership_error(label, f, sel, *universe)
                == universe_membership_error(label, f, sel, declared_universe(*family)),
        forall|k: int|
            0 <= k < family.members@.len() ==> !(#[trigger] family.members@[k].emitted_name matches Some(
                n,
            ) && is_blank(n@)),
    ensures
        r is Ok <==> identity_step_error(family_name@, *family, i as int) is None,
        r matches Err(e) ==> Some(e@) == identity_step_error(family_name@, *family, i as int),
{
    let m = &family.members[i];
    let label = member_label_text(family_name, i);
    match validate_identity_in_universe(label.as_str(), family_name, &m.selectors, universe) {
        Err(e) => {
            return Err(e);
        },
        Ok(()) => {},
    }
    check_collision(family_name, family, i)
}

/// The identity pass over the members, against a universe of the same
/// contents as the declared one.
fn check_identities(family_name: &str, family: &FamilyFields, universe: &SelectorUniverse) -> (r:
    Result<(), String>)
    requires
        same_universe(*universe, declared_universe(*family)),
        forall|k: int|
            0 <= k < family.members@.len() ==> !(#[trigger] family.members@[k].emitted_name matches Some(
                n,
            ) && is_blank(n@)),
    ensures
        r is Ok <==> identities_error_from(family_name@, *family, 0) is None,
        r matches Err(e) ==> Some(e@) == identities_error_from(family_name@, *family, 0),
{
    proof {
        lemma_same_universe_same_membership(*universe, declared_universe(*family));
    }
    let mut i: usize = 0;
    while i < family.members.len()
        invariant
            i <= family.members@.len(),
            same_universe(*universe, declared_universe(*family)),
            forall|label: Seq<char>, f: Seq<char>, sel: Seq<(String, SelectorValue)>|
                #[trigger] universe_membership_error(label, f, sel, *universe)
                    == universe_membership_error(label, f, sel, declared_universe(*family)),
            forall|k: int|
                0 <= k < family.members@.len() ==> !(#[trigger] family.members@[k].emitted_name matches Some(
                    n,
                ) && is_blank(n@)),
            forall|j: int| 0 <= j < i ==> identity_step_error(family_name@, *family, j) is None,
        decreases family.members@.len() - i,
    {
        proof {
            lemma_identities_prefix(family_name@, *family, i as int);
        }
        match identity_step(family_name, family, universe, i) {
            Err(e) => {
                return Err(e);
            },
            Ok(()) => {},
        }
        i = i + 1;
    }
    proof {
        lemma_identities_prefix(family_name@, *family, i as int);
    }
    Ok(())
}

/// The first gap before `g` with the identity of gap `g`.
fn earlier_gap_with(gaps: &Vec<FamilyGapDef>, g: usize) -> (r: Option<usize>)
    requires
        g < gaps@.len(),
    ensures
        r is None <==> !repeats_gap(gaps@, g as int),
        r matches Some(j) ==> j == first_gap_repeat(gaps@, g as int),
{
    let mut j: usize = 0;
    while j < g
        invariant
            g < gaps@.len(),
            j <= g,
            forall|k: int|
                0 <= k < j ==> identity_view(gaps@[k].selectors@) != identity_view(
                    gaps@[g as int].selectors@,
                ),
        decreases g - j,
    {
        if same_identity(&gaps[j].selectors, &gaps[g].selectors) {
            proof {
                let gs = gaps@;
                assert(0 <= j < g && identity_view(gs[j as int].selectors@) == identity_view(
                    gs[g as int].selectors@,
                ) && forall|k: int|
                    0 <= k < j ==> identity_view(gs[k].selectors@) != identity_view(
                        gs[g as int].selectors@,
                    ));
                let first = first_gap_repeat(gs, g as int);
                assert(first == j) by {
                    if first < j {
                    } else if first > j {
                    }
                }
            }
            return Some(j);
        }
        j = j + 1;
    }
    None
}

/// The first member with the identity of gap `g`.
fn member_of_gap(members: &Vec<MemberFields>, gaps: &Vec<FamilyGapDef>, g: usize) -> (r: Option<
    usize,
>)
    requires
        g < gaps@.len(),
    ensures
        r is None <==> !gap_takes_member(members@, gaps@, g as int),
        r matches Some(i) ==> i == first_member_of_gap(members@, gaps@, g as int),
{
    let mut i: usize = 0;
    while i < members.len()
        invariant
            g < gaps@.len(),
            i <= members@.len(),
            forall|k: int|
                0 <= k < i ==> identity_view(members@[k].selectors@) != identity_view(
                    gaps@[g as int].selectors@,
                ),
        decreases members@.len() - i,
    {
        if same_identity(&members[i].selectors, &gaps[g].selectors) {
            proof {
                let ms = members@;
                let gs = gaps@;
                assert(0 <= i < ms.len() && identity_view(ms[i as int].selectors@) == identity_view(
                    gs[g as int].selectors@,
                ) && forall|k: int|
                    0 <= k < i ==> identity_view(ms[k].selectors@) != identity_view(
                        gs[g as int].selectors@,
                    ));
                let first = first_member_of_gap(ms, gs, g as int);
                assert(first == i) by {
                    if first < i {
                    } else if first > i {
                    }
                }
            }
            return Some(i);
        }
        i = i + 1;
    }
    None
}

proof fn lemma_gaps_prefix(f: Seq<char>, fam: FamilyFields, g: int)
    requires
        0 <= g <= fam.gaps@.len(),
        forall|j: int| 0 <= j < g ==> gap_step_error(f, fam, j) is None,
    ensures
        gaps_error_from(f, fam, 0) == gaps_error_from(f, fam, g),
    decreases g,
{
    if g > 0 {
        lemma_gaps_prefix(f, fam, g - 1);
    }
}

/// The gap pass, against a universe of the same contents as the declared
/// one.
fn check_family_gaps(family_name: &str, family: &FamilyFields, universe: &SelectorUniverse) -> (r:
    Result<(), String>)
    requires
        same_universe(*universe, declared_universe(*family)),
    ensures
        r is Ok <==> gaps_error_from(family_name@, *family, 0) is None,
        r matches Err(e) ==> Some(e@) == gaps_error_from(family_name@, *family, 0),
{
    proof {
        lemma_same_universe_same_membership(*universe, declared_universe(*family));
    }
    let mut g: usize = 0;
    while g < family.gaps.len()
        invariant
            g <= family.gaps@.len(),
            forall|label: Seq<char>, f: Seq<char>, sel: Seq<(String, SelectorValue)>|
                #[trigger] universe_membership_error(label, f, sel, *universe)
                    == universe_membership_error(label, f, sel, declared_universe(*family)),
            forall|j: int| 0 <= j < g ==> gap_step_error(family_name@, *family, j) is None,
        decreases family.gaps@.len() - g,
    {
        proof {
            lemma_gaps_prefix(family_name@, *family, g as int);
        }
        let gap = &family.gaps[g];
        match validate_family_gap(family_name, family.provenance.as_ref(), g, gap) {
            Err(e) => {
                return Err(e);
            },
            Ok(()) => {},
        }
        match earlier_gap_with(&family.gaps, g) {
            Some(j) => {
                let mut e = prefixed(family_name, ": family-scoped gaps ");
                e.append(decimal(j as u64).as_str());
                e.append(" and ");
                e.append(decimal(g as u64).as_str());
                e.append(" share selector identity ");
                e.append(format_selectors(&gap.selectors).as_str());
                return Err(e);
            },
            None => {},
        }
        match member_of_gap(&family.members, &family.gaps, g) {
            Some(i) => {
                let mut e = prefixed(family_name, ": member ");
                e.append(decimal(i as u64).as_str());
                e.append(" and family-scoped gap ");
                e.append(decimal(g as u64).as_str());
                e.append(" share selector identity ");
                e.append(format_selectors(&gap.selectors).as_str());
                return Err(e);
            },
            None => {},
        }
        let label = gap_label_text(family_name, g);
        match validate_identity_in_universe(label.as_str(), family_name, &gap.selectors, universe) {
            Err(e) => {
                return Err(e);
            },
            Ok(()) => {},
        }
        g = g + 1;
    }
    proof {
        lemma_gaps_prefix(family_name@, *family, g as int);
    }
    Ok(())
}

/// Every selector map of the family, and its axes, list their keys in
/// ascending order, as the maps of a definitions document hold them.
pub open spec fn keys_ascending(fam: FamilyFields) -> bool {
    &&& forall|i: int|
        0 <= i < fam.members@.len() ==> ascending_keys((#[trigger] fam.members@[i]).selectors@)
    &&& forall|i: int| 0 <= i < fam.gaps@.len() ==> ascending_keys((#[trigger] fam.gaps@[i]).selectors@)
    &&& fam.selector_axes matches Some(axes) ==> ascending_keys(axes@)
    &&& fam.expected_selectors matches Some(ids) ==> forall|i: int|
        0 <= i < ids@.len() ==> ascending_keys((#[trigger] ids@[i])@)
}

/// Check the declaration of family `family_name`. `coefficients` is the
/// error the host's check of a shared polynomial's coefficients gave, if
/// it failed; `windows[i]` is the error the host's evaluation of member
/// `i`'s window gave, if it failed.
pub fn validate_family(
    family_name: &str,
    family: &FamilyFields,
    coefficients: Option<&String>,
    windows: &[Option<String>],
) -> (r: Result<(), String>)
    requires
        keys_ascending(*family),
    ensures
        ({
            let c = match coefficients {
                Some(c) => Some(c@),
                None => None,
            };
            &&& r is Ok <==> family_error(family_name@, *family, c, windows@) is None
            &&& r matches Err(e) ==> Some(e@) == family_error(family_name@, *family, c, windows@)
        }),
{
    match check_header(family_name, family, coefficients) {
        Err(e) => {
            return Err(e);
        },
        Ok(()) => {},
    }
    match check_members(family_name, family, windows) {
        Err(e) => {
            return Err(e);
        },
        Ok(()) => {},
    }
    let universe = match resolved_selector_universe(
        family_name,
        family.selector_axes.as_ref(),
        family.expected_selectors.as_ref(),
    ) {
        Ok(u) => u,
        Err(e) => {
            return Err(e);
        },
    };
    proof {
        assert(same_universe(universe, declared_universe(*family)));
        lemma_same_universe_same_membership(universe, declared_universe(*family));
        assert forall|k: int| 0 <= k < family.members@.len() implies !(
        #[trigger] family.members@[k].emitted_name matches Some(n) && is_blank(n@)) by {
            assert(member_outcome(
                family_name@,
                family_citation(*family),
                kind_of(*family),
                k as nat,
                family.members@[k],
            ) is Ok);
        }
    }
    match check_identities(family_name, family, &universe) {
        Err(e) => {
            return Err(e);
        },
        Ok(()) => {},
    }
    match check_family_gaps(family_name, family, &universe) {
        Err(e) => {
            return Err(e);
        },
        Ok(()) => {},
    }
    let count = match &universe {
        SelectorUniverse::Explicit { identities } => identities.len(),
        SelectorUniverse::Cartesian { .. } => match universe.identity_count() {
            Some(c) => c,
            None => {
                proof {
                    assert(cardinality(universe) == cardinality(declared_universe(*family)));
                    assert(universe_error(family_name@, axes_of(*family), identities_of(*family))
                        is None);
                    assert(family.selector_axes is Some);
                }
                return Ok(());
            },
        },
    };
    assert(count == cardinality(universe));
    validate_completeness(family_name, family.members.len(), family.gaps.len(), count)
}

proof fn lemma_members_pass(f: Seq<char>, fam: FamilyFields, windows: Seq<Option<String>>, i: int)
    requires
        0 <= i,
        members_error_from(f, fam, windows, i) is None,
    ensures
        forall|j: int|
            i <= j < fam.members@.len() ==> member_step_error(f, fam, windows, j) is None,
    decreases fam.members@.len() - i,
{
    if i < fam.members@.len() {
        lemma_members_pass(f, fam, windows, i + 1);
    }
}

/// A family that passes its rules names no member with a blank explicit
/// table name.
pub proof fn lemma_valid_family_names(
    f: Seq<char>,
    fam: FamilyFields,
    coefficients: Option<Seq<char>>,
    windows: Seq<Option<String>>,
)
    requires
        family_error(f, fam, coefficients, windows) is None,
    ensures
        forall|j: int|
            0 <= j < fam.members@.len() ==> !(#[trigger] fam.members@[j].emitted_name matches Some(
                n,
            ) && is_blank(n@)),
{
    lemma_members_pass(f, fam, windows, 0);
    assert forall|j: int| 0 <= j < fam.members@.len() implies !(
    #[trigger] fam.members@[j].emitted_name matches Some(n) && is_blank(n@)) by {
        assert(member_step_error(f, fam, windows, j) is None);
    }
}

proof fn lemma_identities_pass(f: Seq<char>, fam: FamilyFields, i: int)
    requires
        0 <= i,
        identities_error_from(f, fam, i) is None,
    ensures
        forall|j: int| i <= j < fam.members@.len() ==> identity_step_error(f, fam, j) is None,
    decreases fam.members@.len() - i,
{
    if i < fam.members@.len() {
        lemma_identities_pass(f, fam, i + 1);
    }
}

proof fn lemma_gaps_pass(f: Seq<char>, fam: FamilyFields, g: int)
    requires
        0 <= g,
        gaps_error_from(f, fam, g) is None,
    ensures
        forall|j: int| g <= j < fam.gaps@.len() ==> gap_step_error(f, fam, j) is None,
    decreases fam.gaps@.len() - g,
{
    if g < fam.gaps@.len() {
        lemma_gaps_pass(f, fam, g + 1);
    }
}

/// A family that passes its rules occupies its universe exactly: every
/// member and family-scoped gap carries an identity of the declared
/// universe, no identity is carried twice, no two emitted members share a
/// table name, and members and gaps together are as many as the
/// identities the universe expects.
pub proof fn lemma_valid_family_occupancy(
    f: Seq<char>,
    fam: FamilyFields,
    coefficients: Option<Seq<char>>,
    windows: Seq<Option<String>>,
)
    requires
        family_error(f, fam, coefficients, windows) is None,
    ensures
        forall|i: int, j: int|
            0 <= i < j < fam.members@.len() ==> identity_view(
                #[trigger] fam.members@[i].selectors@,
            ) != identity_view(#[trigger] fam.members@[j].selectors@),
        forall|i: int, j: int|
            0 <= i < j < fam.gaps@.len() ==> identity_view(#[trigger] fam.gaps@[i].selectors@)
                != identity_view(#[trigger] fam.gaps@[j].selectors@),
        forall|i: int, g: int|
            0 <= i < fam.members@.len() && 0 <= g < fam.gaps@.len() ==> identity_view(
                #[trigger] fam.members@[i].selectors@,
            ) != identity_view(#[trigger] fam.gaps@[g].selectors@),
        forall|i: int|
            0 <= i < fam.members@.len() ==> in_universe(
                declared_universe(fam),
                #[trigger] fam.members@[i].selectors@,
            ),
        forall|g: int|
            0 <= g < fam.gaps@.len() ==> in_universe(
                declared_universe(fam),
                #[trigger] fam.gaps@[g].selectors@,
            ),
        forall|i: int, j: int|
            0 <= i < j < fam.members@.len() && fam.members@[i].status == MemberStatus::Emit
                && fam.members@[j].status == MemberStatus::Emit ==> emitted_text(
                f,
                #[trigger] fam.members@[i],
            ) != emitted_text(f, #[trigger] fam.members@[j]),
        fam.members@.len() + fam.gaps@.len() == cardinality(declared_universe(fam)),
{
    lemma_members_pass(f, fam, windows, 0);
    lemma_identities_pass(f, fam, 0);
    lemma_gaps_pass(f, fam, 0);
    let ms = fam.members@;
    let gs = fam.gaps@;
    let u = declared_universe(fam);
    assert forall|i: int, j: int| 0 <= i < j < ms.len() implies identity_view(
        #[trigger] ms[i].selectors@,
    ) != identity_view(#[trigger] ms[j].selectors@) by {
        assert(member_step_error(f, fam, windows, j) is None);
        assert(!repeats_member(ms, j));
    }
    assert forall|i: int, j: int| 0 <= i < j < gs.len() implies identity_view(
        #[trigger] gs[i].selectors@,
    ) != identity_view(#[trigger] gs[j].selectors@) by {
        assert(gap_step_error(f, fam, j) is None);
        assert(!repeats_gap(gs, j));
    }
    assert forall|i: int, g: int| 0 <= i < ms.len() && 0 <= g < gs.len() implies identity_view(
        #[trigger] ms[i].selectors@,
    ) != identity_view(#[trigger] gs[g].selectors@) by {
        assert(gap_step_error(f, fam, g) is None);
        assert(!gap_takes_member(ms, gs, g));
    }
    assert forall|i: int| 0 <= i < ms.len() implies in_universe(u, #[trigger] ms[i].selectors@) by {
        assert(identity_step_error(f, fam, i) is None);
        assert(universe_membership_error(member_label(f, i as nat), f, ms[i].selectors@, u) is None);
    }
    assert forall|g: int| 0 <= g < gs.len() implies in_universe(u, #[trigger] gs[g].selectors@) by {
        assert(gap_step_error(f, fam, g) is None);
        assert(universe_membership_error(gap_label(f, g as nat), f, gs[g].selectors@, u) is None);
    }
    assert forall|i: int, j: int|
        0 <= i < j < ms.len() && ms[i].status == MemberStatus::Emit && ms[j].status
            == MemberStatus::Emit implies emitted_text(f, #[trigger] ms[i]) != emitted_text(
        f,
        #[trigger] ms[j],
    ) by {
        assert(identity_step_error(f, fam, j) is None);
        assert(collision_error(f, fam, j) is None);
        if emitted_text(f, ms[i]) == emitted_text(f, ms[j]) {
            assert(emits_as(f, ms[i], emitted_text(f, ms[j])));
        }
    }
}

/// The `o`-th occupant of a family's universe, by its identity: the
/// members first, then the family-scoped gaps.
pub open spec fn occupant(fam: FamilyFields, o: int) -> Seq<(Seq<char>, SelectorValueView)> {
    if o < fam.members@.len() {
        identity_view(fam.members@[o].selectors@)
    } else {
        identity_view(fam.gaps@[o - fam.members@.len()].selectors@)
    }
}

/// How many members and family-scoped gaps a family declares.
pub open spec fn occupant_count(fam: FamilyFields) -> int {
    (fam.members@.len() + fam.gaps@.len()) as int
}

/// Some member or family-scoped gap carries the `n`-th identity of the
/// declared universe.
pub open spec fn occupied(fam: FamilyFields, n: nat) -> bool {
    exists|o: int|
        0 <= o < occupant_count(fam) && #[trigger] occupant(fam, o) == identity_at(
            declared_universe(fam),
            n,
        )
}

/// The family's axes, if it declares them, carry distinct names, as the
/// keys of a map do.
pub open spec fn axis_names_distinct(fam: FamilyFields) -> bool {
    fam.selector_axes matches Some(a) ==> forall|i: int, j: int|
        0 <= i < j < a@.len() ==> a@[i].0@ != a@[j].0@
}

/// An identity that belongs to a universe, by the membership rules, has a
/// position in it.
proof fn lemma_membership_position(
    f: Seq<char>,
    label: Seq<char>,
    sel: Seq<(String, SelectorValue)>,
    u: SelectorUniverse,
)
    requires
        universe_membership_error(label, f, sel, u) is None,
        u matches SelectorUniverse::Cartesian { axes } ==> forall|i: int, j: int|
            0 <= i < j < axes@.len() ==> axes@[i].0@ != axes@[j].0@,
    ensures
        exists|n: nat| n < cardinality(u) && identity_at(u, n) == identity_view(sel),
{
    match u {
        SelectorUniverse::Cartesian { axes } => {
            let a = axes@;
            assert(keys_of(sel) == universe_keys(u));
            assert(sel.len() == keys_of(sel).len());
            assert(sel.len() == a.len());
            assert forall|p: int| 0 <= p < a.len() implies sel[p].0@ == a[p].0@ by {
                assert(keys_of(sel)[p] == universe_keys(u)[p]);
            }
            assert forall|p: int| 0 <= p < a.len() implies #[trigger] axis_has_value(
                a,
                p,
                sel[p].1@,
            ) by {
                assert(axes_list(a, sel[p].0@, sel[p].1@));
                let (x, j) = choose|x: int, j: int|
                    0 <= x < a.len() && 0 <= j < a[x].1@.len() && a[x].0@ == sel[p].0@ && a[x].1@[
                        j
                    ]@ == sel[p].1@;
                if x != p {
                    if x < p {
                        assert(a[x].0@ != a[p].0@);
                    } else {
                        assert(a[p].0@ != a[x].0@);
                    }
                }
            }
            lemma_cartesian_position(a, sel);
            let n = choose|n: nat|
                n < product(axis_lens(a)) && cartesian_identity(a, n) == identity_view(sel);
            assert(identity_at(u, n) == cartesian_identity(a, n));
            assert(cardinality(u) == product(axis_lens(a)));
        },
        SelectorUniverse::Explicit { identities } => {
            let i = choose|i: int|
                0 <= i < identities@.len() && identity_view(identities@[i]@) == identity_view(sel);
            assert(identity_at(u, i as nat) == identity_view(sel));
        },
    }
}

/// Each member and family-scoped gap of a family that passes its rules
/// has a position in the declared universe.
proof fn lemma_occupant_position(
    f: Seq<char>,
    fam: FamilyFields,
    coefficients: Option<Seq<char>>,
    windows: Seq<Option<String>>,
    o: int,
)
    requires
        family_error(f, fam, coefficients, windows) is None,
        axis_names_distinct(fam),
        0 <= o < occupant_count(fam),
    ensures
        exists|n: nat|
            n < cardinality(declared_universe(fam)) && #[trigger] identity_at(
                declared_universe(fam),
                n,
            ) == occupant(fam, o),
{
    let u = declared_universe(fam);
    let ms = fam.members@;
    let gs = fam.gaps@;
    lemma_identities_pass(f, fam, 0);
    lemma_gaps_pass(f, fam, 0);
    if o < ms.len() {
        assert(identity_step_error(f, fam, o) is None);
        lemma_membership_position(f, member_label(f, o as nat), ms[o].selectors@, u);
    } else {
        let g = o - ms.len();
        assert(gap_step_error(f, fam, g) is None);
        lemma_membership_position(f, gap_label(f, g as nat), gs[g].selectors@, u);
    }
}

/// A family that passes its rules occupies every identity of its
/// universe exactly once: each expected identity is carried by some
/// member or family-scoped gap, and no two of them carry the same one.
/// (Axes are keyed by distinct names, as a map's keys are.)
pub proof fn lemma_valid_family_covers_universe(
    f: Seq<char>,
    fam: FamilyFields,
    coefficients: Option<Seq<char>>,
    windows: Seq<Option<String>>,
)
    requires
        family_error(f, fam, coefficients, windows) is None,
        axis_names_distinct(fam),
    ensures
        forall|n: nat| n < cardinality(declared_universe(fam)) ==> #[trigger] occupied(fam, n),
        forall|o1: int, o2: int|
            0 <= o1 < o2 < occupant_count(fam) ==> #[trigger] occupant(fam, o1) != #[trigger] occupant(
                fam,
                o2,
            ),
{
    let u = declared_universe(fam);
    let ms = fam.members@;
    let gs = fam.gaps@;
    let count = occupant_count(fam);
    lemma_valid_family_occupancy(f, fam, coefficients, windows);
    lemma_identities_pass(f, fam, 0);
    lemma_gaps_pass(f, fam, 0);
    assert forall|o1: int, o2: int| 0 <= o1 < o2 < count implies #[trigger] occupant(fam, o1)
        != #[trigger] occupant(fam, o2) by {
        if o2 < ms.len() {
            assert(identity_view(ms[o1].selectors@) != identity_view(ms[o2].selectors@));
        } else if o1 < ms.len() {
            assert(identity_view(ms[o1].selectors@) != identity_view(
                gs[o2 - ms.len()].selectors@,
            ));
        } else {
            assert(identity_view(gs[o1 - ms.len()].selectors@) != identity_view(
                gs[o2 - ms.len()].selectors@,
            ));
        }
    }
    let pos = |o: int|
        (choose|n: nat| n < cardinality(u) && identity_at(u, n) == occupant(fam, o)) as int;
    let idx = Seq::new(count as nat, pos);
    assert(idx.no_duplicates()) by {
        assert forall|o1: int, o2: int| 0 <= o1 < idx.len() && 0 <= o2 < idx.len() && o1 != o2
            implies idx[o1] != idx[o2] by {
            lemma_occupant_position(f, fam, coefficients, windows, o1);
            lemma_occupant_position(f, fam, coefficients, windows, o2);
            if o1 < o2 {
                assert(occupant(fam, o1) != occupant(fam, o2));
            } else {
                assert(occupant(fam, o2) != occupant(fam, o1));
            }
        }
    }
    idx.unique_seq_to_set();
    let range = set_int_range(0, cardinality(u) as int);
    lemma_int_range(0, cardinality(u) as int);
    assert(idx.to_set().subset_of(range)) by {
        assert forall|x: int| idx.to_set().contains(x) implies range.contains(x) by {
            assert(idx.contains(x));
            let o = choose|o: int| 0 <= o < idx.len() && idx[o] == x;
            lemma_occupant_position(f, fam, coefficients, windows, o);
        }
    }
    seq_to_set_is_finite(idx);
    lemma_subset_equality(idx.to_set(), range);
    assert forall|n: nat| n < cardinality(u) implies #[trigger] occupied(fam, n) by {
        assert(range.contains(n as int));
        assert(idx.to_set().contains(n as int));
        assert(idx.contains(n as int));
        let o = choose|o: int| 0 <= o < idx.len() && idx[o] == n as int;
        lemma_occupant_position(f, fam, coefficients, windows, o);
        let m = choose|m: nat| m < cardinality(u) && identity_at(u, m) == occupant(fam, o);
        assert(idx[o] == m as int);
        assert(m == n);
        assert(identity_at(u, n) == occupant(fam, o));
        assert(0 <= o < count);
    }
}

} // verus!
