//! Expanding transfer families into the emitted members that become
//! standalone transfers.
//!
//! Families are expanded in order. Each must pass its declaration rules;
//! then each `emit` member, in order, is lowered to a transfer and claims
//! its table name, which no member emitted before it, in this family or an
//! earlier one, may already hold. A family that emits nothing is refused.
//! Description-only members are validated but never emitted.
//!
//! Lowering a member reads floating-point source data that the host tool
//! evaluates, as do the family checks noted in [`super::validation`]; the
//! outcomes of that evaluation are an argument here.

use vstd::prelude::*;

use super::family::MemberStatus;
use super::selectors::{family_prefix, family_prefix_text, format_selectors, member_emitted_name, selectors_text};
use super::super::text::{ascending_keys, is_blank, same_text};
use super::validation::{
    emitted_text, family_error, keys_ascending, lemma_valid_family_names, validate_family,
    FamilyFields,
};

verus! {

/// What the host tool's evaluation of one family's floating-point data
/// gave.
#[derive(Debug, Clone)]
pub struct FamilyEvaluation {
    /// The error checking a shared polynomial's coefficients gave, if any.
    pub coefficients: Option<String>,
    /// Per member, the error evaluating its declared window gave, if any.
    pub windows: Vec<Option<String>>,
    /// Per member, the error lowering it to a standalone transfer gave, if
    /// any.
    pub transfers: Vec<Option<String>>,
}

/// An emitted family member: its table name, and the family and member it
/// comes from, by position.
#[derive(Debug, Clone)]
pub struct EmittedMember {
    /// The table name the member is emitted under.
    pub name: String,
    /// Position of the member's family.
    pub family: usize,
    /// Position of the member in its family.
    pub member: usize,
}

/// An emitted member's name and origin.
pub open spec fn emitted_view(out: Seq<EmittedMember>) -> Seq<(Seq<char>, int, int)> {
    Seq::new(out.len(), |p: int| (out[p].name@, out[p].family as int, out[p].member as int))
}

/// The coefficient error evaluation `k` reports, if any.
pub open spec fn coefficients_of(evals: Seq<FamilyEvaluation>, k: int) -> Option<Seq<char>> {
    if 0 <= k < evals.len() && evals[k].coefficients is Some {
        Some(evals[k].coefficients->0@)
    } else {
        None
    }
}

/// The window errors evaluation `k` reports.
pub open spec fn windows_of(evals: Seq<FamilyEvaluation>, k: int) -> Seq<Option<String>> {
    if 0 <= k < evals.len() {
        evals[k].windows@
    } else {
        Seq::empty()
    }
}

/// The lowering error evaluation `k` reports for member `i`, if any.
pub open spec fn transfer_error(evals: Seq<FamilyEvaluation>, k: int, i: int) -> Option<Seq<char>> {
    if 0 <= k < evals.len() && 0 <= i < evals[k].transfers@.len() && evals[k].transfers@[i]
        is Some {
        Some(evals[k].transfers@[i]->0@)
    } else {
        None
    }
}

/// `resolved emitted name `N` collides between transfer family `A`
/// selectors {..} and transfer family `B` selectors {..}`
pub open spec fn collision_text(
    name: Seq<char>,
    earlier_family: Seq<char>,
    earlier: Seq<(String, super::family::SelectorValue)>,
    family: Seq<char>,
    selectors: Seq<(String, super::family::SelectorValue)>,
) -> Seq<char> {
    "resolved emitted name `"@ + name + "` collides between transfer family `"@ + earlier_family
        + "` selectors "@ + selectors_text(earlier) + " and transfer family `"@ + family
        + "` selectors "@ + selectors_text(selectors)
}

/// An entry of `out` is named `name`.
pub open spec fn holds_name(out: Seq<(Seq<char>, int, int)>, name: Seq<char>) -> bool {
    exists|p: int| 0 <= p < out.len() && out[p].0 == name
}

/// The first entry of `out` named `name`.
pub open spec fn first_holding(out: Seq<(Seq<char>, int, int)>, name: Seq<char>) -> int {
    choose|p: int|
        0 <= p < out.len() && out[p].0 == name && forall|q: int| 0 <= q < p ==> out[q].0 != name
}

/// What member `i` of family `k` contributes after the members `out`
/// already emitted: nothing when it is description-only, the error
/// lowering it gave, a collision with the earlier member emitted under its
/// name, or its own entry.
pub open spec fn member_step(
    fams: Seq<(String, FamilyFields)>,
    evals: Seq<FamilyEvaluation>,
    out: Seq<(Seq<char>, int, int)>,
    k: int,
    i: int,
) -> Result<Option<(Seq<char>, int, int)>, Seq<char>> {
    let f = fams[k].0@;
    let m = fams[k].1.members@[i];
    let name = emitted_text(f, m);
    if m.status != MemberStatus::Emit {
        Ok(None)
    } else if transfer_error(evals, k, i) is Some {
        Err(transfer_error(evals, k, i)->0)
    } else if holds_name(out, name) {
        let earlier = out[first_holding(out, name)];
        Err(collision_text(
            name,
            fams[earlier.1].0@,
            fams[earlier.1].1.members@[earlier.2].selectors@,
            f,
            m.selectors@,
        ))
    } else {
        Ok(Some((name, k, i)))
    }
}

/// Expanding the members of family `k` from member `i` on, after the
/// members `out` already emitted.
pub open spec fn members_from(
    fams: Seq<(String, FamilyFields)>,
    evals: Seq<FamilyEvaluation>,
    out: Seq<(Seq<char>, int, int)>,
    k: int,
    i: int,
) -> Result<Seq<(Seq<char>, int, int)>, Seq<char>>
    decreases fams[k].1.members@.len() - i,
{
    if i < 0 || i >= fams[k].1.members@.len() {
        Ok(out)
    } else {
        match member_step(fams, evals, out, k, i) {
            Err(e) => Err(e),
            Ok(None) => members_from(fams, evals, out, k, i + 1),
            Ok(Some(entry)) => members_from(fams, evals, out.push(entry), k, i + 1),
        }
    }
}

/// Expanding the families from `k` on, after the members `out` already
/// emitted.
pub open spec fn families_from(
    fams: Seq<(String, FamilyFields)>,
    evals: Seq<FamilyEvaluation>,
    out: Seq<(Seq<char>, int, int)>,
    k: int,
) -> Result<Seq<(Seq<char>, int, int)>, Seq<char>>
    decreases fams.len() - k,
{
    if k < 0 || k >= fams.len() {
        Ok(out)
    } else {
        let f = fams[k].0@;
        let error = family_error(f, fams[k].1, coefficients_of(evals, k), windows_of(evals, k));
        if error is Some {
            Err(error->0)
        } else {
            match members_from(fams, evals, out, k, 0) {
                Err(e) => Err(e),
                Ok(o) => if o.len() == out.len() {
                    Err(family_prefix(f) + ": no members with status = \"emit\""@)
                } else {
                    families_from(fams, evals, o, k + 1)
                },
            }
        }
    }
}

/// Every entry names a family before `k` and one of its members.
pub open spec fn origins_valid(fams: Seq<(String, FamilyFields)>, out: Seq<EmittedMember>, k: int) -> bool {
    forall|p: int|
        0 <= p < out.len() ==> out[p].family < k && out[p].member < fams[
            out[p].family as int
        ].1.members@.len()
}

/// The first member emitted under `name`.
fn find_name(out: &Vec<EmittedMember>, name: &String) -> (r: Option<usize>)
    ensures
        r is None <==> !holds_name(emitted_view(out@), name@),
        r matches Some(p) ==> p < out@.len() && p == first_holding(emitted_view(out@), name@),
{
    let ghost view = emitted_view(out@);
    let mut p: usize = 0;
    while p < out.len()
        invariant
            view == emitted_view(out@),
            p <= out@.len(),
            forall|q: int| 0 <= q < p ==> view[q].0 != name@,
        decreases out@.len() - p,
    {
        if same_text(out[p].name.as_str(), name.as_str()) {
            proof {
                assert(view[p as int].0 == name@);
                let first = first_holding(view, name@);
                assert(first == p) by {
                    if first < p {
                    } else if first > p {
                    }
                }
            }
            return Some(p);
        }
        p = p + 1;
    }
    proof {
        if holds_name(view, name@) {
            let q = choose|q: int| 0 <= q < view.len() && view[q].0 == name@;
            assert(view[q].0 != name@);
        }
    }
    None
}

/// Member `i` of family `k`'s step of the expansion.
fn emit_step(
    families: &Vec<(String, FamilyFields)>,
    evaluations: &Vec<FamilyEvaluation>,
    out: &Vec<EmittedMember>,
    k: usize,
    i: usize,
) -> (r: Result<Option<EmittedMember>, String>)
    requires
        k < families@.len(),
        i < families@[k as int].1.members@.len(),
        origins_valid(families@, out@, k + 1),
        forall|j: int|
            0 <= j < families@[k as int].1.members@.len() ==> !(
            #[trigger] families@[k as int].1.members@[j].emitted_name matches Some(n) && is_blank(
                n@,
            )),
    ensures
        match member_step(families@, evaluations@, emitted_view(out@), k as int, i as int) {
            Err(m) => r matches Err(e) && e@ == m,
            Ok(None) => r matches Ok(None),
            Ok(Some(entry)) => r matches Ok(Some(x)) && x.family == k && x.member == i && (
            x.name@, k as int, i as int) == entry,
        },
{
    let family_name = families[k].0.as_str();
    let m = &families[k].1.members[i];
    if m.status != MemberStatus::Emit {
        return Ok(None);
    }
    if k < evaluations.len() && i < evaluations[k].transfers.len() {
        match &evaluations[k].transfers[i] {
            Some(e) => {
                return Err(e.clone());
            },
            None => {},
        }
    }
    let name = match member_emitted_name(family_name, m.emitted_name.as_ref(), &m.selectors) {
        Ok(n) => n,
        Err(e) => {
            return Err(e);
        },
    };
    assert(name@ == emitted_text(family_name@, *m));
    match find_name(out, &name) {
        Some(p) => {
            let earlier = &out[p];
            let earlier_family = &families[earlier.family];
            let mut e = String::from_str("resolved emitted name `");
            e.append(name.as_str());
            e.append("` collides between transfer family `");
            e.append(earlier_family.0.as_str());
            e.append("` selectors ");
            e.append(format_selectors(&earlier_family.1.members[earlier.member].selectors).as_str());
            e.append(" and transfer family `");
            e.append(family_name);
            e.append("` selectors ");
            e.append(format_selectors(&m.selectors).as_str());
            Err(e)
        },
        None => Ok(Some(EmittedMember { name, family: k, member: i })),
    }
}

/// Expand `families` in order into their emitted members, given the host
/// tool's evaluation of each family (`evaluations[k]` for family `k`; a
/// family without one reports no evaluation error).
pub fn expand_families(
    families: &Vec<(String, FamilyFields)>,
    evaluations: &Vec<FamilyEvaluation>,
) -> (r: Result<Vec<EmittedMember>, String>)
    requires
        ascending_keys(families@),
        forall|k: int| 0 <= k < families@.len() ==> keys_ascending((#[trigger] families@[k]).1),
    ensures
        match families_from(families@, evaluations@, Seq::empty(), 0) {
            Ok(o) => r matches Ok(v) && emitted_view(v@) == o,
            Err(m) => r matches Err(e) && e@ == m,
        },
{
    let mut out: Vec<EmittedMember> = Vec::new();
    let no_windows: Vec<Option<String>> = Vec::new();
    let mut k: usize = 0;
    assert(emitted_view(out@) =~= Seq::<(Seq<char>, int, int)>::empty());
    while k < families.len()
        invariant
            k <= families@.len(),
            no_windows@.len() == 0,
            families_from(families@, evaluations@, Seq::empty(), 0) == families_from(
                families@,
                evaluations@,
                emitted_view(out@),
                k as int,
            ),
            origins_valid(families@, out@, k as int),
            forall|j: int| 0 <= j < families@.len() ==> keys_ascending((#[trigger] families@[j]).1),
        decreases families@.len() - k,
    {
        let family_name = families[k].0.as_str();
        let family = &families[k].1;
        let (coefficients, windows) = if k < evaluations.len() {
            (evaluations[k].coefficients.as_ref(), evaluations[k].windows.as_slice())
        } else {
            (None, no_windows.as_slice())
        };
        assert(windows@ == windows_of(evaluations@, k as int));
        match validate_family(family_name, family, coefficients, windows) {
            Err(e) => {
                return Err(e);
            },
            Ok(()) => {},
        }
        proof {
            lemma_valid_family_names(
                family_name@,
                *family,
                coefficients_of(evaluations@, k as int),
                windows@,
            );
        }
        let ghost start = emitted_view(out@);
        let start_len = out.len();
        let mut i: usize = 0;
        while i < family.members.len()
            invariant
                k < families@.len(),
                *family == families@[k as int].1,
                family_name@ == families@[k as int].0@,
                i <= family.members@.len(),
                start_len <= out@.len(),
                start.len() == start_len,
                forall|j: int|
                    0 <= j < family.members@.len() ==> !(#[trigger] family.members@[j].emitted_name
                        matches Some(n) && is_blank(n@)),
                members_from(families@, evaluations@, start, k as int, 0) == members_from(
                    families@,
                    evaluations@,
                    emitted_view(out@),
                    k as int,
                    i as int,
                ),
                origins_valid(families@, out@, k + 1),
                families_from(families@, evaluations@, Seq::empty(), 0) == families_from(
                    families@,
                    evaluations@,
                    start,
                    k as int,
                ),
                family_error(
                    family_name@,
                    *family,
                    coefficients_of(evaluations@, k as int),
                    windows_of(evaluations@, k as int),
                ) is None,
            decreases family.members@.len() - i,
        {
            match emit_step(families, evaluations, &out, k, i) {
                Err(e) => {
                    return Err(e);
                },
                Ok(None) => {},
                Ok(Some(entry)) => {
                    let ghost before = emitted_view(out@);
                    out.push(entry);
                    assert(emitted_view(out@) =~= before.push(
                        (out@.last().name@, k as int, i as int),
                    ));
                },
            }
            i = i + 1;
        }
        if out.len() == start_len {
            let mut e = family_prefix_text(family_name);
            e.append(": no members with status = \"emit\"");
            return Err(e);
        }
        k = k + 1;
    }
    Ok(out)
}

/// No two entries share a name.
pub open spec fn names_distinct(out: Seq<(Seq<char>, int, int)>) -> bool {
    forall|p: int, q: int| 0 <= p < q < out.len() ==> #[trigger] out[p].0 != #[trigger] out[q].0
}

/// Every entry is an `emit` member of the family it names, under that
/// member's resolved table name.
pub open spec fn entries_emitted(fams: Seq<(String, FamilyFields)>, out: Seq<(Seq<char>, int, int)>) -> bool {
    forall|p: int|
        0 <= p < out.len() ==> {
            let e = #[trigger] out[p];
            &&& 0 <= e.1 < fams.len()
            &&& 0 <= e.2 < fams[e.1].1.members@.len()
            &&& fams[e.1].1.members@[e.2].status == MemberStatus::Emit
            &&& e.0 == emitted_text(fams[e.1].0@, fams[e.1].1.members@[e.2])
        }
}

proof fn lemma_members_keep(
    fams: Seq<(String, FamilyFields)>,
    evals: Seq<FamilyEvaluation>,
    out: Seq<(Seq<char>, int, int)>,
    k: int,
    i: int,
)
    requires
        0 <= k < fams.len(),
        0 <= i,
        names_distinct(out),
        entries_emitted(fams, out),
        members_from(fams, evals, out, k, i) is Ok,
    ensures
        names_distinct(members_from(fams, evals, out, k, i)->Ok_0),
        entries_emitted(fams, members_from(fams, evals, out, k, i)->Ok_0),
    decreases fams[k].1.members@.len() - i,
{
    if i < fams[k].1.members@.len() {
        match member_step(fams, evals, out, k, i) {
            Ok(None) => {
                lemma_members_keep(fams, evals, out, k, i + 1);
            },
            Ok(Some(entry)) => {
                let next = out.push(entry);
                assert(!holds_name(out, entry.0));
                assert forall|p: int, q: int| 0 <= p < q < next.len() implies #[trigger] next[p].0
                    != #[trigger] next[q].0 by {
                    if q == out.len() {
                        assert(next[p] == out[p]);
                    } else {
                        assert(next[p] == out[p] && next[q] == out[q]);
                    }
                }
                assert forall|p: int| 0 <= p < next.len() implies {
                    let e = #[trigger] next[p];
                    &&& 0 <= e.1 < fams.len()
                    &&& 0 <= e.2 < fams[e.1].1.members@.len()
                    &&& fams[e.1].1.members@[e.2].status == MemberStatus::Emit
                    &&& e.0 == emitted_text(fams[e.1].0@, fams[e.1].1.members@[e.2])
                } by {
                    if p < out.len() {
                        assert(next[p] == out[p]);
                    }
                }
                lemma_members_keep(fams, evals, next, k, i + 1);
            },
            Err(_) => {},
        }
    }
}

proof fn lemma_families_keep(
    fams: Seq<(String, FamilyFields)>,
    evals: Seq<FamilyEvaluation>,
    out: Seq<(Seq<char>, int, int)>,
    k: int,
)
    requires
        0 <= k,
        names_distinct(out),
        entries_emitted(fams, out),
        families_from(fams, evals, out, k) is Ok,
    ensures
        names_distinct(families_from(fams, evals, out, k)->Ok_0),
        entries_emitted(fams, families_from(fams, evals, out, k)->Ok_0),
    decreases fams.len() - k,
{
    if k < fams.len() {
        lemma_members_keep(fams, evals, out, k, 0);
        let o = members_from(fams, evals, out, k, 0)->Ok_0;
        lemma_families_keep(fams, evals, o, k + 1);
    }
}

/// Every member an expansion emits is an `emit` member of its family,
/// under that member's resolved table name, and no two emitted members
/// share a name.
pub proof fn lemma_expansion_names_distinct(
    fams: Seq<(String, FamilyFields)>,
    evals: Seq<FamilyEvaluation>,
)
    requires
        families_from(fams, evals, Seq::empty(), 0) is Ok,
    ensures
        names_distinct(families_from(fams, evals, Seq::empty(), 0)->Ok_0),
        entries_emitted(fams, families_from(fams, evals, Seq::empty(), 0)->Ok_0),
{
    lemma_families_keep(fams, evals, Seq::empty(), 0);
}

} // verus!
