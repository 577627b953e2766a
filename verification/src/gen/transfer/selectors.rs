//! Validation of a family's declared selector universe and its gaps.
//!
//! Selector identities are `(key, value)` lists with keys in ascending
//! order and without repeats, the order a sorted map presents them in;
//! two identities are the same when their keys and values agree.

use vstd::prelude::*;

use super::super::text::{
    blank, debug_quoted, debug_text, decimal, decimal_spec, is_blank, join3, same_text,
    signed_decimal, signed_decimal_spec,
};
use super::family::{
    axis_lens, cardinality, identity_view, product, FamilyGapDef, MemberStatus, SelectorAxis, SelectorIdentity, SelectorUniverse, SelectorValue,
    SelectorValueView,
};
use super::provenance::{merge_error, merged, citation_error, CitationView, SourceProvenance};

verus! {

/// `transfer family `name``, the start of every family diagnostic.
pub open spec fn family_prefix(f: Seq<char>) -> Seq<char> {
    "transfer family `"@ + f + "`"@
}

/// How a selector value appears in diagnostics: an integer in decimal, a
/// string in its quoted `Debug` form.
pub open spec fn value_text(v: SelectorValueView) -> Seq<char> {
    match v {
        SelectorValueView::Integer(i) => signed_decimal_spec(i as int),
        SelectorValueView::Text(t) => debug_text(t),
    }
}

/// A string selector value holding only white space.
pub open spec fn is_blank_value(v: SelectorValueView) -> bool {
    v matches SelectorValueView::Text(t) && is_blank(t)
}

/// The first problem among the values of axis `name` from index `j` on: a
/// blank string, or a value already listed earlier.
pub open spec fn axis_values_error(
    f: Seq<char>,
    name: Seq<char>,
    values: Seq<SelectorValue>,
    j: int,
) -> Option<Seq<char>>
    decreases values.len() - j,
{
    if j < 0 || j >= values.len() {
        None
    } else if is_blank_value(values[j]@) {
        Some(family_prefix(f) + ": selector axis `"@ + name + "` must not contain a blank string"@)
    } else if exists|k: int| 0 <= k < j && values[k]@ == values[j]@ {
        Some(family_prefix(f) + ": selector axis `"@ + name + "` repeats value "@ + value_text(
            values[j]@,
        ))
    } else {
        axis_values_error(f, name, values, j + 1)
    }
}

/// The first problem among the axes from index `a` on: a blank name, an
/// axis without values, or a bad value.
pub open spec fn axes_error_from(f: Seq<char>, axes: Seq<SelectorAxis>, a: int) -> Option<
    Seq<char>,
>
    decreases axes.len() - a,
{
    if a < 0 || a >= axes.len() {
        None
    } else if is_blank(axes[a].0@) {
        Some(family_prefix(f) + ": selector axis names must not be blank"@)
    } else if axes[a].1@.len() == 0 {
        Some(family_prefix(f) + ": selector axis `"@ + axes[a].0@ + "` must not be empty"@)
    } else if axis_values_error(f, axes[a].0@, axes[a].1@, 0) is Some {
        axis_values_error(f, axes[a].0@, axes[a].1@, 0)
    } else {
        axes_error_from(f, axes, a + 1)
    }
}

/// Why a family's `selector_axes` are refused, if they are.
pub open spec fn selector_axes_error(f: Seq<char>, axes: Seq<SelectorAxis>) -> Option<Seq<char>> {
    if axes.len() == 0 {
        Some(family_prefix(f) + ": selector_axes must not be empty"@)
    } else {
        axes_error_from(f, axes, 0)
    }
}

/// The contents of one axis.
pub open spec fn axis_view(axis: SelectorAxis) -> (Seq<char>, Seq<SelectorValueView>) {
    (axis.0@, Seq::new(axis.1@.len(), |j: int| axis.1@[j]@))
}

/// The contents of a list of axes.
pub open spec fn axes_view(axes: Seq<SelectorAxis>) -> Seq<(Seq<char>, Seq<SelectorValueView>)> {
    Seq::new(axes.len(), |a: int| axis_view(axes[a]))
}

/// The keys of an identity, in order.
pub open spec fn keys_of(id: Seq<(String, SelectorValue)>) -> Seq<Seq<char>> {
    Seq::new(id.len(), |i: int| id[i].0@)
}

/// `` `k1`, `k2` `` for a non-empty key list.
pub open spec fn keys_list(keys: Seq<Seq<char>>) -> Seq<char>
    decreases keys.len(),
{
    if keys.len() <= 1 {
        if keys.len() == 0 {
            Seq::empty()
        } else {
            "`"@ + keys[0] + "`"@
        }
    } else {
        keys_list(keys.drop_last()) + ", `"@ + keys.last() + "`"@
    }
}

/// How a key set appears in diagnostics; `(none)` when empty.
pub open spec fn keys_text(keys: Seq<Seq<char>>) -> Seq<char> {
    if keys.len() == 0 {
        "(none)"@
    } else {
        keys_list(keys)
    }
}

/// `key=value` pairs joined by `, `.
pub open spec fn pairs_text(id: Seq<(String, SelectorValue)>) -> Seq<char>
    decreases id.len(),
{
    if id.len() <= 1 {
        if id.len() == 0 {
            Seq::empty()
        } else {
            id[0].0@ + "="@ + value_text(id[0].1@)
        }
    } else {
        pairs_text(id.drop_last()) + ", "@ + id.last().0@ + "="@ + value_text(id.last().1@)
    }
}

/// How a selector identity appears in diagnostics: `{key=value, ...}`.
pub open spec fn selectors_text(id: Seq<(String, SelectorValue)>) -> Seq<char> {
    "{"@ + pairs_text(id) + "}"@
}

/// `transfer family `F`: expected selector <i>`.
pub open spec fn expected_label(f: Seq<char>, i: nat) -> Seq<char> {
    family_prefix(f) + ": expected selector "@ + decimal_spec(i)
}

/// The first bad pair of expected identity `i` from pair `p` on: a blank
/// key, or a blank string value.
pub open spec fn pair_error(f: Seq<char>, i: nat, id: Seq<(String, SelectorValue)>, p: int) -> Option<
    Seq<char>,
>
    decreases id.len() - p,
{
    if p < 0 || p >= id.len() {
        None
    } else if is_blank(id[p].0@) {
        Some(expected_label(f, i) + " keys must not be blank"@)
    } else if is_blank_value(id[p].1@) {
        Some(expected_label(f, i) + " `"@ + id[p].0@ + "` must not be blank"@)
    } else {
        pair_error(f, i, id, p + 1)
    }
}

/// The first earlier identity equal to identity `i`.
pub open spec fn first_duplicate(ids: Seq<SelectorIdentity>, i: int) -> int {
    choose|j: int|
        0 <= j < i && identity_view(ids[j]@) == identity_view(ids[i]@) && forall|k: int|
            0 <= k < j ==> identity_view(ids[k]@) != identity_view(ids[i]@)
}

/// The first problem among expected identities from index `i` on.
pub open spec fn identities_error_from(f: Seq<char>, ids: Seq<SelectorIdentity>, i: int) -> Option<
    Seq<char>,
>
    decreases ids.len() - i,
{
    if i < 0 || i >= ids.len() {
        None
    } else if ids[i]@.len() == 0 {
        Some(expected_label(f, i as nat) + " must not be empty"@)
    } else if pair_error(f, i as nat, ids[i]@, 0) is Some {
        pair_error(f, i as nat, ids[i]@, 0)
    } else if keys_of(ids[i]@) != keys_of(ids[0]@) {
        Some(expected_label(f, i as nat) + " keys "@ + keys_text(keys_of(ids[i]@))
            + " do not match selector 0 keys "@ + keys_text(keys_of(ids[0]@)))
    } else if exists|j: int| 0 <= j < i && identity_view(ids[j]@) == identity_view(ids[i]@) {
        Some(family_prefix(f) + ": expected selectors "@ + decimal_spec(
            first_duplicate(ids, i) as nat,
        ) + " and "@ + decimal_spec(i as nat) + " share identity "@ + selectors_text(ids[i]@))
    } else {
        identities_error_from(f, ids, i + 1)
    }
}

/// Why a family's `expected_selectors` are refused, if they are: the list
/// is empty, the first identity has no keys or a blank key, or some
/// identity is empty, has a blank key or value, has other keys than the
/// first, or repeats an earlier identity.
pub open spec fn expected_selectors_error(f: Seq<char>, ids: Seq<SelectorIdentity>) -> Option<
    Seq<char>,
> {
    if ids.len() == 0 {
        Some(family_prefix(f) + ": expected_selectors must not be empty"@)
    } else if ids[0]@.len() == 0 {
        Some(expected_label(f, 0) + " must not be empty"@)
    } else if exists|p: int| 0 <= p < ids[0]@.len() && is_blank(ids[0]@[p].0@) {
        Some(expected_label(f, 0) + " keys must not be blank"@)
    } else {
        identities_error_from(f, ids, 0)
    }
}

/// The contents of a list of identities.
pub open spec fn identities_view(ids: Seq<SelectorIdentity>) -> Seq<
    Seq<(Seq<char>, SelectorValueView)>,
> {
    Seq::new(ids.len(), |i: int| identity_view(ids[i]@))
}

/// `transfer family `F``
pub(crate) fn family_prefix_text(f: &str) -> (s: String)
    ensures
        s@ == family_prefix(f@),
{
    join3("transfer family `", f, "`")
}

/// Render a selector value for diagnostics.
pub fn format_selector_value(v: &SelectorValue) -> (s: String)
    ensures
        s@ == value_text(v@),
{
    match v {
        SelectorValue::String(text) => debug_quoted(text.as_str()),
        SelectorValue::Integer(i) => signed_decimal(*i),
    }
}

/// Whether two selector values are the same.
pub fn same_value(a: &SelectorValue, b: &SelectorValue) -> (r: bool)
    ensures
        r == (a@ == b@),
{
    match (a, b) {
        (SelectorValue::Integer(x), SelectorValue::Integer(y)) => *x == *y,
        (SelectorValue::String(x), SelectorValue::String(y)) => same_text(x.as_str(), y.as_str()),
        _ => false,
    }
}

pub(crate) fn blank_value(v: &SelectorValue) -> (r: bool)
    ensures
        r == is_blank_value(v@),
{
    match v {
        SelectorValue::String(text) => blank(text.as_str()),
        SelectorValue::Integer(_) => false,
    }
}

/// Whether two identities are the same.
pub fn same_identity(a: &SelectorIdentity, b: &SelectorIdentity) -> (r: bool)
    ensures
        r == (identity_view(a@) == identity_view(b@)),
{
    if a.len() != b.len() {
        proof {
            assert(identity_view(a@).len() != identity_view(b@).len());
        }
        return false;
    }
    let mut i: usize = 0;
    while i < a.len()
        invariant
            a@.len() == b@.len(),
            i <= a@.len(),
            forall|j: int| 0 <= j < i ==> (#[trigger] a@[j]).0@ == b@[j].0@ && a@[j].1@ == b@[j].1@,
        decreases a@.len() - i,
    {
        if !same_text(a[i].0.as_str(), b[i].0.as_str()) || !same_value(&a[i].1, &b[i].1) {
            proof {
                assert(identity_view(a@)[i as int] != identity_view(b@)[i as int]);
            }
            return false;
        }
        i = i + 1;
    }
    assert(identity_view(a@) =~= identity_view(b@));
    true
}

/// Whether two identities have the same keys in the same order.
fn same_keys(a: &SelectorIdentity, b: &SelectorIdentity) -> (r: bool)
    ensures
        r == (keys_of(a@) == keys_of(b@)),
{
    if a.len() != b.len() {
        proof {
            assert(keys_of(a@).len() != keys_of(b@).len());
        }
        return false;
    }
    let mut i: usize = 0;
    while i < a.len()
        invariant
            a@.len() == b@.len(),
            i <= a@.len(),
            forall|j: int| 0 <= j < i ==> (#[trigger] a@[j]).0@ == b@[j].0@,
        decreases a@.len() - i,
    {
        if !same_text(a[i].0.as_str(), b[i].0.as_str()) {
            proof {
                assert(keys_of(a@)[i as int] != keys_of(b@)[i as int]);
            }
            return false;
        }
        i = i + 1;
    }
    assert(keys_of(a@) =~= keys_of(b@));
    true
}

/// The contents of a list of strings.
pub open spec fn texts(keys: Seq<String>) -> Seq<Seq<char>> {
    Seq::new(keys.len(), |i: int| keys[i]@)
}

/// Render a key list for diagnostics.
pub fn format_key_list(keys: &[String]) -> (s: String)
    ensures
        s@ == keys_text(texts(keys@)),
{
    if keys.len() == 0 {
        return String::from_str("(none)");
    }
    let mut s = join3("`", keys[0].as_str(), "`");
    let mut i: usize = 1;
    while i < keys.len()
        invariant
            1 <= i <= keys@.len(),
            s@ == keys_list(texts(keys@).subrange(0, i as int)),
        decreases keys@.len() - i,
    {
        proof {
            let k = texts(keys@);
            assert(k.subrange(0, i + 1).drop_last() =~= k.subrange(0, i as int));
            assert(k.subrange(0, i + 1).last() == keys@[i as int]@);
        }
        s.append(", `");
        s.append(keys[i].as_str());
        s.append("`");
        i = i + 1;
    }
    proof {
        assert(texts(keys@).subrange(0, keys@.len() as int) =~= texts(keys@));
        assert(texts(keys@).subrange(0, 1) =~= seq![keys@[0]@]);
    }
    s
}

/// The keys of an identity, in order.
pub fn identity_keys(id: &SelectorIdentity) -> (keys: Vec<String>)
    ensures
        texts(keys@) == keys_of(id@),
{
    let mut keys: Vec<String> = Vec::new();
    let mut i: usize = 0;
    while i < id.len()
        invariant
            i <= id@.len(),
            keys@.len() == i,
            forall|m: int| 0 <= m < i ==> (#[trigger] keys@[m])@ == id@[m].0@,
        decreases id@.len() - i,
    {
        keys.push(id[i].0.clone());
        i = i + 1;
    }
    assert(texts(keys@) =~= keys_of(id@));
    keys
}

/// Render the keys of an identity for diagnostics.
pub fn format_keys(id: &SelectorIdentity) -> (s: String)
    ensures
        s@ == keys_text(keys_of(id@)),
{
    format_key_list(identity_keys(id).as_slice())
}

/// Render an identity for diagnostics as `{key=value, ...}`.
pub fn format_selectors(id: &SelectorIdentity) -> (s: String)
    ensures
        s@ == selectors_text(id@),
{
    let mut s = String::from_str("{");
    let mut i: usize = 0;
    while i < id.len()
        invariant
            i <= id@.len(),
            s@ == "{"@ + pairs_text(id@.subrange(0, i as int)),
        decreases id@.len() - i,
    {
        proof {
            let sub = id@.subrange(0, i + 1);
            assert(sub.drop_last() =~= id@.subrange(0, i as int));
            assert(sub.last() == id@[i as int]);
        }
        if i > 0 {
            s.append(", ");
        }
        s.append(id[i].0.as_str());
        s.append("=");
        s.append(format_selector_value(&id[i].1).as_str());
        proof {
            let sub = id@.subrange(0, i + 1);
            if i == 0 {
                assert(sub.len() == 1 && sub[0] == id@[0]);
            }
        }
        i = i + 1;
    }
    s.append("}");
    assert(id@.subrange(0, id@.len() as int) =~= id@);
    s
}

/// Copy a list of axes.
fn copy_axes(axes: &[SelectorAxis]) -> (r: Vec<SelectorAxis>)
    ensures
        axes_view(r@) == axes_view(axes@),
{
    let mut r: Vec<SelectorAxis> = Vec::new();
    let mut a: usize = 0;
    while a < axes.len()
        invariant
            a <= axes@.len(),
            r@.len() == a,
            forall|b: int| 0 <= b < a ==> axis_view(#[trigger] r@[b]) == axis_view(axes@[b]),
        decreases axes@.len() - a,
    {
        let mut values: Vec<SelectorValue> = Vec::new();
        let mut j: usize = 0;
        while j < axes[a].1.len()
            invariant
                a < axes@.len(),
                j <= axes@[a as int].1@.len(),
                values@.len() == j,
                forall|k: int| 0 <= k < j ==> (#[trigger] values@[k])@ == axes@[a as int].1@[k]@,
            decreases axes@[a as int].1@.len() - j,
        {
            values.push(super::family::copy_value(&axes[a].1[j]));
            j = j + 1;
        }
        let axis = (axes[a].0.clone(), values);
        assert(axis_view(axis) =~= axis_view(axes@[a as int]));
        r.push(axis);
        a = a + 1;
    }
    assert(axes_view(r@) =~= axes_view(axes@));
    r
}

/// Check a family's `selector_axes`: at least one axis, no blank axis
/// name, no empty axis, no blank string value and no value listed twice on
/// one axis. On success the axes come back unchanged.
pub fn validate_selector_axes(family_name: &str, axes: &[SelectorAxis]) -> (r: Result<
    Vec<SelectorAxis>,
    String,
>)
    ensures
        r is Err <==> selector_axes_error(family_name@, axes@) is Some,
        r matches Err(e) ==> e@ == selector_axes_error(family_name@, axes@)->0,
        r matches Ok(v) ==> axes_view(v@) == axes_view(axes@),
{
    if axes.len() == 0 {
        let mut e = family_prefix_text(family_name);
        e.append(": selector_axes must not be empty");
        return Err(e);
    }
    let mut a: usize = 0;
    while a < axes.len()
        invariant
            a <= axes@.len(),
            axes@.len() > 0,
            selector_axes_error(family_name@, axes@) == axes_error_from(family_name@, axes@, a as int),
        decreases axes@.len() - a,
    {
        let name = axes[a].0.as_str();
        if blank(name) {
            let mut e = family_prefix_text(family_name);
            e.append(": selector axis names must not be blank");
            assert(axes_error_from(family_name@, axes@, a as int) == Some(e@));
            return Err(e);
        }
        let values = &axes[a].1;
        if values.len() == 0 {
            let mut e = family_prefix_text(family_name);
            e.append(": selector axis `");
            e.append(name);
            e.append("` must not be empty");
            assert(!is_blank(axes@[a as int].0@));
            assert(axes@[a as int].1@.len() == 0);
            assert(axes_error_from(family_name@, axes@, a as int) == Some(e@));
            return Err(e);
        }
        let mut j: usize = 0;
        while j < values.len()
            invariant
                a < axes@.len(),
                axes@.len() > 0,
                selector_axes_error(family_name@, axes@) == axes_error_from(family_name@, axes@, a as int),
                !is_blank(name@),
                values@.len() > 0,
                values@ == axes@[a as int].1@,
                name@ == axes@[a as int].0@,
                j <= values@.len(),
                axis_values_error(family_name@, name@, values@, 0) == axis_values_error(
                    family_name@,
                    name@,
                    values@,
                    j as int,
                ),
            decreases values@.len() - j,
        {
            if blank_value(&values[j]) {
                let mut e = family_prefix_text(family_name);
                e.append(": selector axis `");
                e.append(name);
                e.append("` must not contain a blank string");
                assert(axis_values_error(family_name@, name@, values@, j as int) == Some(e@));
                assert(axes_error_from(family_name@, axes@, a as int) == Some(e@));
                return Err(e);
            }
            let mut k: usize = 0;
            while k < j
                invariant
                    a < axes@.len(),
                    axes@.len() > 0,
                    selector_axes_error(family_name@, axes@) == axes_error_from(family_name@, axes@, a as int),
                    !is_blank(name@),
                    values@.len() > 0,
                    values@ == axes@[a as int].1@,
                    name@ == axes@[a as int].0@,
                    axis_values_error(family_name@, name@, values@, 0) == axis_values_error(
                        family_name@,
                        name@,
                        values@,
                        j as int,
                    ),
                    !is_blank_value(values@[j as int]@),
                    j < values@.len(),
                    k <= j,
                    forall|m: int| 0 <= m < k ==> values@[m]@ != values@[j as int]@,
                decreases j - k,
            {
                if same_value(&values[k], &values[j]) {
                    let mut e = family_prefix_text(family_name);
                    e.append(": selector axis `");
                    e.append(name);
                    e.append("` repeats value ");
                    e.append(format_selector_value(&values[j]).as_str());
                    assert(axis_values_error(family_name@, name@, values@, j as int) == Some(e@));
                    assert(axes_error_from(family_name@, axes@, a as int) == Some(e@));
                    return Err(e);
                }
                k = k + 1;
            }
            assert(axis_values_error(family_name@, name@, values@, j as int) == axis_values_error(
                family_name@,
                name@,
                values@,
                j + 1,
            ));
            j = j + 1;
        }
        assert(axes_error_from(family_name@, axes@, a as int) == axes_error_from(family_name@, axes@, a + 1));
        a = a + 1;
    }
    Ok(copy_axes(axes))
}

/// Copy a list of identities.
fn copy_identities(ids: &[SelectorIdentity]) -> (r: Vec<SelectorIdentity>)
    ensures
        identities_view(r@) == identities_view(ids@),
{
    let mut r: Vec<SelectorIdentity> = Vec::new();
    let mut i: usize = 0;
    while i < ids.len()
        invariant
            i <= ids@.len(),
            r@.len() == i,
            forall|k: int| 0 <= k < i ==> identity_view(#[trigger] r@[k]@) == identity_view(ids@[k]@),
        decreases ids@.len() - i,
    {
        r.push(super::family::copy_identity(&ids[i]));
        i = i + 1;
    }
    assert(identities_view(r@) =~= identities_view(ids@));
    r
}

/// `transfer family `F`: expected selector <i>`
fn expected_label_text(family_name: &str, i: usize) -> (s: String)
    ensures
        s@ == expected_label(family_name@, i as nat),
{
    let mut s = family_prefix_text(family_name);
    s.append(": expected selector ");
    s.append(decimal(i as u64).as_str());
    s
}

/// The first bad pair of identity `i`, or none.
fn check_pairs(family_name: &str, i: usize, id: &SelectorIdentity) -> (r: Option<String>)
    ensures
        r is None <==> pair_error(family_name@, i as nat, id@, 0) is None,
        r matches Some(e) ==> pair_error(family_name@, i as nat, id@, 0) == Some(e@),
{
    let mut p: usize = 0;
    while p < id.len()
        invariant
            p <= id@.len(),
            pair_error(family_name@, i as nat, id@, 0) == pair_error(family_name@, i as nat, id@, p as int),
        decreases id@.len() - p,
    {
        if blank(id[p].0.as_str()) {
            let mut e = expected_label_text(family_name, i);
            e.append(" keys must not be blank");
            assert(pair_error(family_name@, i as nat, id@, p as int) == Some(e@));
            return Some(e);
        }
        if blank_value(&id[p].1) {
            let mut e = expected_label_text(family_name, i);
            e.append(" `");
            e.append(id[p].0.as_str());
            e.append("` must not be blank");
            assert(pair_error(family_name@, i as nat, id@, p as int) == Some(e@));
            return Some(e);
        }
        assert(pair_error(family_name@, i as nat, id@, p as int) == pair_error(
            family_name@,
            i as nat,
            id@,
            p + 1,
        ));
        p = p + 1;
    }
    None
}

/// Check a family's `expected_selectors`: the list and every identity are
/// non-empty, no key is blank, no string value is blank, every identity
/// has the keys of the first, and no identity repeats an earlier one. On
/// success the identities come back unchanged.
pub fn validate_expected_selectors(family_name: &str, identities: &[SelectorIdentity]) -> (r:
    Result<Vec<SelectorIdentity>, String>)
    ensures
        r is Err <==> expected_selectors_error(family_name@, identities@) is Some,
        r matches Err(e) ==> e@ == expected_selectors_error(family_name@, identities@)->0,
        r matches Ok(v) ==> identities_view(v@) == identities_view(identities@),
{
    if identities.len() == 0 {
        let mut e = family_prefix_text(family_name);
        e.append(": expected_selectors must not be empty");
        return Err(e);
    }
    let first = &identities[0];
    if first.len() == 0 {
        let mut e = expected_label_text(family_name, 0);
        e.append(" must not be empty");
        return Err(e);
    }
    let mut p: usize = 0;
    while p < first.len()
        invariant
            identities@.len() > 0,
            first@.len() > 0,
            first@ == identities@[0]@,
            p <= first@.len(),
            forall|q: int| 0 <= q < p ==> !is_blank(#[trigger] first@[q].0@),
        decreases first@.len() - p,
    {
        if blank(first[p].0.as_str()) {
            let mut e = expected_label_text(family_name, 0);
            e.append(" keys must not be blank");
            assert(is_blank(identities@[0]@[p as int].0@));
            return Err(e);
        }
        p = p + 1;
    }
    let mut i: usize = 0;
    while i < identities.len()
        invariant
            identities@.len() > 0,
            first@ == identities@[0]@,
            i <= identities@.len(),
            expected_selectors_error(family_name@, identities@) == identities_error_from(
                family_name@,
                identities@,
                i as int,
            ),
            forall|a: int, b: int|
                0 <= a < b < i ==> identity_view(identities@[a]@) != identity_view(
                    identities@[b]@,
                ),
        decreases identities@.len() - i,
    {
        let id = &identities[i];
        if id.len() == 0 {
            let mut e = expected_label_text(family_name, i);
            e.append(" must not be empty");
            assert(identities_error_from(family_name@, identities@, i as int) == Some(e@));
            return Err(e);
        }
        match check_pairs(family_name, i, id) {
            Some(e) => {
                assert(identities_error_from(family_name@, identities@, i as int) == Some(e@));
                return Err(e);
            },
            None => {},
        }
        if !same_keys(id, first) {
            let mut e = expected_label_text(family_name, i);
            e.append(" keys ");
            e.append(format_keys(id).as_str());
            e.append(" do not match selector 0 keys ");
            e.append(format_keys(first).as_str());
            assert(identities_error_from(family_name@, identities@, i as int) == Some(e@));
            return Err(e);
        }
        let mut j: usize = 0;
        while j < i
            invariant
                identities@.len() > 0,
                first@ == identities@[0]@,
                i < identities@.len(),
                id@ == identities@[i as int]@,
                j <= i,
                expected_selectors_error(family_name@, identities@) == identities_error_from(
                    family_name@,
                    identities@,
                    i as int,
                ),
                id@.len() > 0,
                pair_error(family_name@, i as nat, id@, 0) is None,
                keys_of(id@) == keys_of(first@),
                forall|k: int| 0 <= k < j ==> identity_view(identities@[k]@) != identity_view(id@),
            decreases i - j,
        {
            if same_identity(&identities[j], id) {
                let mut e = family_prefix_text(family_name);
                e.append(": expected selectors ");
                e.append(decimal(j as u64).as_str());
                e.append(" and ");
                e.append(decimal(i as u64).as_str());
                e.append(" share identity ");
                e.append(format_selectors(id).as_str());
                proof {
                    let d = first_duplicate(identities@, i as int);
                    assert(0 <= j < i && identity_view(identities@[j as int]@) == identity_view(
                        identities@[i as int]@,
                    ) && forall|k: int|
                        0 <= k < j ==> identity_view(identities@[k]@) != identity_view(
                            identities@[i as int]@,
                        ));
                    assert(d == j as int) by {
                        if d != j as int {
                            if d < j {
                            } else {
                                assert(identity_view(identities@[j as int]@) != identity_view(
                                    identities@[i as int]@,
                                ));
                            }
                        }
                    }
                    assert(identities_error_from(family_name@, identities@, i as int) == Some(
                        e@,
                    ));
                }
                return Err(e);
            }
            j = j + 1;
        }
        assert(identities_error_from(family_name@, identities@, i as int) == identities_error_from(
            family_name@,
            identities@,
            i + 1,
        ));
        i = i + 1;
    }
    Ok(copy_identities(identities))
}

/// Why a family's declared selector universe is refused, if it is:
/// exactly one of `selector_axes` and `expected_selectors` must be given,
/// it must pass its own checks, and a Cartesian product must fit `usize`.
pub open spec fn universe_error(
    f: Seq<char>,
    axes: Option<Seq<SelectorAxis>>,
    ids: Option<Seq<SelectorIdentity>>,
) -> Option<Seq<char>> {
    match (axes, ids) {
        (None, None) => Some(
            family_prefix(f)
                + ": exactly one of selector_axes or expected_selectors must be specified"@,
        ),
        (Some(_), Some(_)) => Some(
            family_prefix(f) + ": selector_axes and expected_selectors are mutually exclusive"@,
        ),
        (Some(a), None) => if selector_axes_error(f, a) is Some {
            selector_axes_error(f, a)
        } else if product(axis_lens(a)) > usize::MAX {
            Some(
                family_prefix(f)
                    + ": selector_axes Cartesian product cardinality exceeds this platform's usize capacity"@,
            )
        } else {
            None
        },
        (None, Some(i)) => expected_selectors_error(f, i),
    }
}

/// Axes with the same contents have the same lengths.
proof fn lemma_same_axes_same_lens(x: Seq<SelectorAxis>, y: Seq<SelectorAxis>)
    requires
        axes_view(x) == axes_view(y),
    ensures
        axis_lens(x) == axis_lens(y),
{
    assert(x.len() == axes_view(x).len() == axes_view(y).len() == y.len());
    assert forall|a: int| 0 <= a < x.len() implies x[a].1@.len() == y[a].1@.len() by {
        assert(axes_view(x)[a] == axis_view(x[a]));
        assert(axes_view(y)[a] == axis_view(y[a]));
        assert(axis_view(x[a]).1.len() == x[a].1@.len());
        assert(axis_view(y[a]).1.len() == y[a].1@.len());
    }
    assert(axis_lens(x) =~= axis_lens(y));
}

/// The declared selector universe of a family, from its `selector_axes`
/// or `expected_selectors` (exactly one of them).
pub fn resolved_selector_universe(
    family_name: &str,
    selector_axes: Option<&Vec<SelectorAxis>>,
    expected_selectors: Option<&Vec<SelectorIdentity>>,
) -> (r: Result<SelectorUniverse, String>)
    ensures
        ({
            let axes = match selector_axes {
                Some(a) => Some(a@),
                None => None,
            };
            let ids = match expected_selectors {
                Some(i) => Some(i@),
                None => None,
            };
            &&& r is Err <==> universe_error(family_name@, axes, ids) is Some
            &&& r matches Err(e) ==> e@ == universe_error(family_name@, axes, ids)->0
            &&& r matches Ok(u) ==> match u {
                SelectorUniverse::Cartesian { axes: v } => selector_axes matches Some(a)
                    && axes_view(v@) == axes_view(a@),
                SelectorUniverse::Explicit { identities: v } => expected_selectors matches Some(i)
                    && identities_view(v@) == identities_view(i@),
            }
        }),
{
    match (selector_axes, expected_selectors) {
        (None, None) => {
            let mut e = family_prefix_text(family_name);
            e.append(": exactly one of selector_axes or expected_selectors must be specified");
            Err(e)
        },
        (Some(_), Some(_)) => {
            let mut e = family_prefix_text(family_name);
            e.append(": selector_axes and expected_selectors are mutually exclusive");
            Err(e)
        },
        (Some(axes), None) => {
            let validated = validate_selector_axes(family_name, axes.as_slice())?;
            let universe = SelectorUniverse::Cartesian { axes: validated };
            proof {
                lemma_same_axes_same_lens(validated@, axes@);
            }
            if universe.identity_count().is_none() {
                let mut e = family_prefix_text(family_name);
                e.append(
                    ": selector_axes Cartesian product cardinality exceeds this platform's usize capacity",
                );
                return Err(e);
            }
            Ok(universe)
        },
        (None, Some(identities)) => {
            let validated = validate_expected_selectors(family_name, identities.as_slice())?;
            Ok(SelectorUniverse::Explicit { identities: validated })
        },
    }
}

/// `transfer family `F` family-scoped gap <index>`
pub open spec fn gap_label(f: Seq<char>, index: nat) -> Seq<char> {
    family_prefix(f) + " family-scoped gap "@ + decimal_spec(index)
}

pub(crate) fn gap_label_text(family_name: &str, index: usize) -> (s: String)
    ensures
        s@ == gap_label(family_name@, index as nat),
{
    let mut s = family_prefix_text(family_name);
    s.append(" family-scoped gap ");
    s.append(decimal(index as u64).as_str());
    s
}

/// The citation a family-scoped gap resolves to: the family's citation
/// with the gap's override merged in, or the family's citation itself.
/// A family without a citation cannot have gaps.
pub open spec fn gap_provenance(
    f: Seq<char>,
    base: Option<CitationView>,
    index: nat,
    overlay: Option<super::provenance::OverrideView>,
) -> Result<CitationView, Seq<char>> {
    match base {
        None => Err(family_prefix(f) + ": source-backed family requires provenance.identity"@),
        Some(b) => match overlay {
            Some(o) => if merge_error(b, o) is Some {
                Err(gap_label(f, index) + ": "@ + merge_error(b, o)->0.text())
            } else {
                Ok(merged(b, o))
            },
            None => if citation_error(b) is Some {
                Err(gap_label(f, index) + ": "@ + citation_error(b)->0.text())
            } else {
                Ok(b)
            },
        },
    }
}

/// The view of an optional citation.
pub open spec fn opt_citation(p: Option<&SourceProvenance>) -> Option<CitationView> {
    match p {
        Some(p) => Some(p@),
        None => None,
    }
}

/// The view of an optional override.
pub open spec fn opt_override(o: Option<super::provenance::SourceProvenanceOverride>) -> Option<
    super::provenance::OverrideView,
> {
    match o {
        Some(o) => Some(o@),
        None => None,
    }
}

/// Resolve a family-scoped gap's citation against its family's citation.
pub fn resolved_family_gap_provenance(
    family_name: &str,
    family_provenance: Option<&SourceProvenance>,
    index: usize,
    gap: &FamilyGapDef,
) -> (r: Result<SourceProvenance, String>)
    ensures
        match gap_provenance(
            family_name@,
            opt_citation(family_provenance),
            index as nat,
            opt_override(gap.provenance),
        ) {
            Ok(c) => r matches Ok(p) && p@ == c,
            Err(m) => r matches Err(e) && e@ == m,
        },
{
    let base = match family_provenance {
        Some(base) => base,
        None => {
            let mut e = family_prefix_text(family_name);
            e.append(": source-backed family requires provenance.identity");
            return Err(e);
        },
    };
    match &gap.provenance {
        Some(overlay) => match base.merge_checked(overlay) {
            Ok(p) => Ok(p),
            Err(error) => {
                let mut e = gap_label_text(family_name, index);
                e.append(": ");
                e.append(error.message().as_str());
                Err(e)
            },
        },
        None => match base.check() {
            Ok(()) => Ok(base.duplicate()),
            Err(error) => {
                let mut e = gap_label_text(family_name, index);
                e.append(": ");
                e.append(error.message().as_str());
                Err(e)
            },
        },
    }
}

/// The citation a family member resolves to: the family's citation with
/// the member's override merged in, or the family's citation itself,
/// failures labelled with the family. A family without a citation has
/// none to give.
pub open spec fn member_provenance(
    f: Seq<char>,
    base: Option<CitationView>,
    overlay: Option<super::provenance::OverrideView>,
) -> Result<CitationView, Seq<char>> {
    match base {
        None => Err(family_prefix(f) + ": source-backed family requires provenance.identity"@),
        Some(b) => match overlay {
            Some(o) => if merge_error(b, o) is Some {
                Err(family_prefix(f) + ": "@ + merge_error(b, o)->0.text())
            } else {
                Ok(merged(b, o))
            },
            None => if citation_error(b) is Some {
                Err(family_prefix(f) + ": "@ + citation_error(b)->0.text())
            } else {
                Ok(b)
            },
        },
    }
}

/// Resolve a family member's citation against its family's citation.
pub fn resolved_member_provenance(
    family_name: &str,
    family_provenance: Option<&SourceProvenance>,
    overlay: Option<&super::provenance::SourceProvenanceOverride>,
) -> (r: Result<SourceProvenance, String>)
    ensures
        match member_provenance(
            family_name@,
            opt_citation(family_provenance),
            match overlay {
                Some(o) => Some(o@),
                None => None,
            },
        ) {
            Ok(c) => r matches Ok(p) && p@ == c,
            Err(m) => r matches Err(e) && e@ == m,
        },
{
    let base = match family_provenance {
        Some(base) => base,
        None => {
            let mut e = family_prefix_text(family_name);
            e.append(": source-backed family requires provenance.identity");
            return Err(e);
        },
    };
    let resolved = match overlay {
        Some(o) => base.merge_checked(o),
        None => match base.check() {
            Ok(()) => Ok(base.duplicate()),
            Err(error) => Err(error),
        },
    };
    match resolved {
        Ok(p) => Ok(p),
        Err(error) => {
            let mut e = family_prefix_text(family_name);
            e.append(": ");
            e.append(error.message().as_str());
            Err(e)
        },
    }
}

/// Why a family-scoped gap is refused, if it is: it names no selectors, a
/// blank key or string value, a blank reason, or its citation does not
/// resolve.
pub open spec fn family_gap_error(
    f: Seq<char>,
    base: Option<CitationView>,
    index: nat,
    gap: FamilyGapDef,
) -> Option<Seq<char>> {
    let label = gap_label(f, index);
    if gap.selectors@.len() == 0 {
        Some(label + ": selectors must not be empty"@)
    } else if gap_pair_error(label, gap.selectors@, 0) is Some {
        gap_pair_error(label, gap.selectors@, 0)
    } else if is_blank(gap.reason@) {
        Some(label + ": reason must not be blank"@)
    } else {
        match gap_provenance(f, base, index, opt_override(gap.provenance)) {
            Ok(_) => None,
            Err(m) => Some(m),
        }
    }
}

/// The first bad selector of a gap from `p` on.
pub open spec fn gap_pair_error(label: Seq<char>, id: Seq<(String, SelectorValue)>, p: int) -> Option<
    Seq<char>,
>
    decreases id.len() - p,
{
    if p < 0 || p >= id.len() {
        None
    } else if is_blank(id[p].0@) {
        Some(label + ": selector keys must not be blank"@)
    } else if is_blank_value(id[p].1@) {
        Some(label + ": selector `"@ + id[p].0@ + "` must not be blank"@)
    } else {
        gap_pair_error(label, id, p + 1)
    }
}

/// Check a family-scoped gap.
pub fn validate_family_gap(
    family_name: &str,
    family_provenance: Option<&SourceProvenance>,
    index: usize,
    gap: &FamilyGapDef,
) -> (r: Result<(), String>)
    ensures
        r is Err <==> family_gap_error(family_name@, opt_citation(family_provenance), index as nat, *gap)
            is Some,
        r matches Err(e) ==> e@ == family_gap_error(
            family_name@,
            opt_citation(family_provenance),
            index as nat,
            *gap,
        )->0,
{
    let label = gap_label_text(family_name, index);
    if gap.selectors.len() == 0 {
        let mut e = label;
        e.append(": selectors must not be empty");
        return Err(e);
    }
    let mut p: usize = 0;
    while p < gap.selectors.len()
        invariant
            label@ == gap_label(family_name@, index as nat),
            p <= gap.selectors@.len(),
            gap_pair_error(label@, gap.selectors@, 0) == gap_pair_error(
                label@,
                gap.selectors@,
                p as int,
            ),
        decreases gap.selectors@.len() - p,
    {
        if blank(gap.selectors[p].0.as_str()) {
            let mut e = gap_label_text(family_name, index);
            e.append(": selector keys must not be blank");
            assert(gap_pair_error(label@, gap.selectors@, p as int) == Some(e@));
            return Err(e);
        }
        if blank_value(&gap.selectors[p].1) {
            let mut e = gap_label_text(family_name, index);
            e.append(": selector `");
            e.append(gap.selectors[p].0.as_str());
            e.append("` must not be blank");
            assert(gap_pair_error(label@, gap.selectors@, p as int) == Some(e@));
            return Err(e);
        }
        assert(gap_pair_error(label@, gap.selectors@, p as int) == gap_pair_error(
            label@,
            gap.selectors@,
            p + 1,
        ));
        p = p + 1;
    }
    if blank(gap.reason.as_str()) {
        let mut e = label;
        e.append(": reason must not be blank");
        return Err(e);
    }
    match resolved_family_gap_provenance(family_name, family_provenance, index, gap) {
        Ok(_) => Ok(()),
        Err(e) => Err(e),
    }
}

/// The keys a universe's identities carry: its axis names, or the keys of
/// its first explicit identity.
pub open spec fn universe_keys(u: SelectorUniverse) -> Seq<Seq<char>> {
    match u {
        SelectorUniverse::Cartesian { axes } => Seq::new(axes@.len(), |a: int| axes@[a].0@),
        SelectorUniverse::Explicit { identities } => if identities@.len() > 0 {
            keys_of(identities@[0]@)
        } else {
            Seq::empty()
        },
    }
}

/// Some value of `key` in the universe is an integer (`integer`) or a
/// string (`!integer`).
pub open spec fn key_has_type(u: SelectorUniverse, key: Seq<char>, integer: bool) -> bool {
    match u {
        SelectorUniverse::Cartesian { axes } => exists|a: int, j: int|
            0 <= a < axes@.len() && 0 <= j < axes@[a].1@.len() && axes@[a].0@ == key && (
            axes@[a].1@[j] is Integer) == integer,
        SelectorUniverse::Explicit { identities } => exists|i: int, p: int|
            0 <= i < identities@.len() && 0 <= p < identities@[i]@.len() && identities@[i]@[p].0@
                == key && (identities@[i]@[p].1 is Integer) == integer,
    }
}

/// How the value types of a key are described in diagnostics.
pub open spec fn type_set_text(integer: bool, string: bool) -> Seq<char> {
    if integer && !string {
        "integer"@
    } else if !integer && string {
        "string"@
    } else if integer && string {
        "integer or string"@
    } else {
        "no declared type"@
    }
}

/// `integer` or `string`.
pub open spec fn type_name_text(v: SelectorValueView) -> Seq<char> {
    match v {
        SelectorValueView::Integer(_) => "integer"@,
        SelectorValueView::Text(_) => "string"@,
    }
}

/// `sel` is one of the universe's identities.
pub open spec fn in_universe(u: SelectorUniverse, sel: Seq<(String, SelectorValue)>) -> bool {
    match u {
        SelectorUniverse::Cartesian { axes } => {
            &&& sel.len() == axes@.len()
            &&& forall|p: int| 0 <= p < sel.len() ==> axes_list(axes@, sel[p].0@, #[trigger] sel[p].1@)
        },
        SelectorUniverse::Explicit { identities } => exists|i: int|
            0 <= i < identities@.len() && identity_view(identities@[i]@) == identity_view(sel),
    }
}

/// The first selector of `sel` from `p` on whose value type the universe
/// does not use for that key, when the key has one type only.
pub open spec fn type_error(
    label: Seq<char>,
    u: SelectorUniverse,
    sel: Seq<(String, SelectorValue)>,
    p: int,
) -> Option<Seq<char>>
    decreases sel.len() - p,
{
    if p < 0 || p >= sel.len() {
        None
    } else {
        let key = sel[p].0@;
        let integer = key_has_type(u, key, true);
        let string = key_has_type(u, key, false);
        let is_int = sel[p].1 is Integer;
        if integer != string && (if is_int { !integer } else { !string }) {
            Some(label + ": selector `"@ + key + "` has a "@ + type_name_text(sel[p].1@)
                + " value; the declared universe uses "@ + type_set_text(integer, string))
        } else {
            type_error(label, u, sel, p + 1)
        }
    }
}

/// Why an identity does not belong to a universe, if it does not: other
/// keys, a value of the wrong type, or a combination the universe lacks.
pub open spec fn universe_membership_error(
    label: Seq<char>,
    f: Seq<char>,
    sel: Seq<(String, SelectorValue)>,
    u: SelectorUniverse,
) -> Option<Seq<char>> {
    if keys_of(sel) != universe_keys(u) {
        Some(label + ": selector keys "@ + keys_text(keys_of(sel))
            + " do not match the declared universe keys "@ + keys_text(universe_keys(u)))
    } else if type_error(label, u, sel, 0) is Some {
        type_error(label, u, sel, 0)
    } else if !in_universe(u, sel) {
        Some(family_prefix(f) + ": selector identity "@ + selectors_text(sel)
            + " is outside the declared universe"@)
    } else {
        None
    }
}

/// The keys of a universe.
fn universe_key_list(u: &SelectorUniverse) -> (keys: Vec<String>)
    ensures
        texts(keys@) == universe_keys(*u),
{
    match u {
        SelectorUniverse::Cartesian { axes } => {
            let mut keys: Vec<String> = Vec::new();
            let mut a: usize = 0;
            while a < axes.len()
                invariant
                    a <= axes@.len(),
                    keys@.len() == a,
                    forall|m: int| 0 <= m < a ==> (#[trigger] keys@[m])@ == axes@[m].0@,
                decreases axes@.len() - a,
            {
                keys.push(axes[a].0.clone());
                a = a + 1;
            }
            assert(texts(keys@) =~= Seq::new(axes@.len(), |b: int| axes@[b].0@));
            keys
        },
        SelectorUniverse::Explicit { identities } => {
            if identities.len() > 0 {
                identity_keys(&identities[0])
            } else {
                let keys: Vec<String> = Vec::new();
                assert(texts(keys@) =~= Seq::<Seq<char>>::empty());
                keys
            }
        },
    }
}

/// Which value types the universe uses for `key`: (integer, string).
fn key_types(u: &SelectorUniverse, key: &str) -> (r: (bool, bool))
    ensures
        r.0 == key_has_type(*u, key@, true),
        r.1 == key_has_type(*u, key@, false),
{
    let mut integer = false;
    let mut string = false;
    match u {
        SelectorUniverse::Cartesian { axes } => {
            let mut a: usize = 0;
            while a < axes.len()
                invariant
                    a <= axes@.len(),
                    integer <==> exists|b: int, j: int|
                        0 <= b < a && 0 <= j < axes@[b].1@.len() && axes@[b].0@ == key@ && (
                        axes@[b].1@[j] is Integer),
                    string <==> exists|b: int, j: int|
                        0 <= b < a && 0 <= j < axes@[b].1@.len() && axes@[b].0@ == key@ && !(
                        axes@[b].1@[j] is Integer),
                decreases axes@.len() - a,
            {
                if same_text(axes[a].0.as_str(), key) {
                    let mut j: usize = 0;
                    while j < axes[a].1.len()
                        invariant
                            a < axes@.len(),
                            axes@[a as int].0@ == key@,
                            j <= axes@[a as int].1@.len(),
                            integer <==> exists|b: int, k: int|
                                ((0 <= b < a && 0 <= k < axes@[b].1@.len()) || (b == a && 0 <= k
                                    < j)) && axes@[b].0@ == key@ && (axes@[b].1@[k] is Integer),
                            string <==> exists|b: int, k: int|
                                ((0 <= b < a && 0 <= k < axes@[b].1@.len()) || (b == a && 0 <= k
                                    < j)) && axes@[b].0@ == key@ && !(axes@[b].1@[k] is Integer),
                        decreases axes@[a as int].1@.len() - j,
                    {
                        match &axes[a].1[j] {
                            SelectorValue::Integer(_) => {
                                integer = true;
                            },
                            SelectorValue::String(_) => {
                                string = true;
                            },
                        }
                        j = j + 1;
                    }
                }
                a = a + 1;
            }
        },
        SelectorUniverse::Explicit { identities } => {
            let mut i: usize = 0;
            while i < identities.len()
                invariant
                    i <= identities@.len(),
                    integer <==> exists|b: int, p: int|
                        0 <= b < i && 0 <= p < identities@[b]@.len() && identities@[b]@[p].0@
                            == key@ && (identities@[b]@[p].1 is Integer),
                    string <==> exists|b: int, p: int|
                        0 <= b < i && 0 <= p < identities@[b]@.len() && identities@[b]@[p].0@
                            == key@ && !(identities@[b]@[p].1 is Integer),
                decreases identities@.len() - i,
            {
                let id = &identities[i];
                let mut p: usize = 0;
                while p < id.len()
                    invariant
                        i < identities@.len(),
                        id@ == identities@[i as int]@,
                        p <= id@.len(),
                        integer <==> exists|b: int, q: int|
                            ((0 <= b < i && 0 <= q < identities@[b]@.len()) || (b == i && 0 <= q
                                < p)) && identities@[b]@[q].0@ == key@ && (
                            identities@[b]@[q].1 is Integer),
                        string <==> exists|b: int, q: int|
                            ((0 <= b < i && 0 <= q < identities@[b]@.len()) || (b == i && 0 <= q
                                < p)) && identities@[b]@[q].0@ == key@ && !(
                            identities@[b]@[q].1 is Integer),
                    decreases id@.len() - p,
                {
                    if same_text(id[p].0.as_str(), key) {
                        match &id[p].1 {
                            SelectorValue::Integer(_) => {
                                integer = true;
                            },
                            SelectorValue::String(_) => {
                                string = true;
                            },
                        }
                    }
                    p = p + 1;
                }
                i = i + 1;
            }
        },
    }
    (integer, string)
}

/// Some axis named `key` lists `value`.
pub open spec fn axes_list(axes: Seq<SelectorAxis>, key: Seq<char>, value: SelectorValueView) -> bool {
    exists|a: int, j: int|
        0 <= a < axes.len() && 0 <= j < axes[a].1@.len() && axes[a].0@ == key && axes[a].1@[j]@
            == value
}

fn axis_lists(axes: &Vec<SelectorAxis>, key: &str, value: &SelectorValue) -> (r: bool)
    ensures
        r == axes_list(axes@, key@, value@),
{
    let mut a: usize = 0;
    while a < axes.len()
        invariant
            a <= axes@.len(),
            forall|b: int, j: int|
                0 <= b < a && 0 <= j < axes@[b].1@.len() && axes@[b].0@ == key@ ==> axes@[b].1@[j]@
                    != value@,
        decreases axes@.len() - a,
    {
        if same_text(axes[a].0.as_str(), key) {
            let mut j: usize = 0;
            while j < axes[a].1.len()
                invariant
                    a < axes@.len(),
                    axes@[a as int].0@ == key@,
                    j <= axes@[a as int].1@.len(),
                    forall|b: int, k: int|
                        ((0 <= b < a && 0 <= k < axes@[b].1@.len()) || (b == a && 0 <= k < j))
                            && axes@[b].0@ == key@ ==> axes@[b].1@[k]@ != value@,
                decreases axes@[a as int].1@.len() - j,
            {
                if same_value(&axes[a].1[j], value) {
                    assert(axes@[a as int].1@[j as int]@ == value@);
                    return true;
                }
                j = j + 1;
            }
        }
        a = a + 1;
    }
    false
}

/// Whether `sel` is one of the universe's identities.
fn universe_contains(u: &SelectorUniverse, sel: &SelectorIdentity) -> (r: bool)
    ensures
        r == in_universe(*u, sel@),
{
    match u {
        SelectorUniverse::Cartesian { axes } => {
            if sel.len() != axes.len() {
                return false;
            }
            let mut p: usize = 0;
            while p < sel.len()
                invariant
                    *u == (SelectorUniverse::Cartesian { axes: *axes }),
                    sel@.len() == axes@.len(),
                    p <= sel@.len(),
                    forall|q: int| 0 <= q < p ==> axes_list(axes@, sel@[q].0@, #[trigger] sel@[q].1@),
                decreases sel@.len() - p,
            {
                if !axis_lists(axes, sel[p].0.as_str(), &sel[p].1) {
                    assert(!axes_list(axes@, sel@[p as int].0@, sel@[p as int].1@));
                    return false;
                }
                p = p + 1;
            }
            true
        },
        SelectorUniverse::Explicit { identities } => {
            let r = identities_contain(identities.as_slice(), sel);
            assert(r == in_universe(*u, sel@));
            r
        },
    }
}

/// Whether `sel` is one of `ids`.
fn identities_contain(ids: &[SelectorIdentity], sel: &SelectorIdentity) -> (r: bool)
    ensures
        r == exists|i: int| 0 <= i < ids@.len() && identity_view(ids@[i]@) == identity_view(sel@),
{
    let mut i: usize = 0;
    while i < ids.len()
        invariant
            i <= ids@.len(),
            forall|k: int| 0 <= k < i ==> identity_view(ids@[k]@) != identity_view(sel@),
        decreases ids@.len() - i,
    {
        if same_identity(&ids[i], sel) {
            return true;
        }
        i = i + 1;
    }
    false
}

/// Whether two key lists are the same.
fn same_key_lists(a: &[String], b: &[String]) -> (r: bool)
    ensures
        r == (texts(a@) == texts(b@)),
{
    if a.len() != b.len() {
        assert(texts(a@).len() != texts(b@).len());
        return false;
    }
    let mut k: usize = 0;
    while k < a.len()
        invariant
            a@.len() == b@.len(),
            k <= a@.len(),
            forall|m: int| 0 <= m < k ==> (#[trigger] a@[m])@ == b@[m]@,
        decreases a@.len() - k,
    {
        if !same_text(a[k].as_str(), b[k].as_str()) {
            assert(texts(a@)[k as int] != texts(b@)[k as int]);
            return false;
        }
        k = k + 1;
    }
    assert(texts(a@) =~= texts(b@));
    true
}

/// `integer` or `string`.
fn value_type_name(v: &SelectorValue) -> (s: &'static str)
    ensures
        s@ == type_name_text(v@),
{
    match v {
        SelectorValue::Integer(_) => "integer",
        SelectorValue::String(_) => "string",
    }
}

/// How a set of value types is described.
fn type_set_name(integer: bool, string: bool) -> (s: &'static str)
    ensures
        s@ == type_set_text(integer, string),
{
    if integer && !string {
        "integer"
    } else if !integer && string {
        "string"
    } else if integer && string {
        "integer or string"
    } else {
        "no declared type"
    }
}

/// Check that an identity belongs to the declared universe: same keys,
/// values of the type a single-typed key uses, and a combination the
/// universe holds.
pub fn validate_identity_in_universe(
    label: &str,
    family_name: &str,
    selectors: &SelectorIdentity,
    universe: &SelectorUniverse,
) -> (r: Result<(), String>)
    ensures
        r is Err <==> universe_membership_error(label@, family_name@, selectors@, *universe) is Some,
        r matches Err(e) ==> e@ == universe_membership_error(
            label@,
            family_name@,
            selectors@,
            *universe,
        )->0,
{
    let actual = identity_keys(selectors);
    let declared = universe_key_list(universe);
    let same = same_key_lists(actual.as_slice(), declared.as_slice());
    if !same {
        let mut e = String::from_str(label);
        e.append(": selector keys ");
        e.append(format_key_list(actual.as_slice()).as_str());
        e.append(" do not match the declared universe keys ");
        e.append(format_key_list(declared.as_slice()).as_str());
        return Err(e);
    }
    let mut p: usize = 0;
    while p < selectors.len()
        invariant
            p <= selectors@.len(),
            keys_of(selectors@) == universe_keys(*universe),
            type_error(label@, *universe, selectors@, 0) == type_error(
                label@,
                *universe,
                selectors@,
                p as int,
            ),
        decreases selectors@.len() - p,
    {
        let key = selectors[p].0.as_str();
        let (integer, string) = key_types(universe, key);
        let is_int = match &selectors[p].1 {
            SelectorValue::Integer(_) => true,
            SelectorValue::String(_) => false,
        };
        if integer != string && (if is_int { !integer } else { !string }) {
            let mut e = String::from_str(label);
            e.append(": selector `");
            e.append(key);
            e.append("` has a ");
            e.append(value_type_name(&selectors[p].1));
            e.append(" value; the declared universe uses ");
            e.append(type_set_name(integer, string));
            assert(type_error(label@, *universe, selectors@, p as int) == Some(e@));
            return Err(e);
        }
        assert(type_error(label@, *universe, selectors@, p as int) == type_error(
            label@,
            *universe,
            selectors@,
            p + 1,
        ));
        p = p + 1;
    }
    if !universe_contains(universe, selectors) {
        let mut e = family_prefix_text(family_name);
        e.append(": selector identity ");
        e.append(format_selectors(selectors).as_str());
        e.append(" is outside the declared universe");
        return Err(e);
    }
    Ok(())
}

/// Check that members and family-scoped gaps together occupy exactly the
/// declared number of identities.
pub fn validate_completeness(
    family_name: &str,
    member_count: usize,
    gap_count: usize,
    identity_count: usize,
) -> (r: Result<(), String>)
    ensures
        member_count + gap_count > usize::MAX ==> (r matches Err(e) && e@ == family_prefix(
            family_name@,
        ) + ": selector occupancy count exceeds usize"@),
        member_count + gap_count <= usize::MAX && member_count + gap_count != identity_count
            ==> (r matches Err(e) && e@ == family_prefix(family_name@)
            + ": declared selector universe contains "@ + decimal_spec(identity_count as nat)
            + " identities, but members and family-scoped gaps occupy "@ + decimal_spec(
            (member_count + gap_count) as nat,
        )),
        member_count + gap_count == identity_count ==> r is Ok,
{
    let occupied = match member_count.checked_add(gap_count) {
        Some(n) => n,
        None => {
            let mut e = family_prefix_text(family_name);
            e.append(": selector occupancy count exceeds usize");
            return Err(e);
        },
    };
    if occupied != identity_count {
        let mut e = family_prefix_text(family_name);
        e.append(": declared selector universe contains ");
        e.append(decimal(identity_count as u64).as_str());
        e.append(" identities, but members and family-scoped gaps occupy ");
        e.append(decimal(occupied as u64).as_str());
        return Err(e);
    }
    Ok(())
}

/// The status name used in TOML.
pub open spec fn status_text(status: MemberStatus) -> Seq<char> {
    match status {
        MemberStatus::Emit => "emit"@,
        MemberStatus::Unnecessary => "unnecessary"@,
        MemberStatus::Unsupported => "unsupported"@,
        MemberStatus::Forbidden => "forbidden"@,
    }
}

/// Why a member's status and reason disagree, if they do: an emitted
/// member takes no reason, every other status needs a non-blank one.
pub open spec fn status_reason_error(
    label: Seq<char>,
    status: MemberStatus,
    reason: Option<Seq<char>>,
) -> Option<Seq<char>> {
    match status {
        MemberStatus::Emit => if reason is Some {
            Some(label + ": reason is forbidden for status = \"emit\""@)
        } else {
            None
        },
        _ => if reason is None || is_blank(reason->0) {
            Some(label + ": status = \""@ + status_text(status) + "\" requires a non-blank reason"@)
        } else {
            None
        },
    }
}

fn status_name(status: MemberStatus) -> (s: &'static str)
    ensures
        s@ == status_text(status),
{
    match status {
        MemberStatus::Emit => "emit",
        MemberStatus::Unnecessary => "unnecessary",
        MemberStatus::Unsupported => "unsupported",
        MemberStatus::Forbidden => "forbidden",
    }
}

/// Check that a member's reason fits its status.
pub fn validate_status_reason(label: &str, status: MemberStatus, reason: Option<&String>) -> (r:
    Result<(), String>)
    ensures
        r is Err <==> status_reason_error(
            label@,
            status,
            match reason {
                Some(t) => Some(t@),
                None => None,
            },
        ) is Some,
        r matches Err(e) ==> Some(e@) == status_reason_error(
            label@,
            status,
            match reason {
                Some(t) => Some(t@),
                None => None,
            },
        ),
{
    match status {
        MemberStatus::Emit => {
            if reason.is_some() {
                let mut e = String::from_str(label);
                e.append(": reason is forbidden for status = \"emit\"");
                return Err(e);
            }
        },
        _ => {
            let missing = match reason {
                Some(t) => blank(t.as_str()),
                None => true,
            };
            if missing {
                let mut e = String::from_str(label);
                e.append(": status = \"");
                e.append(status_name(status));
                e.append("\" requires a non-blank reason");
                return Err(e);
            }
        },
    }
    Ok(())
}

/// `transfer family `F` member <index>`
pub open spec fn member_label(f: Seq<char>, index: nat) -> Seq<char> {
    family_prefix(f) + " member "@ + decimal_spec(index)
}

/// Render a member's diagnostic label.
pub fn member_label_text(family_name: &str, index: usize) -> (s: String)
    ensures
        s@ == member_label(family_name@, index as nat),
{
    let mut s = family_prefix_text(family_name);
    s.append(" member ");
    s.append(decimal(index as u64).as_str());
    s
}

/// A selector value as it appears in a table name: an integer in
/// decimal, a string as written.
pub open spec fn token_text(v: SelectorValueView) -> Seq<char> {
    match v {
        SelectorValueView::Integer(i) => signed_decimal_spec(i as int),
        SelectorValueView::Text(t) => t,
    }
}

/// The name token of a selector value.
pub fn selector_token(v: &SelectorValue) -> (s: String)
    ensures
        s@ == token_text(v@),
{
    match v {
        SelectorValue::Integer(i) => signed_decimal(*i),
        SelectorValue::String(t) => t.clone(),
    }
}

/// `F_key1_value1_key2_value2...`
pub open spec fn expanded_text(f: Seq<char>, sel: Seq<(String, SelectorValue)>) -> Seq<char>
    decreases sel.len(),
{
    if sel.len() == 0 {
        f
    } else {
        expanded_text(f, sel.drop_last()) + "_"@ + sel.last().0@ + "_"@ + token_text(sel.last().1@)
    }
}

/// The table-name stem a member derives from its family and selectors.
pub fn expanded_name(family_name: &str, selectors: &SelectorIdentity) -> (r: Result<String, String>)
    ensures
        r matches Ok(n) && n@ == expanded_text(family_name@, selectors@),
{
    let mut name = String::from_str(family_name);
    let mut i: usize = 0;
    while i < selectors.len()
        invariant
            i <= selectors@.len(),
            name@ == expanded_text(family_name@, selectors@.subrange(0, i as int)),
        decreases selectors@.len() - i,
    {
        proof {
            let sub = selectors@.subrange(0, i + 1);
            assert(sub.drop_last() =~= selectors@.subrange(0, i as int));
            assert(sub.last() == selectors@[i as int]);
        }
        name.append("_");
        name.append(selectors[i].0.as_str());
        name.append("_");
        name.append(selector_token(&selectors[i].1).as_str());
        i = i + 1;
    }
    assert(selectors@.subrange(0, selectors@.len() as int) =~= selectors@);
    Ok(name)
}

/// The resolved table-name stem of a member: its explicit, non-blank
/// `emitted_name`, or the expansion of its selectors.
pub fn member_emitted_name(
    family_name: &str,
    emitted_name: Option<&String>,
    selectors: &SelectorIdentity,
) -> (r: Result<String, String>)
    ensures
        match emitted_name {
            Some(n) => if is_blank(n@) {
                r matches Err(e) && e@ == family_prefix(family_name@)
                    + ": emitted_name must not be blank"@
            } else {
                r matches Ok(m) && m@ == n@
            },
            None => r matches Ok(m) && m@ == expanded_text(family_name@, selectors@),
        },
{
    match emitted_name {
        Some(name) => if blank(name.as_str()) {
            let mut e = family_prefix_text(family_name);
            e.append(": emitted_name must not be blank");
            Err(e)
        } else {
            Ok(name.clone())
        },
        None => expanded_name(family_name, selectors),
    }
}

/// Check a member's observation window: it must be given, and its bounds
/// strictly increasing.
pub fn observation_window(label: &str, window: Option<[u16; 2]>) -> (r: Result<[u16; 2], String>)
    ensures
        window is None ==> (r matches Err(e) && e@ == label@
            + ": applicability.observation is required for this source"@),
        window matches Some(w) ==> (if w[0] >= w[1] {
            r matches Err(e) && e@ == label@
                + ": applicability.observation must be two strictly increasing values"@
        } else {
            r == Ok::<[u16; 2], String>(w)
        }),
{
    let w = match window {
        Some(w) => w,
        None => {
            let mut e = String::from_str(label);
            e.append(": applicability.observation is required for this source");
            return Err(e);
        },
    };
    if w[0] >= w[1] {
        let mut e = String::from_str(label);
        e.append(": applicability.observation must be two strictly increasing values");
        return Err(e);
    }
    Ok(w)
}

/// Universes of the same form whose axes, or identities, have the same
/// contents.
pub open spec fn same_universe(u: SelectorUniverse, v: SelectorUniverse) -> bool {
    match (u, v) {
        (SelectorUniverse::Cartesian { axes: a }, SelectorUniverse::Cartesian { axes: b }) =>
            axes_view(a@) == axes_view(b@),
        (
            SelectorUniverse::Explicit { identities: a },
            SelectorUniverse::Explicit { identities: b },
        ) => identities_view(a@) == identities_view(b@),
        _ => false,
    }
}

proof fn lemma_type_error_congruence(
    label: Seq<char>,
    u: SelectorUniverse,
    v: SelectorUniverse,
    sel: Seq<(String, SelectorValue)>,
    p: int,
)
    requires
        forall|k: Seq<char>, t: bool| key_has_type(u, k, t) == key_has_type(v, k, t),
    ensures
        type_error(label, u, sel, p) == type_error(label, v, sel, p),
    decreases sel.len() - p,
{
    if 0 <= p < sel.len() {
        lemma_type_error_congruence(label, u, v, sel, p + 1);
        let key = sel[p].0@;
        assert(key_has_type(u, key, true) == key_has_type(v, key, true));
        assert(key_has_type(u, key, false) == key_has_type(v, key, false));
    }
}

proof fn lemma_same_universe_one_way(u: SelectorUniverse, v: SelectorUniverse)
    requires
        same_universe(u, v),
    ensures
        universe_keys(u) == universe_keys(v),
        cardinality(u) == cardinality(v),
        forall|k: Seq<char>, t: bool| key_has_type(u, k, t) ==> key_has_type(v, k, t),
        forall|sel: Seq<(String, SelectorValue)>| in_universe(u, sel) ==> in_universe(v, sel),
{
    match (u, v) {
        (SelectorUniverse::Cartesian { axes: a }, SelectorUniverse::Cartesian { axes: b }) => {
            assert(a@.len() == axes_view(a@).len());
            assert(b@.len() == axes_view(b@).len());
            assert forall|x: int| 0 <= x < a@.len() implies a@[x].0@ == b@[x].0@ && a@[x].1@.len()
                == b@[x].1@.len() && forall|j: int|
                0 <= j < a@[x].1@.len() ==> a@[x].1@[j]@ == b@[x].1@[j]@ by {
                assert(axes_view(a@)[x] == axis_view(a@[x]));
                assert(axes_view(b@)[x] == axis_view(b@[x]));
                assert(axis_view(a@[x]) == axis_view(b@[x]));
                assert(axis_view(a@[x]).1.len() == a@[x].1@.len());
                assert(axis_view(b@[x]).1.len() == b@[x].1@.len());
                assert forall|j: int| 0 <= j < a@[x].1@.len() implies a@[x].1@[j]@ == b@[x].1@[j]@ by {
                    assert(axis_view(a@[x]).1[j] == a@[x].1@[j]@);
                    assert(axis_view(b@[x]).1[j] == b@[x].1@[j]@);
                }
            }
            assert(universe_keys(u) =~= universe_keys(v));
            lemma_same_axes_same_lens(a@, b@);
            assert forall|k: Seq<char>, t: bool| key_has_type(u, k, t) implies key_has_type(
                v,
                k,
                t,
            ) by {
                let (x, j) = choose|x: int, j: int|
                    0 <= x < a@.len() && 0 <= j < a@[x].1@.len() && a@[x].0@ == k && (
                    a@[x].1@[j] is Integer) == t;
                assert(a@[x].1@[j]@ == b@[x].1@[j]@);
                assert((b@[x].1@[j] is Integer) == t);
            }
            assert forall|sel: Seq<(String, SelectorValue)>| in_universe(u, sel) implies in_universe(
                v,
                sel,
            ) by {
                assert forall|p: int| 0 <= p < sel.len() implies axes_list(
                    b@,
                    sel[p].0@,
                    #[trigger] sel[p].1@,
                ) by {
                    assert(axes_list(a@, sel[p].0@, sel[p].1@));
                    let (x, j) = choose|x: int, j: int|
                        0 <= x < a@.len() && 0 <= j < a@[x].1@.len() && a@[x].0@ == sel[p].0@
                            && a@[x].1@[j]@ == sel[p].1@;
                    assert(b@[x].1@[j]@ == sel[p].1@);
                }
            }
        },
        (
            SelectorUniverse::Explicit { identities: a },
            SelectorUniverse::Explicit { identities: b },
        ) => {
            assert(a@.len() == identities_view(a@).len());
            assert(b@.len() == identities_view(b@).len());
            assert forall|i: int| 0 <= i < a@.len() implies identity_view(a@[i]@) == identity_view(
                b@[i]@,
            ) by {
                assert(identities_view(a@)[i] == identity_view(a@[i]@));
                assert(identities_view(b@)[i] == identity_view(b@[i]@));
            }
            if a@.len() > 0 {
                assert(identity_view(a@[0]@) == identity_view(b@[0]@));
                assert(a@[0]@.len() == identity_view(a@[0]@).len());
                assert(b@[0]@.len() == identity_view(b@[0]@).len());
                assert forall|p: int| 0 <= p < a@[0]@.len() implies a@[0]@[p].0@ == b@[0]@[p].0@ by {
                    assert(identity_view(a@[0]@)[p] == identity_view(b@[0]@)[p]);
                }
                assert(keys_of(a@[0]@) =~= keys_of(b@[0]@));
            }
            assert forall|k: Seq<char>, t: bool| key_has_type(u, k, t) implies key_has_type(
                v,
                k,
                t,
            ) by {
                let (i, p) = choose|i: int, p: int|
                    0 <= i < a@.len() && 0 <= p < a@[i]@.len() && a@[i]@[p].0@ == k && (
                    a@[i]@[p].1 is Integer) == t;
                assert(identity_view(a@[i]@) == identity_view(b@[i]@));
                assert(identity_view(a@[i]@)[p] == identity_view(b@[i]@)[p]);
                assert(a@[i]@[p].1@ == b@[i]@[p].1@);
                assert((b@[i]@[p].1 is Integer) == t);
            }
            assert forall|sel: Seq<(String, SelectorValue)>| in_universe(u, sel) implies in_universe(
                v,
                sel,
            ) by {
                let i = choose|i: int|
                    0 <= i < a@.len() && identity_view(a@[i]@) == identity_view(sel);
                assert(identity_view(b@[i]@) == identity_view(sel));
            }
        },
        _ => {},
    }
}

/// Universes of the same form and contents admit the same identities,
/// report the same membership errors and expect the same number of
/// identities.
pub proof fn lemma_same_universe_same_membership(u: SelectorUniverse, v: SelectorUniverse)
    requires
        same_universe(u, v),
    ensures
        cardinality(u) == cardinality(v),
        forall|label: Seq<char>, f: Seq<char>, sel: Seq<(String, SelectorValue)>|
            #[trigger] universe_membership_error(label, f, sel, u) == universe_membership_error(
                label,
                f,
                sel,
                v,
            ),
{
    lemma_same_universe_one_way(u, v);
    assert(same_universe(v, u));
    lemma_same_universe_one_way(v, u);
    assert forall|label: Seq<char>, f: Seq<char>, sel: Seq<(String, SelectorValue)>|
        #[trigger] universe_membership_error(label, f, sel, u) == universe_membership_error(
            label,
            f,
            sel,
            v,
        ) by {
        lemma_type_error_congruence(label, u, v, sel, 0);
        assert(in_universe(u, sel) == in_universe(v, sel));
    }
}

} // verus!
