//! Transfer-family vocabulary: member and gap status, selector values and
//! the universe of selector identities a family is expected to cover.
//!
//! A Cartesian universe is enumerated lazily, like an odometer: the last
//! axis changes fastest, and only one position per axis is ever held, so a
//! universe whose cardinality overflows `usize` can still be walked.

use vstd::prelude::*;

use vstd::arithmetic::div_mod::{lemma_fundamental_div_mod, lemma_fundamental_div_mod_converse};

use super::super::text::{ascending_keys, text_less};
use super::provenance::{orphan, orphan_error, CitationView, SourceProvenance, SourceProvenanceOverride};

verus! {

/// Which kind of source a transfer declares.
#[derive(Clone, Copy, Debug, PartialEq, Eq, Structural)]
pub enum DeclaredSource {
    /// A formula over the observation.
    Formula,
    /// Physical control points.
    Points,
    /// A built-in host model.
    Model,
}

/// The declared source of a definition that sets the formula, points and
/// model flags given: exactly one must be set.
pub fn declared_source(formula: bool, points: bool, model: bool) -> (r: Option<DeclaredSource>)
    ensures
        r == (if formula && !points && !model {
            Some(DeclaredSource::Formula)
        } else if !formula && points && !model {
            Some(DeclaredSource::Points)
        } else if !formula && !points && model {
            Some(DeclaredSource::Model)
        } else {
            None
        }),
{
    match (formula, points, model) {
        (true, false, false) => Some(DeclaredSource::Formula),
        (false, true, false) => Some(DeclaredSource::Points),
        (false, false, true) => Some(DeclaredSource::Model),
        _ => None,
    }
}

/// Exact rational scale applied to a member's observation before the
/// shared model sees it.
#[derive(Debug, Clone, Copy, PartialEq, Eq, Structural)]
pub struct InputTransform {
    /// Numerator of the scale.
    pub numerator: u32,
    /// Denominator of the scale.
    pub denominator: u32,
}

/// What a family member's listed combination means.
#[derive(Debug, Clone, Copy, PartialEq, Eq, Structural)]
pub enum MemberStatus {
    /// Generate a transfer for this combination.
    Emit,
    /// The combination needs no table.
    Unnecessary,
    /// The combination has no source mapping.
    Unsupported,
    /// The combination has a source mapping but must not be used.
    Forbidden,
}

/// Whether a family covers its whole selector universe.
#[derive(Clone, Copy, Debug, PartialEq, Eq, Structural)]
pub enum FamilyCompleteness {
    /// Every expected identity is a member or a gap.
    Complete,
}

/// Why an identity is a gap.
#[derive(Debug, Clone, Copy, PartialEq, Eq, Structural)]
pub enum GapStatus {
    /// The source does not define this combination.
    Undefined,
}

/// A string or integer selector token.
#[derive(Clone, Debug, PartialEq, Eq, PartialOrd, Ord)]
pub enum SelectorValue {
    /// Integer selector token.
    Integer(i64),
    /// UTF-8 selector token.
    String(String),
}

/// The contents of a selector value.
pub ghost enum SelectorValueView {
    Integer(i64),
    Text(Seq<char>),
}

impl View for SelectorValue {
    type V = SelectorValueView;

    open spec fn view(&self) -> SelectorValueView {
        match self {
            SelectorValue::Integer(v) => SelectorValueView::Integer(*v),
            SelectorValue::String(s) => SelectorValueView::Text(s@),
        }
    }
}

/// Copy a selector value.
pub fn copy_value(v: &SelectorValue) -> (r: SelectorValue)
    ensures
        r@ == v@,
{
    match v {
        SelectorValue::Integer(i) => SelectorValue::Integer(*i),
        SelectorValue::String(s) => SelectorValue::String(s.clone()),
    }
}

/// One axis of a Cartesian universe: its name and allowed values in
/// declaration order.
pub type SelectorAxis = (String, Vec<SelectorValue>);

/// One selector identity: `(key, value)` pairs in key order.
pub type SelectorIdentity = Vec<(String, SelectorValue)>;

/// Declared expected selector identities for one family.
///
/// Cartesian axes expand to their product; axes are listed in ascending name
/// order with distinct names, as a sorted map would hold them. Explicit
/// identities are the universe as written.
#[derive(Clone, Debug, PartialEq, Eq)]
pub enum SelectorUniverse {
    /// Named axes whose Cartesian product is expected.
    Cartesian {
        /// Axes in name order.
        axes: Vec<SelectorAxis>,
    },
    /// Explicit expected selector maps for a non-Cartesian family.
    Explicit {
        /// Expected identities in declaration order.
        identities: Vec<SelectorIdentity>,
    },
}

/// Number of values on each axis.
pub open spec fn axis_lens(axes: Seq<SelectorAxis>) -> Seq<nat> {
    Seq::new(axes.len(), |a: int| axes[a].1@.len())
}

/// Product of the axis lengths (1 for no axes).
pub open spec fn product(lens: Seq<nat>) -> nat
    decreases lens.len(),
{
    if lens.len() == 0 {
        1
    } else {
        product(lens.drop_last()) * lens.last()
    }
}

/// Mixed-radix digits of `n`, the last axis the least significant.
pub open spec fn digits(n: nat, lens: Seq<nat>) -> Seq<nat>
    decreases lens.len(),
{
    if lens.len() == 0 {
        Seq::empty()
    } else {
        digits(n / lens.last(), lens.drop_last()).push(n % lens.last())
    }
}

/// The contents of a selector identity.
pub open spec fn identity_view(id: Seq<(String, SelectorValue)>) -> Seq<(Seq<char>, SelectorValueView)> {
    Seq::new(id.len(), |i: int| (id[i].0@, id[i].1@))
}

/// The `n`-th identity of a Cartesian universe: each axis's name with the
/// value its digit selects.
pub open spec fn cartesian_identity(axes: Seq<SelectorAxis>, n: nat) -> Seq<
    (Seq<char>, SelectorValueView),
> {
    let d = digits(n, axis_lens(axes));
    Seq::new(axes.len(), |a: int| (axes[a].0@, axes[a].1@[d[a] as int]@))
}

/// Every axis has at least one value.
pub open spec fn no_empty_axis(lens: Seq<nat>) -> bool {
    forall|a: int| 0 <= a < lens.len() ==> lens[a] >= 1
}

/// The number of identities a universe expects.
pub open spec fn cardinality(u: SelectorUniverse) -> nat {
    match u {
        SelectorUniverse::Cartesian { axes } => product(axis_lens(axes@)),
        SelectorUniverse::Explicit { identities } => identities@.len(),
    }
}

/// The `n`-th identity a universe enumerates.
pub open spec fn identity_at(u: SelectorUniverse, n: nat) -> Seq<(Seq<char>, SelectorValueView)> {
    match u {
        SelectorUniverse::Cartesian { axes } => cartesian_identity(axes@, n),
        SelectorUniverse::Explicit { identities } => identity_view(identities@[n as int]@),
    }
}

/// Digits are in range and there is one per axis.
proof fn lemma_digits_bounds(n: nat, lens: Seq<nat>)
    requires
        no_empty_axis(lens),
    ensures
        digits(n, lens).len() == lens.len(),
        forall|a: int| 0 <= a < lens.len() ==> #[trigger] digits(n, lens)[a] < lens[a],
    decreases lens.len(),
{
    if lens.len() > 0 {
        let p = lens.drop_last();
        assert(no_empty_axis(p)) by {
            assert forall|a: int| 0 <= a < p.len() implies p[a] >= 1 by {
                assert(p[a] == lens[a]);
            }
        }
        lemma_digits_bounds(n / lens.last(), p);
        let d = digits(n, lens);
        assert(d == digits(n / lens.last(), p).push(n % lens.last()));
        assert forall|a: int| 0 <= a < lens.len() implies #[trigger] d[a] < lens[a] by {
            if a == lens.len() - 1 {
                assert(n % lens.last() < lens.last());
            } else {
                assert(d[a] == digits(n / lens.last(), p)[a]);
                assert(p[a] == lens[a]);
            }
        }
    }
}

/// The first identity has every digit zero.
proof fn lemma_digits_zero(lens: Seq<nat>)
    requires
        no_empty_axis(lens),
    ensures
        digits(0, lens) == Seq::new(lens.len(), |a: int| 0nat),
    decreases lens.len(),
{
    if lens.len() > 0 {
        let p = lens.drop_last();
        assert(no_empty_axis(p)) by {
            assert forall|a: int| 0 <= a < p.len() implies p[a] >= 1 by {
                assert(p[a] == lens[a]);
            }
        }
        assert(0nat / lens.last() == 0 && 0nat % lens.last() == 0);
        lemma_digits_zero(p);
        assert(digits(0, lens) =~= Seq::new(lens.len(), |a: int| 0nat));
    }
}

/// A product of lengths that are all at least one is at least one.
proof fn lemma_product_positive(lens: Seq<nat>)
    requires
        no_empty_axis(lens),
    ensures
        product(lens) >= 1,
    decreases lens.len(),
{
    if lens.len() > 0 {
        let p = lens.drop_last();
        assert(no_empty_axis(p)) by {
            assert forall|a: int| 0 <= a < p.len() implies p[a] >= 1 by {
                assert(p[a] == lens[a]);
            }
        }
        lemma_product_positive(p);
        assert(product(p) * lens.last() >= 1) by (nonlinear_arith)
            requires
                product(p) >= 1,
                lens.last() >= 1,
        ;
    }
}

/// Odometer step: when digit `j` is below its maximum and every later digit
/// is at its maximum, the next identity bumps digit `j` and zeroes the rest.
proof fn lemma_digits_succ(n: nat, lens: Seq<nat>, j: int)
    requires
        no_empty_axis(lens),
        n < product(lens),
        0 <= j < lens.len(),
        digits(n, lens)[j] + 1 < lens[j],
        forall|b: int| j < b < lens.len() ==> #[trigger] digits(n, lens)[b] + 1 == lens[b],
    ensures
        n + 1 < product(lens),
        digits(n + 1, lens) == Seq::new(
            lens.len(),
            |b: int|
                if b < j {
                    digits(n, lens)[b]
                } else if b == j {
                    digits(n, lens)[j] + 1
                } else {
                    0nat
                },
        ),
    decreases lens.len(),
{
    let len = lens.len();
    let l = lens.last();
    let p = lens.drop_last();
    let q = n / l;
    let r = n % l;
    assert(no_empty_axis(p)) by {
        assert forall|a: int| 0 <= a < p.len() implies p[a] >= 1 by {
            assert(p[a] == lens[a]);
        }
    }
    lemma_fundamental_div_mod(n as int, l as int);
    assert(q < product(p)) by (nonlinear_arith)
        requires
            n == l * q + r,
            0 <= r,
            n < product(p) * l,
            l >= 1,
            q >= 0,
    ;
    lemma_digits_bounds(q, p);
    let dn = digits(n, lens);
    assert(dn == digits(q, p).push(r));
    assert(dn[len - 1] == r);
    assert(lens[len - 1] == l);
    if j == len - 1 {
        assert(r + 1 < l);
        lemma_fundamental_div_mod_converse((n + 1) as int, l as int, q as int, (r + 1) as int);
        assert(digits((n + 1) as nat, lens) == digits(q, p).push((r + 1) as nat));
        assert(n + 1 < product(lens)) by (nonlinear_arith)
            requires
                n + 1 == q * l + r + 1,
                r + 1 < l,
                q + 1 <= product(p),
                product(lens) == product(p) * l,
        ;
        assert(digits((n + 1) as nat, lens) =~= Seq::new(
            lens.len(),
            |b: int|
                if b < j {
                    dn[b]
                } else if b == j {
                    dn[j] + 1
                } else {
                    0nat
                },
        ));
    } else {
        assert(dn[len - 1] + 1 == lens[len - 1]);
        assert(r + 1 == l);
        let dq = digits(q, p);
        assert forall|b: int| j < b < p.len() implies #[trigger] dq[b] + 1 == p[b] by {
            assert(dq[b] == dn[b]);
            assert(dn[b] + 1 == lens[b]);
        }
        assert(dq[j] == dn[j]);
        lemma_digits_succ(q, p, j);
        assert(n + 1 == (q + 1) * l) by (nonlinear_arith)
            requires
                n == l * q + r,
                r + 1 == l,
        ;
        lemma_fundamental_div_mod_converse((n + 1) as int, l as int, (q + 1) as int, 0);
        assert(digits((n + 1) as nat, lens) == digits((q + 1) as nat, p).push(0nat));
        assert(n + 1 < product(lens)) by (nonlinear_arith)
            requires
                n + 1 == (q + 1) * l,
                q + 2 <= product(p),
                l >= 1,
                product(lens) == product(p) * l,
        ;
        assert(digits((n + 1) as nat, lens) =~= Seq::new(
            lens.len(),
            |b: int|
                if b < j {
                    dn[b]
                } else if b == j {
                    dn[j] + 1
                } else {
                    0nat
                },
        ));
    }
}

/// When every digit is at its maximum the identity is the last one.
proof fn lemma_digits_all_max(n: nat, lens: Seq<nat>)
    requires
        no_empty_axis(lens),
        n < product(lens),
        forall|b: int| 0 <= b < lens.len() ==> #[trigger] digits(n, lens)[b] + 1 == lens[b],
    ensures
        n + 1 == product(lens),
    decreases lens.len(),
{
    if lens.len() > 0 {
        let l = lens.last();
        let p = lens.drop_last();
        let q = n / l;
        let r = n % l;
        assert(no_empty_axis(p)) by {
            assert forall|a: int| 0 <= a < p.len() implies p[a] >= 1 by {
                assert(p[a] == lens[a]);
            }
        }
        lemma_fundamental_div_mod(n as int, l as int);
        lemma_digits_bounds(q, p);
        let dn = digits(n, lens);
        assert(dn == digits(q, p).push(r));
        assert(dn[lens.len() - 1] == r);
        assert(dn[lens.len() - 1] + 1 == lens[lens.len() - 1]);
        assert(q < product(p)) by (nonlinear_arith)
            requires
                n == l * q + r,
                0 <= r,
                n < product(p) * l,
                l >= 1,
                q >= 0,
        ;
        assert forall|b: int| 0 <= b < p.len() implies #[trigger] digits(q, p)[b] + 1 == p[b] by {
            assert(digits(q, p)[b] == dn[b]);
            assert(dn[b] + 1 == lens[b]);
        }
        lemma_digits_all_max(q, p);
        assert(n + 1 == product(lens)) by (nonlinear_arith)
            requires
                n == l * q + r,
                r + 1 == l,
                q + 1 == product(p),
                product(lens) == product(p) * l,
        ;
    }
}


/// The number whose mixed-radix digits are `d`.
pub open spec fn radix_value(d: Seq<nat>, lens: Seq<nat>) -> int
    decreases d.len(),
{
    if d.len() == 0 || lens.len() == 0 {
        0
    } else {
        radix_value(d.drop_last(), lens.drop_last()) * lens.last() + d.last()
    }
}

/// Digits read back give the number they were taken from.
proof fn lemma_digits_round_trip(n: nat, lens: Seq<nat>)
    requires
        no_empty_axis(lens),
        n < product(lens),
    ensures
        radix_value(digits(n, lens), lens) == n,
    decreases lens.len(),
{
    if lens.len() > 0 {
        let l = lens.last();
        let p = lens.drop_last();
        let q = n / l;
        assert(no_empty_axis(p)) by {
            assert forall|a: int| 0 <= a < p.len() implies p[a] >= 1 by {
                assert(p[a] == lens[a]);
            }
        }
        lemma_fundamental_div_mod(n as int, l as int);
        assert(q < product(p)) by (nonlinear_arith)
            requires
                n == l * q + n % l,
                0 <= n % l,
                n < product(p) * l,
                l >= 1,
                q >= 0,
        ;
        lemma_digits_round_trip(q, p);
        lemma_digits_bounds(q, p);
        let d = digits(n, lens);
        assert(d.drop_last() =~= digits(q, p));
        assert(d.last() == n % l);
        assert(radix_value(d, lens) == q * l + n % l);
    }
}

/// The Cartesian enumeration visits each identity once: when no axis
/// lists a value twice, distinct positions below the cardinality give
/// distinct identities.
pub proof fn lemma_cartesian_identities_distinct(axes: Seq<SelectorAxis>, n1: nat, n2: nat)
    requires
        forall|a: int, j: int, k: int|
            0 <= a < axes.len() && 0 <= j < k < axes[a].1@.len() ==> axes[a].1@[j]@
                != axes[a].1@[k]@,
        n1 < product(axis_lens(axes)),
        n2 < product(axis_lens(axes)),
        n1 != n2,
    ensures
        cartesian_identity(axes, n1) != cartesian_identity(axes, n2),
{
    let lens = axis_lens(axes);
    assert(no_empty_axis(lens)) by {
        assert forall|a: int| 0 <= a < lens.len() implies lens[a] >= 1 by {
            if lens[a] == 0 {
                lemma_product_has_zero(lens, a);
            }
        }
    }
    lemma_digits_bounds(n1, lens);
    lemma_digits_bounds(n2, lens);
    lemma_digits_round_trip(n1, lens);
    lemma_digits_round_trip(n2, lens);
    let d1 = digits(n1, lens);
    let d2 = digits(n2, lens);
    assert(d1 != d2);
    assert(exists|a: int| 0 <= a < d1.len() && d1[a] != d2[a]) by {
        if forall|a: int| 0 <= a < d1.len() ==> d1[a] == d2[a] {
            assert(d1 =~= d2);
        }
    }
    let a = choose|a: int| 0 <= a < d1.len() && d1[a] != d2[a];
    assert(d1[a] < lens[a] && d2[a] < lens[a]);
    let i1 = cartesian_identity(axes, n1);
    let i2 = cartesian_identity(axes, n2);
    assert(i1[a].1 == axes[a].1@[d1[a] as int]@);
    assert(i2[a].1 == axes[a].1@[d2[a] as int]@);
    if d1[a] < d2[a] {
        assert(axes[a].1@[d1[a] as int]@ != axes[a].1@[d2[a] as int]@);
    } else {
        assert(axes[a].1@[d2[a] as int]@ != axes[a].1@[d1[a] as int]@);
    }
    assert(i1[a] != i2[a]);
}

/// Digits within their ranges come back from the number they encode, and
/// that number lies below the product of the ranges.
proof fn lemma_radix_round_trip(d: Seq<nat>, lens: Seq<nat>)
    requires
        d.len() == lens.len(),
        forall|a: int| 0 <= a < d.len() ==> #[trigger] d[a] < lens[a],
    ensures
        0 <= radix_value(d, lens) < product(lens),
        digits(radix_value(d, lens) as nat, lens) == d,
    decreases d.len(),
{
    if d.len() == 0 {
        assert(digits(0, lens) =~= d);
    } else {
        let p = lens.drop_last();
        let e = d.drop_last();
        let l = lens.last();
        let r = d.last();
        assert forall|a: int| 0 <= a < e.len() implies #[trigger] e[a] < p[a] by {
            assert(e[a] == d[a] && p[a] == lens[a]);
        }
        lemma_radix_round_trip(e, p);
        let m = radix_value(e, p);
        let n = radix_value(d, lens);
        assert(n == m * l + r);
        assert(r < l) by {
            assert(d[d.len() - 1] < lens[lens.len() - 1]);
        }
        assert(0 <= n < product(p) * l) by (nonlinear_arith)
            requires
                n == m * l + r,
                0 <= m < product(p),
                0 <= r < l,
        ;
        lemma_fundamental_div_mod_converse(n, l as int, m, r as int);
        assert(digits(n as nat, lens) == digits(m as nat, p).push((n as nat) % l));
        assert(digits(n as nat, lens) =~= d);
    }
}

/// Axis `p` lists value `v`.
pub open spec fn axis_has_value(axes: Seq<SelectorAxis>, p: int, v: SelectorValueView) -> bool {
    exists|j: int| 0 <= j < axes[p].1@.len() && axes[p].1@[j]@ == v
}

/// An identity that names every axis in order, each with one of that
/// axis's values, is one of the Cartesian identities.
pub proof fn lemma_cartesian_position(axes: Seq<SelectorAxis>, sel: Seq<(String, SelectorValue)>)
    requires
        sel.len() == axes.len(),
        forall|p: int| 0 <= p < axes.len() ==> sel[p].0@ == axes[p].0@,
        forall|p: int| 0 <= p < axes.len() ==> #[trigger] axis_has_value(axes, p, sel[p].1@),
    ensures
        exists|n: nat|
            n < product(axis_lens(axes)) && cartesian_identity(axes, n) == identity_view(sel),
{
    let lens = axis_lens(axes);
    let d = Seq::new(
        axes.len(),
        |p: int|
            (choose|j: int| 0 <= j < axes[p].1@.len() && axes[p].1@[j]@ == sel[p].1@) as nat,
    );
    assert forall|p: int| 0 <= p < d.len() implies #[trigger] d[p] < lens[p] && axes[p].1@[
        d[p] as int
    ]@ == sel[p].1@ by {
        assert(axis_has_value(axes, p, sel[p].1@));
    }
    lemma_radix_round_trip(d, lens);
    let n = radix_value(d, lens) as nat;
    assert(digits(n, lens) == d);
    assert(cartesian_identity(axes, n) =~= identity_view(sel));
}

/// Every identity of the universe lists its keys in ascending order, as a
/// map does: the axes are named in ascending order, or each explicit
/// identity lists its keys so.
pub open spec fn universe_keys_ascending(u: SelectorUniverse) -> bool {
    match u {
        SelectorUniverse::Cartesian { axes } => ascending_keys(axes@),
        SelectorUniverse::Explicit { identities } => forall|i: int|
            0 <= i < identities@.len() ==> ascending_keys((#[trigger] identities@[i])@),
    }
}

/// The identities a universe with ascending keys yields list their keys in
/// ascending order, and so hold no key twice.
pub proof fn lemma_identity_keys_ascending(u: SelectorUniverse, n: nat, id: Seq<(String, SelectorValue)>)
    requires
        universe_keys_ascending(u),
        n < cardinality(u),
        identity_view(id) == identity_at(u, n),
    ensures
        ascending_keys(id),
{
    assert forall|i: int, j: int| 0 <= i < j < id.len() implies text_less(
        #[trigger] id[i].0@,
        #[trigger] id[j].0@,
    ) by {
        assert(identity_view(id)[i].0 == id[i].0@);
        assert(identity_view(id)[j].0 == id[j].0@);
        match u {
            SelectorUniverse::Cartesian { axes } => {
                let c = cartesian_identity(axes@, n);
                assert(identity_at(u, n) == c);
                assert(c.len() == axes@.len());
                assert(id.len() == identity_view(id).len());
                assert(c[i].0 == axes@[i].0@);
                assert(c[j].0 == axes@[j].0@);
            },
            SelectorUniverse::Explicit { identities } => {
                let e = identities@[n as int]@;
                assert(cardinality(u) == identities@.len());
                assert(ascending_keys(e));
                assert(identity_at(u, n) == identity_view(e));
                assert(identity_view(e).len() == e.len());
                assert(id.len() == identity_view(id).len());
                assert(identity_view(e)[i].0 == e[i].0@);
                assert(identity_view(e)[j].0 == e[j].0@);
            },
        }
    }
}

impl SelectorUniverse {
    /// Lazily enumerate every expected selector identity: Cartesian
    /// identities in axis order with the last axis changing fastest,
    /// explicit identities in declaration order.
    pub fn identities(&self) -> (it: SelectorIdentities<'_>)
        requires
            universe_keys_ascending(*self),
        ensures
            it.wf(),
            it.universe() == *self,
            it.emitted() == 0,
    {
        match self {
            SelectorUniverse::Cartesian { axes } => {
                let mut finished = false;
                let mut positions: Vec<usize> = Vec::new();
                let mut a: usize = 0;
                while a < axes.len()
                    invariant
                        a <= axes@.len(),
                        positions@.len() == a,
                        forall|b: int| 0 <= b < a ==> positions@[b] == 0,
                        finished <==> exists|b: int| 0 <= b < a && axes@[b].1@.len() == 0,
                    decreases axes@.len() - a,
                {
                    if axes[a].1.len() == 0 {
                        finished = true;
                    }
                    positions.push(0);
                    a = a + 1;
                }
                let lens = Ghost(axis_lens(axes@));
                proof {
                    if finished {
                        let b = choose|b: int| 0 <= b < axes@.len() && axes@[b].1@.len() == 0;
                        assert(lens@[b] == 0);
                        lemma_product_has_zero(lens@, b);
                    } else {
                        assert(no_empty_axis(lens@)) by {
                            assert forall|b: int| 0 <= b < lens@.len() implies lens@[b] >= 1 by {
                                assert(axes@[b].1@.len() != 0);
                            }
                        }
                        lemma_product_positive(lens@);
                        lemma_digits_zero(lens@);
                        assert(positions@ =~= Seq::new(axes@.len(), |b: int| 0usize));
                    }
                }
                SelectorIdentities {
                    universe: self,
                    positions,
                    next_explicit: 0,
                    finished,
                    count: Ghost(0),
                }
            },
            SelectorUniverse::Explicit { identities } => SelectorIdentities {
                universe: self,
                positions: Vec::new(),
                next_explicit: 0,
                finished: identities.len() == 0,
                count: Ghost(0),
            },
        }
    }

    /// Checked number of expected identities: the list length for an
    /// explicit universe; for a Cartesian one zero when some axis is empty,
    /// otherwise the product of the axis lengths, or `None` when that
    /// product does not fit `usize`.
    pub fn identity_count(&self) -> (r: Option<usize>)
        ensures
            r == (if cardinality(*self) <= usize::MAX {
                Some(cardinality(*self) as usize)
            } else {
                None::<usize>
            }),
    {
        match self {
            SelectorUniverse::Cartesian { axes } => {
                let lens = Ghost(axis_lens(axes@));
                assert(cardinality(*self) == product(lens@));
                let mut a: usize = 0;
                while a < axes.len()
                    invariant
                        a <= axes@.len(),
                        lens@ == axis_lens(axes@),
                        cardinality(*self) == product(lens@),
                        forall|b: int| 0 <= b < a ==> lens@[b] >= 1,
                    decreases axes@.len() - a,
                {
                    if axes[a].1.len() == 0 {
                        proof {
                            assert(lens@[a as int] == 0);
                            lemma_product_has_zero(lens@, a as int);
                        }
                        return Some(0);
                    }
                    a = a + 1;
                }
                let mut count: usize = 1;
                let mut a: usize = 0;
                while a < axes.len()
                    invariant
                        a <= axes@.len(),
                        lens@ == axis_lens(axes@),
                        cardinality(*self) == product(lens@),
                        no_empty_axis(lens@),
                        count == product(lens@.subrange(0, a as int)),
                    decreases axes@.len() - a,
                {
                    let n = axes[a].1.len();
                    let ghost pre = lens@.subrange(0, a as int);
                    assert(lens@.subrange(0, a + 1).drop_last() =~= pre);
                    assert(lens@.subrange(0, a + 1).last() == n);
                    assert(product(lens@.subrange(0, a + 1)) == count * n);
                    match count.checked_mul(n) {
                        Some(c) => {
                            count = c;
                        },
                        None => {
                            proof {
                                lemma_product_prefix_bound(lens@, (a + 1) as int);
                                assert(lens@.subrange(0, lens@.len() as int) =~= lens@);
                            }
                            return None;
                        },
                    }
                    a = a + 1;
                }
                assert(lens@.subrange(0, axes@.len() as int) =~= lens@);
                Some(count)
            },
            SelectorUniverse::Explicit { identities } => Some(identities.len()),
        }
    }
}

/// A zero-length axis makes the product zero.
proof fn lemma_product_has_zero(lens: Seq<nat>, z: int)
    requires
        0 <= z < lens.len(),
        lens[z] == 0,
    ensures
        product(lens) == 0,
    decreases lens.len(),
{
    let p = lens.drop_last();
    if z == lens.len() - 1 {
        assert(product(p) * 0 == 0);
    } else {
        assert(p[z] == lens[z]);
        lemma_product_has_zero(p, z);
        assert(0 * lens.last() == 0);
    }
}

/// With no empty axis, a prefix product never exceeds the whole product.
proof fn lemma_product_prefix_bound(lens: Seq<nat>, k: int)
    requires
        no_empty_axis(lens),
        0 <= k <= lens.len(),
    ensures
        product(lens.subrange(0, k)) <= product(lens),
    decreases lens.len() - k,
{
    if k < lens.len() {
        lemma_product_prefix_bound(lens, k + 1);
        let s = lens.subrange(0, k + 1);
        assert(s.drop_last() =~= lens.subrange(0, k));
        assert(s.last() == lens[k]);
        assert(product(lens.subrange(0, k)) <= product(s)) by (nonlinear_arith)
            requires
                product(s) == product(lens.subrange(0, k)) * lens[k],
                lens[k] >= 1,
        ;
    } else {
        assert(lens.subrange(0, k) =~= lens);
    }
}

/// Lazy iterator over a selector universe's expected identities. It holds
/// one position per axis and never materializes the product.
pub struct SelectorIdentities<'a> {
    universe: &'a SelectorUniverse,
    positions: Vec<usize>,
    next_explicit: usize,
    finished: bool,
    count: Ghost<nat>,
}

impl<'a> SelectorIdentities<'a> {
    /// The universe being enumerated.
    pub closed spec fn universe(&self) -> SelectorUniverse {
        *self.universe
    }

    /// How many identities have been yielded so far.
    pub closed spec fn emitted(&self) -> nat {
        self.count@
    }

    /// The iterator's state matches the identities yielded so far.
    pub closed spec fn wf(&self) -> bool {
        &&& self.count@ <= cardinality(*self.universe)
        &&& self.finished <==> self.count@ == cardinality(*self.universe)
        &&& match *self.universe {
            SelectorUniverse::Cartesian { axes } => {
                &&& self.positions@.len() == axes@.len()
                &&& !self.finished ==> no_empty_axis(axis_lens(axes@))
                &&& !self.finished ==> forall|a: int|
                    0 <= a < axes@.len() ==> self.positions@[a] == digits(
                        self.count@,
                        axis_lens(axes@),
                    )[a]
            },
            SelectorUniverse::Explicit { identities } => self.next_explicit == self.count@,
        }
    }

    /// Yield the next identity, or `None` once every identity of the
    /// universe has been yielded.
    pub fn next(&mut self) -> (item: Option<SelectorIdentity>)
        requires
            old(self).wf(),
        ensures
            final(self).wf(),
            final(self).universe() == old(self).universe(),
            old(self).emitted() < cardinality(old(self).universe()) ==> (item matches Some(id)
                && identity_view(id@) == identity_at(old(self).universe(), old(self).emitted())
                && final(self).emitted() == old(self).emitted() + 1),
            old(self).emitted() == cardinality(old(self).universe()) ==> (item is None
                && final(self).emitted() == old(self).emitted()),
    {
        if self.finished {
            return None;
        }
        match self.universe {
            SelectorUniverse::Explicit { identities } => {
                let total = identities.len();
                assert(self.next_explicit < total);
                let id = copy_identity(&identities[self.next_explicit]);
                self.next_explicit = self.next_explicit + 1;
                self.count = Ghost(self.count@ + 1);
                self.finished = self.next_explicit == identities.len();
                Some(id)
            },
            SelectorUniverse::Cartesian { axes } => {
                let ghost lens = axis_lens(axes@);
                let ghost n = self.count@;
                proof {
                    lemma_digits_bounds(n, lens);
                }
                let mut identity: SelectorIdentity = Vec::new();
                let mut a: usize = 0;
                while a < axes.len()
                    invariant
                        a <= axes@.len(),
                        lens == axis_lens(axes@),
                        no_empty_axis(lens),
                        digits(n, lens).len() == lens.len(),
                        self.positions@.len() == axes@.len(),
                        forall|b: int| 0 <= b < axes@.len() ==> self.positions@[b] == digits(n, lens)[b],
                        forall|b: int| 0 <= b < axes@.len() ==> #[trigger] digits(n, lens)[b] < lens[b],
                        identity@.len() == a,
                        forall|b: int| 0 <= b < a ==> (#[trigger] identity@[b]).0@ == axes@[b].0@
                            && identity@[b].1@ == axes@[b].1@[digits(n, lens)[b] as int]@,
                    decreases axes@.len() - a,
                {
                    let p = self.positions[a];
                    assert(p < axes@[a as int].1@.len()) by {
                        assert(lens[a as int] == axes@[a as int].1@.len());
                        assert(digits(n, lens)[a as int] < lens[a as int]);
                    }
                    let name = axes[a].0.clone();
                    let value = copy_value(&axes[a].1[p]);
                    identity.push((name, value));
                    a = a + 1;
                }
                assert(identity_view(identity@) =~= cartesian_identity(axes@, n));
                let len = axes.len();
                let mut a: usize = len;
                while a > 0
                    invariant
                        a <= len == axes@.len(),
                        lens == axis_lens(axes@),
                        no_empty_axis(lens),
                        n == self.count@,
                        n == old(self).emitted(),
                        n < product(lens),
                        !self.finished,
                        self.universe() == old(self).universe(),
                        identity_view(identity@) == cartesian_identity(axes@, n),
                        *self.universe == (SelectorUniverse::Cartesian { axes: *axes }),
                        self.positions@.len() == len,
                        digits(n, lens).len() == lens.len(),
                        forall|b: int| 0 <= b < a ==> self.positions@[b] == digits(n, lens)[b],
                        forall|b: int| a <= b < len ==> self.positions@[b] == 0,
                        forall|b: int| a <= b < len ==> #[trigger] digits(n, lens)[b] + 1 == lens[b],
                        forall|b: int| 0 <= b < len ==> #[trigger] digits(n, lens)[b] < lens[b],
                    decreases a,
                {
                    a = a - 1;
                    assert(self.positions@[a as int] < lens[a as int]) by {
                        assert(digits(n, lens)[a as int] < lens[a as int]);
                    }
                    let n_a = axes[a].1.len();
                    assert(lens[a as int] == n_a);
                    if self.positions[a] < n_a - 1 {
                        let next = self.positions[a] + 1;
                        self.positions.set(a, next);
                        proof {
                            lemma_digits_succ(n, lens, a as int);
                            assert forall|b: int| 0 <= b < len implies self.positions@[b] == digits(
                                n + 1,
                                lens,
                            )[b] by {}
                        }
                        self.count = Ghost(n + 1);
                        return Some(identity);
                    }
                    self.positions.set(a, 0);
                }
                proof {
                    lemma_digits_all_max(n, lens);
                }
                self.finished = true;
                self.count = Ghost(n + 1);
                Some(identity)
            },
        }
    }
}

/// Copy a selector identity.
pub fn copy_identity(id: &SelectorIdentity) -> (r: SelectorIdentity)
    ensures
        identity_view(r@) == identity_view(id@),
{
    let mut r: SelectorIdentity = Vec::new();
    let mut i: usize = 0;
    while i < id.len()
        invariant
            i <= id@.len(),
            r@.len() == i,
            forall|j: int| 0 <= j < i ==> (#[trigger] r@[j]).0@ == id@[j].0@ && r@[j].1@ == id@[j].1@,
        decreases id@.len() - i,
    {
        r.push((id[i].0.clone(), copy_value(&id[i].1)));
        i = i + 1;
    }
    assert(identity_view(r@) =~= identity_view(id@));
    r
}

/// A named gap in a family's selector universe.
#[derive(Debug, Clone)]
pub struct FamilyGapDef {
    /// The identity the gap covers.
    pub selectors: SelectorIdentity,
    /// Why the identity is a gap.
    pub status: GapStatus,
    /// Human-readable reason.
    pub reason: String,
    /// Citation override for the gap.
    pub provenance: Option<SourceProvenanceOverride>,
}

/// A global named gap.
#[derive(Debug, Clone)]
pub struct GapDef {
    /// Why the transfer is a gap.
    pub status: GapStatus,
    /// Human-readable reason.
    pub reason: String,
    /// Citation for the gap, resolved without a parent.
    pub provenance: Option<SourceProvenanceOverride>,
}

impl GapDef {
    /// The declared citation override, if any.
    pub fn provenance(&self) -> (r: Option<&SourceProvenanceOverride>)
        ensures
            r == match self.provenance {
                Some(p) => Some(&p),
                None => None::<&SourceProvenanceOverride>,
            },
    {
        match &self.provenance {
            Some(p) => Some(p),
            None => None,
        }
    }

    /// The citation, resolved on its own (no parent to inherit from).
    pub fn resolved_provenance(&self) -> (r: Result<Option<SourceProvenance>, String>)
        ensures
            self.provenance is None ==> r == Ok::<Option<SourceProvenance>, String>(None),
            self.provenance matches Some(o) ==> {
                &&& r is Ok <==> orphan_error(o@) is None
                &&& r matches Ok(Some(p)) ==> p@ == orphan(o@)
                &&& r matches Err(e) ==> e@ == orphan_error(o@)->0.text()
                &&& !(r matches Ok(None))
            },
    {
        match &self.provenance {
            Some(overlay) => match overlay.resolve(None) {
                Ok(p) => Ok(Some(p)),
                Err(e) => Err(e),
            },
            None => Ok(None),
        }
    }
}

} // verus!
