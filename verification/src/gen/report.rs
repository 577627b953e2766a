//! Generation report metrics and family aggregate resource budgets.

use vstd::prelude::*;

use super::text::{
    decimal, decimal_spec, join3, lemma_text_less_irreflexive, lemma_text_less_total,
    lemma_text_less_transitive, less_text, same_text, text_less,
};
use super::transfer::family::SelectorValue;
use super::transfer::validation::FamilyFields;

verus! {

/// Bytes of `_INPUTS` plus `_OUTPUTS` array payload per knot (`u16` +
/// `i32`). Structural runtime overhead is excluded.
pub const TABLE_BYTES_PER_KNOT: usize = 6;

/// Knot and array-payload totals for a family or a whole document.
#[derive(Clone, Copy, Debug, Default, PartialEq, Eq, Structural)]
pub struct ResourceTotals {
    /// Number of emitted transfers included in these totals.
    pub member_count: usize,
    /// Sum of knot counts.
    pub knot_count: usize,
    /// Sum of `_INPUTS` + `_OUTPUTS` array payload bytes.
    pub table_bytes: usize,
}

/// Aggregate metrics for one family's emitted members.
#[derive(Clone, Debug, PartialEq, Eq)]
pub struct FamilyReport {
    /// Family table name from the definitions document.
    pub name: String,
    /// Number of `status = "emit"` members included in `totals`.
    pub member_count: usize,
    /// Knot and payload totals for those emitted members.
    pub totals: ResourceTotals,
}

/// How a transfer was produced. Overlays replace the declared TOML source.
#[derive(Clone, Copy, Debug, PartialEq, Eq, Structural)]
pub enum GenerationPath {
    /// Declared formula over the observation-domain variable `x`.
    Formula,
    /// Sparse physical control points.
    PhysicalPoints,
    /// Built-in NTC Beta-divider model.
    NtcBetaDivider,
    /// Built-in scaled-polynomial model.
    ScaledPolynomial,
    /// Host-evaluated dense physical truth overlay.
    EvaluatedTruth,
    /// Caller-chosen knots verified against dense evaluated truth.
    PrefittedKnots,
}

/// Array payload of a table with `knot_count` knots.
pub fn table_bytes(knot_count: usize) -> (bytes: usize)
    requires
        knot_count * TABLE_BYTES_PER_KNOT <= usize::MAX,
    ensures
        bytes == knot_count * TABLE_BYTES_PER_KNOT,
{
    knot_count * TABLE_BYTES_PER_KNOT
}

impl ResourceTotals {
    /// Count one more emitted transfer with the given knots and payload.
    pub fn add_member(&mut self, knot_count: usize, table_bytes: usize)
        requires
            old(self).member_count < usize::MAX,
            old(self).knot_count + knot_count <= usize::MAX,
            old(self).table_bytes + table_bytes <= usize::MAX,
        ensures
            final(self).member_count == old(self).member_count + 1,
            final(self).knot_count == old(self).knot_count + knot_count,
            final(self).table_bytes == old(self).table_bytes + table_bytes,
    {
        self.member_count = self.member_count + 1;
        self.knot_count = self.knot_count + knot_count;
        self.table_bytes = self.table_bytes + table_bytes;
    }
}

/// Why a family's emitted members exceed its aggregate budgets, if they do:
/// the knot budget is checked before the byte budget.
pub open spec fn budget_error(
    name: Seq<char>,
    totals: ResourceTotals,
    max_total_knots: Option<usize>,
    max_table_bytes: Option<usize>,
) -> Option<Seq<char>> {
    if max_total_knots matches Some(limit) && totals.knot_count > limit {
        Some("transfer family `"@ + name + "`: max_total_knots="@ + decimal_spec(
            max_total_knots->0 as nat,
        ) + " exceeded: "@ + decimal_spec(totals.knot_count as nat) + " knots across "@
            + decimal_spec(totals.member_count as nat) + " emitted members"@)
    } else if max_table_bytes matches Some(limit) && totals.table_bytes > limit {
        Some("transfer family `"@ + name + "`: max_table_bytes="@ + decimal_spec(
            max_table_bytes->0 as nat,
        ) + " exceeded: "@ + decimal_spec(totals.table_bytes as nat)
            + " bytes array payload across "@ + decimal_spec(totals.member_count as nat)
            + " emitted members"@)
    } else {
        None
    }
}

/// Fail closed when a family's emitted members exceed its aggregate knot
/// or table-byte budget.
pub fn check_family_budget(
    name: &str,
    totals: ResourceTotals,
    max_total_knots: Option<usize>,
    max_table_bytes: Option<usize>,
) -> (r: Result<(), String>)
    ensures
        r is Err <==> budget_error(name@, totals, max_total_knots, max_table_bytes) is Some,
        r matches Err(e) ==> Some(e@) == budget_error(
            name@,
            totals,
            max_total_knots,
            max_table_bytes,
        ),
{
    if let Some(limit) = max_total_knots {
        if totals.knot_count > limit {
            let mut e = join3("transfer family `", name, "`: max_total_knots=");
            e.append(decimal(limit as u64).as_str());
            e.append(" exceeded: ");
            e.append(decimal(totals.knot_count as u64).as_str());
            e.append(" knots across ");
            e.append(decimal(totals.member_count as u64).as_str());
            e.append(" emitted members");
            return Err(e);
        }
    }
    if let Some(limit) = max_table_bytes {
        if totals.table_bytes > limit {
            let mut e = join3("transfer family `", name, "`: max_table_bytes=");
            e.append(decimal(limit as u64).as_str());
            e.append(" exceeded: ");
            e.append(decimal(totals.table_bytes as u64).as_str());
            e.append(" bytes array payload across ");
            e.append(decimal(totals.member_count as u64).as_str());
            e.append(" emitted members");
            return Err(e);
        }
    }
    Ok(())
}

/// Totals with nothing counted.
pub open spec fn no_totals() -> ResourceTotals {
    ResourceTotals { member_count: 0, knot_count: 0, table_bytes: 0 }
}

/// Some report entry is for family `name`.
pub open spec fn reports_family(reports: Seq<FamilyReport>, name: Seq<char>) -> bool {
    exists|i: int| 0 <= i < reports.len() && reports[i].name@ == name
}

/// The first report entry for family `name`.
pub open spec fn first_report(reports: Seq<FamilyReport>, name: Seq<char>) -> int {
    choose|i: int|
        0 <= i < reports.len() && reports[i].name@ == name && forall|j: int|
            0 <= j < i ==> reports[j].name@ != name
}

/// The totals reported for family `name`: those of its first entry, or
/// nothing counted when no member of it was emitted.
pub open spec fn totals_for(reports: Seq<FamilyReport>, name: Seq<char>) -> ResourceTotals {
    if reports_family(reports, name) {
        reports[first_report(reports, name)].totals
    } else {
        no_totals()
    }
}

/// The first family from `k` on whose reported totals exceed its budgets.
pub open spec fn budgets_error_from(
    families: Seq<(String, FamilyFields)>,
    reports: Seq<FamilyReport>,
    k: int,
) -> Option<Seq<char>>
    decreases families.len() - k,
{
    if k < 0 || k >= families.len() {
        None
    } else {
        let name = families[k].0@;
        let e = budget_error(
            name,
            totals_for(reports, name),
            families[k].1.max_total_knots,
            families[k].1.max_table_bytes,
        );
        if e is Some {
            e
        } else {
            budgets_error_from(families, reports, k + 1)
        }
    }
}

/// The reported totals of family `name`.
fn find_totals(reports: &[FamilyReport], name: &str) -> (t: ResourceTotals)
    ensures
        t == totals_for(reports@, name@),
{
    let mut i: usize = 0;
    while i < reports.len()
        invariant
            i <= reports@.len(),
            forall|j: int| 0 <= j < i ==> reports@[j].name@ != name@,
        decreases reports@.len() - i,
    {
        if same_text(reports[i].name.as_str(), name) {
            proof {
                let rs = reports@;
                assert(rs[i as int].name@ == name@);
                let first = first_report(rs, name@);
                assert(first == i) by {
                    if first < i {
                    } else if first > i {
                    }
                }
            }
            return reports[i].totals;
        }
        i = i + 1;
    }
    proof {
        if reports_family(reports@, name@) {
            let j = choose|j: int| 0 <= j < reports@.len() && reports@[j].name@ == name@;
            assert(reports@[j].name@ != name@);
        }
    }
    ResourceTotals { member_count: 0, knot_count: 0, table_bytes: 0 }
}

proof fn lemma_budgets_prefix(families: Seq<(String, FamilyFields)>, reports: Seq<FamilyReport>, k: int)
    requires
        0 <= k <= families.len(),
        forall|j: int|
            0 <= j < k ==> budget_error(
                families[j].0@,
                totals_for(reports, families[j].0@),
                families[j].1.max_total_knots,
                families[j].1.max_table_bytes,
            ) is None,
    ensures
        budgets_error_from(families, reports, 0) == budgets_error_from(families, reports, k),
    decreases k,
{
    if k > 0 {
        lemma_budgets_prefix(families, reports, k - 1);
    }
}

/// Fail closed, family by family in order, when the totals reported for a
/// family's emitted members exceed its aggregate budgets. A family with
/// no report entry emitted nothing.
pub fn enforce_family_budgets(families: &Vec<(String, FamilyFields)>, reports: &[FamilyReport]) -> (r:
    Result<(), String>)
    ensures
        r is Ok <==> budgets_error_from(families@, reports@, 0) is None,
        r matches Err(e) ==> Some(e@) == budgets_error_from(families@, reports@, 0),
{
    let mut k: usize = 0;
    while k < families.len()
        invariant
            k <= families@.len(),
            forall|j: int|
                0 <= j < k ==> budget_error(
                    families@[j].0@,
                    totals_for(reports@, families@[j].0@),
                    families@[j].1.max_total_knots,
                    families@[j].1.max_table_bytes,
                ) is None,
        decreases families@.len() - k,
    {
        proof {
            lemma_budgets_prefix(families@, reports@, k as int);
        }
        let name = families[k].0.as_str();
        let totals = find_totals(reports, name);
        let family = &families[k].1;
        match check_family_budget(name, totals, family.max_total_knots, family.max_table_bytes) {
            Err(e) => {
                return Err(e);
            },
            Ok(()) => {},
        }
        k = k + 1;
    }
    proof {
        lemma_budgets_prefix(families@, reports@, k as int);
    }
    Ok(())
}

/// What an emitted transfer does with its guarded observation code.
#[derive(Clone, Copy, Debug, PartialEq, Eq, Structural)]
pub enum ObservationGuardBehavior {
    /// Reject the guarded code.
    Error,
    /// Return the output at the domain maximum.
    Clamp,
}

/// Observation-code guard facts that accompany an emitted transfer.
#[derive(Clone, Copy, Debug, PartialEq, Eq, Structural)]
pub struct ObservationGuardMetadata {
    /// The guarded observation code.
    pub code: u16,
    /// What the transfer does with it.
    pub behavior: ObservationGuardBehavior,
}

/// Audit of one emitted `PiecewiseLinearTransfer`.
#[derive(Clone, Debug, PartialEq, Eq)]
pub struct TransferReport {
    /// Family table name when this transfer was expanded from a family member.
    pub family: Option<String>,
    /// Selector identity of a family member, in key order. Empty for
    /// standalone transfers.
    pub selectors: Vec<(String, SelectorValue)>,
    /// Definitions-table name used for code generation.
    pub table_name: String,
    /// Emitted Rust constant name.
    pub symbol: String,
    /// Inclusive observation-domain minimum (first knot input).
    pub domain_min: u16,
    /// Inclusive observation-domain maximum (last knot input).
    pub domain_max: u16,
    /// Inclusive physical-range minimum.
    pub range_min: i32,
    /// Inclusive physical-range maximum.
    pub range_max: i32,
    /// Requested interpolation error bound in output quanta.
    pub requested_max_error: u32,
    /// Conservative achieved interpolation error bound.
    pub achieved_max_error: u32,
    /// Observation input at which the achieved error was measured.
    pub worst_case_input: u16,
    /// Number of knots in the emitted table.
    pub knot_count: usize,
    /// `_INPUTS` + `_OUTPUTS` array payload bytes for this table.
    pub table_bytes: usize,
    /// Source actually used to fit or verify this table.
    pub generation_path: GenerationPath,
    /// Observation-code guard copied onto the emitted transfer, when present.
    pub observation_guard: Option<ObservationGuardMetadata>,
}

/// Audit of every emitted transfer in one generation.
///
/// Families are ordered by name. Document totals count every emitted
/// transfer, standalones included; identical payloads still count once per
/// member.
#[derive(Clone, Debug, PartialEq, Eq)]
pub struct GenerationReport {
    /// One entry per emitted transfer, in emit order.
    pub transfers: Vec<TransferReport>,
    /// One entry per family that emitted at least one member, sorted by name.
    pub families: Vec<FamilyReport>,
    /// Totals across every emitted transfer in the document.
    pub totals: ResourceTotals,
}

/// Generated Rust source together with the audit report that produced it.
#[derive(Clone, Debug, PartialEq, Eq)]
pub struct GenerationResult {
    /// Complete generated Rust source.
    pub source: String,
    /// Per-transfer metrics plus family and document totals.
    pub report: GenerationReport,
}

/// `t` was expanded from a member of family `name`.
pub open spec fn in_family(t: TransferReport, name: Seq<char>) -> bool {
    t.family matches Some(f) && f@ == name
}

/// Which emitted transfers a total counts.
pub ghost enum Scope {
    /// Every emitted transfer.
    Document,
    /// Transfers that no family expanded.
    Standalone,
    /// The members of one family.
    Family(Seq<char>),
}

/// `t` counts toward the totals of `scope`.
pub open spec fn in_scope(t: TransferReport, scope: Scope) -> bool {
    match scope {
        Scope::Document => true,
        Scope::Standalone => t.family is None,
        Scope::Family(name) => in_family(t, name),
    }
}

/// How many of the first `n` transfers count toward `scope`.
pub open spec fn members_upto(ts: Seq<TransferReport>, scope: Scope, n: int) -> nat
    decreases n,
{
    if n <= 0 {
        0
    } else {
        members_upto(ts, scope, n - 1) + if in_scope(ts[n - 1], scope) {
            1nat
        } else {
            0nat
        }
    }
}

/// The knots of the first `n` transfers that count toward `scope`.
pub open spec fn knots_upto(ts: Seq<TransferReport>, scope: Scope, n: int) -> nat
    decreases n,
{
    if n <= 0 {
        0
    } else {
        knots_upto(ts, scope, n - 1) + if in_scope(ts[n - 1], scope) {
            ts[n - 1].knot_count as nat
        } else {
            0nat
        }
    }
}

/// The payload bytes of the first `n` transfers that count toward `scope`.
pub open spec fn bytes_upto(ts: Seq<TransferReport>, scope: Scope, n: int) -> nat
    decreases n,
{
    if n <= 0 {
        0
    } else {
        bytes_upto(ts, scope, n - 1) + if in_scope(ts[n - 1], scope) {
            ts[n - 1].table_bytes as nat
        } else {
            0nat
        }
    }
}

/// `totals` counts exactly the first `n` transfers of `ts` in `scope`.
pub open spec fn counts_upto(
    totals: ResourceTotals,
    ts: Seq<TransferReport>,
    scope: Scope,
    n: int,
) -> bool {
    &&& totals.member_count == members_upto(ts, scope, n)
    &&& totals.knot_count == knots_upto(ts, scope, n)
    &&& totals.table_bytes == bytes_upto(ts, scope, n)
}

/// Some of the first `n` transfers belongs to family `name`.
pub open spec fn has_member(ts: Seq<TransferReport>, name: Seq<char>, n: int) -> bool {
    exists|j: int| 0 <= j < n && in_family(#[trigger] ts[j], name)
}

/// The entries are sorted strictly by name.
pub open spec fn sorted_by_name(families: Seq<FamilyReport>) -> bool {
    forall|a: int, b: int|
        0 <= a < b < families.len() ==> text_less(
            #[trigger] families[a].name@,
            #[trigger] families[b].name@,
        )
}

/// `families` are the family entries of a report over the first `n`
/// transfers of `ts`: sorted by name, one for each family with a member
/// among them, each counting exactly that family's members.
pub open spec fn family_entries_upto(families: Seq<FamilyReport>, ts: Seq<TransferReport>, n: int) -> bool {
    &&& sorted_by_name(families)
    &&& forall|k: int|
        0 <= k < families.len() ==> {
            &&& has_member(ts, (#[trigger] families[k]).name@, n)
            &&& families[k].member_count == families[k].totals.member_count
            &&& counts_upto(families[k].totals, ts, Scope::Family(families[k].name@), n)
        }
    &&& forall|j: int|
        0 <= j < n ==> ((#[trigger] ts[j]).family matches Some(f) ==> reports_family(families, f@))
}

/// The sums of the entries' members, knots and payload bytes.
pub open spec fn entry_totals(families: Seq<FamilyReport>) -> (nat, nat, nat)
    decreases families.len(),
{
    if families.len() == 0 {
        (0, 0, 0)
    } else {
        let r = entry_totals(families.drop_last());
        let t = families.last().totals;
        (
            r.0 + t.member_count as nat,
            r.1 + t.knot_count as nat,
            r.2 + t.table_bytes as nat,
        )
    }
}

/// The document totals of the first `n` transfers split into the family
/// entries and the standalone transfers.
pub open spec fn partitioned_upto(families: Seq<FamilyReport>, ts: Seq<TransferReport>, n: int) -> bool {
    &&& entry_totals(families).0 + members_upto(ts, Scope::Standalone, n) == members_upto(
        ts,
        Scope::Document,
        n,
    )
    &&& entry_totals(families).1 + knots_upto(ts, Scope::Standalone, n) == knots_upto(
        ts,
        Scope::Document,
        n,
    )
    &&& entry_totals(families).2 + bytes_upto(ts, Scope::Standalone, n) == bytes_upto(
        ts,
        Scope::Document,
        n,
    )
}

proof fn lemma_entry_totals_update(fs: Seq<FamilyReport>, p: int, x: FamilyReport)
    requires
        0 <= p < fs.len(),
    ensures
        entry_totals(fs.update(p, x)).0 == entry_totals(fs).0 - fs[p].totals.member_count
            + x.totals.member_count,
        entry_totals(fs.update(p, x)).1 == entry_totals(fs).1 - fs[p].totals.knot_count
            + x.totals.knot_count,
        entry_totals(fs.update(p, x)).2 == entry_totals(fs).2 - fs[p].totals.table_bytes
            + x.totals.table_bytes,
    decreases fs.len(),
{
    let u = fs.update(p, x);
    if p == fs.len() - 1 {
        assert(u.drop_last() =~= fs.drop_last());
    } else {
        assert(u.drop_last() =~= fs.drop_last().update(p, x));
        lemma_entry_totals_update(fs.drop_last(), p, x);
    }
}

proof fn lemma_entry_totals_insert(fs: Seq<FamilyReport>, p: int, x: FamilyReport)
    requires
        0 <= p <= fs.len(),
    ensures
        entry_totals(fs.insert(p, x)).0 == entry_totals(fs).0 + x.totals.member_count,
        entry_totals(fs.insert(p, x)).1 == entry_totals(fs).1 + x.totals.knot_count,
        entry_totals(fs.insert(p, x)).2 == entry_totals(fs).2 + x.totals.table_bytes,
    decreases fs.len(),
{
    let u = fs.insert(p, x);
    if p == fs.len() {
        assert(u.drop_last() =~= fs);
    } else {
        assert(u.drop_last() =~= fs.drop_last().insert(p, x));
        lemma_entry_totals_insert(fs.drop_last(), p, x);
    }
}

proof fn lemma_upto_monotone(ts: Seq<TransferReport>, scope: Scope, m: int, n: int)
    requires
        0 <= m <= n,
    ensures
        members_upto(ts, scope, m) <= members_upto(ts, scope, n),
        knots_upto(ts, scope, m) <= knots_upto(ts, scope, n),
        bytes_upto(ts, scope, m) <= bytes_upto(ts, scope, n),
    decreases n,
{
    if m < n {
        lemma_upto_monotone(ts, scope, m, n - 1);
    }
}

proof fn lemma_family_within_document(ts: Seq<TransferReport>, name: Seq<char>, n: int)
    ensures
        members_upto(ts, Scope::Family(name), n) <= members_upto(ts, Scope::Document, n),
        knots_upto(ts, Scope::Family(name), n) <= knots_upto(ts, Scope::Document, n),
        bytes_upto(ts, Scope::Family(name), n) <= bytes_upto(ts, Scope::Document, n),
    decreases n,
{
    if n > 0 {
        lemma_family_within_document(ts, name, n - 1);
    }
}

proof fn lemma_document_members(ts: Seq<TransferReport>, n: int)
    requires
        0 <= n,
    ensures
        members_upto(ts, Scope::Document, n) == n,
    decreases n,
{
    if n > 0 {
        lemma_document_members(ts, n - 1);
    }
}

proof fn lemma_no_member_counts_nothing(ts: Seq<TransferReport>, name: Seq<char>, n: int)
    requires
        !has_member(ts, name, n),
    ensures
        counts_upto(no_totals(), ts, Scope::Family(name), n),
    decreases n,
{
    if n > 0 {
        assert(!in_family(ts[n - 1], name));
        assert(!has_member(ts, name, n - 1)) by {
            if has_member(ts, name, n - 1) {
                let j = choose|j: int| 0 <= j < n - 1 && in_family(#[trigger] ts[j], name);
                assert(in_family(ts[j], name));
            }
        }
        lemma_no_member_counts_nothing(ts, name, n - 1);
    }
}

/// Where family `name` belongs among entries sorted by name: after every
/// entry that sorts before it.
fn family_position(families: &Vec<FamilyReport>, name: &str) -> (p: usize)
    requires
        sorted_by_name(families@),
    ensures
        p <= families@.len(),
        forall|q: int| 0 <= q < p ==> text_less(#[trigger] families@[q].name@, name@),
        p < families@.len() ==> !text_less(families@[p as int].name@, name@),
{
    let mut p: usize = 0;
    while p < families.len()
        invariant
            p <= families@.len(),
            forall|q: int| 0 <= q < p ==> text_less(#[trigger] families@[q].name@, name@),
        decreases families@.len() - p,
    {
        if !less_text(families[p].name.as_str(), name) {
            return p;
        }
        p = p + 1;
    }
    p
}

/// Summarise emitted transfers: the transfers as given, one entry per
/// family with an emitted member (sorted by name, counting that family's
/// members), and document totals over every transfer.
#[verifier::spinoff_prover]
#[verifier::rlimit(40)]
pub fn assemble_report(transfers: Vec<TransferReport>) -> (report: GenerationReport)
    requires
        knots_upto(transfers@, Scope::Document, transfers@.len() as int) <= usize::MAX,
        bytes_upto(transfers@, Scope::Document, transfers@.len() as int) <= usize::MAX,
    ensures
        report.transfers@ == transfers@,
        counts_upto(report.totals, transfers@, Scope::Document, transfers@.len() as int),
        family_entries_upto(report.families@, transfers@, transfers@.len() as int),
        partitioned_upto(report.families@, transfers@, transfers@.len() as int),
{
    let ghost ts = transfers@;
    let ghost len = ts.len() as int;
    let mut totals = ResourceTotals { member_count: 0, knot_count: 0, table_bytes: 0 };
    let mut families: Vec<FamilyReport> = Vec::new();
    let mut i: usize = 0;
    while i < transfers.len()
        invariant
            ts == transfers@,
            len == ts.len(),
            i <= len,
            knots_upto(ts, Scope::Document, len) <= usize::MAX,
            bytes_upto(ts, Scope::Document, len) <= usize::MAX,
            counts_upto(totals, ts, Scope::Document, i as int),
            family_entries_upto(families@, ts, i as int),
            partitioned_upto(families@, ts, i as int),
        decreases len - i,
    {
        let ghost n = i as int;
        proof {
            lemma_upto_monotone(ts, Scope::Document, n + 1, len);
            lemma_document_members(ts, n + 1);
            lemma_family_within_document(ts, ts[n].family->0@, n + 1);
        }
        let t = &transfers[i];
        totals.add_member(t.knot_count, t.table_bytes);
        match &t.family {
            None => {
                proof {
                    let fs = families@;
                    assert forall|k: int| 0 <= k < fs.len() implies counts_upto(
                        (#[trigger] fs[k]).totals,
                        ts,
                        Scope::Family(fs[k].name@),
                        n + 1,
                    ) && has_member(ts, fs[k].name@, n + 1) by {
                        assert(!in_family(ts[n], fs[k].name@));
                        let j = choose|j: int| 0 <= j < n && in_family(#[trigger] ts[j], fs[k].name@);
                        assert(in_family(ts[j], fs[k].name@));
                    }
                }
            },
            Some(f) => {
                let p = family_position(&families, f.as_str());
                if p < families.len() && same_text(families[p].name.as_str(), f.as_str()) {
                    let mut nt = families[p].totals;
                    nt.add_member(t.knot_count, t.table_bytes);
                    let entry = FamilyReport { name: f.clone(), member_count: nt.member_count, totals: nt };
                    let ghost entry_view = entry;
                    let ghost before = families@;
                    families.set(p, entry);
                    proof {
                        lemma_entry_totals_update(before, p as int, entry_view);
                        let fs = families@;
                        assert forall|k: int| 0 <= k < fs.len() implies {
                            &&& has_member(ts, (#[trigger] fs[k]).name@, n + 1)
                            &&& fs[k].member_count == fs[k].totals.member_count
                            &&& counts_upto(fs[k].totals, ts, Scope::Family(fs[k].name@), n + 1)
                        } by {
                            let j = choose|j: int| 0 <= j < n && in_family(#[trigger] ts[j], before[k].name@);
                            assert(in_family(ts[j], before[k].name@));
                            if k != p {
                                assert(fs[k] == before[k]);
                                if in_family(ts[n], fs[k].name@) {
                                    if k < p {
                                        lemma_text_less_irreflexive(before[p as int].name@, 0);
                                        assert(text_less(before[k].name@, before[p as int].name@));
                                    } else {
                                        lemma_text_less_irreflexive(before[p as int].name@, 0);
                                        assert(text_less(before[p as int].name@, before[k].name@));
                                    }
                                }
                            }
                        }
                        assert forall|j: int| 0 <= j < n + 1 implies ((#[trigger] ts[j]).family matches Some(
                            g,
                        ) ==> reports_family(fs, g@)) by {
                            if let Some(g) = ts[j].family {
                                if j < n {
                                    let k = choose|k: int| 0 <= k < before.len() && before[k].name@ == g@;
                                    assert(fs[k].name@ == before[k].name@);
                                } else {
                                    assert(fs[p as int].name@ == g@);
                                }
                            }
                        }
                    }
                } else {
                    let entry = FamilyReport {
                        name: f.clone(),
                        member_count: 1,
                        totals: ResourceTotals {
                            member_count: 1,
                            knot_count: t.knot_count,
                            table_bytes: t.table_bytes,
                        },
                    };
                    let ghost entry_view = entry;
                    let ghost before = families@;
                    proof {
                        assert forall|k: int| 0 <= k < before.len() implies (#[trigger] before[k]).name@
                            != f@ by {
                            if k < p {
                                lemma_text_less_irreflexive(f@, 0);
                            } else {
                                if before[k].name@ == f@ {
                                    if k == p {
                                    } else {
                                        assert(text_less(before[p as int].name@, before[k].name@));
                                        lemma_text_less_total(before[p as int].name@, f@, 0);
                                        lemma_text_less_transitive(f@, before[p as int].name@, f@, 0);
                                        lemma_text_less_irreflexive(f@, 0);
                                    }
                                }
                            }
                        }
                        assert(!has_member(ts, f@, n)) by {
                            if has_member(ts, f@, n) {
                                let j = choose|j: int| 0 <= j < n && in_family(#[trigger] ts[j], f@);
                                assert(reports_family(before, f@));
                                let k = choose|k: int| 0 <= k < before.len() && before[k].name@ == f@;
                                assert(before[k].name@ != f@);
                            }
                        }
                        lemma_no_member_counts_nothing(ts, f@, n);
                    }
                    families.insert(p, entry);
                    proof {
                        lemma_entry_totals_insert(before, p as int, entry_view);
                        let fs = families@;
                        if p < before.len() {
                            lemma_text_less_total(before[p as int].name@, f@, 0);
                        }
                        assert forall|a: int, b: int| 0 <= a < b < fs.len() implies text_less(
                            #[trigger] fs[a].name@,
                            #[trigger] fs[b].name@,
                        ) by {
                            if b < p {
                                assert(fs[a] == before[a] && fs[b] == before[b]);
                            } else if b == p {
                                assert(fs[a] == before[a]);
                            } else if a == p {
                                assert(fs[b] == before[b - 1]);
                                if b - 1 > p {
                                    lemma_text_less_transitive(f@, before[p as int].name@, before[b - 1].name@, 0);
                                }
                            } else if a < p {
                                assert(fs[a] == before[a] && fs[b] == before[b - 1]);
                                if b - 1 > p {
                                    lemma_text_less_transitive(f@, before[p as int].name@, before[b - 1].name@, 0);
                                }
                                lemma_text_less_transitive(before[a].name@, f@, before[b - 1].name@, 0);
                            } else {
                                assert(fs[a] == before[a - 1] && fs[b] == before[b - 1]);
                            }
                        }
                        assert forall|k: int| 0 <= k < fs.len() implies {
                            &&& has_member(ts, (#[trigger] fs[k]).name@, n + 1)
                            &&& fs[k].member_count == fs[k].totals.member_count
                            &&& counts_upto(fs[k].totals, ts, Scope::Family(fs[k].name@), n + 1)
                        } by {
                            if k == p {
                                assert(in_family(ts[n], f@));
                            } else {
                                let o = if k < p { k } else { k - 1 };
                                assert(fs[k] == before[o]);
                                let j = choose|j: int| 0 <= j < n && in_family(#[trigger] ts[j], before[o].name@);
                                assert(in_family(ts[j], before[o].name@));
                                assert(before[o].name@ != f@);
                            }
                        }
                        assert forall|j: int| 0 <= j < n + 1 implies ((#[trigger] ts[j]).family matches Some(
                            g,
                        ) ==> reports_family(fs, g@)) by {
                            if let Some(g) = ts[j].family {
                                if j < n {
                                    let k = choose|k: int| 0 <= k < before.len() && before[k].name@ == g@;
                                    if k < p {
                                        assert(fs[k] == before[k]);
                                    } else {
                                        assert(fs[k + 1] == before[k]);
                                    }
                                } else {
                                    assert(fs[p as int].name@ == g@);
                                }
                            }
                        }
                    }
                }
            },
        }
        i = i + 1;
    }
    GenerationReport { transfers, families, totals }
}

/// Family entries that both count the same transfers report the same
/// totals for every family.
pub proof fn lemma_entries_agree(f1: Seq<FamilyReport>, f2: Seq<FamilyReport>, ts: Seq<TransferReport>, n: int)
    requires
        family_entries_upto(f1, ts, n),
        family_entries_upto(f2, ts, n),
    ensures
        forall|name: Seq<char>| #[trigger] totals_for(f1, name) == totals_for(f2, name),
{
    assert forall|name: Seq<char>| #[trigger] totals_for(f1, name) == totals_for(f2, name) by {
        if reports_family(f2, name) {
            lemma_entry_listed(f2, f1, ts, n, name);
        }
        if reports_family(f1, name) {
            lemma_entry_listed(f1, f2, ts, n, name);
            lemma_first_report(f1, name);
            lemma_first_report(f2, name);
            let i = first_report(f1, name);
            let k = first_report(f2, name);
            assert(f1[i].name@ == name);
            assert(f2[k].name@ == name);
            assert(counts_upto(f1[i].totals, ts, Scope::Family(name), n));
            assert(counts_upto(f2[k].totals, ts, Scope::Family(name), n));
        }
    }
}

proof fn lemma_first_from(rs: Seq<FamilyReport>, name: Seq<char>, i: int)
    requires
        0 <= i < rs.len(),
        rs[i].name@ == name,
    ensures
        exists|m: int|
            0 <= m < rs.len() && rs[m].name@ == name && forall|j: int| 0 <= j < m ==> rs[j].name@ != name,
    decreases i,
{
    if exists|j: int| 0 <= j < i && rs[j].name@ == name {
        let j = choose|j: int| 0 <= j < i && rs[j].name@ == name;
        lemma_first_from(rs, name, j);
    }
}

proof fn lemma_first_report(rs: Seq<FamilyReport>, name: Seq<char>)
    requires
        reports_family(rs, name),
    ensures
        0 <= first_report(rs, name) < rs.len(),
        rs[first_report(rs, name)].name@ == name,
{
    let i = choose|i: int| 0 <= i < rs.len() && rs[i].name@ == name;
    lemma_first_from(rs, name, i);
}

proof fn lemma_entry_listed(f1: Seq<FamilyReport>, f2: Seq<FamilyReport>, ts: Seq<TransferReport>, n: int, name: Seq<char>)
    requires
        family_entries_upto(f1, ts, n),
        family_entries_upto(f2, ts, n),
        reports_family(f1, name),
    ensures
        reports_family(f2, name),
{
    let i = choose|i: int| 0 <= i < f1.len() && f1[i].name@ == name;
    assert(has_member(ts, f1[i].name@, n));
    let j = choose|j: int| 0 <= j < n && in_family(#[trigger] ts[j], name);
    assert(in_family(ts[j], name));
}

proof fn lemma_budgets_agree(
    families: Seq<(String, FamilyFields)>,
    f1: Seq<FamilyReport>,
    f2: Seq<FamilyReport>,
    k: int,
)
    requires
        forall|name: Seq<char>| #[trigger] totals_for(f1, name) == totals_for(f2, name),
    ensures
        budgets_error_from(families, f1, k) == budgets_error_from(families, f2, k),
    decreases families.len() - k,
{
    if 0 <= k < families.len() {
        assert(totals_for(f1, families[k].0@) == totals_for(f2, families[k].0@));
        lemma_budgets_agree(families, f1, f2, k + 1);
    }
}

/// Why the families' aggregate budgets refuse the emitted transfers `ts`,
/// if they do: the first family, in order, whose members' totals exceed
/// its budgets.
pub open spec fn family_budget_error(families: Seq<(String, FamilyFields)>, ts: Seq<TransferReport>) -> Option<
    Seq<char>,
> {
    budgets_error_from(
        families,
        choose|f: Seq<FamilyReport>| family_entries_upto(f, ts, ts.len() as int),
        0,
    )
}

/// The budget check over any family entries of `ts` is the check
/// [`family_budget_error`] names.
pub proof fn lemma_family_budget_error(
    families: Seq<(String, FamilyFields)>,
    fams: Seq<FamilyReport>,
    ts: Seq<TransferReport>,
)
    requires
        family_entries_upto(fams, ts, ts.len() as int),
    ensures
        budgets_error_from(families, fams, 0) == family_budget_error(families, ts),
{
    let c = choose|f: Seq<FamilyReport>| family_entries_upto(f, ts, ts.len() as int);
    lemma_entries_agree(fams, c, ts, ts.len() as int);
    lemma_budgets_agree(families, fams, c, 0);
}

} // verus!
