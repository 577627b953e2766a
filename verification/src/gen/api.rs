//! Generation options and their validation.

use vstd::prelude::*;

use super::definitions::DefinitionsFile;
use super::report::{
    family_budget_error, lemma_family_budget_error, assemble_report, budgets_error_from, bytes_upto, counts_upto, enforce_family_budgets,
    family_entries_upto, knots_upto, partitioned_upto, GenerationResult, Scope, TransferReport,
};
use super::curve::{build, builds, built_tables, source_count, table_of};
use super::emit::{check_names, generated_source, header, names_error_from, push_curve, curves_text, header_text};
use super::text::{ascending_keys, decimal, decimal_spec, join3, same_text};

verus! {

/// LUT index / value width used by generated curve tables.
#[derive(Debug, Clone, Copy, PartialEq, Eq, Structural)]
pub enum ValueType {
    /// 8-bit domain (`lut_size` must be 256).
    U8,
    /// 16-bit domain (`lut_size` must be 65_536).
    U16,
}

/// Errors from validating options or definition content.
#[derive(Debug, Clone, PartialEq, Eq)]
pub enum Error {
    /// Options or definition content failed validation.
    Validation(String),
}

impl Error {
    /// The diagnostic text.
    pub open spec fn text(&self) -> Seq<char> {
        match self {
            Error::Validation(m) => m@,
        }
    }

    /// Render the diagnostic (the error's display text).
    pub fn message(&self) -> (s: String)
        ensures
            s@ == self.text(),
    {
        match self {
            Error::Validation(m) => m.clone(),
        }
    }
}

impl ValueType {
    /// The Rust type name.
    pub open spec fn name_text(self) -> Seq<char> {
        match self {
            ValueType::U8 => "u8"@,
            ValueType::U16 => "u16"@,
        }
    }

    /// Full-domain LUT length.
    pub open spec fn lut_len(self) -> nat {
        match self {
            ValueType::U8 => 256,
            ValueType::U16 => 65536,
        }
    }

    /// Parse a CLI / TOML-style type name (`"u8"` or `"u16"`).
    pub fn parse(name: &str) -> (r: Result<Self, Error>)
        ensures
            r is Ok <==> value_type_named(name@) is Some,
            r matches Ok(t) ==> value_type_named(name@) == Some(t),
            r matches Err(e) ==> e.text() == "unsupported value type `"@ + name@
                + "` (expected `u8` or `u16`)"@,
    {
        proof {
            reveal_strlit("u8");
            reveal_strlit("u16");
            assert("u8"@.len() == 2);
            assert("u16"@.len() == 3);
        }
        if same_text(name, "u8") {
            Ok(ValueType::U8)
        } else if same_text(name, "u16") {
            Ok(ValueType::U16)
        } else {
            Err(Error::Validation(join3("unsupported value type `", name, "` (expected `u8` or `u16`)")))
        }
    }

    /// Rust type name emitted in generated source.
    pub fn as_str(self) -> (s: &'static str)
        ensures
            s@ == self.name_text(),
    {
        match self {
            ValueType::U8 => "u8",
            ValueType::U16 => "u16",
        }
    }

    /// Required full-domain LUT length for this value type.
    pub fn required_lut_size(self) -> (n: usize)
        ensures
            n == self.lut_len(),
    {
        match self {
            ValueType::U8 => 256,
            ValueType::U16 => 65_536,
        }
    }
}

/// The value type a name denotes: `u8` or `u16`.
pub open spec fn value_type_named(name: Seq<char>) -> Option<ValueType> {
    if name == "u8"@ {
        Some(ValueType::U8)
    } else if name == "u16"@ {
        Some(ValueType::U16)
    } else {
        None
    }
}

/// Every value type parses back from the name [`ValueType::as_str`] gives it.
pub proof fn lemma_value_type_name_round_trip(t: ValueType)
    ensures
        value_type_named(t.name_text()) == Some(t),
{
    reveal_strlit("u8");
    reveal_strlit("u16");
    assert("u8"@.len() == 2);
    assert("u16"@.len() == 3);
}

/// Options controlling curve LUT generation.
///
/// Defaults match the CLI: `u8` values with a 256-entry LUT. `value_type`
/// and `lut_size` only matter when the document contains curves.
#[derive(Debug, Clone, PartialEq, Eq)]
pub struct GenerateOptions {
    /// Rust type used for LUT index and value (`u8` or `u16`).
    pub value_type: ValueType,
    /// Number of entries in each LUT (must cover the full value-type domain).
    pub lut_size: usize,
}

impl Default for GenerateOptions {
    fn default() -> (o: Self)
        ensures
            o.value_type == ValueType::U8,
            o.lut_size == 256,
    {
        GenerateOptions { value_type: ValueType::U8, lut_size: ValueType::U8.required_lut_size() }
    }
}

impl GenerateOptions {
    /// Options for a document with no curves: the CLI defaults, which are
    /// then neither validated nor used.
    pub fn transfers_only() -> (o: Self)
        ensures
            o.value_type == ValueType::U8,
            o.lut_size == 256,
    {
        Self::default()
    }
}

/// The diagnostic for a LUT size that does not cover the value type.
pub open spec fn lut_size_text(t: ValueType) -> Seq<char> {
    "--lut-size must be "@ + decimal_spec(t.lut_len()) + " for --value-type "@ + t.name_text()
        + " (the LUT must cover the full "@ + t.name_text() + " domain)"@
}

/// Check that the LUT covers the full domain of the value type.
pub fn validate_options(opts: &GenerateOptions) -> (r: Result<(), Error>)
    ensures
        r is Ok <==> opts.lut_size == opts.value_type.lut_len(),
        r matches Err(e) ==> e.text() == lut_size_text(opts.value_type),
{
    let required = opts.value_type.required_lut_size();
    if opts.lut_size != required {
        let mut msg = String::from_str("--lut-size must be ");
        msg.append(decimal(required as u64).as_str());
        msg.append(" for --value-type ");
        msg.append(opts.value_type.as_str());
        msg.append(" (the LUT must cover the full ");
        msg.append(opts.value_type.as_str());
        msg.append(" domain)");
        return Err(Error::Validation(msg));
    }
    Ok(())
}

/// The tables an inverse view gives.
pub open spec fn inv_view(inv: Option<Vec<u32>>) -> Option<Seq<u32>> {
    match inv {
        Some(t) => Some(t@),
        None => None,
    }
}

proof fn lemma_text_prefix(
    cs: Seq<(String, super::curve::CurveDef)>,
    ty: Seq<char>,
    a: Seq<(Seq<u32>, Option<Seq<u32>>)>,
    b: Seq<(Seq<u32>, Option<Seq<u32>>)>,
    n: int,
)
    requires
        0 <= n <= a.len(),
        n <= b.len(),
        forall|k: int| 0 <= k < n ==> a[k] == b[k],
    ensures
        curves_text(cs, ty, a, n) == curves_text(cs, ty, b, n),
    decreases n,
{
    if n > 0 {
        lemma_text_prefix(cs, ty, a, b, n - 1);
    }
}

fn copy_table(t: &Option<Vec<u32>>) -> (c: Option<Vec<u32>>)
    ensures
        inv_view(c) == inv_view(*t),
{
    match t {
        None => None,
        Some(v) => {
            let mut out: Vec<u32> = Vec::new();
            let mut i: usize = 0;
            while i < v.len()
                invariant
                    i <= v@.len(),
                    out@ == v@.subrange(0, i as int),
                decreases v@.len() - i,
            {
                out.push(v[i]);
                assert(out@ =~= v@.subrange(0, i + 1));
                i = i + 1;
            }
            assert(out@ =~= v@);
            Some(out)
        },
    }
}

/// Every curve of `cs` builds from its sampled table.
pub open spec fn all_build(cs: Seq<(String, super::curve::CurveDef)>, sampled: Seq<Option<Vec<u32>>>, lut_size: int) -> bool {
    forall|i: int| 0 <= i < cs.len() ==> #[trigger] builds(cs[i].1, table_of(sampled[i]), lut_size)
}

/// Build every curve and render the generated Rust source.
fn generate_source(
    curves: &Vec<(String, super::curve::CurveDef)>,
    opts: &GenerateOptions,
    sampled: &Vec<Option<Vec<u32>>>,
) -> (r: Result<String, Error>)
    requires
        sampled@.len() == curves@.len(),
        forall|i: int|
            0 <= i < curves@.len() && source_count(#[trigger] curves@[i].1) == 1
                && curves@[i].1.points is None ==> (sampled@[i] matches Some(t) && t@.len()
                == opts.lut_size),
    ensures
        curves@.len() > 0 && opts.lut_size != opts.value_type.lut_len() ==> (r matches Err(e)
            && e.text() == lut_size_text(opts.value_type)),
        curves@.len() == 0 || opts.lut_size == opts.value_type.lut_len() ==> {
            &&& r is Ok <==> (names_error_from(curves@, 0) is None && all_build(
                curves@,
                sampled@,
                opts.lut_size as int,
            ))
            &&& names_error_from(curves@, 0) matches Some(m) ==> (r matches Err(e) && e.text()
                == m)
        },
        r matches Ok(s) ==> exists|tables: Seq<(Seq<u32>, Option<Seq<u32>>)>|
            {
                &&& tables.len() == curves@.len()
                &&& forall|i: int|
                    0 <= i < tables.len() ==> built_tables(
                        curves@[i].1,
                        table_of(sampled@[i]),
                        opts.lut_size as int,
                        (#[trigger] tables[i]).0,
                        tables[i].1,
                    )
                &&& s@ == generated_source(curves@, opts.value_type, tables)
            },
{
    let ghost cs = curves@;
    let n = curves.len();
    if n > 0 {
        validate_options(opts)?;
    }
    match check_names(curves) {
        Err(m) => {
            return Err(Error::Validation(m));
        },
        Ok(()) => {},
    }
    let lut_size = opts.lut_size;
    let mut out = header();
    let ghost mut tables: Seq<(Seq<u32>, Option<Seq<u32>>)> = Seq::empty();
    let mut i: usize = 0;
    while i < n
        invariant
            cs == curves@,
            n == cs.len(),
            sampled@.len() == n,
            i <= n,
            n > 0 ==> lut_size == opts.value_type.lut_len(),
            lut_size == opts.lut_size,
            names_error_from(cs, 0) is None,
            forall|k: int|
                0 <= k < n && source_count(#[trigger] cs[k].1) == 1 && cs[k].1.points is None ==> (
                sampled@[k] matches Some(t) && t@.len() == lut_size),
            tables.len() == i,
            forall|k: int| 0 <= k < i ==> #[trigger] builds(cs[k].1, table_of(sampled@[k]), lut_size as int),
            forall|k: int|
                0 <= k < i ==> built_tables(
                    cs[k].1,
                    table_of(sampled@[k]),
                    lut_size as int,
                    (#[trigger] tables[k]).0,
                    tables[k].1,
                ),
            out@ == header_text() + curves_text(cs, opts.value_type.name_text(), tables, i as int),
        decreases n - i,
    {
        let name = curves[i].0.as_str();
        let def = &curves[i].1;
        let easing = copy_table(&sampled[i]);
        assert(1 <= lut_size <= 0x1_0000) by {
            assert(opts.value_type.lut_len() == 256 || opts.value_type.lut_len() == 65536);
        }
        match build(name, def, lut_size, easing) {
            Err(m) => {
                proof {
                    assert(!builds(cs[i as int].1, table_of(sampled@[i as int]), lut_size as int));
                    assert(!all_build(curves@, sampled@, opts.lut_size as int));
                }
                return Err(Error::Validation(m));
            },
            Ok(data) => {
                let ghost before = out@;
                let ghost entry = (data.fwd@, inv_view(data.inv));
                push_curve(&mut out, name, opts.value_type, &data.fwd, &data.inv);
                proof {
                    let old_tables = tables;
                    tables = tables.push(entry);
                    lemma_text_prefix(cs, opts.value_type.name_text(), old_tables, tables, i as int);
                    assert(tables[i as int] == entry);
                    assert(out@ == header_text() + curves_text(
                        cs,
                        opts.value_type.name_text(),
                        tables,
                        i + 1,
                    )) by {
                        assert(out@ =~= header_text() + curves_text(
                            cs,
                            opts.value_type.name_text(),
                            tables,
                            i + 1,
                        ));
                    }
                }
            },
        }
        i = i + 1;
    }
    proof {
        assert(out@ == generated_source(curves@, opts.value_type, tables));
        assert(tables.len() == curves@.len() && (forall|k: int|
            0 <= k < tables.len() ==> built_tables(
                curves@[k].1,
                table_of(sampled@[k]),
                opts.lut_size as int,
                (#[trigger] tables[k]).0,
                tables[k].1,
            )) && out@ == generated_source(curves@, opts.value_type, tables));
        assert(all_build(curves@, sampled@, opts.lut_size as int));
    }
    Ok(out)
}

/// The rendered source of `curves`: the generated file over some tables
/// built from their definitions and sampled tables.
pub open spec fn renders(
    curves: Seq<(String, super::curve::CurveDef)>,
    opts: GenerateOptions,
    sampled: Seq<Option<Vec<u32>>>,
    s: Seq<char>,
) -> bool {
    exists|tables: Seq<(Seq<u32>, Option<Seq<u32>>)>|
        {
            &&& tables.len() == curves.len()
            &&& forall|i: int|
                0 <= i < tables.len() ==> built_tables(
                    curves[i].1,
                    table_of(sampled[i]),
                    opts.lut_size as int,
                    (#[trigger] tables[i]).0,
                    tables[i].1,
                )
            &&& s == generated_source(curves, opts.value_type, tables)
        }
}

/// The view of a generation's result: the source text, or the diagnostic.
pub open spec fn outcome_view(r: Result<String, Error>) -> Result<Seq<char>, Seq<char>> {
    match r {
        Ok(s) => Ok(s@),
        Err(e) => Err(e.text()),
    }
}

/// What generating from a document gives, in the order the checks apply:
/// the LUT options when there are curves, the curve names, every curve's
/// build, then the families' aggregate budgets over the fitted transfers;
/// otherwise the rendered source. A curve that does not build fails with
/// its own diagnostic.
pub open spec fn generation_outcome(
    defs: DefinitionsFile,
    opts: GenerateOptions,
    sampled: Seq<Option<Vec<u32>>>,
    fitted: Seq<TransferReport>,
    r: Result<Seq<char>, Seq<char>>,
) -> bool {
    let cs = defs.curves@;
    if cs.len() > 0 && opts.lut_size != opts.value_type.lut_len() {
        r == Err::<Seq<char>, Seq<char>>(lut_size_text(opts.value_type))
    } else if names_error_from(cs, 0) is Some {
        r == Err::<Seq<char>, Seq<char>>(names_error_from(cs, 0)->0)
    } else if !all_build(cs, sampled, opts.lut_size as int) {
        r is Err
    } else if family_budget_error(defs.transfer_families@, fitted) is Some {
        r == Err::<Seq<char>, Seq<char>>(family_budget_error(defs.transfer_families@, fitted)->0)
    } else {
        r matches Ok(s) && renders(cs, opts, sampled, s)
    }
}

/// Render the curves of a definitions document and report on its emitted
/// transfers. `sampled` holds the hosts's sampled easing tables, as for
/// [`generate`]; `fitted` holds one audit entry per transfer the host tool
/// fitted and emitted, in emit order. The report's family totals are held
/// to the families' aggregate budgets, which fail closed.
pub fn generate_report(
    defs: &DefinitionsFile,
    opts: &GenerateOptions,
    sampled: &Vec<Option<Vec<u32>>>,
    fitted: Vec<TransferReport>,
) -> (r: Result<GenerationResult, Error>)
    requires
        defs.tables_ascending(),
        sampled@.len() == defs.curves@.len(),
        forall|i: int|
            0 <= i < defs.curves@.len() && source_count(#[trigger] defs.curves@[i].1) == 1
                && defs.curves@[i].1.points is None ==> (sampled@[i] matches Some(t) && t@.len()
                == opts.lut_size),
        knots_upto(fitted@, Scope::Document, fitted@.len() as int) <= usize::MAX,
        bytes_upto(fitted@, Scope::Document, fitted@.len() as int) <= usize::MAX,
    ensures
        generation_outcome(
            *defs,
            *opts,
            sampled@,
            fitted@,
            match r {
                Ok(g) => Ok::<Seq<char>, Seq<char>>(g.source@),
                Err(e) => Err::<Seq<char>, Seq<char>>(e.text()),
            },
        ),
        r matches Ok(g) ==> {
            &&& renders(defs.curves@, *opts, sampled@, g.source@)
            &&& g.report.transfers@ == fitted@
            &&& counts_upto(g.report.totals, fitted@, Scope::Document, fitted@.len() as int)
            &&& family_entries_upto(g.report.families@, fitted@, fitted@.len() as int)
            &&& partitioned_upto(g.report.families@, fitted@, fitted@.len() as int)
            &&& budgets_error_from(defs.transfer_families@, g.report.families@, 0) is None
        },
{
    let ghost ts = fitted@;
    let source = generate_source(&defs.curves, opts, sampled)?;
    let report = assemble_report(fitted);
    proof {
        lemma_family_budget_error(defs.transfer_families@, report.families@, ts);
    }
    match enforce_family_budgets(&defs.transfer_families, report.families.as_slice()) {
        Err(e) => {
            return Err(Error::Validation(e));
        },
        Ok(()) => {},
    }
    Ok(GenerationResult { source, report })
}

/// Render the source of a definitions document: the same checks, in the
/// same order, as [`generate_report`], the families' aggregate budgets
/// included, and the same source; only the report is not kept.
pub fn generate(
    defs: &DefinitionsFile,
    opts: &GenerateOptions,
    sampled: &Vec<Option<Vec<u32>>>,
    fitted: Vec<TransferReport>,
) -> (r: Result<String, Error>)
    requires
        defs.tables_ascending(),
        sampled@.len() == defs.curves@.len(),
        forall|i: int|
            0 <= i < defs.curves@.len() && source_count(#[trigger] defs.curves@[i].1) == 1
                && defs.curves@[i].1.points is None ==> (sampled@[i] matches Some(t) && t@.len()
                == opts.lut_size),
        knots_upto(fitted@, Scope::Document, fitted@.len() as int) <= usize::MAX,
        bytes_upto(fitted@, Scope::Document, fitted@.len() as int) <= usize::MAX,
    ensures
        generation_outcome(*defs, *opts, sampled@, fitted@, outcome_view(r)),
{
    match generate_report(defs, opts, sampled, fitted) {
        Ok(g) => Ok(g.source),
        Err(e) => Err(e),
    }
}

} // verus!
