//! Structural rules on the TOML tree of a definitions document, applied
//! before its tables are read as definitions.
//!
//! Guard and citation fields (`saturation`, `observation_guard`,
//! `provenance`) belong directly on a transfer or family table; nested
//! inside a `model` or `points` source they would be silently dropped by
//! the source's own reader, so they are refused there. Family point entries
//! and NTC models take only their known fields. Standalone transfers that
//! use guards or citations must declare the matching capability marker in
//! `[transfers] requires`, and a marker must be used.

use vstd::prelude::*;

use super::text::{decimal, decimal_spec, join3, same_text};

verus! {

/// A TOML value as the document rules read it: tables with their entries
/// in key order, arrays with their items, strings, and every other value
/// as a leaf.
#[derive(Debug)]
pub enum TomlValue {
    /// A table's entries, in key order.
    Table(Vec<(String, TomlValue)>),
    /// An array's items.
    Array(Vec<TomlValue>),
    /// A string.
    String(String),
    /// Any other value.
    Other,
}

/// The direct field a reserved name stands for, if it is reserved.
pub open spec fn direct_field(field: Seq<char>) -> Option<Seq<char>> {
    if field == "saturation"@ || field == "observation_guard"@ {
        Some("saturation"@)
    } else if field == "provenance"@ {
        Some("provenance"@)
    } else {
        None
    }
}

/// `L: misplaced `F` at `P`; declare `D` directly under `T``
pub open spec fn misplaced_text(
    label: Seq<char>,
    table: Seq<char>,
    field: Seq<char>,
    path: Seq<char>,
    direct: Seq<char>,
) -> Seq<char> {
    label + ": misplaced `"@ + field + "` at `"@ + path + "`; declare `"@ + direct
        + "` directly under `"@ + table + "`"@
}

/// The first reserved field nested anywhere inside `v`, which sits at
/// `path`, reported against the definition `label` and its table `table`.
pub open spec fn nested_error(label: Seq<char>, table: Seq<char>, v: TomlValue, path: Seq<char>) -> Option<
    Seq<char>,
>
    decreases v, 0nat,
{
    match v {
        TomlValue::Table(fields) => entries_error(label, table, fields@, path, 0),
        TomlValue::Array(items) => items_error(label, table, items@, path, 0),
        _ => None,
    }
}

/// The first reserved field among table entries from `i` on.
pub open spec fn entries_error(
    label: Seq<char>,
    table: Seq<char>,
    fields: Seq<(String, TomlValue)>,
    path: Seq<char>,
    i: int,
) -> Option<Seq<char>>
    decreases fields, fields.len() - i,
{
    if i < 0 || i >= fields.len() {
        None
    } else {
        let field = fields[i].0@;
        let nested_path = path + "."@ + field;
        if direct_field(field) is Some {
            Some(misplaced_text(label, table, field, nested_path, direct_field(field)->0))
        } else {
            let inner = nested_error(label, table, fields[i].1, nested_path);
            if inner is Some {
                inner
            } else {
                entries_error(label, table, fields, path, i + 1)
            }
        }
    }
}

/// The first reserved field among array items from `i` on.
pub open spec fn items_error(
    label: Seq<char>,
    table: Seq<char>,
    items: Seq<TomlValue>,
    path: Seq<char>,
    i: int,
) -> Option<Seq<char>>
    decreases items, items.len() - i,
{
    if i < 0 || i >= items.len() {
        None
    } else {
        let inner = nested_error(label, table, items[i], path + "["@ + decimal_spec(i as nat) + "]"@);
        if inner is Some {
            inner
        } else {
            items_error(label, table, items, path, i + 1)
        }
    }
}

fn reserved_direct_field(field: &str) -> (r: Option<&'static str>)
    ensures
        match (r, direct_field(field@)) {
            (Some(a), Some(b)) => a@ == b,
            (None, None) => true,
            _ => false,
        },
{
    proof {
        reveal_strlit("saturation");
        reveal_strlit("observation_guard");
        reveal_strlit("provenance");
    }
    if same_text(field, "saturation") || same_text(field, "observation_guard") {
        Some("saturation")
    } else if same_text(field, "provenance") {
        Some("provenance")
    } else {
        None
    }
}

fn misplaced(label: &str, table: &str, field: &str, path: &str, direct: &str) -> (s: String)
    ensures
        s@ == misplaced_text(label@, table@, field@, path@, direct@),
{
    let mut s = String::from_str(label);
    s.append(": misplaced `");
    s.append(field);
    s.append("` at `");
    s.append(path);
    s.append("`; declare `");
    s.append(direct);
    s.append("` directly under `");
    s.append(table);
    s.append("`");
    s
}

/// Refuse a reserved field nested anywhere inside `value`, which sits at
/// `path` in the definition `label` declared by table `table`.
pub fn reject_nested_reserved_transfer_fields(
    label: &str,
    table: &str,
    value: &TomlValue,
    path: &str,
) -> (r: Result<(), String>)
    ensures
        match nested_error(label@, table@, *value, path@) {
            Some(m) => r matches Err(e) && e@ == m,
            None => r is Ok,
        },
    decreases value, 0nat,
{
    match value {
        TomlValue::Table(fields) => {
            let mut i: usize = 0;
            while i < fields.len()
                invariant
                    i <= fields@.len(),
                    entries_error(label@, table@, fields@, path@, 0) == entries_error(
                        label@,
                        table@,
                        fields@,
                        path@,
                        i as int,
                    ),
                    *value == TomlValue::Table(*fields),
                decreases fields@.len() - i,
            {
                let field = fields[i].0.as_str();
                let nested_path = join3(path, ".", field);
                match reserved_direct_field(field) {
                    Some(direct) => {
                        return Err(misplaced(label, table, field, nested_path.as_str(), direct));
                    },
                    None => {},
                }
                proof {
                    assert(decreases_to!(fields@ => fields@[i as int]));
                }
                match reject_nested_reserved_transfer_fields(
                    label,
                    table,
                    &fields[i].1,
                    nested_path.as_str(),
                ) {
                    Err(e) => {
                        return Err(e);
                    },
                    Ok(()) => {},
                }
                i = i + 1;
            }
            Ok(())
        },
        TomlValue::Array(items) => {
            let mut i: usize = 0;
            while i < items.len()
                invariant
                    i <= items@.len(),
                    items_error(label@, table@, items@, path@, 0) == items_error(
                        label@,
                        table@,
                        items@,
                        path@,
                        i as int,
                    ),
                    *value == TomlValue::Array(*items),
                decreases items@.len() - i,
            {
                let mut nested_path = String::from_str(path);
                nested_path.append("[");
                nested_path.append(decimal(i as u64).as_str());
                nested_path.append("]");
                match reject_nested_reserved_transfer_fields(
                    label,
                    table,
                    &items[i],
                    nested_path.as_str(),
                ) {
                    Err(e) => {
                        return Err(e);
                    },
                    Ok(()) => {},
                }
                i = i + 1;
            }
            Ok(())
        },
        _ => Ok(()),
    }
}

/// Some entry of `fields` is keyed `key`.
pub open spec fn has_key(fields: Seq<(String, TomlValue)>, key: Seq<char>) -> bool {
    exists|i: int| 0 <= i < fields.len() && fields[i].0@ == key
}

/// The position of the first entry of `fields` keyed `key`.
pub open spec fn key_position(fields: Seq<(String, TomlValue)>, key: Seq<char>) -> int {
    choose|i: int|
        0 <= i < fields.len() && fields[i].0@ == key && forall|j: int|
            0 <= j < i ==> fields[j].0@ != key
}

/// The value of the first entry of `fields` keyed `key`, if any.
pub open spec fn lookup(fields: Seq<(String, TomlValue)>, key: Seq<char>) -> Option<TomlValue> {
    if has_key(fields, key) {
        Some(fields[key_position(fields, key)].1)
    } else {
        None
    }
}

/// The first entry of `fields` keyed `key`.
fn find_entry<'a>(fields: &'a Vec<(String, TomlValue)>, key: &str) -> (r: Option<&'a TomlValue>)
    ensures
        match (r, lookup(fields@, key@)) {
            (Some(a), Some(b)) => *a == b,
            (None, None) => true,
            _ => false,
        },
{
    let mut i: usize = 0;
    while i < fields.len()
        invariant
            i <= fields@.len(),
            forall|j: int| 0 <= j < i ==> fields@[j].0@ != key@,
        decreases fields@.len() - i,
    {
        if same_text(fields[i].0.as_str(), key) {
            proof {
                let fs = fields@;
                assert(fs[i as int].0@ == key@);
                let first = key_position(fs, key@);
                assert(first == i) by {
                    if first < i {
                    } else if first > i {
                    }
                }
            }
            return Some(&fields[i].1);
        }
        i = i + 1;
    }
    proof {
        if has_key(fields@, key@) {
            let j = choose|j: int| 0 <= j < fields@.len() && fields@[j].0@ == key@;
            assert(fields@[j].0@ != key@);
        }
    }
    None
}

/// The first reserved field nested inside the `model` or `points` source
/// of a definition's table `v`, checked in that order.
pub open spec fn misplaced_error(label: Seq<char>, table: Seq<char>, v: TomlValue) -> Option<Seq<char>> {
    match v {
        TomlValue::Table(fields) => {
            let model = lookup(fields@, "model"@);
            let points = lookup(fields@, "points"@);
            if model is Some && nested_error(label, table, model->0, "model"@) is Some {
                nested_error(label, table, model->0, "model"@)
            } else if points is Some {
                nested_error(label, table, points->0, "points"@)
            } else {
                None
            }
        },
        _ => None,
    }
}

/// Refuse guard and citation fields nested inside the `model` or `points`
/// source of a definition's table. Other fields, such as family selector
/// maps, are open keyspaces where the reserved words may be legitimate.
pub fn reject_misplaced_reserved_transfer_fields(label: &str, table: &str, value: &TomlValue) -> (r:
    Result<(), String>)
    ensures
        match misplaced_error(label@, table@, *value) {
            Some(m) => r matches Err(e) && e@ == m,
            None => r is Ok,
        },
{
    proof {
        reveal_strlit("model");
        reveal_strlit("points");
    }
    match value {
        TomlValue::Table(fields) => {
            match find_entry(fields, "model") {
                Some(nested) => {
                    reject_nested_reserved_transfer_fields(label, table, nested, "model")?;
                },
                None => {},
            }
            match find_entry(fields, "points") {
                Some(nested) => reject_nested_reserved_transfer_fields(label, table, nested, "points"),
                None => Ok(()),
            }
        },
        _ => Ok(()),
    }
}

/// The first field of a family point entry, from `j` on, other than
/// `input` and `output`.
pub open spec fn point_field_error(f: Seq<char>, index: nat, fields: Seq<(String, TomlValue)>, j: int) -> Option<
    Seq<char>,
>
    decreases fields.len() - j,
{
    if j < 0 || j >= fields.len() {
        None
    } else {
        let field = fields[j].0@;
        if field != "input"@ && field != "output"@ {
            Some("transfer family `"@ + f + "`: unknown field `"@ + field + "` at `points["@
                + decimal_spec(index) + "]."@ + field
                + "`; family point fields are `input` and `output`"@)
        } else {
            point_field_error(f, index, fields, j + 1)
        }
    }
}

/// The first unknown field among family point entries from `i` on.
/// Entries that are not tables are left to the point reader.
pub open spec fn points_error(f: Seq<char>, points: Seq<TomlValue>, i: int) -> Option<Seq<char>>
    decreases points.len() - i,
{
    if i < 0 || i >= points.len() {
        None
    } else {
        let inner = match points[i] {
            TomlValue::Table(fields) => point_field_error(f, i as nat, fields@, 0),
            _ => None,
        };
        if inner is Some {
            inner
        } else {
            points_error(f, points, i + 1)
        }
    }
}

/// The fields an NTC Beta-divider model takes.
pub open spec fn ntc_field(field: Seq<char>) -> bool {
    ||| field == "kind"@
    ||| field == "nominal_resistance_ohms"@
    ||| field == "beta_kelvin"@
    ||| field == "nominal_temperature_celsius"@
    ||| field == "fixed_resistance_ohms"@
    ||| field == "adc_max_code"@
    ||| field == "topology"@
}

/// The first field of an NTC model, from `j` on, that it does not take.
pub open spec fn ntc_field_error(f: Seq<char>, fields: Seq<(String, TomlValue)>, j: int) -> Option<
    Seq<char>,
>
    decreases fields.len() - j,
{
    if j < 0 || j >= fields.len() {
        None
    } else if !ntc_field(fields[j].0@) {
        Some("transfer family `"@ + f + "`: unknown field `"@ + fields[j].0@ + "` at `model."@
            + fields[j].0@ + "` for `ntc_beta_divider`"@)
    } else {
        ntc_field_error(f, fields, j + 1)
    }
}

/// The model table is an NTC Beta-divider: its `kind` is the string
/// `ntc_beta_divider`.
pub open spec fn is_ntc_model(model: Seq<(String, TomlValue)>) -> bool {
    lookup(model, "kind"@) matches Some(TomlValue::String(k)) && k@ == "ntc_beta_divider"@
}

/// The first unknown field in a family's source: in its point entries,
/// then in an NTC Beta-divider model.
pub open spec fn family_source_error(f: Seq<char>, v: TomlValue) -> Option<Seq<char>> {
    match v {
        TomlValue::Table(fields) => {
            let points = match lookup(fields@, "points"@) {
                Some(TomlValue::Array(items)) => points_error(f, items@, 0),
                _ => None,
            };
            if points is Some {
                points
            } else {
                match lookup(fields@, "model"@) {
                    Some(TomlValue::Table(model)) => if is_ntc_model(model@) {
                        ntc_field_error(f, model@, 0)
                    } else {
                        None
                    },
                    _ => None,
                }
            }
        },
        _ => None,
    }
}

fn is_point_field(field: &str) -> (b: bool)
    ensures
        b == (field@ == "input"@ || field@ == "output"@),
{
    proof {
        reveal_strlit("input");
        reveal_strlit("output");
    }
    same_text(field, "input") || same_text(field, "output")
}

fn is_ntc_field(field: &str) -> (b: bool)
    ensures
        b == ntc_field(field@),
{
    proof {
        reveal_strlit("kind");
        reveal_strlit("nominal_resistance_ohms");
        reveal_strlit("beta_kelvin");
        reveal_strlit("nominal_temperature_celsius");
        reveal_strlit("fixed_resistance_ohms");
        reveal_strlit("adc_max_code");
        reveal_strlit("topology");
    }
    same_text(field, "kind") || same_text(field, "nominal_resistance_ohms") || same_text(
        field,
        "beta_kelvin",
    ) || same_text(field, "nominal_temperature_celsius") || same_text(
        field,
        "fixed_resistance_ohms",
    ) || same_text(field, "adc_max_code") || same_text(field, "topology")
}

fn check_point_entries(family_name: &str, points: &Vec<TomlValue>) -> (r: Result<(), String>)
    ensures
        match points_error(family_name@, points@, 0) {
            Some(m) => r matches Err(e) && e@ == m,
            None => r is Ok,
        },
{
    let mut i: usize = 0;
    while i < points.len()
        invariant
            i <= points@.len(),
            points_error(family_name@, points@, 0) == points_error(family_name@, points@, i as int),
        decreases points@.len() - i,
    {
        match &points[i] {
            TomlValue::Table(fields) => {
                let mut j: usize = 0;
                while j < fields.len()
                    invariant
                        i < points@.len(),
                        points@[i as int] == TomlValue::Table(*fields),
                        j <= fields@.len(),
                        point_field_error(family_name@, i as nat, fields@, 0) == point_field_error(
                            family_name@,
                            i as nat,
                            fields@,
                            j as int,
                        ),
                        points_error(family_name@, points@, 0) == points_error(
                            family_name@,
                            points@,
                            i as int,
                        ),
                    decreases fields@.len() - j,
                {
                    let field = fields[j].0.as_str();
                    if !is_point_field(field) {
                        let mut e = join3("transfer family `", family_name, "`: unknown field `");
                        e.append(field);
                        e.append("` at `points[");
                        e.append(decimal(i as u64).as_str());
                        e.append("].");
                        e.append(field);
                        e.append("`; family point fields are `input` and `output`");
                        return Err(e);
                    }
                    j = j + 1;
                }
            },
            _ => {},
        }
        i = i + 1;
    }
    Ok(())
}

fn check_ntc_fields(family_name: &str, model: &Vec<(String, TomlValue)>) -> (r: Result<(), String>)
    ensures
        match ntc_field_error(family_name@, model@, 0) {
            Some(m) => r matches Err(e) && e@ == m,
            None => r is Ok,
        },
{
    let mut j: usize = 0;
    while j < model.len()
        invariant
            j <= model@.len(),
            ntc_field_error(family_name@, model@, 0) == ntc_field_error(
                family_name@,
                model@,
                j as int,
            ),
        decreases model@.len() - j,
    {
        let field = model[j].0.as_str();
        if !is_ntc_field(field) {
            let mut e = join3("transfer family `", family_name, "`: unknown field `");
            e.append(field);
            e.append("` at `model.");
            e.append(field);
            e.append("` for `ntc_beta_divider`");
            return Err(e);
        }
        j = j + 1;
    }
    Ok(())
}

/// Refuse unknown fields in a family's point entries and NTC
/// Beta-divider model. Entries of other shapes are left to the readers of
/// those sources.
pub fn reject_unknown_family_source_fields(family_name: &str, value: &TomlValue) -> (r: Result<
    (),
    String,
>)
    ensures
        match family_source_error(family_name@, *value) {
            Some(m) => r matches Err(e) && e@ == m,
            None => r is Ok,
        },
{
    proof {
        reveal_strlit("points");
        reveal_strlit("model");
        reveal_strlit("kind");
        reveal_strlit("ntc_beta_divider");
    }
    let fields = match value {
        TomlValue::Table(fields) => fields,
        _ => {
            return Ok(());
        },
    };
    match find_entry(fields, "points") {
        Some(TomlValue::Array(items)) => {
            check_point_entries(family_name, items)?;
        },
        _ => {},
    }
    match find_entry(fields, "model") {
        Some(TomlValue::Table(model)) => {
            let ntc = match find_entry(model, "kind") {
                Some(TomlValue::String(kind)) => same_text(kind.as_str(), "ntc_beta_divider"),
                _ => false,
            };
            if ntc {
                check_ntc_fields(family_name, model)
            } else {
                Ok(())
            }
        },
        _ => Ok(()),
    }
}

/// The capability marker for observation guards.
pub open spec fn guard_capability() -> Seq<char> {
    "observation_guard_v1"@
}

/// The capability marker for source provenance.
pub open spec fn provenance_capability() -> Seq<char> {
    "source_provenance_v1"@
}

/// The first capability from `i` on that this generator does not support.
pub open spec fn capability_error(capabilities: Seq<String>, i: int) -> Option<Seq<char>>
    decreases capabilities.len() - i,
{
    if i < 0 || i >= capabilities.len() {
        None
    } else if capabilities[i]@ != guard_capability() && capabilities[i]@ != provenance_capability() {
        Some("unsupported [transfers] capability `"@ + capabilities[i]@ + "`"@)
    } else {
        capability_error(capabilities, i + 1)
    }
}

/// Refuse any `[transfers] requires` capability this generator does not
/// support.
pub fn check_capabilities(capabilities: &[String]) -> (r: Result<(), String>)
    ensures
        match capability_error(capabilities@, 0) {
            Some(m) => r matches Err(e) && e@ == m,
            None => r is Ok,
        },
{
    proof {
        reveal_strlit("observation_guard_v1");
        reveal_strlit("source_provenance_v1");
    }
    let mut i: usize = 0;
    while i < capabilities.len()
        invariant
            i <= capabilities@.len(),
            capability_error(capabilities@, 0) == capability_error(capabilities@, i as int),
        decreases capabilities@.len() - i,
    {
        let c = capabilities[i].as_str();
        if !same_text(c, "observation_guard_v1") && !same_text(c, "source_provenance_v1") {
            return Err(join3("unsupported [transfers] capability `", c, "`"));
        }
        i = i + 1;
    }
    Ok(())
}

/// Some capability in the list is `c`.
pub open spec fn declares(capabilities: Seq<String>, c: Seq<char>) -> bool {
    exists|i: int| 0 <= i < capabilities.len() && capabilities[i]@ == c
}

/// Why the capability markers and what the standalone transfers use
/// disagree, if they do: guards need their marker and the marker needs a
/// guard, then the same for citations. A transfer named `requires` cannot
/// stand beside a marker its document needs.
pub open spec fn marker_error(
    capabilities: Seq<String>,
    has_guard: bool,
    has_provenance: bool,
    has_requires_transfer: bool,
) -> Option<Seq<char>> {
    let guard_marker = declares(capabilities, guard_capability());
    let provenance_marker = declares(capabilities, provenance_capability());
    if has_guard && !guard_marker {
        if has_requires_transfer {
            Some("a standalone transfer named `requires` cannot coexist with observation guards; rename that transfer before declaring the `[transfers] requires` capability marker"@)
        } else {
            Some("standalone transfers using `saturation` require `[transfers] requires = [\"observation_guard_v1\"]`; the marker makes older generators reject the document instead of silently dropping the guard"@)
        }
    } else if guard_marker && !has_guard {
        Some("[transfers] requires `observation_guard_v1`, but no standalone transfer declared a direct `saturation` guard; check the guard spelling and TOML table placement"@)
    } else if has_provenance && !provenance_marker {
        if has_requires_transfer {
            Some("a standalone transfer named `requires` cannot coexist with source provenance; rename that transfer before declaring the `[transfers] requires` capability marker"@)
        } else {
            Some("standalone transfers using `provenance` require `[transfers] requires = [\"source_provenance_v1\"]`; the marker makes older generators reject the document instead of silently dropping the citation"@)
        }
    } else if provenance_marker && !has_provenance {
        Some("[transfers] requires `source_provenance_v1`, but no standalone transfer declared source provenance; check the provenance spelling and TOML table placement"@)
    } else {
        None
    }
}

fn declares_capability(capabilities: &[String], c: &str) -> (b: bool)
    ensures
        b == declares(capabilities@, c@),
{
    let mut i: usize = 0;
    while i < capabilities.len()
        invariant
            i <= capabilities@.len(),
            forall|j: int| 0 <= j < i ==> capabilities@[j]@ != c@,
        decreases capabilities@.len() - i,
    {
        if same_text(capabilities[i].as_str(), c) {
            return true;
        }
        i = i + 1;
    }
    false
}

/// Check that the `[transfers] requires` markers match what the standalone
/// transfers use: whether any declares a guard (`has_guard`), whether any
/// declares a citation on itself or its guard (`has_provenance`), and
/// whether one is named `requires`.
pub fn check_capability_markers(
    capabilities: &[String],
    has_guard: bool,
    has_provenance: bool,
    has_requires_transfer: bool,
) -> (r: Result<(), String>)
    ensures
        match marker_error(capabilities@, has_guard, has_provenance, has_requires_transfer) {
            Some(m) => r matches Err(e) && e@ == m,
            None => r is Ok,
        },
{
    proof {
        reveal_strlit("observation_guard_v1");
        reveal_strlit("source_provenance_v1");
    }
    let guard_marker = declares_capability(capabilities, "observation_guard_v1");
    let provenance_marker = declares_capability(capabilities, "source_provenance_v1");
    if has_guard && !guard_marker {
        if has_requires_transfer {
            return Err(String::from_str("a standalone transfer named `requires` cannot coexist with observation guards; rename that transfer before declaring the `[transfers] requires` capability marker"));
        }
        return Err(String::from_str("standalone transfers using `saturation` require `[transfers] requires = [\"observation_guard_v1\"]`; the marker makes older generators reject the document instead of silently dropping the guard"));
    }
    if guard_marker && !has_guard {
        return Err(String::from_str("[transfers] requires `observation_guard_v1`, but no standalone transfer declared a direct `saturation` guard; check the guard spelling and TOML table placement"));
    }
    if has_provenance && !provenance_marker {
        if has_requires_transfer {
            return Err(String::from_str("a standalone transfer named `requires` cannot coexist with source provenance; rename that transfer before declaring the `[transfers] requires` capability marker"));
        }
        return Err(String::from_str("standalone transfers using `provenance` require `[transfers] requires = [\"source_provenance_v1\"]`; the marker makes older generators reject the document instead of silently dropping the citation"));
    }
    if provenance_marker && !has_provenance {
        return Err(String::from_str("[transfers] requires `source_provenance_v1`, but no standalone transfer declared source provenance; check the provenance spelling and TOML table placement"));
    }
    Ok(())
}

} // verus!
