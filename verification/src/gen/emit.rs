//! Rendering of built curves as Rust source.
//!
//! Each curve becomes a `static` forward table, an inverse table when it is
//! monotonic, and a `const` lookup value over them, named after the curve:
//! ASCII letters upper case, ASCII digits kept, anything else `_`. Tables
//! are written sixteen values to a line.

use vstd::prelude::*;

use super::api::ValueType;
use super::curve::CurveDef;
use super::text::{char_at, decimal, decimal_spec, join3, same_text};

verus! {

/// The upper-case ASCII letters, in order.
pub open spec fn upper_letters() -> Seq<char> {
    "ABCDEFGHIJKLMNOPQRSTUVWXYZ"@
}

/// An ASCII lower-case letter.
pub open spec fn is_lower(c: char) -> bool {
    'a' <= c && c <= 'z'
}

/// An ASCII letter or digit.
pub open spec fn is_alnum(c: char) -> bool {
    is_lower(c) || ('A' <= c && c <= 'Z') || ('0' <= c && c <= '9')
}

/// The character of a constant name that `c` becomes.
pub open spec fn const_char(c: char) -> char {
    if is_lower(c) {
        upper_letters()[(c as int) - ('a' as int)]
    } else if is_alnum(c) {
        c
    } else {
        '_'
    }
}

/// The constant name a curve name normalizes to.
pub open spec fn const_stem(name: Seq<char>) -> Seq<char> {
    Seq::new(name.len(), |i: int| const_char(name[i]))
}

/// The name holds an ASCII letter or digit.
pub open spec fn has_alnum(name: Seq<char>) -> bool {
    exists|i: int| 0 <= i < name.len() && is_alnum(#[trigger] name[i])
}

/// Two curves emit a common constant name. A curve emits its stem, the stem
/// with `_FWD`, and, when monotonic, the stem with `_INV`.
pub open spec fn stems_collide(a: Seq<char>, a_mono: bool, b: Seq<char>, b_mono: bool) -> bool {
    ||| a == b
    ||| a == b + "_FWD"@
    ||| b == a + "_FWD"@
    ||| (b_mono && a == b + "_INV"@)
    ||| (a_mono && b == a + "_INV"@)
}

/// Curve `i` collides with curve `j`.
pub open spec fn curves_collide(cs: Seq<(String, CurveDef)>, i: int, j: int) -> bool {
    stems_collide(const_stem(cs[i].0@), cs[i].1.monotonic, const_stem(cs[j].0@), cs[j].1.monotonic)
}

/// The first curve before `i` that curve `i` collides with.
pub open spec fn first_collision(cs: Seq<(String, CurveDef)>, i: int) -> int {
    choose|j: int| 0 <= j < i && curves_collide(cs, i, j) && forall|q: int| 0 <= q < j ==> !curves_collide(cs, i, q)
}

/// Why the name of curve `i` cannot be emitted, if it cannot: it has no
/// ASCII letter or digit, or it emits a constant an earlier curve emits.
pub open spec fn name_error(cs: Seq<(String, CurveDef)>, i: int) -> Option<Seq<char>> {
    let name = cs[i].0@;
    if !has_alnum(name) {
        Some("curve `"@ + name + "`: name has no ASCII letters or digits"@)
    } else if exists|j: int| 0 <= j < i && curves_collide(cs, i, j) {
        Some("curve `"@ + name + "` and curve `"@ + cs[first_collision(cs, i)].0@
            + "` emit the same constant name"@)
    } else {
        None
    }
}

/// The first name error from curve `i` on.
pub open spec fn names_error_from(cs: Seq<(String, CurveDef)>, i: int) -> Option<Seq<char>>
    decreases cs.len() - i,
{
    if i < 0 || i >= cs.len() {
        None
    } else if name_error(cs, i) is Some {
        name_error(cs, i)
    } else {
        names_error_from(cs, i + 1)
    }
}

/// The values `v[i..end]`, in decimal, separated by `, `.
pub open spec fn joined(v: Seq<u32>, i: int, end: int) -> Seq<char>
    decreases end - i,
{
    if i >= end {
        Seq::empty()
    } else if i + 1 == end {
        decimal_spec(v[i] as nat)
    } else {
        decimal_spec(v[i] as nat) + ", "@ + joined(v, i + 1, end)
    }
}

/// The end of the line that starts at `k`.
pub open spec fn line_end(v: Seq<u32>, k: int) -> int {
    if k + 16 < v.len() {
        k + 16
    } else {
        v.len() as int
    }
}

/// The lines of a table from value `k` on, sixteen values to a line.
pub open spec fn rows_from(v: Seq<u32>, k: int) -> Seq<char>
    decreases v.len() - k,
{
    if k < 0 || k >= v.len() {
        Seq::empty()
    } else {
        "    "@ + joined(v, k, line_end(v, k)) + ",\n"@ + rows_from(v, line_end(v, k))
    }
}

/// A `static` table named `symbol` of element type `ty`.
pub open spec fn table_text(symbol: Seq<char>, ty: Seq<char>, v: Seq<u32>) -> Seq<char> {
    "pub static "@ + symbol + ": ["@ + ty + "; "@ + decimal_spec(v.len()) + "] = [\n"@
        + rows_from(v, 0) + "];\n"@
}

/// The `const` lookup value of a curve with stem `stem` over `n` entries.
pub open spec fn lookup_text(stem: Seq<char>, ty: Seq<char>, n: nat, monotonic: bool) -> Seq<char> {
    let params = ty + ", "@ + ty + ", "@ + decimal_spec(n) + "> = "@;
    if monotonic {
        "pub const "@ + stem + ": ph_curves::MonotonicCurveLut<"@ + params
            + "ph_curves::MonotonicCurveLut::new(&"@ + stem + "_FWD, &"@ + stem + "_INV);\n"@
    } else {
        "pub const "@ + stem + ": ph_curves::CurveLut<"@ + params + "ph_curves::CurveLut::new(&"@
            + stem + "_FWD, None);\n"@
    }
}

/// The source of one curve with forward table `fwd` and inverse `inv`.
pub open spec fn curve_text(name: Seq<char>, ty: Seq<char>, fwd: Seq<u32>, inv: Option<Seq<u32>>) -> Seq<char> {
    let stem = const_stem(name);
    "\n"@ + table_text(stem + "_FWD"@, ty, fwd) + match inv {
        Some(t) => table_text(stem + "_INV"@, ty, t),
        None => Seq::empty(),
    } + lookup_text(stem, ty, fwd.len(), inv is Some)
}

/// The banner at the top of every generated file.
pub open spec fn header_text() -> Seq<char> {
    "// Generated by ph-curves-gen from a curve definitions file.\n"@
}

/// The sources of the first `n` curves, with their built tables.
pub open spec fn curves_text(
    cs: Seq<(String, CurveDef)>,
    ty: Seq<char>,
    tables: Seq<(Seq<u32>, Option<Seq<u32>>)>,
    n: int,
) -> Seq<char>
    decreases n,
{
    if n <= 0 {
        Seq::empty()
    } else {
        curves_text(cs, ty, tables, n - 1) + curve_text(cs[n - 1].0@, ty, tables[n - 1].0, tables[n - 1].1)
    }
}

/// The generated file: the banner, then every curve in order.
pub open spec fn generated_source(
    cs: Seq<(String, CurveDef)>,
    t: ValueType,
    tables: Seq<(Seq<u32>, Option<Seq<u32>>)>,
) -> Seq<char> {
    header_text() + curves_text(cs, t.name_text(), tables, cs.len() as int)
}

proof fn lemma_assoc(a: Seq<char>, b: Seq<char>, c: Seq<char>)
    ensures
        (a + b) + c == a + (b + c),
{
    assert((a + b) + c =~= a + (b + c));
}

/// `s` followed by `t`.
fn push_str(out: &mut String, t: &str)
    ensures
        final(out)@ == old(out)@ + t@,
{
    out.append(t);
}

/// The upper-case letter of a lower-case one, as text.
fn upper_text(c: char) -> (s: &'static str)
    requires
        is_lower(c),
    ensures
        s@ == seq![const_char(c)],
{
    let letters = "ABCDEFGHIJKLMNOPQRSTUVWXYZ";
    proof {
        reveal_strlit("ABCDEFGHIJKLMNOPQRSTUVWXYZ");
    }
    let k = ((c as u32) - 97) as usize;
    char_at(letters, k)
}

/// The constant name a curve name normalizes to.
pub fn stem_of(name: &str) -> (s: String)
    ensures
        s@ == const_stem(name@),
{
    let n = name.unicode_len();
    let mut s = String::new();
    let mut i: usize = 0;
    proof {
        reveal_strlit("_");
    }
    while i < n
        invariant
            n == name@.len(),
            i <= n,
            s@ == const_stem(name@).subrange(0, i as int),
        decreases n - i,
    {
        let c = name.get_char(i);
        let ghost before = s@;
        if 'a' <= c && c <= 'z' {
            s.append(upper_text(c));
        } else if ('A' <= c && c <= 'Z') || ('0' <= c && c <= '9') {
            s.append(char_at(name, i));
        } else {
            s.append("_");
            proof {
                reveal_strlit("_");
            }
            assert("_"@ =~= seq!['_']);
        }
        assert(s@ == before + seq![const_char(name@[i as int])]);
        assert(s@ =~= const_stem(name@).subrange(0, i + 1));
        i = i + 1;
    }
    assert(s@ =~= const_stem(name@));
    s
}

fn has_alnum_text(name: &str) -> (b: bool)
    ensures
        b == has_alnum(name@),
{
    let n = name.unicode_len();
    let mut i: usize = 0;
    while i < n
        invariant
            n == name@.len(),
            i <= n,
            forall|j: int| 0 <= j < i ==> !is_alnum(#[trigger] name@[j]),
        decreases n - i,
    {
        let c = name.get_char(i);
        if ('a' <= c && c <= 'z') || ('A' <= c && c <= 'Z') || ('0' <= c && c <= '9') {
            return true;
        }
        i = i + 1;
    }
    false
}

fn suffixed(stem: &String, suffix: &str) -> (s: String)
    ensures
        s@ == stem@ + suffix@,
{
    let mut s = stem.clone();
    s.append(suffix);
    s
}

fn collide(a: &String, a_mono: bool, b: &String, b_mono: bool) -> (r: bool)
    ensures
        r == stems_collide(a@, a_mono, b@, b_mono),
{
    if same_text(a.as_str(), b.as_str()) {
        return true;
    }
    let b_fwd = suffixed(b, "_FWD");
    let a_fwd = suffixed(a, "_FWD");
    let b_inv = suffixed(b, "_INV");
    let a_inv = suffixed(a, "_INV");
    same_text(a.as_str(), b_fwd.as_str()) || same_text(b.as_str(), a_fwd.as_str()) || (b_mono
        && same_text(a.as_str(), b_inv.as_str())) || (a_mono && same_text(b.as_str(), a_inv.as_str()))
}

/// Check that every curve name normalizes to constant names of its own.
pub fn check_names(curves: &Vec<(String, CurveDef)>) -> (r: Result<(), String>)
    ensures
        r is Ok <==> names_error_from(curves@, 0) is None,
        r matches Err(e) ==> Some(e@) == names_error_from(curves@, 0),
{
    let ghost cs = curves@;
    let n = curves.len();
    let mut stems: Vec<String> = Vec::new();
    let mut i: usize = 0;
    while i < n
        invariant
            cs == curves@,
            n == cs.len(),
            i <= n,
            stems@.len() == i,
            forall|k: int| 0 <= k < i ==> (#[trigger] stems@[k])@ == const_stem(cs[k].0@),
            names_error_from(cs, 0) == names_error_from(cs, i as int),
        decreases n - i,
    {
        let name = curves[i].0.as_str();
        if !has_alnum_text(name) {
            return Err(join3("curve `", name, "`: name has no ASCII letters or digits"));
        }
        let stem = stem_of(name);
        let mono = curves[i].1.monotonic;
        let mut j: usize = 0;
        while j < i
            invariant
                cs == curves@,
                n == cs.len(),
                j <= i < n,
                stems@.len() == i,
                forall|k: int| 0 <= k < i ==> (#[trigger] stems@[k])@ == const_stem(cs[k].0@),
                stem@ == const_stem(cs[i as int].0@),
                mono == cs[i as int].1.monotonic,
                has_alnum(cs[i as int].0@),
                name@ == cs[i as int].0@,
                names_error_from(cs, 0) == names_error_from(cs, i as int),
                forall|q: int| 0 <= q < j ==> !curves_collide(cs, i as int, q),
            decreases i - j,
        {
            if collide(&stem, mono, &stems[j], curves[j].1.monotonic) {
                proof {
                    assert(curves_collide(cs, i as int, j as int));
                    let f = first_collision(cs, i as int);
                    assert(f == j) by {
                        if f < j {
                        } else if f > j {
                        }
                    }
                }
                let mut e = join3("curve `", name, "` and curve `");
                e.append(curves[j].0.as_str());
                e.append("` emit the same constant name");
                assert(e@ =~= "curve `"@ + name@ + "` and curve `"@ + cs[j as int].0@
                    + "` emit the same constant name"@);
                return Err(e);
            }
            j = j + 1;
        }
        stems.push(stem);
        i = i + 1;
    }
    Ok(())
}

/// The values `v[i..end]`, in decimal, separated by `, `.
fn row_text(v: &[u32], k: usize, end: usize) -> (s: String)
    requires
        k < end <= v@.len(),
    ensures
        s@ == joined(v@, k as int, end as int),
{
    let mut s = String::new();
    let mut i: usize = k;
    while i < end
        invariant
            k <= i <= end <= v@.len(),
            s@ + joined(v@, i as int, end as int) == joined(v@, k as int, end as int),
        decreases end - i,
    {
        let ghost before = s@;
        let d = decimal(v[i] as u64);
        s.append(d.as_str());
        if i + 1 < end {
            s.append(", ");
            proof {
                lemma_assoc(before, d@, ", "@);
                lemma_assoc(before + d@, ", "@, joined(v@, i + 1, end as int));
                lemma_assoc(before, d@ + ", "@, joined(v@, i + 1, end as int));
                lemma_assoc(d@, ", "@, joined(v@, i + 1, end as int));
            }
        } else {
            assert(joined(v@, i + 1, end as int) =~= Seq::<char>::empty());
            assert(s@ + joined(v@, i + 1, end as int) =~= s@);
        }
        i = i + 1;
    }
    assert(s@ + joined(v@, end as int, end as int) =~= s@);
    s
}

/// Append a `static` table named `symbol`.
fn push_table(out: &mut String, symbol: &str, ty: &str, v: &[u32])
    ensures
        final(out)@ == old(out)@ + table_text(symbol@, ty@, v@),
{
    let ghost start = out@;
    push_str(out, "pub static ");
    push_str(out, symbol);
    push_str(out, ": [");
    push_str(out, ty);
    push_str(out, "; ");
    let len = decimal(v.len() as u64);
    push_str(out, len.as_str());
    push_str(out, "] = [\n");
    let ghost head = out@;
    assert(head == start + ("pub static "@ + symbol@ + ": ["@ + ty@ + "; "@ + decimal_spec(v@.len())
        + "] = [\n"@)) by {
        assert(head =~= start + ("pub static "@ + symbol@ + ": ["@ + ty@ + "; "@ + decimal_spec(
            v@.len(),
        ) + "] = [\n"@));
    }
    let n = v.len();
    let mut k: usize = 0;
    while k < n
        invariant
            n == v@.len(),
            out@ + rows_from(v@, k as int) == head + rows_from(v@, 0),
        decreases n - k,
    {
        let end = if n - k > 16 {
            k + 16
        } else {
            n
        };
        let ghost before = out@;
        let row = row_text(v, k, end);
        push_str(out, "    ");
        push_str(out, row.as_str());
        push_str(out, ",\n");
        proof {
            let line = "    "@ + joined(v@, k as int, end as int) + ",\n"@;
            assert(out@ =~= before + line);
            assert(end == line_end(v@, k as int));
            assert(rows_from(v@, k as int) == line + rows_from(v@, end as int));
            lemma_assoc(before, line, rows_from(v@, end as int));
        }
        k = end;
    }
    assert(out@ + rows_from(v@, n as int) =~= out@);
    push_str(out, "];\n");
    assert(out@ =~= start + table_text(symbol@, ty@, v@));
}

/// Append the `const` lookup value of a curve.
fn push_lookup(out: &mut String, stem: &str, ty: &str, n: usize, monotonic: bool)
    ensures
        final(out)@ == old(out)@ + lookup_text(stem@, ty@, n as nat, monotonic),
{
    let ghost start = out@;
    let count = decimal(n as u64);
    push_str(out, "pub const ");
    push_str(out, stem);
    if monotonic {
        push_str(out, ": ph_curves::MonotonicCurveLut<");
    } else {
        push_str(out, ": ph_curves::CurveLut<");
    }
    push_str(out, ty);
    push_str(out, ", ");
    push_str(out, ty);
    push_str(out, ", ");
    push_str(out, count.as_str());
    push_str(out, "> = ");
    if monotonic {
        push_str(out, "ph_curves::MonotonicCurveLut::new(&");
        push_str(out, stem);
        push_str(out, "_FWD, &");
        push_str(out, stem);
        push_str(out, "_INV);\n");
    } else {
        push_str(out, "ph_curves::CurveLut::new(&");
        push_str(out, stem);
        push_str(out, "_FWD, None);\n");
    }
    assert(out@ =~= start + lookup_text(stem@, ty@, n as nat, monotonic));
}

/// Append the source of one curve.
pub fn push_curve(out: &mut String, name: &str, t: ValueType, fwd: &Vec<u32>, inv: &Option<Vec<u32>>)
    ensures
        final(out)@ == old(out)@ + curve_text(
            name@,
            t.name_text(),
            fwd@,
            match inv {
                Some(v) => Some(v@),
                None => None,
            },
        ),
{
    let ghost start = out@;
    let ty = t.as_str();
    let stem = stem_of(name);
    push_str(out, "\n");
    let fwd_name = suffixed(&stem, "_FWD");
    push_table(out, fwd_name.as_str(), ty, fwd.as_slice());
    let ghost mid = out@;
    match inv {
        Some(v) => {
            let inv_name = suffixed(&stem, "_INV");
            push_table(out, inv_name.as_str(), ty, v.as_slice());
        },
        None => {},
    }
    let ghost after_inv = out@;
    push_lookup(out, stem.as_str(), ty, fwd.len(), inv.is_some());
    proof {
        let inv_text = match inv {
            Some(v) => table_text(stem@ + "_INV"@, ty@, v@),
            None => Seq::<char>::empty(),
        };
        assert(after_inv =~= mid + inv_text);
        assert(out@ =~= start + curve_text(
            name@,
            t.name_text(),
            fwd@,
            match inv {
                Some(v) => Some(v@),
                None => None,
            },
        ));
    }
}

/// Start a generated file with its banner.
pub fn header() -> (s: String)
    ensures
        s@ == header_text(),
{
    String::from_str("// Generated by ph-curves-gen from a curve definitions file.\n")
}

} // verus!
