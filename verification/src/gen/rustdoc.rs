//! Markdown-safe rendering of user text for generated documentation.

use vstd::prelude::*;

use super::text::{char_at, contains_text, debug_quoted, debug_text, find_text};

verus! {

/// The escape of one character: `&` becomes `&amp;`, Markdown and HTML
/// punctuation gets a backslash, anything else stays.
pub open spec fn markdown_escape_char(c: char) -> Seq<char> {
    if c == '&' {
        "&amp;"@
    } else if c == '`' || c == '*' || c == '_' || c == '{' || c == '}' || c == '[' || c == ']' || c
        == '<' || c == '>' {
        "\\"@ + seq![c]
    } else {
        seq![c]
    }
}

/// Escape every character of `s` in order.
pub open spec fn markdown_escape(s: Seq<char>) -> Seq<char>
    decreases s.len(),
{
    if s.len() == 0 {
        Seq::empty()
    } else {
        markdown_escape(s.drop_last()) + markdown_escape_char(s.last())
    }
}

/// Length of the run of backticks that ends `s`.
pub open spec fn trailing_backticks(s: Seq<char>) -> nat
    decreases s.len(),
{
    if s.len() == 0 || s.last() != '`' {
        0
    } else {
        trailing_backticks(s.drop_last()) + 1
    }
}

/// Length of the longest run of consecutive backticks in `s`.
pub open spec fn longest_backtick_run(s: Seq<char>) -> nat
    decreases s.len(),
{
    if s.len() == 0 {
        0
    } else {
        let before = longest_backtick_run(s.drop_last());
        let here = trailing_backticks(s);
        if here > before {
            here
        } else {
            before
        }
    }
}

/// `n` backticks.
pub open spec fn fence(n: nat) -> Seq<char> {
    Seq::new(n, |i: int| '`')
}

/// What [`rustdoc_debug`] renders: text holding a URL scheme separator or
/// a backtick becomes inline code, fenced by one more backtick than its
/// longest run; other text is escaped for Markdown.
pub open spec fn rustdoc_text(v: Seq<char>) -> Seq<char> {
    let d = debug_text(v);
    if contains_text(v, "://"@) || contains_text(v, "`"@) {
        fence(longest_backtick_run(d) + 1) + d + fence(longest_backtick_run(d) + 1)
    } else {
        markdown_escape(d)
    }
}

/// Debug-format one string, then neutralize Markdown and HTML punctuation.
pub fn markdown_debug(value: &str) -> (r: String)
    ensures
        r@ == markdown_escape(debug_text(value@)),
{
    let debug = debug_quoted(value);
    let d = debug.as_str();
    let n = d.unicode_len();
    let mut escaped = String::new();
    let mut i: usize = 0;
    while i < n
        invariant
            n == d@.len(),
            d@ == debug_text(value@),
            i <= n,
            escaped@ == markdown_escape(d@.subrange(0, i as int)),
        decreases n - i,
    {
        let c = d.get_char(i);
        assert(d@.subrange(0, i + 1).drop_last() =~= d@.subrange(0, i as int));
        if c == '&' {
            escaped.append("&amp;");
        } else if c == '`' || c == '*' || c == '_' || c == '{' || c == '}' || c == '[' || c == ']'
            || c == '<' || c == '>' {
            escaped.append("\\");
            escaped.append(char_at(d, i));
        } else {
            escaped.append(char_at(d, i));
        }
        i = i + 1;
    }
    assert(d@.subrange(0, n as int) =~= d@);
    escaped
}

/// A string of `n` backticks.
fn backtick_fence(n: usize) -> (r: String)
    ensures
        r@ == fence(n as nat),
{
    proof {
        reveal_strlit("`");
    }
    let mut s = String::new();
    let mut i: usize = 0;
    while i < n
        invariant
            i <= n,
            s@ == fence(i as nat),
            "`"@ == seq!['`'],
        decreases n - i,
    {
        s.append("`");
        assert(s@ =~= fence((i + 1) as nat));
        i = i + 1;
    }
    s
}

/// Debug-format user text for generated rustdoc without creating Markdown.
///
/// URLs and literal backticks use an inline-code fence longer than every
/// backtick run in the debug string; other text is escaped.
pub fn rustdoc_debug(value: &str) -> (r: String)
    ensures
        r@ == rustdoc_text(value@),
{
    if find_text(value, "://") || find_text(value, "`") {
        let debug = debug_quoted(value);
        let d = debug.as_str();
        let n = d.unicode_len();
        let mut longest_run: usize = 0;
        let mut current_run: usize = 0;
        let mut i: usize = 0;
        while i < n
            invariant
                n == d@.len(),
                i <= n,
                current_run <= i,
                longest_run <= i,
                current_run == trailing_backticks(d@.subrange(0, i as int)),
                longest_run == longest_backtick_run(d@.subrange(0, i as int)),
            decreases n - i,
        {
            let c = d.get_char(i);
            assert(d@.subrange(0, i + 1).drop_last() =~= d@.subrange(0, i as int));
            if c == '`' {
                current_run = current_run + 1;
                if current_run > longest_run {
                    longest_run = current_run;
                }
            } else {
                current_run = 0;
            }
            i = i + 1;
        }
        assert(d@.subrange(0, n as int) =~= d@);
        let mut fence_text = backtick_fence(longest_run);
        proof {
            reveal_strlit("`");
        }
        fence_text.append("`");
        assert(fence_text@ =~= fence((longest_run + 1) as nat));
        let mut r = String::new();
        r.append(fence_text.as_str());
        r.append(d);
        r.append(fence_text.as_str());
        r
    } else {
        markdown_debug(value)
    }
}

} // verus!
