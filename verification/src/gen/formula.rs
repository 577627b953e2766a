//! Lexer for formula curves.
//!
//! A formula is a math expression over a variable such as `t`:
//!
//! ```text
//! expression = term (('+' | '-') term)*
//! term       = power (('*' | '/') power)*
//! power      = unary ('^' unary)*          (right-associative)
//! unary      = '-' unary | atom
//! atom       = NUMBER | IDENT | IDENT '(' args ')' | '(' expression ')'
//! args       = expression (',' expression)*
//! ```
//!
//! This module turns the text into tokens; `grammar` parses them. A number
//! token keeps its literal text; the host tool reads it as floating point
//! when it evaluates the expression.

use vstd::prelude::*;

use super::text::char_at;

verus! {

/// One formula token.
#[derive(Debug, Clone, PartialEq, Eq)]
pub enum Token {
    /// A run of ASCII digits and dots, as written.
    Num(String),
    /// A run of ASCII letters, digits and underscores starting with a
    /// letter or underscore.
    Ident(String),
    /// `+`
    Plus,
    /// `-`
    Minus,
    /// `*`
    Star,
    /// `/`
    Slash,
    /// `(`
    LParen,
    /// `)`
    RParen,
    /// `,`
    Comma,
    /// `^` or `**`
    Caret,
}

/// The contents of a token.
pub ghost enum TokenView {
    Num(Seq<char>),
    Ident(Seq<char>),
    Plus,
    Minus,
    Star,
    Slash,
    LParen,
    RParen,
    Comma,
    Caret,
}

impl View for Token {
    type V = TokenView;

    open spec fn view(&self) -> TokenView {
        match self {
            Token::Num(s) => TokenView::Num(s@),
            Token::Ident(s) => TokenView::Ident(s@),
            Token::Plus => TokenView::Plus,
            Token::Minus => TokenView::Minus,
            Token::Star => TokenView::Star,
            Token::Slash => TokenView::Slash,
            Token::LParen => TokenView::LParen,
            Token::RParen => TokenView::RParen,
            Token::Comma => TokenView::Comma,
            Token::Caret => TokenView::Caret,
        }
    }
}

/// Blank characters between tokens.
pub open spec fn is_blank_char(c: char) -> bool {
    c == ' ' || c == '\t' || c == '\n' || c == '\r'
}

/// Characters of a number literal.
pub open spec fn is_number_char(c: char) -> bool {
    ('0' <= c && c <= '9') || c == '.'
}

/// Characters that can start an identifier.
pub open spec fn is_ident_start(c: char) -> bool {
    ('a' <= c && c <= 'z') || ('A' <= c && c <= 'Z') || c == '_'
}

/// Characters that can continue an identifier.
pub open spec fn is_ident_char(c: char) -> bool {
    is_ident_start(c) || ('0' <= c && c <= '9')
}

/// Single-character operators and punctuation.
pub open spec fn is_symbol(c: char) -> bool {
    c == '+' || c == '-' || c == '*' || c == '/' || c == '^' || c == '(' || c == ')' || c == ','
}

/// Characters a formula may contain.
pub open spec fn is_formula_char(c: char) -> bool {
    is_blank_char(c) || is_symbol(c) || is_number_char(c) || is_ident_start(c)
}

/// End of the run of number characters starting at `i`.
pub open spec fn number_end(s: Seq<char>, i: int) -> int
    decreases s.len() - i,
{
    if 0 <= i < s.len() && is_number_char(s[i]) {
        number_end(s, i + 1)
    } else {
        i
    }
}

/// End of the run of identifier characters starting at `i`.
pub open spec fn ident_end(s: Seq<char>, i: int) -> int
    decreases s.len() - i,
{
    if 0 <= i < s.len() && is_ident_char(s[i]) {
        ident_end(s, i + 1)
    } else {
        i
    }
}

/// The token a symbol character stands for on its own.
pub open spec fn symbol_token(c: char) -> TokenView {
    if c == '+' {
        TokenView::Plus
    } else if c == '-' {
        TokenView::Minus
    } else if c == '*' {
        TokenView::Star
    } else if c == '/' {
        TokenView::Slash
    } else if c == '^' {
        TokenView::Caret
    } else if c == '(' {
        TokenView::LParen
    } else if c == ')' {
        TokenView::RParen
    } else {
        TokenView::Comma
    }
}

/// The tokens of `s` from position `i` on: blanks are skipped, `**` is a
/// power, a symbol is one token, and numbers and identifiers take the
/// longest run of their characters.
pub open spec fn lex_from(s: Seq<char>, i: int) -> Seq<TokenView>
    decreases s.len() - i, 1int,
{
    if i < 0 || i >= s.len() {
        Seq::empty()
    } else if is_blank_char(s[i]) {
        lex_from(s, i + 1)
    } else if s[i] == '*' && i + 1 < s.len() && s[i + 1] == '*' {
        seq![TokenView::Caret] + lex_from(s, i + 2)
    } else if is_symbol(s[i]) {
        seq![symbol_token(s[i])] + lex_from(s, i + 1)
    } else if is_number_char(s[i]) {
        lex_number(s, i)
    } else if is_ident_start(s[i]) {
        lex_ident(s, i)
    } else {
        Seq::empty()
    }
}

/// A number token at `i` followed by the rest.
pub open spec fn lex_number(s: Seq<char>, i: int) -> Seq<TokenView>
    decreases s.len() - i, 0int,
{
    if 0 <= i < s.len() && is_number_char(s[i]) {
        let j = number_end(s, i);
        proof {
            lemma_run_ends_later(s, i);
        }
        seq![TokenView::Num(s.subrange(i, j))] + lex_from(s, j)
    } else {
        Seq::empty()
    }
}

/// An identifier token at `i` followed by the rest.
pub open spec fn lex_ident(s: Seq<char>, i: int) -> Seq<TokenView>
    decreases s.len() - i, 0int,
{
    if 0 <= i < s.len() && is_ident_char(s[i]) {
        let j = ident_end(s, i);
        proof {
            lemma_run_ends_later(s, i);
        }
        seq![TokenView::Ident(s.subrange(i, j))] + lex_from(s, j)
    } else {
        Seq::empty()
    }
}

/// The tokens of a whole formula.
pub open spec fn lex(s: Seq<char>) -> Seq<TokenView> {
    lex_from(s, 0)
}

/// A run that starts on a matching character ends after it, within `s`.
pub proof fn lemma_run_ends_later(s: Seq<char>, i: int)
    requires
        0 <= i <= s.len(),
    ensures
        i <= number_end(s, i) <= s.len(),
        i <= ident_end(s, i) <= s.len(),
        i < s.len() && is_number_char(s[i]) ==> i < number_end(s, i),
        i < s.len() && is_ident_char(s[i]) ==> i < ident_end(s, i),
    decreases s.len() - i,
{
    if i < s.len() {
        lemma_run_ends_later(s, i + 1);
    }
}

/// The contents of a token list.
pub open spec fn tokens_view(tokens: Seq<Token>) -> Seq<TokenView> {
    Seq::new(tokens.len(), |k: int| tokens[k]@)
}

fn blank_char(c: char) -> (b: bool)
    ensures
        b == is_blank_char(c),
{
    c == ' ' || c == '\t' || c == '\n' || c == '\r'
}

fn number_char(c: char) -> (b: bool)
    ensures
        b == is_number_char(c),
{
    ('0' <= c && c <= '9') || c == '.'
}

fn ident_start(c: char) -> (b: bool)
    ensures
        b == is_ident_start(c),
{
    ('a' <= c && c <= 'z') || ('A' <= c && c <= 'Z') || c == '_'
}

fn ident_char(c: char) -> (b: bool)
    ensures
        b == is_ident_char(c),
{
    ident_start(c) || ('0' <= c && c <= '9')
}

fn symbol(c: char) -> (t: Option<Token>)
    ensures
        t is Some <==> is_symbol(c),
        t matches Some(tok) ==> tok@ == symbol_token(c),
{
    if c == '+' {
        Some(Token::Plus)
    } else if c == '-' {
        Some(Token::Minus)
    } else if c == '*' {
        Some(Token::Star)
    } else if c == '/' {
        Some(Token::Slash)
    } else if c == '^' {
        Some(Token::Caret)
    } else if c == '(' {
        Some(Token::LParen)
    } else if c == ')' {
        Some(Token::RParen)
    } else if c == ',' {
        Some(Token::Comma)
    } else {
        None
    }
}

/// The first character a formula may not contain, if any.
pub fn unexpected_char(expr: &str) -> (r: Option<char>)
    ensures
        r is None <==> forall|i: int| 0 <= i < expr@.len() ==> is_formula_char(#[trigger] expr@[i]),
        r matches Some(c) ==> exists|i: int|
            0 <= i < expr@.len() && expr@[i] == c && !is_formula_char(c) && forall|j: int|
                0 <= j < i ==> is_formula_char(#[trigger] expr@[j]),
{
    let n = expr.unicode_len();
    let mut i: usize = 0;
    while i < n
        invariant
            n == expr@.len(),
            i <= n,
            forall|j: int| 0 <= j < i ==> is_formula_char(#[trigger] expr@[j]),
        decreases n - i,
    {
        let c = expr.get_char(i);
        if !(blank_char(c) || symbol(c).is_some() || number_char(c) || ident_start(c)) {
            return Some(c);
        }
        i = i + 1;
    }
    None
}

/// A number literal that reads as a floating-point number: at most one
/// dot and at least one digit.
pub open spec fn float_literal(t: Seq<char>) -> bool {
    &&& forall|i: int, j: int| 0 <= i < j < t.len() ==> !(t[i] == '.' && t[j] == '.')
    &&& exists|i: int| 0 <= i < t.len() && '0' <= t[i] && t[i] <= '9'
}

/// A token is not a number, or a number that reads as floating point.
pub open spec fn readable_token(tok: TokenView) -> bool {
    tok matches TokenView::Num(t) ==> float_literal(t)
}

/// Every number literal of a formula reads as floating point.
pub open spec fn literals_valid(s: Seq<char>) -> bool {
    forall|k: int| 0 <= k < lex(s).len() ==> readable_token(#[trigger] lex(s)[k])
}

/// Whether a number literal reads as floating point.
fn readable_literal(t: &String) -> (b: bool)
    ensures
        b == float_literal(t@),
{
    let n = t.as_str().unicode_len();
    let mut dot: Option<usize> = None;
    let mut digit = false;
    let mut i: usize = 0;
    while i < n
        invariant
            n == t@.len(),
            i <= n,
            match dot {
                Some(d) => d < i && t@[d as int] == '.' && forall|k: int|
                    0 <= k < i && k != d ==> t@[k] != '.',
                None => forall|k: int| 0 <= k < i ==> t@[k] != '.',
            },
            digit == exists|k: int| 0 <= k < i && '0' <= t@[k] && t@[k] <= '9',
        decreases n - i,
    {
        let c = t.as_str().get_char(i);
        if c == '.' {
            match dot {
                Some(d) => {
                    assert(t@[d as int] == '.' && t@[i as int] == '.');
                    return false;
                },
                None => {
                    dot = Some(i);
                },
            }
        }
        if '0' <= c && c <= '9' {
            digit = true;
        }
        i = i + 1;
    }
    digit
}

/// The first number literal of a formula that does not read as floating
/// point, if any.
pub fn invalid_number(expr: &str) -> (r: Option<String>)
    requires
        forall|i: int| 0 <= i < expr@.len() ==> is_formula_char(#[trigger] expr@[i]),
    ensures
        r is None <==> literals_valid(expr@),
        r matches Some(t) ==> exists|k: int|
            0 <= k < lex(expr@).len() && lex(expr@)[k] == TokenView::Num(t@) && !float_literal(t@)
                && forall|j: int| 0 <= j < k ==> readable_token(#[trigger] lex(expr@)[j]),
{
    let tokens = lex_tokens(expr);
    let ghost l = lex(expr@);
    let mut k: usize = 0;
    while k < tokens.len()
        invariant
            tokens_view(tokens@) == l,
            l == lex(expr@),
            k <= tokens@.len(),
            forall|j: int| 0 <= j < k ==> readable_token(#[trigger] l[j]),
        decreases tokens@.len() - k,
    {
        assert(l[k as int] == tokens@[k as int]@);
        match &tokens[k] {
            Token::Num(t) => {
                if !readable_literal(t) {
                    return Some(t.clone());
                }
            },
            _ => {},
        }
        k = k + 1;
    }
    None
}

/// Split a formula into tokens. Every character must be one a formula may
/// contain and every number literal must read as floating point.
pub fn tokenize(expr: &str) -> (tokens: Vec<Token>)
    requires
        forall|i: int| 0 <= i < expr@.len() ==> is_formula_char(#[trigger] expr@[i]),
        literals_valid(expr@),
    ensures
        tokens_view(tokens@) == lex(expr@),
{
    lex_tokens(expr)
}

fn lex_tokens(expr: &str) -> (tokens: Vec<Token>)
    requires
        forall|i: int| 0 <= i < expr@.len() ==> is_formula_char(#[trigger] expr@[i]),
    ensures
        tokens_view(tokens@) == lex(expr@),
{
    let ghost s = expr@;
    let n = expr.unicode_len();
    let mut tokens: Vec<Token> = Vec::new();
    let mut i: usize = 0;
    while i < n
        invariant
            s == expr@,
            n == s.len(),
            i <= n,
            forall|k: int| 0 <= k < s.len() ==> is_formula_char(#[trigger] s[k]),
            tokens_view(tokens@) + lex_from(s, i as int) == lex(s),
        decreases n - i,
    {
        let c = expr.get_char(i);
        let ghost before = tokens_view(tokens@);
        if blank_char(c) {
            i = i + 1;
        } else if c == '*' && i + 1 < n && expr.get_char(i + 1) == '*' {
            tokens.push(Token::Caret);
            proof {
                assert(tokens_view(tokens@) =~= before.push(TokenView::Caret));
                assert(lex_from(s, i as int) == seq![TokenView::Caret] + lex_from(s, i + 2));
                assert(before.push(TokenView::Caret) + lex_from(s, i + 2) =~= before + (seq![
                    TokenView::Caret,
                ] + lex_from(s, i + 2)));
            }
            i = i + 2;
        } else if let Some(tok) = symbol(c) {
            tokens.push(tok);
            proof {
                assert(tokens_view(tokens@) =~= before.push(symbol_token(c)));
                assert(lex_from(s, i as int) == seq![symbol_token(c)] + lex_from(s, i + 1));
                assert(before.push(symbol_token(c)) + lex_from(s, i + 1) =~= before + (seq![
                    symbol_token(c),
                ] + lex_from(s, i + 1)));
            }
            i = i + 1;
        } else if number_char(c) {
            let mut text = String::new();
            let mut j: usize = i;
            while j < n && number_char(expr.get_char(j))
                invariant
                    s == expr@,
                    n == s.len(),
                    i <= j <= n,
                    text@ == s.subrange(i as int, j as int),
                    forall|k: int| i <= k < j ==> is_number_char(#[trigger] s[k]),
                    number_end(s, i as int) == number_end(s, j as int),
                decreases n - j,
            {
                text.append(char_at(expr, j));
                assert(text@ =~= s.subrange(i as int, j + 1));
                j = j + 1;
            }
            proof {
                assert(number_end(s, j as int) == j);
                assert(lex_from(s, i as int) == lex_number(s, i as int));
            }
            tokens.push(Token::Num(text));
            proof {
                let t = TokenView::Num(s.subrange(i as int, j as int));
                assert(tokens_view(tokens@) =~= before.push(t));
                assert(before.push(t) + lex_from(s, j as int) =~= before + (seq![t] + lex_from(s, j as int)));
            }
            i = j;
        } else {
            let mut text = String::new();
            let mut j: usize = i;
            while j < n && ident_char(expr.get_char(j))
                invariant
                    s == expr@,
                    n == s.len(),
                    i <= j <= n,
                    text@ == s.subrange(i as int, j as int),
                    forall|k: int| i <= k < j ==> is_ident_char(#[trigger] s[k]),
                    ident_end(s, i as int) == ident_end(s, j as int),
                decreases n - j,
            {
                text.append(char_at(expr, j));
                assert(text@ =~= s.subrange(i as int, j + 1));
                j = j + 1;
            }
            proof {
                assert(ident_end(s, j as int) == j);
                assert(is_ident_start(c));
                assert(lex_from(s, i as int) == lex_ident(s, i as int));
            }
            tokens.push(Token::Ident(text));
            proof {
                let t = TokenView::Ident(s.subrange(i as int, j as int));
                assert(tokens_view(tokens@) =~= before.push(t));
                assert(before.push(t) + lex_from(s, j as int) =~= before + (seq![t] + lex_from(s, j as int)));
            }
            i = j;
        }
    }
    assert(tokens_view(tokens@) + lex_from(s, n as int) =~= tokens_view(tokens@));
    tokens
}

} // verus!
