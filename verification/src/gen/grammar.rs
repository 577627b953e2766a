//! Parser for formula curves: tokens to an expression tree.
//!
//! ```text
//! expression = term (('+' | '-') term)*
//! term       = power (('*' | '/') power)*
//! power      = unary ('^' power)?          (right-associative)
//! unary      = '-' unary | atom
//! atom       = NUMBER | IDENT | IDENT '(' args ')' | '(' expression ')'
//! args       = expression (',' expression)*
//! ```
//!
//! Names are resolved while parsing: `pi`/`PI` and `e`/`E` are constants,
//! the formula's variable is its input, and a call names one of a fixed set
//! of functions with a fixed number of arguments. The first problem met
//! from left to right is reported, a call's name and arity once its
//! arguments are read. The host tool evaluates the tree in floating point.

use vstd::prelude::*;

use super::formula::{tokens_view, Token, TokenView};
use super::text::same_text;

verus! {

/// A named value a formula may read.
#[derive(Debug, Clone, Copy, PartialEq, Eq, Structural)]
pub enum Name {
    /// `pi` or `PI`.
    Pi,
    /// `e` or `E`.
    E,
    /// The formula's variable.
    Input,
}

/// A function a formula may call.
#[derive(Debug, Clone, Copy, PartialEq, Eq, Structural)]
pub enum Func {
    /// `pow(x, y)`
    Pow,
    /// `sqrt(x)`
    Sqrt,
    /// `abs(x)`
    Abs,
    /// `sin(x)`
    Sin,
    /// `cos(x)`
    Cos,
    /// `tan(x)`
    Tan,
    /// `exp(x)`
    Exp,
    /// `ln(x)`
    Ln,
    /// `log2(x)`
    Log2,
    /// `min(x, y)`
    Min,
    /// `max(x, y)`
    Max,
    /// `clamp(x, lo, hi)`
    Clamp,
}

/// A parsed formula. A number refers to its literal by token position.
#[derive(Debug, PartialEq, Eq)]
pub enum Expr {
    /// The number literal at this token position.
    Num(usize),
    /// A constant or the variable.
    Var(Name),
    /// `-a`
    Neg(Box<Expr>),
    /// `a + b`
    Add(Box<Expr>, Box<Expr>),
    /// `a - b`
    Sub(Box<Expr>, Box<Expr>),
    /// `a * b`
    Mul(Box<Expr>, Box<Expr>),
    /// `a / b`
    Div(Box<Expr>, Box<Expr>),
    /// `a ^ b`
    Pow(Box<Expr>, Box<Expr>),
    /// A call with one argument.
    Call1(Func, Box<Expr>),
    /// A call with two arguments.
    Call2(Func, Box<Expr>, Box<Expr>),
    /// A call with three arguments.
    Call3(Func, Box<Expr>, Box<Expr>, Box<Expr>),
}

/// Why a token list is not a formula. Positions index the tokens; a
/// position equal to their number is the end of the formula.
#[derive(Debug, Clone, Copy, PartialEq, Eq, Structural)]
pub enum ParseError {
    /// A `)` was required at this position.
    MissingRParen(usize),
    /// No operand can start at this position.
    UnexpectedToken(usize),
    /// The identifier at this position names neither a constant nor the
    /// variable.
    UnknownVariable(usize),
    /// The identifier at this position names no function.
    UnknownFunction(usize),
    /// A function was called with the wrong number of arguments.
    WrongArity(Func),
    /// The formula ended before the token at this position.
    TrailingTokens(usize),
}

/// What a parse step gives: the tree and the position after it.
pub type Step = Result<(Expr, int), ParseError>;

/// The value an identifier names, constants first.
pub open spec fn named(name: Seq<char>, variable: Seq<char>) -> Option<Name> {
    if name == "pi"@ || name == "PI"@ {
        Some(Name::Pi)
    } else if name == "e"@ || name == "E"@ {
        Some(Name::E)
    } else if name == variable {
        Some(Name::Input)
    } else {
        None
    }
}

/// The function an identifier names.
pub open spec fn func_named(name: Seq<char>) -> Option<Func> {
    if name == "pow"@ {
        Some(Func::Pow)
    } else if name == "sqrt"@ {
        Some(Func::Sqrt)
    } else if name == "abs"@ {
        Some(Func::Abs)
    } else if name == "sin"@ {
        Some(Func::Sin)
    } else if name == "cos"@ {
        Some(Func::Cos)
    } else if name == "tan"@ {
        Some(Func::Tan)
    } else if name == "exp"@ {
        Some(Func::Exp)
    } else if name == "ln"@ {
        Some(Func::Ln)
    } else if name == "log2"@ {
        Some(Func::Log2)
    } else if name == "min"@ {
        Some(Func::Min)
    } else if name == "max"@ {
        Some(Func::Max)
    } else if name == "clamp"@ {
        Some(Func::Clamp)
    } else {
        None
    }
}

/// How many arguments a function takes.
pub open spec fn arity(f: Func) -> nat {
    match f {
        Func::Pow | Func::Min | Func::Max => 2,
        Func::Clamp => 3,
        _ => 1,
    }
}

/// The token at `pos` is `tok`.
pub open spec fn token_is(ts: Seq<TokenView>, pos: int, tok: TokenView) -> bool {
    0 <= pos < ts.len() && ts[pos] == tok
}

/// A finished call to the function named by the identifier at `at`.
pub open spec fn finish_call(ts: Seq<TokenView>, at: int, args: Seq<Expr>, end: int) -> Step {
    match func_named(ts[at]->Ident_0) {
        None => Err(ParseError::UnknownFunction(at as usize)),
        Some(f) => if args.len() != arity(f) {
            Err(ParseError::WrongArity(f))
        } else if args.len() == 1 {
            Ok((Expr::Call1(f, Box::new(args[0])), end))
        } else if args.len() == 2 {
            Ok((Expr::Call2(f, Box::new(args[0]), Box::new(args[1])), end))
        } else {
            Ok((Expr::Call3(f, Box::new(args[0]), Box::new(args[1]), Box::new(args[2])), end))
        },
    }
}

// Each rule parses from `pos` and gives the tree and where it stopped. A
// rule that goes on after a sub-rule does so only when that sub-rule moved
// forward, which every successful parse does; the test keeps the
// definitions well founded.
/// `expression` from `pos`.
pub open spec fn parse_sum(ts: Seq<TokenView>, v: Seq<char>, pos: int) -> Step
    decreases ts.len() - pos, 5int,
{
    match parse_product(ts, v, pos) {
        Err(e) => Err(e),
        Ok((left, p)) => if pos < p <= ts.len() {
            sum_rest(ts, v, left, p)
        } else {
            Ok((left, p))
        },
    }
}

/// The `('+' | '-') term` repetitions after `left`, from `pos`.
pub open spec fn sum_rest(ts: Seq<TokenView>, v: Seq<char>, left: Expr, pos: int) -> Step
    decreases ts.len() - pos, 6int,
{
    if token_is(ts, pos, TokenView::Plus) || token_is(ts, pos, TokenView::Minus) {
        match parse_product(ts, v, pos + 1) {
            Err(e) => Err(e),
            Ok((right, p)) => {
                let e = if ts[pos] == TokenView::Plus {
                    Expr::Add(Box::new(left), Box::new(right))
                } else {
                    Expr::Sub(Box::new(left), Box::new(right))
                };
                if pos < p <= ts.len() {
                    sum_rest(ts, v, e, p)
                } else {
                    Ok((e, p))
                }
            },
        }
    } else {
        Ok((left, pos))
    }
}

/// `term` from `pos`.
pub open spec fn parse_product(ts: Seq<TokenView>, v: Seq<char>, pos: int) -> Step
    decreases ts.len() - pos, 4int,
{
    match parse_power(ts, v, pos) {
        Err(e) => Err(e),
        Ok((left, p)) => if pos < p <= ts.len() {
            product_rest(ts, v, left, p)
        } else {
            Ok((left, p))
        },
    }
}

/// The `('*' | '/') power` repetitions after `left`, from `pos`.
pub open spec fn product_rest(ts: Seq<TokenView>, v: Seq<char>, left: Expr, pos: int) -> Step
    decreases ts.len() - pos, 6int,
{
    if token_is(ts, pos, TokenView::Star) || token_is(ts, pos, TokenView::Slash) {
        match parse_power(ts, v, pos + 1) {
            Err(e) => Err(e),
            Ok((right, p)) => {
                let e = if ts[pos] == TokenView::Star {
                    Expr::Mul(Box::new(left), Box::new(right))
                } else {
                    Expr::Div(Box::new(left), Box::new(right))
                };
                if pos < p <= ts.len() {
                    product_rest(ts, v, e, p)
                } else {
                    Ok((e, p))
                }
            },
        }
    } else {
        Ok((left, pos))
    }
}

/// `power` from `pos`: a unary, raised to a power when `^` follows.
pub open spec fn parse_power(ts: Seq<TokenView>, v: Seq<char>, pos: int) -> Step
    decreases ts.len() - pos, 3int,
{
    match parse_unary(ts, v, pos) {
        Err(e) => Err(e),
        Ok((base, p)) => if pos <= p && token_is(ts, p, TokenView::Caret) {
            match parse_power(ts, v, p + 1) {
                Err(e) => Err(e),
                Ok((exponent, q)) => Ok((Expr::Pow(Box::new(base), Box::new(exponent)), q)),
            }
        } else {
            Ok((base, p))
        },
    }
}

/// `unary` from `pos`.
pub open spec fn parse_unary(ts: Seq<TokenView>, v: Seq<char>, pos: int) -> Step
    decreases ts.len() - pos, 2int,
{
    if token_is(ts, pos, TokenView::Minus) {
        match parse_unary(ts, v, pos + 1) {
            Err(e) => Err(e),
            Ok((a, p)) => Ok((Expr::Neg(Box::new(a)), p)),
        }
    } else {
        parse_atom(ts, v, pos)
    }
}

/// `atom` from `pos`.
pub open spec fn parse_atom(ts: Seq<TokenView>, v: Seq<char>, pos: int) -> Step
    decreases ts.len() - pos, 1int,
{
    if pos < 0 || pos >= ts.len() {
        Err(ParseError::UnexpectedToken(pos as usize))
    } else {
        match ts[pos] {
            TokenView::Num(_) => Ok((Expr::Num(pos as usize), pos + 1)),
            TokenView::LParen => match parse_sum(ts, v, pos + 1) {
                Err(e) => Err(e),
                Ok((e, p)) => if token_is(ts, p, TokenView::RParen) {
                    Ok((e, p + 1))
                } else {
                    Err(ParseError::MissingRParen(p as usize))
                },
            },
            TokenView::Ident(name) => if token_is(ts, pos + 1, TokenView::LParen) {
                if token_is(ts, pos + 2, TokenView::RParen) {
                    finish_call(ts, pos, Seq::empty(), pos + 3)
                } else {
                    match parse_sum(ts, v, pos + 2) {
                        Err(e) => Err(e),
                        Ok((a, p)) => if pos + 2 < p <= ts.len() {
                            args_rest(ts, v, pos, seq![a], p)
                        } else {
                            Err(ParseError::MissingRParen(p as usize))
                        },
                    }
                }
            } else {
                match named(name, v) {
                    Some(n) => Ok((Expr::Var(n), pos + 1)),
                    None => Err(ParseError::UnknownVariable(pos as usize)),
                }
            },
            _ => Err(ParseError::UnexpectedToken(pos as usize)),
        }
    }
}

/// The `',' expression` repetitions of a call's arguments from `pos`, then
/// the closing `)`.
pub open spec fn args_rest(
    ts: Seq<TokenView>,
    v: Seq<char>,
    at: int,
    args: Seq<Expr>,
    pos: int,
) -> Step
    decreases ts.len() - pos, 6int,
{
    if token_is(ts, pos, TokenView::Comma) {
        match parse_sum(ts, v, pos + 1) {
            Err(e) => Err(e),
            Ok((a, p)) => if pos < p <= ts.len() {
                args_rest(ts, v, at, args.push(a), p)
            } else {
                Err(ParseError::MissingRParen(p as usize))
            },
        }
    } else if token_is(ts, pos, TokenView::RParen) {
        finish_call(ts, at, args, pos + 1)
    } else {
        Err(ParseError::MissingRParen(pos as usize))
    }
}

/// The formula the tokens spell, with `v` as its variable: an expression
/// that uses every token.
pub open spec fn parse_formula_spec(ts: Seq<TokenView>, v: Seq<char>) -> Result<Expr, ParseError> {
    match parse_sum(ts, v, 0) {
        Err(e) => Err(e),
        Ok((e, p)) => if p == ts.len() {
            Ok(e)
        } else {
            Err(ParseError::TrailingTokens(p as usize))
        },
    }
}

/// Every number of the tree refers to a number token, and every call
/// passes its function as many arguments as it takes.
pub open spec fn well_formed(e: Expr, ts: Seq<TokenView>) -> bool
    decreases e,
{
    match e {
        Expr::Num(at) => at < ts.len() && ts[at as int] is Num,
        Expr::Var(_) => true,
        Expr::Neg(a) => well_formed(*a, ts),
        Expr::Add(a, b) => well_formed(*a, ts) && well_formed(*b, ts),
        Expr::Sub(a, b) => well_formed(*a, ts) && well_formed(*b, ts),
        Expr::Mul(a, b) => well_formed(*a, ts) && well_formed(*b, ts),
        Expr::Div(a, b) => well_formed(*a, ts) && well_formed(*b, ts),
        Expr::Pow(a, b) => well_formed(*a, ts) && well_formed(*b, ts),
        Expr::Call1(f, a) => arity(f) == 1 && well_formed(*a, ts),
        Expr::Call2(f, a, b) => arity(f) == 2 && well_formed(*a, ts) && well_formed(*b, ts),
        Expr::Call3(f, a, b, c) => arity(f) == 3 && well_formed(*a, ts) && well_formed(*b, ts)
            && well_formed(*c, ts),
    }
}

/// The error names a position within the formula: a name error an
/// identifier token, trailing tokens a token, the others a token or the
/// end.
pub open spec fn error_located(x: ParseError, ts: Seq<TokenView>) -> bool {
    match x {
        ParseError::MissingRParen(at) => at <= ts.len(),
        ParseError::UnexpectedToken(at) => at <= ts.len(),
        ParseError::UnknownVariable(at) => at < ts.len() && ts[at as int] is Ident,
        ParseError::UnknownFunction(at) => at < ts.len() && ts[at as int] is Ident,
        ParseError::WrongArity(_) => true,
        ParseError::TrailingTokens(at) => at < ts.len(),
    }
}

/// A parse step's tree or error is located in the tokens.
pub open spec fn located(r: Result<(Expr, usize), ParseError>, ts: Seq<TokenView>) -> bool {
    match r {
        Ok((e, _)) => well_formed(e, ts),
        Err(x) => error_located(x, ts),
    }
}

/// An executable parse step agrees with the rule's result.
pub open spec fn agrees(r: Result<(Expr, usize), ParseError>, s: Step) -> bool {
    match r {
        Ok((e, p)) => s == Step::Ok((e, p as int)),
        Err(x) => s == Step::Err(x),
    }
}

/// An executable parse step moved forward from `pos` and stayed within the
/// tokens.
pub open spec fn advanced(r: Result<(Expr, usize), ParseError>, pos: int, len: int) -> bool {
    r matches Ok((_, p)) ==> pos < p <= len
}

fn is_token(ts: &Vec<Token>, pos: usize, tok: &Token) -> (b: bool)
    requires
        !(tok is Num) && !(tok is Ident),
    ensures
        b == token_is(tokens_view(ts@), pos as int, tok@),
        ts@.len() <= usize::MAX,
{
    if pos >= ts.len() {
        return false;
    }
    assert(tokens_view(ts@)[pos as int] == ts@[pos as int]@);
    match tok {
        Token::Plus => matches!(ts[pos], Token::Plus),
        Token::Minus => matches!(ts[pos], Token::Minus),
        Token::Star => matches!(ts[pos], Token::Star),
        Token::Slash => matches!(ts[pos], Token::Slash),
        Token::Caret => matches!(ts[pos], Token::Caret),
        Token::LParen => matches!(ts[pos], Token::LParen),
        Token::RParen => matches!(ts[pos], Token::RParen),
        Token::Comma => matches!(ts[pos], Token::Comma),
        _ => false,
    }
}

fn name_value(name: &str, variable: &str) -> (r: Option<Name>)
    ensures
        r == named(name@, variable@),
{
    if same_text(name, "pi") || same_text(name, "PI") {
        Some(Name::Pi)
    } else if same_text(name, "e") || same_text(name, "E") {
        Some(Name::E)
    } else if same_text(name, variable) {
        Some(Name::Input)
    } else {
        None
    }
}

fn func_value(name: &str) -> (r: Option<Func>)
    ensures
        r == func_named(name@),
{
    if same_text(name, "pow") {
        Some(Func::Pow)
    } else if same_text(name, "sqrt") {
        Some(Func::Sqrt)
    } else if same_text(name, "abs") {
        Some(Func::Abs)
    } else if same_text(name, "sin") {
        Some(Func::Sin)
    } else if same_text(name, "cos") {
        Some(Func::Cos)
    } else if same_text(name, "tan") {
        Some(Func::Tan)
    } else if same_text(name, "exp") {
        Some(Func::Exp)
    } else if same_text(name, "ln") {
        Some(Func::Ln)
    } else if same_text(name, "log2") {
        Some(Func::Log2)
    } else if same_text(name, "min") {
        Some(Func::Min)
    } else if same_text(name, "max") {
        Some(Func::Max)
    } else if same_text(name, "clamp") {
        Some(Func::Clamp)
    } else {
        None
    }
}

/// How many arguments `f` takes.
pub fn func_arity(f: Func) -> (n: usize)
    ensures
        n == arity(f),
{
    match f {
        Func::Pow | Func::Min | Func::Max => 2,
        Func::Clamp => 3,
        _ => 1,
    }
}

fn finish_call_at(ts: &Vec<Token>, at: usize, args: Vec<Expr>, end: usize) -> (r: Result<
    (Expr, usize),
    ParseError,
>)
    requires
        at < ts@.len(),
        tokens_view(ts@)[at as int] is Ident,
        forall|k: int| 0 <= k < args@.len() ==> well_formed(#[trigger] args@[k], tokens_view(ts@)),
    ensures
        located(r, tokens_view(ts@)),
        agrees(r, finish_call(tokens_view(ts@), at as int, args@, end as int)),
{
    assert(tokens_view(ts@)[at as int] == ts@[at as int]@);
    let name = match &ts[at] {
        Token::Ident(n) => n,
        _ => {
            proof {
                assert(false);
            }
            return Err(ParseError::UnknownFunction(at));
        },
    };
    let f = match func_value(name.as_str()) {
        None => {
            return Err(ParseError::UnknownFunction(at));
        },
        Some(f) => f,
    };
    if args.len() != func_arity(f) {
        return Err(ParseError::WrongArity(f));
    }
    let ghost s = args@;
    let mut args = args;
    if args.len() == 1 {
        let a0 = args.pop().unwrap();
        Ok((Expr::Call1(f, Box::new(a0)), end))
    } else if args.len() == 2 {
        let a1 = args.pop().unwrap();
        let a0 = args.pop().unwrap();
        Ok((Expr::Call2(f, Box::new(a0), Box::new(a1)), end))
    } else {
        let a2 = args.pop().unwrap();
        let a1 = args.pop().unwrap();
        let a0 = args.pop().unwrap();
        Ok((Expr::Call3(f, Box::new(a0), Box::new(a1), Box::new(a2)), end))
    }
}

fn sum_at(ts: &Vec<Token>, v: &str, pos: usize) -> (r: Result<(Expr, usize), ParseError>)
    requires
        pos <= ts@.len(),
    ensures
        located(r, tokens_view(ts@)),
        agrees(r, parse_sum(tokens_view(ts@), v@, pos as int)),
        advanced(r, pos as int, ts@.len() as int),
    decreases ts@.len() - pos, 5int,
{
    match product_at(ts, v, pos) {
        Err(e) => Err(e),
        Ok((left, p)) => sum_rest_at(ts, v, left, p),
    }
}

fn sum_rest_at(ts: &Vec<Token>, v: &str, left: Expr, pos: usize) -> (r: Result<
    (Expr, usize),
    ParseError,
>)
    requires
        pos <= ts@.len(),
        well_formed(left, tokens_view(ts@)),
    ensures
        located(r, tokens_view(ts@)),
        agrees(r, sum_rest(tokens_view(ts@), v@, left, pos as int)),
        r matches Ok((_, p)) ==> pos <= p <= ts@.len(),
    decreases ts@.len() - pos, 6int,
{
    let plus = is_token(ts, pos, &Token::Plus);
    if plus || is_token(ts, pos, &Token::Minus) {
        match product_at(ts, v, pos + 1) {
            Err(e) => Err(e),
            Ok((right, p)) => {
                let e = if plus {
                    Expr::Add(Box::new(left), Box::new(right))
                } else {
                    Expr::Sub(Box::new(left), Box::new(right))
                };
                sum_rest_at(ts, v, e, p)
            },
        }
    } else {
        Ok((left, pos))
    }
}

fn product_at(ts: &Vec<Token>, v: &str, pos: usize) -> (r: Result<(Expr, usize), ParseError>)
    requires
        pos <= ts@.len(),
    ensures
        located(r, tokens_view(ts@)),
        agrees(r, parse_product(tokens_view(ts@), v@, pos as int)),
        advanced(r, pos as int, ts@.len() as int),
    decreases ts@.len() - pos, 4int,
{
    match power_at(ts, v, pos) {
        Err(e) => Err(e),
        Ok((left, p)) => product_rest_at(ts, v, left, p),
    }
}

fn product_rest_at(ts: &Vec<Token>, v: &str, left: Expr, pos: usize) -> (r: Result<
    (Expr, usize),
    ParseError,
>)
    requires
        pos <= ts@.len(),
        well_formed(left, tokens_view(ts@)),
    ensures
        located(r, tokens_view(ts@)),
        agrees(r, product_rest(tokens_view(ts@), v@, left, pos as int)),
        r matches Ok((_, p)) ==> pos <= p <= ts@.len(),
    decreases ts@.len() - pos, 6int,
{
    let star = is_token(ts, pos, &Token::Star);
    if star || is_token(ts, pos, &Token::Slash) {
        match power_at(ts, v, pos + 1) {
            Err(e) => Err(e),
            Ok((right, p)) => {
                let e = if star {
                    Expr::Mul(Box::new(left), Box::new(right))
                } else {
                    Expr::Div(Box::new(left), Box::new(right))
                };
                product_rest_at(ts, v, e, p)
            },
        }
    } else {
        Ok((left, pos))
    }
}

fn power_at(ts: &Vec<Token>, v: &str, pos: usize) -> (r: Result<(Expr, usize), ParseError>)
    requires
        pos <= ts@.len(),
    ensures
        located(r, tokens_view(ts@)),
        agrees(r, parse_power(tokens_view(ts@), v@, pos as int)),
        advanced(r, pos as int, ts@.len() as int),
    decreases ts@.len() - pos, 3int,
{
    match unary_at(ts, v, pos) {
        Err(e) => Err(e),
        Ok((base, p)) => if is_token(ts, p, &Token::Caret) {
            match power_at(ts, v, p + 1) {
                Err(e) => Err(e),
                Ok((exponent, q)) => Ok((Expr::Pow(Box::new(base), Box::new(exponent)), q)),
            }
        } else {
            Ok((base, p))
        },
    }
}

fn unary_at(ts: &Vec<Token>, v: &str, pos: usize) -> (r: Result<(Expr, usize), ParseError>)
    requires
        pos <= ts@.len(),
    ensures
        located(r, tokens_view(ts@)),
        agrees(r, parse_unary(tokens_view(ts@), v@, pos as int)),
        advanced(r, pos as int, ts@.len() as int),
    decreases ts@.len() - pos, 2int,
{
    if is_token(ts, pos, &Token::Minus) {
        match unary_at(ts, v, pos + 1) {
            Err(e) => Err(e),
            Ok((a, p)) => Ok((Expr::Neg(Box::new(a)), p)),
        }
    } else {
        atom_at(ts, v, pos)
    }
}

fn atom_at(ts: &Vec<Token>, v: &str, pos: usize) -> (r: Result<(Expr, usize), ParseError>)
    requires
        pos <= ts@.len(),
    ensures
        located(r, tokens_view(ts@)),
        agrees(r, parse_atom(tokens_view(ts@), v@, pos as int)),
        advanced(r, pos as int, ts@.len() as int),
    decreases ts@.len() - pos, 1int,
{
    if pos >= ts.len() {
        return Err(ParseError::UnexpectedToken(pos));
    }
    assert(tokens_view(ts@)[pos as int] == ts@[pos as int]@);
    match &ts[pos] {
        Token::Num(_) => Ok((Expr::Num(pos), pos + 1)),
        Token::LParen => match sum_at(ts, v, pos + 1) {
            Err(e) => Err(e),
            Ok((e, p)) => if is_token(ts, p, &Token::RParen) {
                Ok((e, p + 1))
            } else {
                Err(ParseError::MissingRParen(p))
            },
        },
        Token::Ident(name) => if is_token(ts, pos + 1, &Token::LParen) {
            call_at(ts, v, pos)
        } else {
            match name_value(name.as_str(), v) {
                Some(n) => Ok((Expr::Var(n), pos + 1)),
                None => Err(ParseError::UnknownVariable(pos)),
            }
        },
        _ => Err(ParseError::UnexpectedToken(pos)),
    }
}

fn call_at(ts: &Vec<Token>, v: &str, pos: usize) -> (r: Result<(Expr, usize), ParseError>)
    requires
        token_is(tokens_view(ts@), pos + 1, TokenView::LParen),
        tokens_view(ts@)[pos as int] is Ident,
    ensures
        located(r, tokens_view(ts@)),
        agrees(r, parse_atom(tokens_view(ts@), v@, pos as int)),
        advanced(r, pos as int, ts@.len() as int),
    decreases ts@.len() - pos, 0int,
{
    let len = ts.len();
    if pos + 2 < len && is_token(ts, pos + 2, &Token::RParen) {
        finish_call_at(ts, pos, Vec::new(), pos + 3)
    } else {
        match sum_at(ts, v, pos + 2) {
            Err(e) => Err(e),
            Ok((a, p)) => {
                let mut args: Vec<Expr> = Vec::new();
                args.push(a);
                args_rest_at(ts, v, pos, args, p)
            },
        }
    }
}

fn args_rest_at(ts: &Vec<Token>, v: &str, at: usize, args: Vec<Expr>, pos: usize) -> (r: Result<
    (Expr, usize),
    ParseError,
>)
    requires
        pos <= ts@.len(),
        at < ts@.len(),
        tokens_view(ts@)[at as int] is Ident,
        forall|k: int| 0 <= k < args@.len() ==> well_formed(#[trigger] args@[k], tokens_view(ts@)),
    ensures
        located(r, tokens_view(ts@)),
        agrees(r, args_rest(tokens_view(ts@), v@, at as int, args@, pos as int)),
        advanced(r, pos as int, ts@.len() as int),
    decreases ts@.len() - pos, 6int,
{
    if is_token(ts, pos, &Token::Comma) {
        match sum_at(ts, v, pos + 1) {
            Err(e) => Err(e),
            Ok((a, p)) => {
                let mut args = args;
                args.push(a);
                args_rest_at(ts, v, at, args, p)
            },
        }
    } else if is_token(ts, pos, &Token::RParen) {
        finish_call_at(ts, at, args, pos + 1)
    } else {
        Err(ParseError::MissingRParen(pos))
    }
}

/// Parse a formula's tokens with `variable` as its input variable.
pub fn parse_formula(tokens: &Vec<Token>, variable: &str) -> (r: Result<Expr, ParseError>)
    ensures
        r == parse_formula_spec(tokens_view(tokens@), variable@),
        r matches Ok(e) ==> well_formed(e, tokens_view(tokens@)),
        r matches Err(x) ==> error_located(x, tokens_view(tokens@)),
{
    match sum_at(tokens, variable, 0) {
        Err(e) => Err(e),
        Ok((e, p)) => if p == tokens.len() {
            Ok(e)
        } else {
            Err(ParseError::TrailingTokens(p))
        },
    }
}

} // verus!
