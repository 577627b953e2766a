use ph_curves::gen::formula::{tokenize, Token};
use ph_curves::gen::grammar::{func_arity, parse_formula, Expr, Func, Name, ParseError};

fn parse(expr: &str, variable: &str) -> Result<Expr, ParseError> {
    parse_formula(&tokenize(expr), variable)
}

fn b(e: Expr) -> Box<Expr> {
    Box::new(e)
}

#[test]
fn multiplication_binds_tighter_than_addition() {
    assert_eq!(
        parse("1 + 2 * 3", "t"),
        Ok(Expr::Add(b(Expr::Num(0)), b(Expr::Mul(b(Expr::Num(2)), b(Expr::Num(4))))))
    );
}

#[test]
fn subtraction_associates_to_the_left() {
    assert_eq!(
        parse("1 - 2 - 3", "t"),
        Ok(Expr::Sub(b(Expr::Sub(b(Expr::Num(0)), b(Expr::Num(2)))), b(Expr::Num(4))))
    );
    assert_eq!(
        parse("8 / 4 * 2", "t"),
        Ok(Expr::Mul(b(Expr::Div(b(Expr::Num(0)), b(Expr::Num(2)))), b(Expr::Num(4))))
    );
}

#[test]
fn power_associates_to_the_right() {
    assert_eq!(
        parse("2 ^ 3 ** 2", "t"),
        Ok(Expr::Pow(b(Expr::Num(0)), b(Expr::Pow(b(Expr::Num(2)), b(Expr::Num(4))))))
    );
}

#[test]
fn unary_minus_binds_tighter_than_power() {
    assert_eq!(
        parse("-t ^ 2", "t"),
        Ok(Expr::Pow(b(Expr::Neg(b(Expr::Var(Name::Input)))), b(Expr::Num(3))))
    );
    assert_eq!(
        parse("--1", "t"),
        Ok(Expr::Neg(b(Expr::Neg(b(Expr::Num(2))))))
    );
}

#[test]
fn parentheses_group_a_subexpression() {
    assert_eq!(
        parse("(1 + 2) * t", "t"),
        Ok(Expr::Mul(b(Expr::Add(b(Expr::Num(1)), b(Expr::Num(3)))), b(Expr::Var(Name::Input))))
    );
}

#[test]
fn calls_resolve_their_function_and_arguments() {
    assert_eq!(
        parse("clamp(t, 0, 1)", "t"),
        Ok(Expr::Call3(Func::Clamp, b(Expr::Var(Name::Input)), b(Expr::Num(4)), b(Expr::Num(6))))
    );
    assert_eq!(
        parse("pow(x, 2)", "x"),
        Ok(Expr::Call2(Func::Pow, b(Expr::Var(Name::Input)), b(Expr::Num(4))))
    );
    assert_eq!(
        parse("sqrt(sin(t))", "t"),
        Ok(Expr::Call1(Func::Sqrt, b(Expr::Call1(Func::Sin, b(Expr::Var(Name::Input))))))
    );
    assert_eq!(func_arity(Func::Clamp), 3);
    assert_eq!(func_arity(Func::Min), 2);
    assert_eq!(func_arity(Func::Log2), 1);
}

#[test]
fn constants_resolve_before_the_variable() {
    assert_eq!(parse("pi + E", "t"), Ok(Expr::Add(b(Expr::Var(Name::Pi)), b(Expr::Var(Name::E)))));
    assert_eq!(parse("PI", "t"), Ok(Expr::Var(Name::Pi)));
    assert_eq!(parse("e", "e"), Ok(Expr::Var(Name::E)));
    assert_eq!(parse("x", "x"), Ok(Expr::Var(Name::Input)));
}

#[test]
fn unknown_variable_panics() {
    assert_eq!(parse("x", "t"), Err(ParseError::UnknownVariable(0)));
}

#[test]
fn unknown_function_panics() {
    assert_eq!(parse("foo(1)", "t"), Err(ParseError::UnknownFunction(0)));
}

#[test]
fn trailing_tokens_panics() {
    assert_eq!(parse("1 2", "t"), Err(ParseError::TrailingTokens(1)));
}

#[test]
fn missing_close_paren_panics() {
    assert_eq!(parse("(1 + 2", "t"), Err(ParseError::MissingRParen(4)));
    assert_eq!(parse("min(1, 2", "t"), Err(ParseError::MissingRParen(5)));
}

#[test]
fn pow_wrong_arity_panics() {
    assert_eq!(parse("pow(1)", "t"), Err(ParseError::WrongArity(Func::Pow)));
}

#[test]
fn sqrt_wrong_arity_panics() {
    assert_eq!(parse("sqrt(1, 2)", "t"), Err(ParseError::WrongArity(Func::Sqrt)));
    assert_eq!(parse("sqrt()", "t"), Err(ParseError::WrongArity(Func::Sqrt)));
}

#[test]
fn clamp_wrong_arity_panics() {
    assert_eq!(parse("clamp(1, 2)", "t"), Err(ParseError::WrongArity(Func::Clamp)));
}

#[test]
fn empty_expression_panics() {
    assert_eq!(parse("", "t"), Err(ParseError::UnexpectedToken(0)));
}

#[test]
fn operand_missing_after_an_operator_is_reported_where_it_was_due() {
    assert_eq!(parse("1 +", "t"), Err(ParseError::UnexpectedToken(2)));
    assert_eq!(parse("* 2", "t"), Err(ParseError::UnexpectedToken(0)));
    assert_eq!(parse("(", "t"), Err(ParseError::UnexpectedToken(1)));
}

#[test]
fn call_syntax_is_checked_before_the_function_name() {
    assert_eq!(parse("foo(1", "t"), Err(ParseError::MissingRParen(3)));
    assert_eq!(parse("foo(y)", "t"), Err(ParseError::UnknownVariable(2)));
}

#[test]
fn parsed_numbers_refer_to_number_tokens() {
    let tokens = tokenize("pow(2.5, t) + .5");
    match parse_formula(&tokens, "t").unwrap() {
        Expr::Add(call, last) => {
            match *call {
                Expr::Call2(Func::Pow, first, second) => {
                    assert_eq!(*first, Expr::Num(2));
                    assert_eq!(*second, Expr::Var(Name::Input));
                }
                other => panic!("unexpected tree {other:?}"),
            }
            assert_eq!(*last, Expr::Num(7));
        }
        other => panic!("unexpected tree {other:?}"),
    }
    assert_eq!(tokens[2], Token::Num("2.5".to_string()));
    assert_eq!(tokens[7], Token::Num(".5".to_string()));
}
