use genetic_orbits::expression::BinaryOperator::{self, Add, Divide, Exponent, Multiply, Subtract};
use genetic_orbits::expression::Expression;
use genetic_orbits::expression::Expression::{Elapsed, MassCount};
use genetic_orbits::expression::UnaryOperator::{self, Base10Log, NaturalLog, Negative, Positive};
use genetic_orbits::lexer::tokenize;
use genetic_orbits::parser::{error_location, parse_expression, parse_tokens, ParseError, ParseErrorKind};

/// The tree with each numeral read as a number.
#[derive(Debug, PartialEq)]
enum V {
    Elapsed,
    TotalMass,
    MassCount,
    Constant(f64),
    BinaryOp(Box<V>, BinaryOperator, Box<V>),
    UnaryOp(UnaryOperator, Box<V>),
}

impl From<f64> for V {
    fn from(v: f64) -> V {
        V::Constant(v)
    }
}

impl From<u64> for V {
    fn from(v: u64) -> V {
        V::Constant(v as f64)
    }
}

fn values(e: &Expression) -> V {
    match e {
        Expression::Elapsed => V::Elapsed,
        Expression::TotalMass => V::TotalMass,
        Expression::MassCount => V::MassCount,
        Expression::Constant(c) => V::Constant(c.parse::<f64>().unwrap()),
        Expression::BinaryOp(l, op, r) => V::BinaryOp(Box::new(values(l)), *op, Box::new(values(r))),
        Expression::UnaryOp(op, v) => V::UnaryOp(*op, Box::new(values(v))),
    }
}

fn parse(s: &str) -> Result<V, ParseError> {
    parse_expression(s).map(|e| values(&e))
}

fn bin<L: Into<V>, R: Into<V>>(l: L, op: BinaryOperator, r: R) -> V {
    V::BinaryOp(Box::new(l.into()), op, Box::new(r.into()))
}
fn add<L: Into<V>, R: Into<V>>(l: L, r: R) -> V {
    bin(l, Add, r)
}
fn sub<L: Into<V>, R: Into<V>>(l: L, r: R) -> V {
    bin(l, Subtract, r)
}
fn mul<L: Into<V>, R: Into<V>>(l: L, r: R) -> V {
    bin(l, Multiply, r)
}
fn div<L: Into<V>, R: Into<V>>(l: L, r: R) -> V {
    bin(l, Divide, r)
}
fn exp<L: Into<V>, R: Into<V>>(l: L, r: R) -> V {
    bin(l, Exponent, r)
}
fn un<E: Into<V>>(op: UnaryOperator, v: E) -> V {
    V::UnaryOp(op, Box::new(v.into()))
}
fn neg<E: Into<V>>(v: E) -> V {
    un(Negative, v)
}
fn pos<E: Into<V>>(v: E) -> V {
    un(Positive, v)
}
fn ln<E: Into<V>>(v: E) -> V {
    un(NaturalLog, v)
}
fn log<E: Into<V>>(v: E) -> V {
    un(Base10Log, v)
}

#[test]
fn parse_float() {
    assert_eq!(parse("1"), Ok(V::Constant(1.)));
    assert_eq!(parse("1."), Ok(V::Constant(1.)));
    assert_eq!(parse(".25"), Ok(V::Constant(0.25)));
    assert_eq!(parse("0.25"), Ok(V::Constant(0.25)));
    assert_eq!(parse("0.25e1"), Ok(V::Constant(2.5)));
    assert_eq!(parse("-0.25e1"), Ok(neg(2.5)));
    assert_eq!(parse("-0.25E-1"), Ok(neg(0.025)));
    assert_eq!(
        parse("0.1032903209239048230948093209842098323209482"),
        Ok(V::Constant(0.10329032092390482)),
    );
    assert_eq!(parse("1.5e99999999"), Ok(V::Constant(f64::INFINITY)));
}

#[test]
fn parse_elapsed() {
    assert_eq!(parse("elapsed"), Ok(V::Elapsed));
    assert_eq!(parse("ELAPSED"), Ok(V::Elapsed));
    assert_eq!(parse("ElApSeD"), Ok(V::Elapsed));
    assert_eq!(parse("elaPSED"), Ok(V::Elapsed));
}

#[test]
fn parse_total_mass() {
    assert_eq!(parse("total_mass"), Ok(V::TotalMass));
    assert_eq!(parse("TOTAL_MASS"), Ok(V::TotalMass));
    assert_eq!(parse("ToTaL_mAsS"), Ok(V::TotalMass));
}

#[test]
fn parse_mass_count() {
    assert_eq!(parse("mass_count"), Ok(V::MassCount));
    assert_eq!(parse("MASS_COUNT"), Ok(V::MassCount));
    assert_eq!(parse("MaSs_CoUnT"), Ok(V::MassCount));
}

#[test]
fn parse_add() {
    assert_eq!(parse("1+2"), Ok(add(1, 2)));
    assert_eq!(parse("1 +2"), Ok(add(1, 2)));
    assert_eq!(parse("1 + 2"), Ok(add(1, 2)));
}

#[test]
fn parse_subtract() {
    assert_eq!(parse("1-2"), Ok(sub(1, 2)));
    assert_eq!(parse("1 -2"), Ok(sub(1, 2)));
    assert_eq!(parse("1 - 2"), Ok(sub(1, 2)));
}

#[test]
fn parse_multiply() {
    assert_eq!(parse("1*2"), Ok(mul(1, 2)));
    assert_eq!(parse("1 *2"), Ok(mul(1, 2)));
    assert_eq!(parse("1 * 2"), Ok(mul(1, 2)));
}

#[test]
fn parse_divide() {
    assert_eq!(parse("1/2"), Ok(div(1, 2)));
    assert_eq!(parse("1 /2"), Ok(div(1, 2)));
    assert_eq!(parse("1 / 2"), Ok(div(1, 2)));
}

#[test]
fn parse_exponent() {
    assert_eq!(parse("1^2"), Ok(exp(1, 2)));
    assert_eq!(parse("1 ^2"), Ok(exp(1, 2)));
    assert_eq!(parse("1 ^ 2"), Ok(exp(1, 2)));
}

#[test]
fn parse_positive() {
    assert_eq!(parse("+ 2"), Ok(pos(2)));
    assert_eq!(parse("+2"), Ok(pos(2)));
}

#[test]
fn parse_negative() {
    assert_eq!(parse("- 2"), Ok(neg(2)));
    assert_eq!(parse("-2"), Ok(neg(2)));
}

#[test]
fn parse_ln() {
    assert_eq!(parse("ln ( 2 )"), Ok(ln(2)));
    assert_eq!(parse("ln(2)"), Ok(ln(2)));
}

#[test]
fn parse_log() {
    assert_eq!(parse("log ( 2)"), Ok(log(2)));
    assert_eq!(parse("log(2)"), Ok(log(2)));
}

#[test]
fn parse_log_requires_parens() {
    assert!(parse("ln 2").is_err());
    assert!(parse("ln2").is_err());
    assert!(parse("log 2").is_err());
    assert!(parse("log2").is_err());
}

#[test]
fn parse_multiple_unary() {
    assert_eq!(parse("-+-2"), Ok(neg(pos(neg(2)))));
    assert_eq!(parse("--1+-+-2"), Ok(add(neg(neg(1)), neg(pos(neg(2))))));
    assert_eq!(parse("-ln(-2)"), Ok(neg(ln(neg(2)))));
    assert_eq!(parse("-log(-ln(-2))"), Ok(neg(log(neg(ln(neg(2)))))));
}

#[test]
fn parse_unary_and_binary() {
    assert_eq!(parse("-1--2"), Ok(sub(neg(1), neg(2))));
    assert_eq!(parse("-1 - -2"), Ok(sub(neg(1), neg(2))));
    assert_eq!(parse("-10e-1 - -200e-2"), Ok(sub(neg(1), neg(2))));
}

#[test]
fn parse_precedence() {
    let expected = add(
        sub(add(neg(1), div(mul(2, 3), exp(V::TotalMass, 4))), mul(pos(V::Elapsed), neg(1))),
        mul(exp(2, neg(9)), 5),
    );
    assert_eq!(parse("-1+2*3/total_mass^4-+elapsed*-1+2^-9*5"), Ok(expected));
    assert_eq!(parse("-ln(2)^3"), Ok(exp(neg(ln(2)), 3)));
}

#[test]
fn parse_parens() {
    assert_eq!(parse("-(1+2)"), Ok(neg(add(1, 2))));
    assert_eq!(parse("-1+2"), Ok(add(neg(1), 2)));
    assert_eq!(parse("1+2*3"), Ok(add(1, mul(2, 3))));
    assert_eq!(parse("(1+2)*3"), Ok(mul(add(1, 2), 3)));
    assert_eq!(parse("1*2^3+4"), Ok(add(mul(1, exp(2, 3)), 4)));
    assert_eq!(parse("(1*2)^3+4"), Ok(add(exp(mul(1, 2), 3), 4)));
    assert_eq!(parse("1*2^(3+4)"), Ok(mul(1, exp(2, add(3, 4)))));
    assert_eq!(parse("(1*2)^(3+4)"), Ok(exp(mul(1, 2), add(3, 4))));
}

#[test]
fn parse_nested_parens() {
    assert_eq!(parse("1+2*3^-4"), Ok(add(1, mul(2, exp(3, neg(4))))));
    assert_eq!(parse("((1+2)*3)^-4"), Ok(exp(mul(add(1, 2), 3), neg(4))));
}

#[test]
fn parse_unmatched() {
    assert!(parse("1+2*(3+4").is_err());
    assert!(parse("1+2*ln(3+4").is_err());
}

#[test]
fn parse_bad() {
    assert!(parse("1+").is_err());
    assert!(parse("1+2 3").is_err());
    assert!(parse("1+*2").is_err());
    assert!(parse("1*^2").is_err());
}

#[test]
fn parse_unknown_symbols() {
    assert!(parse("1+x").is_err());
    assert!(parse("3*mass").is_err());
}

#[test]
fn parse_left_associative_and_errors_located() {
    assert_eq!(parse("1-2-3"), Ok(sub(sub(1, 2), 3)));
    assert_eq!(parse("2^3^4"), Ok(exp(exp(2, 3), 4)));
    assert_eq!(
        parse_expression("1+2 3"),
        Err(ParseError { kind: ParseErrorKind::ExtraToken, location: 4 })
    );
    assert_eq!(
        parse_expression("1+"),
        Err(ParseError { kind: ParseErrorKind::UnrecognizedEof, location: 2 })
    );
    assert_eq!(
        parse_expression("1+*2"),
        Err(ParseError { kind: ParseErrorKind::UnrecognizedToken, location: 2 })
    );
    assert_eq!(
        parse_expression("1+x"),
        Err(ParseError { kind: ParseErrorKind::InvalidToken, location: 2 })
    );
    assert_eq!(
        parse_expression("1 $ 2"),
        Err(ParseError { kind: ParseErrorKind::InvalidToken, location: 2 })
    );
    assert_eq!(parse("1+2*3").map(|_| ()), Ok(()));
}

#[test]
fn error_positions_by_line() {
    assert_eq!(error_location("1+2\n3*(4", 8), (1, 4));
    assert_eq!(error_location("abc", 0), (0, 0));
    assert_eq!(error_location("a\nb\n", 4), (2, 0));
}

#[test]
fn precedence_tables() {
    assert_eq!(Add.precedence(), 1);
    assert_eq!(Subtract.precedence(), 1);
    assert_eq!(Multiply.precedence(), 2);
    assert_eq!(Divide.precedence(), 2);
    assert_eq!(Exponent.precedence(), 3);
    assert!(!Negative.parenthesized_operand());
    assert!(!Positive.parenthesized_operand());
    assert!(NaturalLog.parenthesized_operand());
    assert!(Base10Log.parenthesized_operand());
}

fn c(text: &str) -> Expression {
    Expression::Constant(text.to_string())
}

fn b(l: Expression, op: BinaryOperator, r: Expression) -> Expression {
    Expression::BinaryOp(Box::new(l), op, Box::new(r))
}

fn u(op: UnaryOperator, v: Expression) -> Expression {
    Expression::UnaryOp(op, Box::new(v))
}

fn assert_display(e: Expression, expected: &str) {
    assert_eq!(e.to_text(), expected);
}

#[test]
fn display_elapsed() {
    assert_display(Expression::Elapsed, "elapsed");
}

#[test]
fn display_total_mass() {
    assert_display(Expression::TotalMass, "total_mass");
}

#[test]
fn display_mass_count() {
    assert_display(Expression::MassCount, "mass_count");
}

#[test]
fn display_constant() {
    assert_display(c("32.75"), "32.75");
}

#[test]
fn display_neg_constant() {
    assert_display(c("-32.75"), "-32.75");
}

#[test]
fn display_unary_neg() {
    assert_display(u(Negative, c("39.625")), "-39.625");
}

#[test]
fn display_unary_pos() {
    assert_display(u(Positive, c("39.625")), "+39.625");
}

#[test]
fn display_unary_ln() {
    assert_display(u(NaturalLog, c("39.625")), "ln(39.625)");
}

#[test]
fn display_unary_log() {
    assert_display(u(Base10Log, c("39.625")), "log(39.625)");
}

#[test]
fn display_add() {
    assert_display(b(c("8"), Add, Expression::Elapsed), "8 + elapsed");
}

#[test]
fn display_sub() {
    assert_display(b(c("8"), Subtract, Expression::Elapsed), "8 - elapsed");
}

#[test]
fn display_mul() {
    assert_display(b(c("8"), Multiply, Expression::Elapsed), "8 * elapsed");
}

#[test]
fn display_div() {
    assert_display(b(c("8"), Divide, Expression::Elapsed), "8 / elapsed");
}

#[test]
fn display_exp() {
    assert_display(b(c("8"), Exponent, Expression::Elapsed), "8 ^ elapsed");
}

#[test]
fn display_left_precedence() {
    assert_display(b(b(Elapsed, Add, c("1")), Multiply, MassCount), "(elapsed + 1) * mass_count");
    assert_display(b(b(Elapsed, Multiply, c("1")), Divide, MassCount), "elapsed * 1 / mass_count");
    assert_display(b(b(Elapsed, Divide, c("1")), Multiply, MassCount), "elapsed / 1 * mass_count");
    assert_display(b(b(Elapsed, Exponent, c("1")), Multiply, MassCount), "elapsed ^ 1 * mass_count");
    assert_display(b(b(Elapsed, Multiply, c("1")), Exponent, MassCount), "(elapsed * 1) ^ mass_count");
    assert_display(b(b(Elapsed, Exponent, c("1")), Exponent, MassCount), "elapsed ^ 1 ^ mass_count");
}

#[test]
fn display_right_precedence() {
    assert_display(b(MassCount, Multiply, b(Elapsed, Add, c("1"))), "mass_count * (elapsed + 1)");
    assert_display(b(MassCount, Multiply, b(Elapsed, Multiply, c("1"))), "mass_count * (elapsed * 1)");
    assert_display(b(MassCount, Multiply, b(Elapsed, Exponent, c("1"))), "mass_count * elapsed ^ 1");
    assert_display(b(MassCount, Exponent, b(Elapsed, Exponent, c("1"))), "mass_count ^ (elapsed ^ 1)");
}

#[test]
fn display_precedence_with_unary() {
    let e = b(
        b(u(Negative, c("3")), Add, u(Base10Log, c("4"))),
        Multiply,
        u(NaturalLog, b(Expression::Elapsed, Add, c("1"))),
    );
    assert_display(e, "(-3 + log(4)) * ln(elapsed + 1)");
}

#[test]
fn display_then_parse_keeps_tree() {
    for text in ["-1 + 2 * 3 / total_mass ^ 4", "(elapsed + 1) * mass_count", "ln(2) ^ 3", "1 - (2 - 3)"] {
        let e = parse_expression(text).unwrap();
        assert_eq!(e.to_text(), text);
    }
}

#[test]
fn parse_tokens_succeeds_exactly_on_expressions() {
    let src: Vec<char> = "( 1 + elapsed ) * 2".chars().collect();
    let toks = tokenize(&src).unwrap();
    assert_eq!(toks.len(), 7);
    let e = parse_tokens(&src, &toks).unwrap();
    assert_eq!(e.to_text(), "(1 + elapsed) * 2");
    let bad: Vec<char> = "( 1 +".chars().collect();
    let bad_toks = tokenize(&bad).unwrap();
    assert_eq!(parse_tokens(&bad, &bad_toks), Err((ParseErrorKind::UnrecognizedEof, 3)));
    let extra: Vec<char> = "1 )".chars().collect();
    let extra_toks = tokenize(&extra).unwrap();
    assert_eq!(parse_tokens(&extra, &extra_toks), Err((ParseErrorKind::ExtraToken, 1)));
    let invalid: Vec<char> = "2 # 3".chars().collect();
    assert_eq!(tokenize(&invalid), Err(2));
}
