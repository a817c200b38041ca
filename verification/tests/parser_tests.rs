//! Tests of the parser: grammar shape, precedence, associativity, the
//! operand-swap desugaring of `>=` and `>`, and the syntactic errors.

use minicc::data::{BinOpKind, Defn, Expr, KeywordKind, PunctKind, Stmt, Token, UnOpKind};
use minicc::error::ParseError;
use minicc::lexer::tokenize;
use minicc::parser::parse;

fn parse_source(source: &str) -> Result<Defn, ParseError> {
    parse(tokenize(source).expect("tokenization failed"))
}

fn body(source: &str) -> Vec<Stmt> {
    let Defn::FuncDef { stmts, .. } = parse_source(source).expect("parse failed");
    stmts
}

fn returned_expr(expr_text: &str) -> Expr {
    let source = format!("func main() {{ return {expr_text}; }}");
    let mut stmts = body(&source);
    assert_eq!(stmts.len(), 1);
    match stmts.remove(0) {
        Stmt::Return(e) => e,
        Stmt::ExprStmt(_) => panic!("expected a return statement"),
    }
}

fn num(v: u32) -> Box<Expr> {
    Box::new(Expr::Num(v))
}

fn bin(kind: BinOpKind, lhs: Box<Expr>, rhs: Box<Expr>) -> Box<Expr> {
    Box::new(Expr::BinOp { kind, lhs, rhs })
}

#[test]
fn function_shape_and_name() {
    let Defn::FuncDef { name, stmts } = parse_source("func f() { }").expect("parse failed");
    assert_eq!(name, "f");
    assert_eq!(stmts, vec![]);
}

#[test]
fn statement_kinds() {
    let stmts = body("func main() { 1; return 2; }");
    assert_eq!(stmts, vec![Stmt::ExprStmt(Expr::Num(1)), Stmt::Return(Expr::Num(2))]);
}

#[test]
fn addition_is_left_associative() {
    let e = returned_expr("1+2+3");
    assert_eq!(e, *bin(BinOpKind::Add, bin(BinOpKind::Add, num(1), num(2)), num(3)));
}

#[test]
fn multiplication_binds_tighter_than_addition() {
    let e = returned_expr("1+2*3");
    assert_eq!(e, *bin(BinOpKind::Add, num(1), bin(BinOpKind::Mul, num(2), num(3))));
}

#[test]
fn parentheses_override_precedence() {
    let e = returned_expr("(1+2)*3");
    assert_eq!(e, *bin(BinOpKind::Mul, bin(BinOpKind::Add, num(1), num(2)), num(3)));
}

#[test]
fn unary_operators_stack() {
    let e = returned_expr("--1");
    assert_eq!(
        e,
        Expr::UnOp {
            kind: UnOpKind::Neg,
            operand: Box::new(Expr::UnOp { kind: UnOpKind::Neg, operand: num(1) }),
        }
    );
    let e = returned_expr("!!0");
    assert_eq!(
        e,
        Expr::UnOp {
            kind: UnOpKind::LogicNot,
            operand: Box::new(Expr::UnOp { kind: UnOpKind::LogicNot, operand: num(0) }),
        }
    );
}

#[test]
fn ge_desugars_to_swapped_le() {
    // `1+4 >= 2+3` becomes `2+3 <= 1+4`: the right-hand text is the
    // comparison node's left child.
    let e = returned_expr("1+4>=2+3");
    assert_eq!(
        e,
        *bin(
            BinOpKind::Leq,
            bin(BinOpKind::Add, num(2), num(3)),
            bin(BinOpKind::Add, num(1), num(4)),
        )
    );
}

#[test]
fn gt_desugars_to_swapped_lt() {
    let e = returned_expr("1>2");
    assert_eq!(e, *bin(BinOpKind::Lt, num(2), num(1)));
}

#[test]
fn le_and_lt_keep_operand_order() {
    let e = returned_expr("1<=2");
    assert_eq!(e, *bin(BinOpKind::Leq, num(1), num(2)));
    let e = returned_expr("1<2");
    assert_eq!(e, *bin(BinOpKind::Lt, num(1), num(2)));
}

#[test]
fn logical_operators_nest_by_precedence() {
    // `0 || 1 && 2` is `0 || (1 && 2)`.
    let e = returned_expr("0 || 1 && 2");
    assert_eq!(
        e,
        *bin(BinOpKind::LogicOr, num(0), bin(BinOpKind::LogicAnd, num(1), num(2)))
    );
}

#[test]
fn no_token_error() {
    assert_eq!(format!("{:?}", parse(vec![]).unwrap_err()), format!("{:?}", ParseError::NoToken));
}

#[test]
fn unexpected_token_error() {
    let err = parse_source("42").unwrap_err();
    assert_eq!(
        format!("{:?}", err),
        format!("{:?}", ParseError::UnexpectedToken { actual: Token::Num(42) })
    );
    assert_eq!(err.message(), "unexpected token '42'");
}

#[test]
fn dropped_ident_error() {
    let err = parse_source("func () {}").unwrap_err();
    assert_eq!(format!("{:?}", err), format!("{:?}", ParseError::DroppedIdent));
    assert_eq!(err.message(), "expected an identifier");
}

#[test]
fn mismatched_token_error() {
    let err = parse_source("func f(} {}").unwrap_err();
    assert_eq!(
        format!("{:?}", err),
        format!(
            "{:?}",
            ParseError::MismatchedToken {
                expected: Token::Punct(PunctKind::CloseParen),
                actual: Token::Punct(PunctKind::CloseBrace),
            }
        )
    );
    assert_eq!(err.message(), "expected token ')', actual '}'");
}

#[test]
fn dropped_token_error() {
    let err = parse_source("func f(").unwrap_err();
    assert_eq!(
        format!("{:?}", err),
        format!(
            "{:?}",
            ParseError::DroppedToken { expected: Token::Punct(PunctKind::CloseParen) }
        )
    );
    assert_eq!(err.message(), "expected token ')'");
}

#[test]
fn missing_semicolon_is_reported() {
    let err = parse_source("func f() { return 1 }").unwrap_err();
    assert_eq!(
        format!("{:?}", err),
        format!(
            "{:?}",
            ParseError::MismatchedToken {
                expected: Token::Punct(PunctKind::SemiColon),
                actual: Token::Punct(PunctKind::CloseBrace),
            }
        )
    );
}

#[test]
fn unclosed_body_runs_out_of_tokens() {
    let err = parse_source("func f() { return 1;").unwrap_err();
    assert_eq!(format!("{:?}", err), format!("{:?}", ParseError::NoToken));
}

#[test]
fn keyword_where_expression_expected() {
    let err = parse_source("func f() { return let; }").unwrap_err();
    assert_eq!(
        format!("{:?}", err),
        format!(
            "{:?}",
            ParseError::UnexpectedToken { actual: Token::Keyword(KeywordKind::Let) }
        )
    );
}

#[test]
fn trailing_tokens_are_ignored() {
    assert!(parse_source("func f() { } extra").is_ok());
}
