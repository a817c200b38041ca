//! End-to-end tests of the compile pipeline: each source is compiled,
//! and the parsed program is interpreted with the stack machine's
//! semantics (64-bit two's-complement registers, truncating signed
//! division, short-circuit logic) to check the process exit code the
//! generated assembly would produce.

use minicc::compile;
use minicc::data::{BinOpKind, Defn, Expr, Stmt, UnOpKind};
use minicc::lexer::tokenize;
use minicc::parser::parse;

fn eval(e: &Expr) -> i64 {
    match e {
        Expr::Num(v) => *v as i64,
        Expr::UnOp { kind, operand } => {
            let x = eval(operand);
            match kind {
                UnOpKind::Neg => x.wrapping_neg(),
                UnOpKind::LogicNot => x ^ 1,
            }
        },
        Expr::BinOp { kind, lhs, rhs } => {
            let l = eval(lhs);
            match kind {
                BinOpKind::LogicOr => {
                    if l != 0 {
                        l
                    } else {
                        eval(rhs)
                    }
                },
                BinOpKind::LogicAnd => {
                    if l == 0 {
                        l
                    } else {
                        eval(rhs)
                    }
                },
                _ => {
                    let r = eval(rhs);
                    match kind {
                        BinOpKind::Eq => (l == r) as i64,
                        BinOpKind::Neq => (l != r) as i64,
                        BinOpKind::Leq => (l <= r) as i64,
                        BinOpKind::Lt => (l < r) as i64,
                        BinOpKind::Add => l.wrapping_add(r),
                        BinOpKind::Sub => l.wrapping_sub(r),
                        BinOpKind::Mul => l.wrapping_mul(r),
                        BinOpKind::Div => l.wrapping_div(r),
                        BinOpKind::Mod => l.wrapping_rem(r),
                        _ => unreachable!(),
                    }
                },
            }
        },
    }
}

fn run_program(d: &Defn) -> Option<u8> {
    let Defn::FuncDef { stmts, .. } = d;
    let mut last: Option<i64> = None;
    for stmt in stmts {
        match stmt {
            Stmt::Return(e) => return Some(eval(e) as u8),
            Stmt::ExprStmt(e) => last = Some(eval(e)),
        }
    }
    last.map(|v| v as u8)
}

fn test_compile(code: &str, expected: i32) {
    let source = format!("func main() {{ return {code}; }}");
    let text = compile(&source).expect("compilation failed");
    assert!(text.starts_with(".intel_syntax noprefix\n.global main\nmain:\n"));
    let tokens = tokenize(&source).expect("tokenization failed");
    let defn = parse(tokens).expect("parse failed");
    let actual = run_program(&defn).expect("no return value") as i32;
    assert_eq!(actual, expected, "{}: expected {}, actual {}", code, expected, actual);
}

#[test]
fn test_expr() {
    test_compile("1  ", 1);
    test_compile(" -1", 255);
    test_compile(" 123", 123);
    test_compile("1+2+3", 6);
    test_compile("1+2-3", 0);
    test_compile("1--1", 2);
    test_compile("2*5/3", 3);
    test_compile("2*6/3", 4);
    test_compile("2*10%7", 6);
    test_compile("6-3/2", 5);
    test_compile("1+2+3+4+5+6+7+8*9", 100);
    test_compile("-12/3+4+3%2", 1);
    test_compile("(1+2)*(-3+5)/(10-7)", 2);
    test_compile("1+4==2+3", 1);
    test_compile("1+4!=2+3", 0);
    test_compile("1+4<=2+3", 1);
    test_compile("1+4 <2+3", 0);
    test_compile("1+4>=2+3", 1);
    test_compile("1+4 >2+3", 0);
    test_compile("!0", 1);
    test_compile("!1", 0);
    test_compile("0 || 0", 0);
    test_compile("0 || 1", 1);
    test_compile("1 || 0", 1);
    test_compile("1 || 1", 1);
    test_compile("0 && 0", 0);
    test_compile("0 && 1", 0);
    test_compile("1 && 0", 0);
    test_compile("1 && 1", 1);
}

#[test]
fn numeric_literals_wrap_to_exit_codes() {
    test_compile("-1", 255);
    test_compile("123", 123);
    test_compile("256", 0);
    test_compile("257", 1);
    test_compile("-300", 212);
}

#[test]
fn left_associative_addition_and_precedence() {
    test_compile("1+2+3+4+5+6+7+8*9", 100);
}

#[test]
fn truncating_division_and_modulo() {
    test_compile("2*10%7", 6);
    test_compile("6-3/2", 5);
}

#[test]
fn comparison_desugaring_results() {
    test_compile("1+4>=2+3", 1);
    test_compile("1+4>2+3", 0);
}

#[test]
fn short_circuit_results() {
    test_compile("0 && 1", 0);
    test_compile("1 || 0", 1);
}

#[test]
fn unterminated_string_aborts_compilation() {
    let result = compile("func main() { return \"oops; }");
    assert_eq!(result.unwrap_err(), "token error: unterminated string literal");
}

#[test]
fn parse_error_aborts_compilation() {
    let result = compile("1+2");
    assert_eq!(result.unwrap_err(), "parse error: unexpected token '1'");
}

#[test]
fn multiple_statements_and_early_return() {
    let source = "func main() { 1+1; return 7; 9; }";
    let tokens = tokenize(source).expect("tokenization failed");
    let defn = parse(tokens).expect("parse failed");
    assert_eq!(run_program(&defn), Some(7));
    assert!(compile(source).is_ok());
}
