//! Tests of the code generator: exact emitted text for small programs,
//! the stack-machine shape of operator code, and distinct short-circuit
//! labels.

use minicc::codegen::gen_program;
use minicc::compile;
use minicc::lexer::tokenize;
use minicc::parser::parse;

fn compile_source(source: &str) -> String {
    compile(source).expect("compilation failed")
}

#[test]
fn minimal_program_text() {
    let text = compile_source("func main() { return 1; }");
    assert_eq!(
        text,
        ".intel_syntax noprefix\n\
         .global main\n\
         main:\n\
         \x20   push 1\n\
         \x20   pop rax\n\
         \x20   ret\n\
         \x20   ret\n"
    );
}

#[test]
fn function_label_uses_the_parsed_name() {
    let text = compile_source("func other() { }");
    assert_eq!(text, ".intel_syntax noprefix\n.global main\nother:\n    ret\n");
}

#[test]
fn expression_statement_discards_its_value() {
    let text = compile_source("func main() { 5; }");
    assert_eq!(
        text,
        ".intel_syntax noprefix\n.global main\nmain:\n    push 5\n    pop rax\n    ret\n"
    );
}

#[test]
fn addition_uses_the_stack() {
    let text = compile_source("func main() { return 1+2; }");
    assert_eq!(
        text,
        ".intel_syntax noprefix\n\
         .global main\n\
         main:\n\
         \x20   push 1\n\
         \x20   push 2\n\
         \x20   pop rdi\n\
         \x20   pop rax\n\
         \x20   add rax, rdi\n\
         \x20   push rax\n\
         \x20   pop rax\n\
         \x20   ret\n\
         \x20   ret\n"
    );
}

#[test]
fn division_sign_extends_and_keeps_quotient() {
    let text = compile_source("func main() { return 7/2; }");
    assert!(text.contains("    cqo\n    idiv rdi\n    push rax\n"));
}

#[test]
fn modulo_pushes_the_remainder_register() {
    let text = compile_source("func main() { return 7%2; }");
    assert!(text.contains("    cqo\n    idiv rdi\n    push rdx\n"));
}

#[test]
fn comparison_emits_set_and_zero_extend() {
    let text = compile_source("func main() { return 1<=2; }");
    assert!(text.contains("    cmp rax, rdi\n    setle al\n    movzb rax, al\n"));
}

#[test]
fn negation_and_logical_not() {
    let text = compile_source("func main() { return -1; }");
    assert!(text.contains("    push 1\n    pop rax\n    neg rax\n    push rax\n"));
    let text = compile_source("func main() { return !1; }");
    assert!(text.contains("    push 1\n    pop rax\n    xor rax, 1\n    push rax\n"));
}

#[test]
fn logical_or_short_circuits_over_a_label() {
    let text = compile_source("func main() { return 1 || 0; }");
    assert_eq!(
        text,
        ".intel_syntax noprefix\n\
         .global main\n\
         main:\n\
         \x20   push 1\n\
         \x20   pop rax\n\
         \x20   cmp rax, 0\n\
         \x20   jne .L0\n\
         \x20   push 0\n\
         \x20   pop rax\n\
         .L0:\n\
         \x20   push rax\n\
         \x20   pop rax\n\
         \x20   ret\n\
         \x20   ret\n"
    );
}

#[test]
fn logical_and_branches_on_zero() {
    let text = compile_source("func main() { return 0 && 1; }");
    assert!(text.contains("    cmp rax, 0\n    je .L0\n"));
    assert!(text.contains(".L0:\n    push rax\n"));
}

#[test]
fn labels_are_distinct_and_monotonic() {
    // Four short-circuit operators in one program: four labels, never
    // reused, allocated before the operands are generated.
    let text = compile_source("func main() { 0 && 1; return 0&&1 || 1&&0; }");
    for l in 0..4 {
        assert_eq!(text.matches(&format!(".L{l}:\n")).count(), 1, "label {l} placed once");
    }
    assert!(!text.contains(".L4"));
    // The `&&` of the first statement takes label 0; the `||` of the
    // second takes label 1 before its operands take 2 and 3.
    assert!(text.contains("je .L0\n"));
    assert!(text.contains("jne .L1\n"));
    assert!(text.contains("je .L2\n"));
    assert!(text.contains("je .L3\n"));
}

#[test]
fn gen_program_matches_compile() {
    let source = "func main() { return 2*3; }";
    let tokens = tokenize(source).expect("tokenization failed");
    let defn = parse(tokens).expect("parse failed");
    assert_eq!(gen_program(defn), compile_source(source));
}

#[test]
fn large_literals_render_in_decimal() {
    let text = compile_source("func main() { return 4294967295; }");
    assert!(text.contains("    push 4294967295\n"));
}
