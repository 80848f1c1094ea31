//! End-to-end behaviour: scanning, parsing, generating, and running the
//! generated code on the reference interpreter.

use minic::gen::run_program;
use minic::lexer::tokenize;
use minic::parser::program;
use minic::{CompileError, compile, default_ignore, default_symbols};

/// Scans and parses `src`, generates its code, and runs it on a zeroed
/// frame; the final value and the final frame.
fn evaluate(src: &str) -> (i64, Vec<i64>) {
    let symbols = default_symbols();
    let ignore = default_ignore();
    let mut tokens = tokenize(&src.to_string(), &symbols, &ignore).expect("scan");
    let (nodes, count) = program(&mut tokens).expect("parse");
    run_program(&nodes, count).expect("run")
}

#[test]
fn literal_statement() {
    assert_eq!(evaluate("42;").0, 42);
}

#[test]
fn precedence_mul_over_add() {
    assert_eq!(evaluate("1+2*3;").0, 7);
}

#[test]
fn parentheses_override_precedence() {
    assert_eq!(evaluate("(1+2)*3;").0, 9);
}

#[test]
fn variables_add_up() {
    assert_eq!(evaluate("a=3;b=5;a+b;").0, 8);
}

#[test]
fn equality_true_is_one() {
    assert_eq!(evaluate("1==1;").0, 1);
}

#[test]
fn equality_false_is_zero() {
    assert_eq!(evaluate("1==2;").0, 0);
}

#[test]
fn comparisons_normalise() {
    assert_eq!(evaluate("1<2;").0, 1);
    assert_eq!(evaluate("2<=1;").0, 0);
    assert_eq!(evaluate("2>1;").0, 1);
    assert_eq!(evaluate("1>=2;").0, 0);
    assert_eq!(evaluate("3!=3;").0, 0);
}

#[test]
fn division_truncates_toward_zero() {
    assert_eq!(evaluate("7/2;").0, 3);
    assert_eq!(evaluate("-7/2;").0, -3);
}

#[test]
fn unary_minus_and_plus() {
    assert_eq!(evaluate("-5+8;").0, 3);
    assert_eq!(evaluate("+5-8;").0, -3);
}

#[test]
fn assignment_yields_assigned_value() {
    assert_eq!(evaluate("a=7;").0, 7);
}

#[test]
fn left_associative_subtraction() {
    assert_eq!(evaluate("10-4-3;").0, 3);
}

#[test]
fn inner_assignment_in_expression() {
    // the inner assignment yields 3 as a value; the outer one stores
    // 3 + 1 back into the same slot and yields it as the statement's
    // residual value
    let (value, frame) = evaluate("a=(a=3)+1;");
    assert_eq!(value, 4);
    assert_eq!(frame, vec![4]);
}

#[test]
fn inner_assignment_into_another_variable() {
    // the inner assignment writes `a`'s slot and yields 3; the outer
    // statement's residual value is 4 and lands in `b`'s slot
    let (value, frame) = evaluate("b=(a=3)+1;");
    assert_eq!(value, 4);
    assert_eq!(frame, vec![4, 3]);
}

#[test]
fn whitespace_is_skipped() {
    assert_eq!(evaluate("1 + 2 * 3;").0, 7);
    assert_eq!(evaluate("\t1+\t2;").0, 3);
}

#[test]
fn division_by_zero_sticks_the_machine() {
    let symbols = default_symbols();
    let ignore = default_ignore();
    let mut tokens = tokenize(&"1/0;".to_string(), &symbols, &ignore).expect("scan");
    let (nodes, count) = program(&mut tokens).expect("parse");
    assert!(run_program(&nodes, count).is_none());
}

#[test]
fn lex_error_aborts_with_no_output() {
    match compile(&"1&2;".to_string()) {
        Err(CompileError::Lex(_)) => {}
        other => panic!("expected a lexical error, got {:?}", other),
    }
}

#[test]
fn invalid_left_value_aborts() {
    match compile(&"1=2;".to_string()) {
        Err(CompileError::Gen(_)) => {}
        other => panic!("expected a generation error, got {:?}", other),
    }
}

#[test]
fn empty_source_is_a_syntax_error() {
    match compile(&String::new()) {
        Err(CompileError::Syntax(_)) => {}
        other => panic!("expected a syntax error, got {:?}", other),
    }
}

#[test]
fn compiled_text_has_the_fixed_structure() {
    let text = compile(&"1;".to_string()).expect("compile");
    assert_eq!(
        text,
        ".intel_syntax noprefix\n\
         .globl main\n\
         main:\n\
         \tpush rbp\n\
         \tmov rbp, rsp\n\
         \tsub rsp, 0\n\
         \tpush 1\n\
         \tpop rax\n\
         \tmov rsp, rbp\n\
         \tpop rbp\n\
         \tret\n"
    );
}

#[test]
fn compiled_text_addresses_variables() {
    let text = compile(&"a=3;a;".to_string()).expect("compile");
    // one variable: an eight-byte frame, addressed eight below the base
    assert!(text.contains("\tsub rsp, 8\n"));
    assert!(text.contains("\tmov rax, rbp\n\tsub rax, 8\n\tpush rax\n"));
    assert!(text.contains("\tmov [rax], rdi\n"));
    assert!(text.ends_with("\tmov rsp, rbp\n\tpop rbp\n\tret\n"));
}

#[test]
fn negative_literal_renders_with_sign() {
    let text = compile(&"-12;".to_string()).expect("compile");
    // unary minus desugars to a subtraction from zero
    assert!(text.contains("\tpush 0\n\tpush 12\n"));
    let evaluated = evaluate("-12;");
    assert_eq!(evaluated.0, -12);
}
