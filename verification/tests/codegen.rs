//! The code generator and the reference machine on their own.

use minic::ast::{Node, NodeKind};
use minic::gen::{GenError, run_program};
use minic::machine::{Instr, Machine, Word};
use minic::token::{Token, TokenKind};

fn leaf(kind: NodeKind) -> Node {
    Node { kind, lhs: None, rhs: None }
}

#[test]
fn literal_generates_one_push() {
    let n = leaf(NodeKind::Num { value: 42 });
    let code = Node::gen(&n).expect("generate");
    assert_eq!(code, vec![Instr::PushImm(42)]);
}

#[test]
fn variable_generates_address_then_load() {
    let n = leaf(NodeKind::LocalVar { offset: 8 });
    let code = Node::gen(&n).expect("generate");
    assert_eq!(
        code,
        vec![
            Instr::MovRaxRbp,
            Instr::SubRaxImm(8),
            Instr::PushRax,
            Instr::PopRax,
            Instr::LoadRax,
            Instr::PushRax,
        ]
    );
}

#[test]
fn addition_generates_postorder() {
    let n = Node {
        kind: NodeKind::Add,
        lhs: Some(Box::new(leaf(NodeKind::Num { value: 1 }))),
        rhs: Some(Box::new(leaf(NodeKind::Num { value: 2 }))),
    };
    let code = Node::gen(&n).expect("generate");
    assert_eq!(
        code,
        vec![
            Instr::PushImm(1),
            Instr::PushImm(2),
            Instr::PopRdi,
            Instr::PopRax,
            Instr::AddRaxRdi,
            Instr::PushRax,
        ]
    );
}

#[test]
fn assignment_to_literal_is_refused() {
    let n = Node {
        kind: NodeKind::Assign,
        lhs: Some(Box::new(leaf(NodeKind::Num { value: 1 }))),
        rhs: Some(Box::new(leaf(NodeKind::Num { value: 2 }))),
    };
    assert_eq!(Node::gen(&n), Err(GenError::InvalidLeftValue));
}

#[test]
fn machine_sticks_on_empty_stack() {
    let mut m = Machine::new(0);
    assert!(!m.step(&Instr::PopRax));
    assert!(m.step(&Instr::PushImm(5)));
    assert!(m.step(&Instr::PopRax));
    assert_eq!(m.rax, Word::Int(5));
}

#[test]
fn machine_wraps_addition() {
    let mut m = Machine::new(0);
    assert!(m.step(&Instr::PushImm(i64::MAX)));
    assert!(m.step(&Instr::PushImm(1)));
    assert!(m.step(&Instr::PopRdi));
    assert!(m.step(&Instr::PopRax));
    assert!(m.step(&Instr::AddRaxRdi));
    assert_eq!(m.rax, Word::Int(i64::MIN));
}

#[test]
fn empty_program_has_no_result() {
    assert!(run_program(&Vec::new(), 0).is_none());
}

#[test]
fn token_new_keeps_its_parts() {
    let t = Token::new(TokenKind::Num, Some(12), "12".to_string());
    assert_eq!(t.kind, TokenKind::Num);
    assert_eq!(t.val, Some(12));
    assert_eq!(t.string, "12");
}
