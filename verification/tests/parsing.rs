//! The parser on its own: offsets, desugaring, tree shapes.

use minic::ast::{Node, NodeKind};
use minic::lexer::tokenize;
use minic::parser::program;
use minic::{default_ignore, default_symbols};

fn parse(src: &str) -> (Vec<Node>, usize) {
    let symbols = default_symbols();
    let ignore = default_ignore();
    let mut tokens = tokenize(&src.to_string(), &symbols, &ignore).expect("scan");
    program(&mut tokens).expect("parse")
}

fn offsets_of(n: &Node, out: &mut Vec<usize>) {
    if let NodeKind::LocalVar { offset } = n.kind {
        out.push(offset);
    }
    if let Some(l) = &n.lhs {
        offsets_of(l, out);
    }
    if let Some(r) = &n.rhs {
        offsets_of(r, out);
    }
}

#[test]
fn offsets_are_deterministic_and_reused() {
    // `a` gets the first offset, `b` the second, and the second
    // occurrence of `a` reuses the first
    let (nodes, count) = parse("a+b+a;");
    assert_eq!(count, 2);
    let mut offsets = Vec::new();
    offsets_of(&nodes[0], &mut offsets);
    assert_eq!(offsets, vec![8, 16, 8]);
}

#[test]
fn greater_than_desugars_to_swapped_less_than() {
    let (gt, count_gt) = parse("a>b;");
    let (lt, count_lt) = parse("b<a;");
    assert_eq!(count_gt, 2);
    assert_eq!(count_lt, 2);
    // structurally identical trees; note the variable offsets differ in
    // origin (`a` is first-seen on the left of one, right of the other)
    // but `>` swaps its operands, so the shapes coincide kind for kind
    assert_eq!(gt[0].kind, NodeKind::Lt);
    assert_eq!(lt[0].kind, NodeKind::Lt);
    let mut gt_offsets = Vec::new();
    offsets_of(&gt[0], &mut gt_offsets);
    let mut lt_offsets = Vec::new();
    offsets_of(&lt[0], &mut lt_offsets);
    // `a>b`: lhs is `b` (second seen, offset 16), rhs is `a` (first seen, 8)
    assert_eq!(gt_offsets, vec![16, 8]);
    // `b<a`: lhs is `b` (first seen, 8), rhs is `a` (second seen, 16)
    assert_eq!(lt_offsets, vec![8, 16]);
}

/// The tree with every variable's offset replaced by the fixed word
/// size: what remains is the structure the desugaring rules decide.
fn shape(n: &Node) -> Node {
    Node {
        kind: match n.kind {
            NodeKind::LocalVar { .. } => NodeKind::LocalVar { offset: 8 },
            ref k => clone_kind(k),
        },
        lhs: n.lhs.as_ref().map(|c| Box::new(shape(c))),
        rhs: n.rhs.as_ref().map(|c| Box::new(shape(c))),
    }
}

fn clone_kind(k: &NodeKind) -> NodeKind {
    match *k {
        NodeKind::Add => NodeKind::Add,
        NodeKind::Sub => NodeKind::Sub,
        NodeKind::Mul => NodeKind::Mul,
        NodeKind::Div => NodeKind::Div,
        NodeKind::Eq => NodeKind::Eq,
        NodeKind::Neq => NodeKind::Neq,
        NodeKind::Lt => NodeKind::Lt,
        NodeKind::Lte => NodeKind::Lte,
        NodeKind::Assign => NodeKind::Assign,
        NodeKind::LocalVar { offset } => NodeKind::LocalVar { offset },
        NodeKind::Num { value } => NodeKind::Num { value },
    }
}

#[test]
fn greater_desugars_to_swapped_shape() {
    // `a>b;` and `b<a;` build structurally identical trees: the parser
    // swaps the operands of `>` and emits `Lt`
    let (gt, _) = parse("a>b;");
    let (lt, _) = parse("b<a;");
    assert_eq!(shape(&gt[0]), shape(&lt[0]));
}

#[test]
fn greater_equal_desugars_to_swapped_shape() {
    let (ge, _) = parse("a>=b;");
    let (le, _) = parse("b<=a;");
    assert_eq!(shape(&ge[0]), shape(&le[0]));
    assert_eq!(ge[0].kind, NodeKind::Lte);
}

#[test]
fn statements_split_on_terminator() {
    let (nodes, count) = parse("1;2;3;");
    assert_eq!(nodes.len(), 3);
    assert_eq!(count, 0);
}

#[test]
fn assignment_is_right_associative() {
    let (nodes, _) = parse("a=b=1;");
    assert_eq!(nodes[0].kind, NodeKind::Assign);
    let rhs = nodes[0].rhs.as_ref().expect("rhs");
    assert_eq!(rhs.kind, NodeKind::Assign);
}

#[test]
fn unary_minus_builds_zero_minus_operand() {
    let (nodes, _) = parse("-9;");
    assert_eq!(nodes[0].kind, NodeKind::Sub);
    let lhs = nodes[0].lhs.as_ref().expect("lhs");
    assert_eq!(lhs.kind, NodeKind::Num { value: 0 });
    let rhs = nodes[0].rhs.as_ref().expect("rhs");
    assert_eq!(rhs.kind, NodeKind::Num { value: 9 });
}

#[test]
fn missing_primary_is_an_error() {
    let symbols = default_symbols();
    let ignore = default_ignore();
    let mut tokens = tokenize(&"1+;".to_string(), &symbols, &ignore).expect("scan");
    assert!(program(&mut tokens).is_err());
}
