//! Abstract syntax trees.
//!
//! Each statement parses to one tree.  Every internal node owns its
//! children; leaves (`Num`, `LocalVar`) have none.  Comparisons greater
//! than and greater-or-equal never appear: the parser swaps the operands
//! and emits `Lt` or `Lte` instead.

use vstd::prelude::*;

verus! {

/// The kind of an AST node.  `LocalVar` carries the variable's
/// frame-relative storage offset in bytes; `Num` carries the literal value.
#[derive(PartialEq, Debug)]
pub enum NodeKind {
    Add,
    Sub,
    Mul,
    Div,
    Eq,
    Neq,
    Lt,
    Lte,
    Assign,
    LocalVar { offset: usize },
    Num { value: i64 },
}

/// One AST node.  Binary operators and assignments use both children;
/// leaves use neither.
#[derive(PartialEq, Debug)]
pub struct Node {
    pub kind: NodeKind,
    pub lhs: Option<Box<Node>>,
    pub rhs: Option<Box<Node>>,
}

impl NodeKind {
    /// The binary-operator kinds: those whose node evaluates both children
    /// and combines the results.
    pub open spec fn is_binary_op(self) -> bool {
        match self {
            NodeKind::Add
            | NodeKind::Sub
            | NodeKind::Mul
            | NodeKind::Div
            | NodeKind::Eq
            | NodeKind::Neq
            | NodeKind::Lt
            | NodeKind::Lte => true,
            _ => false,
        }
    }
}

impl Node {
    /// A leaf node holding a numeric literal.
    pub open spec fn spec_num(value: i64) -> Node {
        Node { kind: NodeKind::Num { value }, lhs: None, rhs: None }
    }

    /// A leaf node naming a variable's storage slot.
    pub open spec fn spec_var(offset: usize) -> Node {
        Node { kind: NodeKind::LocalVar { offset }, lhs: None, rhs: None }
    }

    /// An internal node with both children present.
    pub open spec fn spec_bin(kind: NodeKind, lhs: Node, rhs: Node) -> Node {
        Node { kind, lhs: Some(Box::new(lhs)), rhs: Some(Box::new(rhs)) }
    }

}

} // verus!
