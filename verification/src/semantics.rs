//! What an AST means: evaluation over a storage frame.
//!
//! [`eval_node`] gives each expression its value and its effect on the
//! frame, with 64-bit wrapping arithmetic, comparisons normalised to the
//! word values 0 and 1, and assignment yielding the assigned value.
//! `None` marks the evaluations the machine cannot complete: a faulting
//! division, a variable offset outside the frame, or a tree the code
//! generator would refuse.  The code generator's contract proves that
//! running the emitted instructions computes exactly these values.

use vstd::prelude::*;

use crate::ast::{Node, NodeKind};
use crate::machine::{div_faults, slot_of, trunc_div, truth_word, valid_offset, wrap_add, wrap_mul,
    wrap_sub};

verus! {

/// One binary operator applied to two word values; `None` on a faulting
/// division, and for kinds that are no binary operator.
pub open spec fn apply_binop(kind: NodeKind, a: i64, b: i64) -> Option<i64> {
    match kind {
        NodeKind::Add => Some(wrap_add(a, b)),
        NodeKind::Sub => Some(wrap_sub(a, b)),
        NodeKind::Mul => Some(wrap_mul(a, b)),
        NodeKind::Div => if div_faults(a, b) {
            None
        } else {
            Some(trunc_div(a, b) as i64)
        },
        NodeKind::Eq => Some(truth_word(a == b)),
        NodeKind::Neq => Some(truth_word(a != b)),
        NodeKind::Lt => Some(truth_word(a < b)),
        NodeKind::Lte => Some(truth_word(a <= b)),
        _ => None,
    }
}

/// The value of an expression and the frame it leaves behind.  A literal
/// is its value; a variable reads its slot; an assignment evaluates its
/// right side, stores the value, and yields it; a binary operator
/// evaluates left then right and combines.  `None` where the machine
/// would be stuck.
pub open spec fn eval_node(n: Node, mem: Seq<i64>) -> Option<(i64, Seq<i64>)>
    decreases n,
{
    match n.kind {
        NodeKind::Num { value } => Some((value, mem)),
        NodeKind::LocalVar { offset } => if valid_offset(offset, mem.len()) {
            Some((mem[slot_of(offset)], mem))
        } else {
            None
        },
        NodeKind::Assign => match (n.lhs, n.rhs) {
            (Some(t), Some(r)) => match t.kind {
                NodeKind::LocalVar { offset } => if valid_offset(offset, mem.len()) {
                    match eval_node(*r, mem) {
                        Some((v, m1)) => Some((v, m1.update(slot_of(offset), v))),
                        None => None,
                    }
                } else {
                    None
                },
                _ => None,
            },
            _ => None,
        },
        _ => match (n.lhs, n.rhs) {
            (Some(l), Some(r)) => match eval_node(*l, mem) {
                Some((a, m1)) => match eval_node(*r, m1) {
                    Some((b, m2)) => match apply_binop(n.kind, a, b) {
                        Some(v) => Some((v, m2)),
                        None => None,
                    },
                    None => None,
                },
                None => None,
            },
            _ => None,
        },
    }
}

/// Evaluation never changes the frame's size.
pub proof fn lemma_eval_len(n: Node, mem: Seq<i64>)
    ensures
        eval_node(n, mem) matches Some((v, m1)) ==> m1.len() == mem.len(),
    decreases n,
{
    match n.kind {
        NodeKind::Num { .. } => {},
        NodeKind::LocalVar { .. } => {},
        NodeKind::Assign => {
            match (n.lhs, n.rhs) {
                (Some(t), Some(r)) => {
                    lemma_eval_len(*r, mem);
                },
                _ => {},
            }
        },
        _ => {
            match (n.lhs, n.rhs) {
                (Some(l), Some(r)) => {
                    lemma_eval_len(*l, mem);
                    match eval_node(*l, mem) {
                        Some((a, m1)) => {
                            lemma_eval_len(*r, m1);
                        },
                        None => {},
                    }
                },
                _ => {},
            }
        },
    }
}

/// A statement sequence evaluates in order, each statement's frame handed
/// to the next; the result is the last statement's value and the final
/// frame.  An empty program has no value.
pub open spec fn eval_program(stmts: Seq<Node>, mem: Seq<i64>) -> Option<(i64, Seq<i64>)>
    decreases stmts.len(),
{
    if stmts.len() == 0 {
        None
    } else {
        match eval_node(stmts[0], mem) {
            Some((v, m1)) => if stmts.len() == 1 {
                Some((v, m1))
            } else {
                eval_program(stmts.skip(1), m1)
            },
            None => None,
        }
    }
}

} // verus!
