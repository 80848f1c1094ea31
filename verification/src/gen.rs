//! Code generation.
//!
//! [`Node::gen`] walks one statement AST in post-order and emits the
//! fixed instruction pattern of each node kind onto an implicit
//! evaluation stack: literals push themselves; a variable pushes its
//! slot's address and dereferences it; an assignment pushes the target
//! address, generates the value, stores, and pushes the stored value
//! back; a binary operator generates left then right, pops right then
//! left, applies, and pushes the one result.  The only failure is
//! [`GenError::InvalidLeftValue`]: an assignment whose target is not a
//! variable.  On failure no instructions are returned.
//!
//! The generator's correctness theorem, [`lemma_gen_correct`], proves
//! that running the emitted instructions pushes exactly the value
//! [`eval_node`] gives the tree and updates the frame the same way — and
//! sticks the machine exactly where evaluation is undefined.

use vstd::prelude::*;

use crate::ast::{Node, NodeKind};
use crate::machine::{Instr, Machine, MachineModel, Word, init_state, lemma_run_append, run_instrs,
    spec_step, valid_offset};
use crate::semantics::{apply_binop, eval_node, eval_program, lemma_eval_len};

verus! {

/// Code generation failed: an assignment's target is not a variable.
/// Fatal; no partial instruction sequence is returned.
#[derive(PartialEq, Eq, Debug)]
pub enum GenError {
    InvalidLeftValue,
}

/// The instructions that combine two popped operands, per operator.
pub open spec fn op_instrs(kind: NodeKind) -> Seq<Instr> {
    match kind {
        NodeKind::Add => seq![Instr::AddRaxRdi],
        NodeKind::Sub => seq![Instr::SubRaxRdi],
        NodeKind::Mul => seq![Instr::MulRaxRdi],
        NodeKind::Div => seq![Instr::CqoIdivRdi],
        NodeKind::Eq => seq![Instr::CmpRaxRdi, Instr::SeteAl, Instr::MovzbRaxAl],
        NodeKind::Neq => seq![Instr::CmpRaxRdi, Instr::SetneAl, Instr::MovzbRaxAl],
        NodeKind::Lt => seq![Instr::CmpRaxRdi, Instr::SetlAl, Instr::MovzbRaxAl],
        NodeKind::Lte => seq![Instr::CmpRaxRdi, Instr::SetleAl, Instr::MovzbRaxAl],
        _ => Seq::empty(),
    }
}

impl Node {
    /// Whether generation succeeds on this tree: an assignment's target
    /// must structurally be a variable, and every operator needs both
    /// children.  Leaves always generate; their children are ignored.
    pub open spec fn gen_ok(self) -> bool
        decreases self,
    {
        match self.kind {
            NodeKind::Num { .. } | NodeKind::LocalVar { .. } => true,
            NodeKind::Assign => {
                &&& self.lhs matches Some(t) && (t.kind matches NodeKind::LocalVar { .. })
                &&& self.rhs matches Some(r) && r.gen_ok()
            },
            _ => {
                &&& self.lhs matches Some(l) && l.gen_ok()
                &&& self.rhs matches Some(r) && r.gen_ok()
            },
        }
    }

    /// The left-value path: the address of a variable's slot, pushed.
    pub open spec fn spec_gen_leftval(self) -> Seq<Instr> {
        match self.kind {
            NodeKind::LocalVar { offset } => seq![
                Instr::MovRaxRbp,
                Instr::SubRaxImm(offset),
                Instr::PushRax,
            ],
            _ => Seq::empty(),
        }
    }

    /// The instructions generated for this tree, meaningful where
    /// [`Node::gen_ok`] holds.
    pub open spec fn spec_gen(self) -> Seq<Instr>
        decreases self,
    {
        match self.kind {
            NodeKind::Num { value } => seq![Instr::PushImm(value)],
            NodeKind::LocalVar { .. } => self.spec_gen_leftval() + seq![
                Instr::PopRax,
                Instr::LoadRax,
                Instr::PushRax,
            ],
            NodeKind::Assign => match (self.lhs, self.rhs) {
                (Some(t), Some(r)) => t.spec_gen_leftval() + r.spec_gen() + seq![
                    Instr::PopRdi,
                    Instr::PopRax,
                    Instr::StoreRdi,
                    Instr::PushRdi,
                ],
                _ => Seq::empty(),
            },
            _ => match (self.lhs, self.rhs) {
                (Some(l), Some(r)) => l.spec_gen() + r.spec_gen() + seq![
                    Instr::PopRdi,
                    Instr::PopRax,
                ] + op_instrs(self.kind) + seq![Instr::PushRax],
                _ => Seq::empty(),
            },
        }
    }

    /// Emits the left-value path for a variable node; any other node is
    /// the invalid-left-value failure.
    fn gen_leftval(n: &Node, out: &mut Vec<Instr>) -> (ok: bool)
        ensures
            ok == (n.kind matches NodeKind::LocalVar { .. }),
            ok ==> final(out)@ == old(out)@ + n.spec_gen_leftval(),
            !ok ==> final(out)@ == old(out)@,
    {
        match n.kind {
            NodeKind::LocalVar { offset } => {
                out.push(Instr::MovRaxRbp);
                out.push(Instr::SubRaxImm(offset));
                out.push(Instr::PushRax);
                proof {
                    assert(final(out)@ =~= old(out)@ + n.spec_gen_leftval());
                }
                true
            },
            _ => false,
        }
    }

    /// Emits this tree's instructions onto `out`.
    #[verifier::rlimit(60)]
    fn gen_into(n: &Node, out: &mut Vec<Instr>) -> (ok: bool)
        ensures
            ok == n.gen_ok(),
            ok ==> final(out)@ == old(out)@ + n.spec_gen(),
        decreases *n,
    {
        match n.kind {
            NodeKind::Num { value } => {
                out.push(Instr::PushImm(value));
                proof {
                    assert(final(out)@ =~= old(out)@ + n.spec_gen());
                }
                true
            },
            NodeKind::LocalVar { .. } => {
                Self::gen_leftval(n, out);
                out.push(Instr::PopRax);
                out.push(Instr::LoadRax);
                out.push(Instr::PushRax);
                proof {
                    assert(final(out)@ =~= old(out)@ + n.spec_gen());
                }
                true
            },
            NodeKind::Assign => {
                match (&n.lhs, &n.rhs) {
                    (Some(t), Some(r)) => {
                        if !Self::gen_leftval(t, out) {
                            return false;
                        }
                        if !Self::gen_into(r, out) {
                            return false;
                        }
                        out.push(Instr::PopRdi);
                        out.push(Instr::PopRax);
                        out.push(Instr::StoreRdi);
                        out.push(Instr::PushRdi);
                        proof {
                            assert(final(out)@ =~= old(out)@ + n.spec_gen());
                        }
                        true
                    },
                    _ => false,
                }
            },
            _ => {
                match (&n.lhs, &n.rhs) {
                    (Some(l), Some(r)) => {
                        if !Self::gen_into(l, out) {
                            return false;
                        }
                        if !Self::gen_into(r, out) {
                            return false;
                        }
                        out.push(Instr::PopRdi);
                        out.push(Instr::PopRax);
                        match n.kind {
                            NodeKind::Add => out.push(Instr::AddRaxRdi),
                            NodeKind::Sub => out.push(Instr::SubRaxRdi),
                            NodeKind::Mul => out.push(Instr::MulRaxRdi),
                            NodeKind::Div => out.push(Instr::CqoIdivRdi),
                            NodeKind::Eq => {
                                out.push(Instr::CmpRaxRdi);
                                out.push(Instr::SeteAl);
                                out.push(Instr::MovzbRaxAl);
                            },
                            NodeKind::Neq => {
                                out.push(Instr::CmpRaxRdi);
                                out.push(Instr::SetneAl);
                                out.push(Instr::MovzbRaxAl);
                            },
                            NodeKind::Lt => {
                                out.push(Instr::CmpRaxRdi);
                                out.push(Instr::SetlAl);
                                out.push(Instr::MovzbRaxAl);
                            },
                            NodeKind::Lte => {
                                out.push(Instr::CmpRaxRdi);
                                out.push(Instr::SetleAl);
                                out.push(Instr::MovzbRaxAl);
                            },
                            _ => {},
                        }
                        out.push(Instr::PushRax);
                        proof {
                            assert(final(out)@ =~= old(out)@ + n.spec_gen());
                        }
                        true
                    },
                    _ => false,
                }
            },
        }
    }

    /// Generates the instruction sequence of one statement tree: exactly
    /// [`Node::spec_gen`] when the tree is [`Node::gen_ok`], and the
    /// invalid-left-value failure, with nothing emitted, when it is not.
    pub fn gen(n: &Node) -> (r: Result<Vec<Instr>, GenError>)
        ensures
            match r {
                Ok(v) => n.gen_ok() && v@ == n.spec_gen(),
                Err(_) => !n.gen_ok(),
            },
    {
        let mut out: Vec<Instr> = Vec::new();
        if Self::gen_into(n, &mut out) {
            proof {
                assert(Seq::<Instr>::empty() + n.spec_gen() =~= n.spec_gen());
            }
            Ok(out)
        } else {
            Err(GenError::InvalidLeftValue)
        }
    }
}

/// One instruction runs as one step.
proof fn lemma_run_one(s: MachineModel, i: Instr)
    ensures
        run_instrs(s, seq![i]) == spec_step(s, i),
{
    reveal_with_fuel(run_instrs, 2);
    assert(seq![i][0] == i);
    assert(seq![i].skip(1) =~= Seq::<Instr>::empty());
}

/// Running a sequence that starts with `i` steps `i` first.
proof fn lemma_run_cons(s: MachineModel, i: Instr, rest: Seq<Instr>)
    ensures
        run_instrs(s, seq![i] + rest) == (match spec_step(s, i) {
            Some(s1) => run_instrs(s1, rest),
            None => None,
        }),
{
    assert((seq![i] + rest)[0] == i);
    assert((seq![i] + rest).skip(1) =~= rest);
}

/// Running the left-value path pushes the slot address of a valid
/// offset, and sticks on any other.
proof fn lemma_leftval_run(offset: usize, s: MachineModel)
    ensures
        ({
            let instrs = seq![Instr::MovRaxRbp, Instr::SubRaxImm(offset), Instr::PushRax];
            if valid_offset(offset, s.mem.len()) {
                run_instrs(s, instrs) == Some(
                    MachineModel {
                        stack: s.stack.push(Word::Slot((offset / 8 - 1) as usize)),
                        rax: Word::Slot((offset / 8 - 1) as usize),
                        ..s
                    },
                )
            } else {
                run_instrs(s, instrs) is None
            }
        }),
{
    let instrs = seq![Instr::MovRaxRbp, Instr::SubRaxImm(offset), Instr::PushRax];
    assert(instrs =~= seq![Instr::MovRaxRbp] + (seq![Instr::SubRaxImm(offset)] + seq![
        Instr::PushRax,
    ]));
    let s1 = MachineModel { rax: Word::Base, ..s };
    lemma_run_cons(s, Instr::MovRaxRbp, seq![Instr::SubRaxImm(offset)] + seq![Instr::PushRax]);
    if valid_offset(offset, s.mem.len()) {
        let s2 = MachineModel { rax: Word::Slot((offset / 8 - 1) as usize), ..s1 };
        lemma_run_cons(s1, Instr::SubRaxImm(offset), seq![Instr::PushRax]);
        lemma_run_one(s2, Instr::PushRax);
    } else {
        lemma_run_cons(s1, Instr::SubRaxImm(offset), seq![Instr::PushRax]);
    }
}

/// With the two operands on top of the stack — left below right — the
/// pop-pop-apply-push tail of a binary operator replaces them with the
/// one result, or sticks on a faulting division.
proof fn lemma_binop_tail(kind: NodeKind, s: MachineModel, a: i64, b: i64)
    requires
        kind.is_binary_op(),
        s.stack.len() >= 2,
        s.stack[s.stack.len() - 2] == Word::Int(a),
        s.stack.last() == Word::Int(b),
    ensures
        ({
            let tail = seq![Instr::PopRdi, Instr::PopRax] + op_instrs(kind) + seq![
                Instr::PushRax,
            ];
            match apply_binop(kind, a, b) {
                Some(v) => run_instrs(s, tail) matches Some(s2) && s2.stack
                    == s.stack.drop_last().drop_last().push(Word::Int(v)) && s2.mem == s.mem,
                None => run_instrs(s, tail) is None,
            }
        }),
{
    let tail = seq![Instr::PopRdi, Instr::PopRax] + op_instrs(kind) + seq![Instr::PushRax];
    let t1 = seq![Instr::PopRax] + op_instrs(kind) + seq![Instr::PushRax];
    let t2 = op_instrs(kind) + seq![Instr::PushRax];
    assert(tail =~= seq![Instr::PopRdi] + t1);
    assert(t1 =~= seq![Instr::PopRax] + t2);
    let s1 = MachineModel { stack: s.stack.drop_last(), rdi: s.stack.last(), ..s };
    lemma_run_cons(s, Instr::PopRdi, t1);
    assert(s1.stack.len() >= 1);
    assert(s1.stack.last() == s.stack[s.stack.len() - 2]);
    let s2 = MachineModel { stack: s1.stack.drop_last(), rax: s1.stack.last(), ..s1 };
    lemma_run_cons(s1, Instr::PopRax, t2);
    assert(s2.rax == Word::Int(a));
    assert(s2.rdi == Word::Int(b));
    match kind {
        NodeKind::Add | NodeKind::Sub | NodeKind::Mul | NodeKind::Div => {
            let op = op_instrs(kind)[0];
            assert(t2 =~= seq![op] + seq![Instr::PushRax]);
            lemma_run_cons(s2, op, seq![Instr::PushRax]);
            match spec_step(s2, op) {
                Some(s3) => {
                    lemma_run_one(s3, Instr::PushRax);
                },
                None => {},
            }
        },
        _ => {
            let setter = op_instrs(kind)[1];
            assert(t2 =~= seq![Instr::CmpRaxRdi] + (seq![setter] + (seq![Instr::MovzbRaxAl]
                + seq![Instr::PushRax])));
            let s3 = MachineModel { flags: Some((a, b)), ..s2 };
            lemma_run_cons(s2, Instr::CmpRaxRdi, seq![setter] + (seq![Instr::MovzbRaxAl] + seq![
                Instr::PushRax,
            ]));
            match spec_step(s3, setter) {
                Some(s4) => {
                    lemma_run_cons(s3, setter, seq![Instr::MovzbRaxAl] + seq![Instr::PushRax]);
                    let s5 = MachineModel { rax: Word::Int(s4.al), ..s4 };
                    lemma_run_cons(s4, Instr::MovzbRaxAl, seq![Instr::PushRax]);
                    lemma_run_one(s5, Instr::PushRax);
                },
                None => {
                    assert(false);
                },
            }
        },
    }
}

/// The code generator is correct: on a tree it accepts, the emitted
/// instructions, run from any state, push exactly the value evaluation
/// gives the tree and update the frame exactly as evaluation does — and
/// where evaluation is undefined, the machine sticks.
pub proof fn lemma_gen_correct(n: Node, s: MachineModel)
    requires
        n.gen_ok(),
    ensures
        match eval_node(n, s.mem) {
            Some((v, m2)) => run_instrs(s, n.spec_gen()) matches Some(s2) && s2.stack
                == s.stack.push(Word::Int(v)) && s2.mem == m2,
            None => run_instrs(s, n.spec_gen()) is None,
        },
    decreases n,
{
    match n.kind {
        NodeKind::Num { value } => {
            lemma_run_one(s, Instr::PushImm(value));
        },
        NodeKind::LocalVar { offset } => {
            let lv = n.spec_gen_leftval();
            let rest = seq![Instr::PopRax, Instr::LoadRax, Instr::PushRax];
            assert(n.spec_gen() == lv + rest);
            lemma_run_append(s, lv, rest);
            lemma_leftval_run(offset, s);
            if valid_offset(offset, s.mem.len()) {
                vstd::arithmetic::div_mod::lemma_div_nonincreasing(offset as int, 8);
                let slot = (offset / 8 - 1) as usize;
                let s1 = MachineModel { stack: s.stack.push(Word::Slot(slot)), rax: Word::Slot(
                    slot,
                ), ..s };
                assert(rest =~= seq![Instr::PopRax] + (seq![Instr::LoadRax] + seq![
                    Instr::PushRax,
                ]));
                let s2 = MachineModel { stack: s.stack, rax: Word::Slot(slot), ..s1 };
                lemma_run_cons(s1, Instr::PopRax, seq![Instr::LoadRax] + seq![Instr::PushRax]);
                assert(s1.stack.drop_last() =~= s.stack);
                let s3 = MachineModel { rax: Word::Int(s.mem[slot as int]), ..s2 };
                lemma_run_cons(s2, Instr::LoadRax, seq![Instr::PushRax]);
                lemma_run_one(s3, Instr::PushRax);
            }
        },
        NodeKind::Assign => {
            let t = *n.lhs->Some_0;
            let r = *n.rhs->Some_0;
            let offset = t.kind->offset;
            let lv = t.spec_gen_leftval();
            let body = r.spec_gen();
            let tail = seq![Instr::PopRdi, Instr::PopRax, Instr::StoreRdi, Instr::PushRdi];
            assert(n.spec_gen() == lv + body + tail);
            assert(lv + body + tail =~= lv + (body + tail));
            lemma_run_append(s, lv, body + tail);
            lemma_leftval_run(offset, s);
            if valid_offset(offset, s.mem.len()) {
                vstd::arithmetic::div_mod::lemma_div_nonincreasing(offset as int, 8);
                let slot = (offset / 8 - 1) as usize;
                let s1 = MachineModel { stack: s.stack.push(Word::Slot(slot)), rax: Word::Slot(
                    slot,
                ), ..s };
                lemma_run_append(s1, body, tail);
                lemma_gen_correct(r, s1);
                lemma_eval_len(r, s.mem);
                match eval_node(r, s.mem) {
                    Some((v, m1)) => {
                        let s2 = run_instrs(s1, body)->Some_0;
                        assert(s2.stack == s1.stack.push(Word::Int(v)));
                        assert(s2.mem == m1);
                        assert(tail =~= seq![Instr::PopRdi] + (seq![Instr::PopRax] + (seq![
                            Instr::StoreRdi,
                        ] + seq![Instr::PushRdi])));
                        let s3 = MachineModel { stack: s2.stack.drop_last(), rdi: s2.stack.last(), ..s2 };
                        lemma_run_cons(s2, Instr::PopRdi, seq![Instr::PopRax] + (seq![
                            Instr::StoreRdi,
                        ] + seq![Instr::PushRdi]));
                        assert(s3.stack =~= s1.stack);
                        assert(s3.stack.last() == Word::Slot(slot));
                        let s4 = MachineModel { stack: s3.stack.drop_last(), rax: s3.stack.last(), ..s3 };
                        lemma_run_cons(s3, Instr::PopRax, seq![Instr::StoreRdi] + seq![
                            Instr::PushRdi,
                        ]);
                        assert(s4.stack =~= s.stack);
                        let s5 = MachineModel { mem: s4.mem.update(slot as int, v), ..s4 };
                        lemma_run_cons(s4, Instr::StoreRdi, seq![Instr::PushRdi]);
                        lemma_run_one(s5, Instr::PushRdi);
                    },
                    None => {},
                }
            }
        },
        _ => {
            let l = *n.lhs->Some_0;
            let r = *n.rhs->Some_0;
            let lcode = l.spec_gen();
            let rcode = r.spec_gen();
            let tail = seq![Instr::PopRdi, Instr::PopRax] + op_instrs(n.kind) + seq![
                Instr::PushRax,
            ];
            assert(n.spec_gen() == lcode + rcode + seq![Instr::PopRdi, Instr::PopRax] + op_instrs(
                n.kind,
            ) + seq![Instr::PushRax]);
            assert(lcode + rcode + seq![Instr::PopRdi, Instr::PopRax] + op_instrs(n.kind) + seq![
                Instr::PushRax,
            ] =~= lcode + (rcode + tail));
            lemma_run_append(s, lcode, rcode + tail);
            lemma_gen_correct(l, s);
            lemma_eval_len(l, s.mem);
            match eval_node(l, s.mem) {
                Some((a, m1)) => {
                    let s1 = run_instrs(s, lcode)->Some_0;
                    lemma_run_append(s1, rcode, tail);
                    lemma_gen_correct(r, s1);
                    lemma_eval_len(r, m1);
                    match eval_node(r, m1) {
                        Some((b, m2)) => {
                            let s2 = run_instrs(s1, rcode)->Some_0;
                            assert(s2.stack == s.stack.push(Word::Int(a)).push(Word::Int(b)));
                            assert(s2.stack[s2.stack.len() - 2] == Word::Int(a));
                            assert(s2.stack.last() == Word::Int(b));
                            lemma_binop_tail(n.kind, s2, a, b);
                            match apply_binop(n.kind, a, b) {
                                Some(v) => {
                                    assert(s2.stack.drop_last().drop_last().push(Word::Int(v))
                                        =~= s.stack.push(Word::Int(v)));
                                },
                                None => {},
                            }
                        },
                        None => {},
                    }
                },
                None => {},
            }
        },
    }
}

/// The instructions of a whole program: each statement's code followed
/// by one `pop rax`, which discards the statement's residual value into
/// the result register.  The last statement's value is thereby what the
/// program leaves in `rax`.
pub open spec fn spec_gen_program(stmts: Seq<Node>) -> Seq<Instr>
    decreases stmts.len(),
{
    if stmts.len() == 0 {
        Seq::empty()
    } else {
        stmts[0].spec_gen() + seq![Instr::PopRax] + spec_gen_program(stmts.skip(1))
    }
}

/// The program's code is correct: run from any state, it leaves the
/// stack as it found it, applies every statement's effect to the frame
/// in order, and leaves the last statement's value in `rax` — or sticks
/// exactly where evaluation is undefined.
pub proof fn lemma_gen_program_correct(stmts: Seq<Node>, s: MachineModel)
    requires
        stmts.len() > 0,
        forall|i: int| 0 <= i < stmts.len() ==> stmts[i].gen_ok(),
    ensures
        match eval_program(stmts, s.mem) {
            Some((v, m2)) => run_instrs(s, spec_gen_program(stmts)) matches Some(s2) && s2.rax
                == Word::Int(v) && s2.mem == m2 && s2.stack == s.stack,
            None => run_instrs(s, spec_gen_program(stmts)) is None,
        },
    decreases stmts.len(),
{
    let first = stmts[0];
    let rest = stmts.skip(1);
    assert(spec_gen_program(stmts) == first.spec_gen() + seq![Instr::PopRax] + spec_gen_program(
        rest,
    ));
    assert(first.spec_gen() + seq![Instr::PopRax] + spec_gen_program(rest) =~= first.spec_gen() + (
    seq![Instr::PopRax] + spec_gen_program(rest)));
    lemma_run_append(s, first.spec_gen(), seq![Instr::PopRax] + spec_gen_program(rest));
    lemma_gen_correct(first, s);
    match eval_node(first, s.mem) {
        Some((v, m1)) => {
            let s1 = run_instrs(s, first.spec_gen())->Some_0;
            lemma_run_cons(s1, Instr::PopRax, spec_gen_program(rest));
            let s2 = MachineModel { stack: s1.stack.drop_last(), rax: s1.stack.last(), ..s1 };
            assert(s2.stack =~= s.stack);
            if stmts.len() == 1 {
                assert(rest.len() == 0);
            } else {
                lemma_gen_program_correct(rest, s2);
            }
        },
        None => {},
    }
}

/// What running a program's generated code from a fresh frame of
/// `count` zeroed words yields: the last statement's value and the final
/// frame — `None` for an empty program, a tree the generator refuses, or
/// an evaluation the machine cannot complete.
pub open spec fn program_outcome(nodes: Seq<Node>, count: nat) -> Option<(i64, Seq<i64>)> {
    if nodes.len() > 0 && (forall|i: int| 0 <= i < nodes.len() ==> nodes[i].gen_ok()) {
        eval_program(nodes, init_state(count).mem)
    } else {
        None
    }
}

/// Generates and runs a whole program on the reference interpreter,
/// with a frame of `count` zeroed words: exactly [`program_outcome`].
pub fn run_program(nodes: &Vec<Node>, count: usize) -> (r: Option<(i64, Vec<i64>)>)
    ensures
        match r {
            Some(p) => program_outcome(nodes@, count as nat) == Some((p.0, p.1@)),
            None => program_outcome(nodes@, count as nat) is None,
        },
{
    if nodes.len() == 0 {
        return None;
    }
    let n = nodes.len();
    let mut instrs: Vec<Instr> = Vec::new();
    let mut i: usize = 0;
    proof {
        assert(nodes@.skip(0) =~= nodes@);
        assert(instrs@ + spec_gen_program(nodes@.skip(0)) =~= spec_gen_program(nodes@));
    }
    while i < n
        invariant
            i <= n,
            n == nodes@.len(),
            n > 0,
            forall|j: int| 0 <= j < i ==> nodes@[j].gen_ok(),
            spec_gen_program(nodes@) == instrs@ + spec_gen_program(nodes@.skip(i as int)),
        decreases n - i,
    {
        match Node::gen(&nodes[i]) {
            Ok(mut code) => {
                proof {
                    assert(nodes@.skip(i as int)[0] == nodes@[i as int]);
                    assert(nodes@.skip(i as int).skip(1) =~= nodes@.skip(i + 1));
                }
                instrs.append(&mut code);
                instrs.push(Instr::PopRax);
                proof {
                    assert(spec_gen_program(nodes@) =~= instrs@ + spec_gen_program(
                        nodes@.skip(i + 1),
                    ));
                }
            },
            Err(_) => {
                return None;
            },
        }
        i = i + 1;
    }
    proof {
        assert(spec_gen_program(nodes@.skip(n as int)).len() == 0);
        assert(instrs@ =~= spec_gen_program(nodes@));
    }
    let mut m = Machine::new(count);
    let ok = m.run(&instrs);
    proof {
        lemma_gen_program_correct(nodes@, init_state(count as nat));
    }
    if !ok {
        return None;
    }
    match m.rax {
        Word::Int(v) => Some((v, m.mem)),
        _ => {
            proof {
                assert(false);
            }
            None
        },
    }
}

} // verus!
