//! The target stack machine.
//!
//! Generated code runs against a push-down evaluation stack, two
//! general-purpose registers, comparison flags, and a storage frame of
//! one word per variable.  [`Instr`] names each instruction the code
//! generator emits; [`spec_step`] gives its meaning, with `None` for a
//! stuck machine (an empty stack popped, arithmetic on an address, a
//! division by zero).  [`Machine`] is a verified reference interpreter
//! for that semantics: nothing else in the library executes generated
//! code, so the end-to-end tests run on it.

use vstd::prelude::*;

verus! {

/// One machine word as the generated code uses it: an integer value, the
/// frame base pointer, or the address of the frame slot at a word index.
#[derive(PartialEq, Eq, Debug, Clone, Copy)]
pub enum Word {
    Int(i64),
    Base,
    Slot(usize),
}

/// One emitted instruction.  Each constructor renders as the fixed
/// assembly line (or pair of lines) the code generator prints for it.
#[derive(PartialEq, Eq, Debug, Clone, Copy)]
pub enum Instr {
    /// `push` of an immediate value.
    PushImm(i64),
    /// `push rax`.
    PushRax,
    /// `push rdi`.
    PushRdi,
    /// `pop rax`.
    PopRax,
    /// `pop rdi`.
    PopRdi,
    /// `mov rax, [rax]`: load the word at the address in `rax`.
    LoadRax,
    /// `mov [rax], rdi`: store `rdi` at the address in `rax`.
    StoreRdi,
    /// `mov rax, rbp`: the frame base.
    MovRaxRbp,
    /// `sub rax, offset`: the address of a frame slot, computed from the
    /// base.
    SubRaxImm(usize),
    /// `add rax, rdi`, wrapping.
    AddRaxRdi,
    /// `sub rax, rdi`, wrapping.
    SubRaxRdi,
    /// `imul rax, rdi`, wrapping.
    MulRaxRdi,
    /// `cqo` then `idiv rdi`: signed division truncating toward zero.
    CqoIdivRdi,
    /// `cmp rax, rdi`: records both operands in the flags.
    CmpRaxRdi,
    /// `sete al`: 1 when the compared operands were equal, else 0.
    SeteAl,
    /// `setne al`.
    SetneAl,
    /// `setl al`: signed less-than.
    SetlAl,
    /// `setle al`: signed less-or-equal.
    SetleAl,
    /// `movzb rax, al`: the comparison result, zero-extended.
    MovzbRaxAl,
}

/// The machine's mathematical state.
pub ghost struct MachineModel {
    pub stack: Seq<Word>,
    pub mem: Seq<i64>,
    pub rax: Word,
    pub rdi: Word,
    pub flags: Option<(i64, i64)>,
    pub al: i64,
}

/// Whether `offset` addresses a slot of a frame of `count` words: a
/// positive multiple of the word size, at most `count` words below the
/// base.
pub open spec fn valid_offset(offset: usize, count: nat) -> bool {
    offset % 8 == 0 && 8 <= offset && offset / 8 <= count
}

/// The zero-based slot index of a frame offset.
pub open spec fn slot_of(offset: usize) -> int {
    offset / 8 - 1
}

/// 64-bit wrapping addition.
pub open spec fn wrap_add(a: i64, b: i64) -> i64 {
    vstd::wrapping::i64_specs::wrapping_add(a, b)
}

/// 64-bit wrapping subtraction.
pub open spec fn wrap_sub(a: i64, b: i64) -> i64 {
    vstd::wrapping::i64_specs::wrapping_sub(a, b)
}

/// 64-bit wrapping multiplication.
pub open spec fn wrap_mul(a: i64, b: i64) -> i64 {
    vstd::wrapping::i64_specs::wrapping_mul(a, b)
}

/// Signed division truncating toward zero, as `idiv` computes it.
/// Meaningful only where `b != 0` and the quotient fits.
pub open spec fn trunc_div(a: i64, b: i64) -> int {
    let x = a as int;
    let d = b as int;
    if x == 0 {
        0
    } else if x > 0 && d > 0 {
        x / d
    } else if x < 0 && d < 0 {
        (x * -1) / (d * -1)
    } else if x < 0 {
        ((x * -1) / d) * -1
    } else {
        (x / (d * -1)) * -1
    }
}

/// The inputs on which `idiv` faults: a zero divisor, or the one quotient
/// that overflows the word.
pub open spec fn div_faults(a: i64, b: i64) -> bool {
    b == 0 || (a == i64::MIN && b == -1)
}

/// The word value of a truth: comparisons normalise to 0 or 1.
pub open spec fn truth_word(b: bool) -> i64 {
    if b {
        1
    } else {
        0
    }
}

/// One instruction's effect on a machine state, or `None` where the
/// machine is stuck: a pop from an empty stack, a load or store through
/// a non-address, arithmetic on a non-integer, an offset outside the
/// frame, a `set` with no comparison recorded, or a faulting division.
pub open spec fn spec_step(s: MachineModel, i: Instr) -> Option<MachineModel> {
    match i {
        Instr::PushImm(v) => Some(MachineModel { stack: s.stack.push(Word::Int(v)), ..s }),
        Instr::PushRax => Some(MachineModel { stack: s.stack.push(s.rax), ..s }),
        Instr::PushRdi => Some(MachineModel { stack: s.stack.push(s.rdi), ..s }),
        Instr::PopRax => if s.stack.len() > 0 {
            Some(MachineModel { stack: s.stack.drop_last(), rax: s.stack.last(), ..s })
        } else {
            None
        },
        Instr::PopRdi => if s.stack.len() > 0 {
            Some(MachineModel { stack: s.stack.drop_last(), rdi: s.stack.last(), ..s })
        } else {
            None
        },
        Instr::LoadRax => match s.rax {
            Word::Slot(i) => if i < s.mem.len() {
                Some(MachineModel { rax: Word::Int(s.mem[i as int]), ..s })
            } else {
                None
            },
            _ => None,
        },
        Instr::StoreRdi => match (s.rax, s.rdi) {
            (Word::Slot(i), Word::Int(v)) => if i < s.mem.len() {
                Some(MachineModel { mem: s.mem.update(i as int, v), ..s })
            } else {
                None
            },
            _ => None,
        },
        Instr::MovRaxRbp => Some(MachineModel { rax: Word::Base, ..s }),
        Instr::SubRaxImm(offset) => if s.rax is Base && valid_offset(offset, s.mem.len()) {
            Some(MachineModel { rax: Word::Slot((offset / 8 - 1) as usize), ..s })
        } else {
            None
        },
        Instr::AddRaxRdi => match (s.rax, s.rdi) {
            (Word::Int(a), Word::Int(b)) => Some(
                MachineModel { rax: Word::Int(wrap_add(a, b)), ..s },
            ),
            _ => None,
        },
        Instr::SubRaxRdi => match (s.rax, s.rdi) {
            (Word::Int(a), Word::Int(b)) => Some(
                MachineModel { rax: Word::Int(wrap_sub(a, b)), ..s },
            ),
            _ => None,
        },
        Instr::MulRaxRdi => match (s.rax, s.rdi) {
            (Word::Int(a), Word::Int(b)) => Some(
                MachineModel { rax: Word::Int(wrap_mul(a, b)), ..s },
            ),
            _ => None,
        },
        Instr::CqoIdivRdi => match (s.rax, s.rdi) {
            (Word::Int(a), Word::Int(b)) => if div_faults(a, b) {
                None
            } else {
                Some(MachineModel { rax: Word::Int(trunc_div(a, b) as i64), ..s })
            },
            _ => None,
        },
        Instr::CmpRaxRdi => match (s.rax, s.rdi) {
            (Word::Int(a), Word::Int(b)) => Some(MachineModel { flags: Some((a, b)), ..s }),
            _ => None,
        },
        Instr::SeteAl => match s.flags {
            Some((l, r)) => Some(MachineModel { al: truth_word(l == r), ..s }),
            None => None,
        },
        Instr::SetneAl => match s.flags {
            Some((l, r)) => Some(MachineModel { al: truth_word(l != r), ..s }),
            None => None,
        },
        Instr::SetlAl => match s.flags {
            Some((l, r)) => Some(MachineModel { al: truth_word(l < r), ..s }),
            None => None,
        },
        Instr::SetleAl => match s.flags {
            Some((l, r)) => Some(MachineModel { al: truth_word(l <= r), ..s }),
            None => None,
        },
        Instr::MovzbRaxAl => Some(MachineModel { rax: Word::Int(s.al), ..s }),
    }
}

/// Running a sequence of instructions, one [`spec_step`] after another;
/// `None` as soon as one is stuck.
pub open spec fn run_instrs(s: MachineModel, instrs: Seq<Instr>) -> Option<MachineModel>
    decreases instrs.len(),
{
    if instrs.len() == 0 {
        Some(s)
    } else {
        match spec_step(s, instrs[0]) {
            Some(s1) => run_instrs(s1, instrs.skip(1)),
            None => None,
        }
    }
}

/// Runs distribute over concatenation: the second half starts where the
/// first ended, and a stuck first half sticks the whole.
pub proof fn lemma_run_append(s: MachineModel, a: Seq<Instr>, b: Seq<Instr>)
    ensures
        run_instrs(s, a + b) == (match run_instrs(s, a) {
            Some(s1) => run_instrs(s1, b),
            None => None,
        }),
    decreases a.len(),
{
    if a.len() == 0 {
        assert(a + b =~= b);
    } else {
        assert((a + b)[0] == a[0]);
        match spec_step(s, a[0]) {
            Some(s1) => {
                assert((a + b).skip(1) =~= a.skip(1) + b);
                lemma_run_append(s1, a.skip(1), b);
            },
            None => {},
        }
    }
}

/// A frame of `count` zeroed words, the stack empty, the registers zero,
/// no comparison recorded: the state a fresh [`Machine`] models.
pub open spec fn init_state(count: nat) -> MachineModel {
    MachineModel {
        stack: Seq::empty(),
        mem: Seq::new(count, |i: int| 0i64),
        rax: Word::Int(0),
        rdi: Word::Int(0),
        flags: None,
        al: 0,
    }
}

/// The reference interpreter: the executable mirror of [`MachineModel`].
pub struct Machine {
    pub stack: Vec<Word>,
    pub mem: Vec<i64>,
    pub rax: Word,
    pub rdi: Word,
    pub flags: Option<(i64, i64)>,
    pub al: i64,
}

impl View for Machine {
    type V = MachineModel;

    open spec fn view(&self) -> MachineModel {
        MachineModel {
            stack: self.stack@,
            mem: self.mem@,
            rax: self.rax,
            rdi: self.rdi,
            flags: self.flags,
            al: self.al,
        }
    }
}

impl Machine {
    /// A fresh machine with a zeroed frame of `count` words.
    pub fn new(count: usize) -> (m: Machine)
        ensures
            m@ == init_state(count as nat),
    {
        let mut mem: Vec<i64> = Vec::new();
        let mut i: usize = 0;
        while i < count
            invariant
                i <= count,
                mem@ =~= Seq::new(i as nat, |j: int| 0i64),
            decreases count - i,
        {
            mem.push(0);
            proof {
                assert(mem@ =~= Seq::new((i + 1) as nat, |j: int| 0i64));
            }
            i = i + 1;
        }
        let m = Machine {
            stack: Vec::new(),
            mem,
            rax: Word::Int(0),
            rdi: Word::Int(0),
            flags: None,
            al: 0,
        };
        proof {
            assert(m@.stack =~= init_state(count as nat).stack);
            assert(m@.mem =~= init_state(count as nat).mem);
        }
        m
    }

    /// Executes one instruction.  On `true` the new state is exactly the
    /// [`spec_step`] of the old; on `false` the spec is stuck and the
    /// state is unchanged.
    pub fn step(&mut self, i: &Instr) -> (ok: bool)
        ensures
            ok ==> spec_step(old(self)@, *i) == Some(final(self)@),
            !ok ==> spec_step(old(self)@, *i) is None && final(self)@ == old(self)@,
    {
        match *i {
            Instr::PushImm(v) => {
                self.stack.push(Word::Int(v));
                true
            },
            Instr::PushRax => {
                let w = self.rax;
                self.stack.push(w);
                true
            },
            Instr::PushRdi => {
                let w = self.rdi;
                self.stack.push(w);
                true
            },
            Instr::PopRax => match self.stack.pop() {
                Some(w) => {
                    self.rax = w;
                    true
                },
                None => false,
            },
            Instr::PopRdi => match self.stack.pop() {
                Some(w) => {
                    self.rdi = w;
                    true
                },
                None => false,
            },
            Instr::LoadRax => match self.rax {
                Word::Slot(idx) => {
                    if idx < self.mem.len() {
                        self.rax = Word::Int(self.mem[idx]);
                        true
                    } else {
                        false
                    }
                },
                _ => false,
            },
            Instr::StoreRdi => match (self.rax, self.rdi) {
                (Word::Slot(idx), Word::Int(v)) => {
                    if idx < self.mem.len() {
                        self.mem.set(idx, v);
                        true
                    } else {
                        false
                    }
                },
                _ => false,
            },
            Instr::MovRaxRbp => {
                self.rax = Word::Base;
                true
            },
            Instr::SubRaxImm(offset) => {
                if matches!(self.rax, Word::Base) && offset % 8 == 0 && offset >= 8 && offset / 8
                    <= self.mem.len() {
                    self.rax = Word::Slot(offset / 8 - 1);
                    true
                } else {
                    false
                }
            },
            Instr::AddRaxRdi => match (self.rax, self.rdi) {
                (Word::Int(a), Word::Int(b)) => {
                    self.rax = Word::Int(a.wrapping_add(b));
                    true
                },
                _ => false,
            },
            Instr::SubRaxRdi => match (self.rax, self.rdi) {
                (Word::Int(a), Word::Int(b)) => {
                    self.rax = Word::Int(a.wrapping_sub(b));
                    true
                },
                _ => false,
            },
            Instr::MulRaxRdi => match (self.rax, self.rdi) {
                (Word::Int(a), Word::Int(b)) => {
                    self.rax = Word::Int(a.wrapping_mul(b));
                    true
                },
                _ => false,
            },
            Instr::CqoIdivRdi => match (self.rax, self.rdi) {
                (Word::Int(a), Word::Int(b)) => {
                    if b == 0 || (a == i64::MIN && b == -1) {
                        false
                    } else {
                        let q = div_trunc(a, b);
                        self.rax = Word::Int(q);
                        true
                    }
                },
                _ => false,
            },
            Instr::CmpRaxRdi => match (self.rax, self.rdi) {
                (Word::Int(a), Word::Int(b)) => {
                    self.flags = Some((a, b));
                    true
                },
                _ => false,
            },
            Instr::SeteAl => match self.flags {
                Some((l, r)) => {
                    self.al = if l == r {
                        1
                    } else {
                        0
                    };
                    true
                },
                None => false,
            },
            Instr::SetneAl => match self.flags {
                Some((l, r)) => {
                    self.al = if l != r {
                        1
                    } else {
                        0
                    };
                    true
                },
                None => false,
            },
            Instr::SetlAl => match self.flags {
                Some((l, r)) => {
                    self.al = if l < r {
                        1
                    } else {
                        0
                    };
                    true
                },
                None => false,
            },
            Instr::SetleAl => match self.flags {
                Some((l, r)) => {
                    self.al = if l <= r {
                        1
                    } else {
                        0
                    };
                    true
                },
                None => false,
            },
            Instr::MovzbRaxAl => {
                let v = self.al;
                self.rax = Word::Int(v);
                true
            },
        }
    }

    /// Executes a whole instruction sequence.  On `true` the new state is
    /// exactly [`run_instrs`] of the old; on `false` the run is stuck.
    pub fn run(&mut self, instrs: &Vec<Instr>) -> (ok: bool)
        ensures
            ok ==> run_instrs(old(self)@, instrs@) == Some(final(self)@),
            !ok ==> run_instrs(old(self)@, instrs@) is None,
    {
        let ghost s0 = self@;
        let n = instrs.len();
        let mut i: usize = 0;
        proof {
            assert(instrs@.skip(0) =~= instrs@);
        }
        while i < n
            invariant
                i <= n,
                n == instrs@.len(),
                s0 == old(self)@,
                run_instrs(s0, instrs@) == run_instrs(self@, instrs@.skip(i as int)),
            decreases n - i,
        {
            let ghost before = self@;
            let ok = self.step(&instrs[i]);
            if !ok {
                proof {
                    assert(instrs@.skip(i as int)[0] == instrs@[i as int]);
                }
                return false;
            }
            proof {
                assert(instrs@.skip(i as int)[0] == instrs@[i as int]);
                assert(instrs@.skip(i as int).skip(1) =~= instrs@.skip(i + 1));
            }
            i = i + 1;
        }
        proof {
            assert(instrs@.skip(n as int).len() == 0);
        }
        true
    }
}

/// Signed division truncating toward zero, the executable form: exactly
/// [`trunc_div`] on non-faulting inputs.
fn div_trunc(a: i64, b: i64) -> (q: i64)
    requires
        !div_faults(a, b),
    ensures
        q == trunc_div(a, b),
{
    match a.checked_div(b) {
        Some(q) => q,
        None => {
            // unreachable: checked_div fails only on the faulting inputs
            proof {
                lemma_trunc_div_fits(a, b);
            }
            0
        },
    }
}

/// On non-faulting inputs the truncating quotient fits the word, and is
/// what `checked_div` returns.
proof fn lemma_trunc_div_fits(a: i64, b: i64)
    requires
        !div_faults(a, b),
    ensures
        i64::MIN <= trunc_div(a, b) <= i64::MAX,
{
    let x = a as int;
    let d = b as int;
    if x == 0 {
    } else if x > 0 && d > 0 {
        vstd::arithmetic::div_mod::lemma_div_is_ordered_by_denominator(x, 1, d);
        vstd::arithmetic::div_mod::lemma_div_basics(x);
        vstd::arithmetic::div_mod::lemma_div_pos_is_pos(x, d);
    } else if x < 0 && d < 0 {
        vstd::arithmetic::div_mod::lemma_div_pos_is_pos(x * -1, d * -1);
        if a == i64::MIN {
            // the divisor is at most -2, so the quotient is at most half
            // the word range
            vstd::arithmetic::div_mod::lemma_div_is_ordered_by_denominator(x * -1, 2, d * -1);
            assert((x * -1) / 2 <= i64::MAX);
        } else {
            vstd::arithmetic::div_mod::lemma_div_is_ordered_by_denominator(x * -1, 1, d * -1);
            vstd::arithmetic::div_mod::lemma_div_basics(x * -1);
        }
    } else if x < 0 {
        vstd::arithmetic::div_mod::lemma_div_is_ordered_by_denominator(x * -1, 1, d);
        vstd::arithmetic::div_mod::lemma_div_basics(x * -1);
        vstd::arithmetic::div_mod::lemma_div_pos_is_pos(x * -1, d);
    } else {
        vstd::arithmetic::div_mod::lemma_div_is_ordered_by_denominator(x, 1, d * -1);
        vstd::arithmetic::div_mod::lemma_div_basics(x);
        vstd::arithmetic::div_mod::lemma_div_pos_is_pos(x, d * -1);
    }
}

} // verus!
