//! Rendering instructions as assembly text.
//!
//! Each [`Instr`] prints as a fixed line (or pair of lines) of Intel
//! syntax; [`assemble`] wraps a whole program's instructions in the fixed
//! output structure: the syntax-mode directive, the global declaration of
//! the entry label, the label, a prologue that allocates one word per
//! variable, one code block per statement — each discarding its residual
//! value into the result register — and the epilogue that restores the
//! frame and returns, with the last statement's value left as the result.

use vstd::prelude::*;

use vstd::string::StringExecFns;

use crate::ast::Node;
use crate::gen::{GenError, spec_gen_program};
use crate::machine::Instr;
use crate::text::push_char;

verus! {

/// The character of one decimal digit.
pub open spec fn digit_char(d: nat) -> char {
    if d == 0 {
        '0'
    } else if d == 1 {
        '1'
    } else if d == 2 {
        '2'
    } else if d == 3 {
        '3'
    } else if d == 4 {
        '4'
    } else if d == 5 {
        '5'
    } else if d == 6 {
        '6'
    } else if d == 7 {
        '7'
    } else if d == 8 {
        '8'
    } else {
        '9'
    }
}

/// The decimal digits of `n`, most significant first, without leading
/// zeroes (zero itself is the one digit `0`).
pub open spec fn dec_digits(n: nat) -> Seq<char>
    decreases n,
{
    if n < 10 {
        seq![digit_char(n)]
    } else {
        dec_digits(n / 10).push(digit_char(n % 10))
    }
}

/// The decimal text of a signed word: a minus sign before the magnitude
/// of a negative value.
pub open spec fn dec_i64(v: i64) -> Seq<char> {
    if v >= 0 {
        dec_digits(v as nat)
    } else {
        seq!['-'] + dec_digits((0 - v as int) as nat)
    }
}

/// The executable decimal digit.
fn digit_char_of(d: u128) -> (c: char)
    requires
        d < 10,
    ensures
        c == digit_char(d as nat),
{
    if d == 0 {
        '0'
    } else if d == 1 {
        '1'
    } else if d == 2 {
        '2'
    } else if d == 3 {
        '3'
    } else if d == 4 {
        '4'
    } else if d == 5 {
        '5'
    } else if d == 6 {
        '6'
    } else if d == 7 {
        '7'
    } else if d == 8 {
        '8'
    } else {
        '9'
    }
}

/// Appends the decimal text of `n` to `out`.
fn append_dec(out: &mut String, n: u128)
    ensures
        final(out)@ == old(out)@ + dec_digits(n as nat),
{
    let mut digits: Vec<char> = Vec::new();
    let mut x = n;
    loop
        invariant_except_break
            dec_digits(n as nat) == dec_digits(x as nat) + digits@.reverse(),
        ensures
            dec_digits(n as nat) == digits@.reverse(),
            digits@.len() >= 1,
        decreases x,
    {
        let ghost olddigits = digits@;
        let ghost x0 = x;
        let d = x % 10;
        digits.push(digit_char_of(d));
        proof {
            assert(digits@.reverse() =~= seq![digit_char(d as nat)] + olddigits.reverse());
        }
        x = x / 10;
        if x == 0 {
            proof {
                assert(x0 < 10 && x0 == d);
                assert(dec_digits(x0 as nat) == seq![digit_char(d as nat)]);
                assert(dec_digits(x0 as nat) + olddigits.reverse() =~= digits@.reverse());
            }
            break;
        }
        proof {
            assert(x0 as nat / 10 == x as nat && x0 as nat % 10 == d as nat);
            assert(dec_digits(x0 as nat) == dec_digits(x as nat).push(digit_char(d as nat)));
            assert(dec_digits(x as nat).push(digit_char(d as nat)) + olddigits.reverse()
                =~= dec_digits(x as nat) + digits@.reverse());
        }
    }
    let k = digits.len();
    let mut j: usize = 0;
    while j < k
        invariant
            j <= k,
            k == digits@.len(),
            out@ == old(out)@ + digits@.reverse().take(j as int),
        decreases k - j,
    {
        push_char(out, digits[k - 1 - j]);
        proof {
            assert(digits@.reverse()[j as int] == digits@[k - 1 - j]);
            assert(old(out)@ + digits@.reverse().take(j + 1) =~= (old(out)@
                + digits@.reverse().take(j as int)).push(digits@[k - 1 - j]));
        }
        j = j + 1;
    }
    proof {
        assert(digits@.reverse().take(k as int) =~= digits@.reverse());
        assert(out@ =~= old(out)@ + dec_digits(n as nat));
    }
}

/// The assembly line (or pair of lines) of one instruction.
pub open spec fn spec_instr_text(i: Instr) -> Seq<char> {
    match i {
        Instr::PushImm(v) => "\tpush "@ + dec_i64(v) + "\n"@,
        Instr::PushRax => "\tpush rax\n"@,
        Instr::PushRdi => "\tpush rdi\n"@,
        Instr::PopRax => "\tpop rax\n"@,
        Instr::PopRdi => "\tpop rdi\n"@,
        Instr::LoadRax => "\tmov rax, [rax]\n"@,
        Instr::StoreRdi => "\tmov [rax], rdi\n"@,
        Instr::MovRaxRbp => "\tmov rax, rbp\n"@,
        Instr::SubRaxImm(offset) => "\tsub rax, "@ + dec_digits(offset as nat) + "\n"@,
        Instr::AddRaxRdi => "\tadd rax, rdi\n"@,
        Instr::SubRaxRdi => "\tsub rax, rdi\n"@,
        Instr::MulRaxRdi => "\timul rax, rdi\n"@,
        Instr::CqoIdivRdi => "\tcqo\n\tidiv rdi\n"@,
        Instr::CmpRaxRdi => "\tcmp rax, rdi\n"@,
        Instr::SeteAl => "\tsete al\n"@,
        Instr::SetneAl => "\tsetne al\n"@,
        Instr::SetlAl => "\tsetl al\n"@,
        Instr::SetleAl => "\tsetle al\n"@,
        Instr::MovzbRaxAl => "\tmovzb rax, al\n"@,
    }
}

/// The text of an instruction sequence, line after line.
pub open spec fn instrs_text(instrs: Seq<Instr>) -> Seq<char>
    decreases instrs.len(),
{
    if instrs.len() == 0 {
        Seq::empty()
    } else {
        spec_instr_text(instrs[0]) + instrs_text(instrs.skip(1))
    }
}

/// Text distributes over concatenation of instruction sequences.
pub proof fn lemma_instrs_text_append(a: Seq<Instr>, b: Seq<Instr>)
    ensures
        instrs_text(a + b) == instrs_text(a) + instrs_text(b),
    decreases a.len(),
{
    if a.len() == 0 {
        assert(a + b =~= b);
        assert(instrs_text(a) + instrs_text(b) =~= instrs_text(b));
    } else {
        assert((a + b)[0] == a[0]);
        assert((a + b).skip(1) =~= a.skip(1) + b);
        lemma_instrs_text_append(a.skip(1), b);
        assert(spec_instr_text(a[0]) + (instrs_text(a.skip(1)) + instrs_text(b)) =~= (
        spec_instr_text(a[0]) + instrs_text(a.skip(1))) + instrs_text(b));
    }
}

/// A one-instruction sequence's text is that instruction's line.
proof fn lemma_instr_text_one(x: Instr)
    ensures
        instrs_text(seq![x]) == spec_instr_text(x),
{
    reveal_with_fuel(instrs_text, 2);
    assert(seq![x].skip(1) =~= Seq::<Instr>::empty());
    assert(spec_instr_text(x) + Seq::<char>::empty() =~= spec_instr_text(x));
}

/// Appends one instruction's text to `out`.
fn append_instr(out: &mut String, i: &Instr)
    ensures
        final(out)@ == old(out)@ + spec_instr_text(*i),
{
    match *i {
        Instr::PushImm(v) => {
            out.append("\tpush ");
            if v >= 0 {
                append_dec(out, v as u128);
            } else {
                push_char(out, '-');
                let m: i128 = 0 - (v as i128);
                append_dec(out, m as u128);
            }
            out.append("\n");
            proof {
                assert(final(out)@ =~= old(out)@ + spec_instr_text(*i));
            }
        },
        Instr::PushRax => out.append("\tpush rax\n"),
        Instr::PushRdi => out.append("\tpush rdi\n"),
        Instr::PopRax => out.append("\tpop rax\n"),
        Instr::PopRdi => out.append("\tpop rdi\n"),
        Instr::LoadRax => out.append("\tmov rax, [rax]\n"),
        Instr::StoreRdi => out.append("\tmov [rax], rdi\n"),
        Instr::MovRaxRbp => out.append("\tmov rax, rbp\n"),
        Instr::SubRaxImm(offset) => {
            out.append("\tsub rax, ");
            append_dec(out, offset as u128);
            out.append("\n");
            proof {
                assert(final(out)@ =~= old(out)@ + spec_instr_text(*i));
            }
        },
        Instr::AddRaxRdi => out.append("\tadd rax, rdi\n"),
        Instr::SubRaxRdi => out.append("\tsub rax, rdi\n"),
        Instr::MulRaxRdi => out.append("\timul rax, rdi\n"),
        Instr::CqoIdivRdi => out.append("\tcqo\n\tidiv rdi\n"),
        Instr::CmpRaxRdi => out.append("\tcmp rax, rdi\n"),
        Instr::SeteAl => out.append("\tsete al\n"),
        Instr::SetneAl => out.append("\tsetne al\n"),
        Instr::SetlAl => out.append("\tsetl al\n"),
        Instr::SetleAl => out.append("\tsetle al\n"),
        Instr::MovzbRaxAl => out.append("\tmovzb rax, al\n"),
    }
}

/// The complete assembly text of a program: directives, entry label,
/// a prologue allocating one word per variable, each statement's code
/// followed by the `pop rax` that discards its residual value, and the
/// epilogue.  The last statement's value is thereby left in `rax` as the
/// program's result.
pub open spec fn spec_assembly(stmts: Seq<Node>, count: nat) -> Seq<char> {
    ".intel_syntax noprefix\n"@ + ".globl main\n"@ + "main:\n"@ + "\tpush rbp\n"@
        + "\tmov rbp, rsp\n"@ + "\tsub rsp, "@ + dec_digits(count * 8) + "\n"@ + instrs_text(
        spec_gen_program(stmts),
    ) + "\tmov rsp, rbp\n"@ + "\tpop rbp\n"@ + "\tret\n"@
}

/// Renders a whole program, or reports the one generation failure.  On
/// success the text is exactly [`spec_assembly`] of the statements and
/// the variable count; generation fails exactly where some statement's
/// tree is not [`Node::gen_ok`], and nothing is returned.
pub fn assemble(nodes: &Vec<Node>, count: usize) -> (r: Result<String, GenError>)
    ensures
        match r {
            Ok(s) => (forall|i: int| 0 <= i < nodes@.len() ==> nodes@[i].gen_ok()) && s@
                == spec_assembly(nodes@, count as nat),
            Err(_) => !(forall|i: int| 0 <= i < nodes@.len() ==> nodes@[i].gen_ok()),
        },
{
    let mut s = String::new();
    s.append(".intel_syntax noprefix\n");
    s.append(".globl main\n");
    s.append("main:\n");
    s.append("\tpush rbp\n");
    s.append("\tmov rbp, rsp\n");
    s.append("\tsub rsp, ");
    append_dec(&mut s, (count as u128) * 8);
    s.append("\n");
    let ghost prefix = s@;
    let n = nodes.len();
    let mut i: usize = 0;
    let ghost mut done: Seq<Instr> = Seq::empty();
    proof {
        assert(instrs_text(done) =~= Seq::<char>::empty());
        assert(s@ =~= prefix + instrs_text(done));
        assert(nodes@.skip(0) =~= nodes@);
        assert(done + spec_gen_program(nodes@) =~= spec_gen_program(nodes@));
    }
    while i < n
        invariant
            i <= n,
            n == nodes@.len(),
            forall|j: int| 0 <= j < i ==> nodes@[j].gen_ok(),
            s@ == prefix + instrs_text(done),
            done + spec_gen_program(nodes@.skip(i as int)) == spec_gen_program(nodes@),
        decreases n - i,
    {
        let code = match Node::gen(&nodes[i]) {
            Ok(c) => c,
            Err(e) => { return Err(e) },
        };
        let k = code.len();
        let mut j: usize = 0;
        let ghost base = s@;
        while j < k
            invariant
                j <= k,
                k == code@.len(),
                s@ == base + instrs_text(code@.take(j as int)),
            decreases k - j,
        {
            append_instr(&mut s, &code[j]);
            proof {
                assert(code@.take(j + 1) =~= code@.take(j as int) + seq![code@[j as int]]);
                lemma_instrs_text_append(code@.take(j as int), seq![code@[j as int]]);
                lemma_instr_text_one(code@[j as int]);
                assert(s@ =~= base + instrs_text(code@.take(j + 1)));
            }
            j = j + 1;
        }
        s.append("\tpop rax\n");
        proof {
            assert(code@.take(k as int) =~= code@);
            let stepped = code@ + seq![Instr::PopRax];
            lemma_instrs_text_append(code@, seq![Instr::PopRax]);
            lemma_instr_text_one(Instr::PopRax);
            lemma_instrs_text_append(done, stepped);
            assert(s@ =~= prefix + instrs_text(done + stepped));
            assert(nodes@.skip(i as int)[0] == nodes@[i as int]);
            assert(nodes@.skip(i as int).skip(1) =~= nodes@.skip(i + 1));
            assert(spec_gen_program(nodes@.skip(i as int)) == nodes@[i as int].spec_gen() + seq![
                Instr::PopRax,
            ] + spec_gen_program(nodes@.skip(i + 1)));
            assert((done + stepped) + spec_gen_program(nodes@.skip(i + 1)) =~= done + (
            nodes@[i as int].spec_gen() + seq![Instr::PopRax] + spec_gen_program(
                nodes@.skip(i + 1),
            )));
            assert(done + spec_gen_program(nodes@.skip(i as int)) =~= done + (
            nodes@[i as int].spec_gen() + seq![Instr::PopRax] + spec_gen_program(
                nodes@.skip(i + 1),
            )));
            done = done + stepped;
        }
        i = i + 1;
    }
    proof {
        assert(spec_gen_program(nodes@.skip(n as int)).len() == 0);
        assert(done =~= spec_gen_program(nodes@));
    }
    s.append("\tmov rsp, rbp\n");
    s.append("\tpop rbp\n");
    s.append("\tret\n");
    proof {
        assert(s@ =~= spec_assembly(nodes@, count as nat));
    }
    Ok(s)
}

} // verus!
