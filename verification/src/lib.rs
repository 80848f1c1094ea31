//! A verified compiler for a tiny expression language.
//!
//! Source text is scanned into tokens, parsed by recursive descent into
//! abstract syntax trees (one per statement, with variables resolved to
//! frame offsets), and translated by a single post-order pass into code
//! for a stack machine.  Rendering the instructions as assembly text is
//! part of the library; reading the source and printing the text are not.
//!
//! [`compile`] is the whole pipeline: it returns the assembly text of a
//! source string, or the first error — scanning, parsing, or generation
//! — with nothing emitted.  The language: integer literals, lowercase
//! variable names, `+ - * / == != < <= > >=`, assignment `=` (itself an
//! expression), statements terminated by `;`.

pub mod ast;
pub mod gen;
pub mod lexer;
pub mod machine;
pub mod parser;
pub mod render;
pub mod semantics;
pub mod text;
pub mod token;

use vstd::prelude::*;
use vstd::string::StringExecFns;

use crate::gen::GenError;
use crate::lexer::{LexError, lemma_round_consumes, round_result, spec_tokenize, tokenize};
use crate::parser::{SyntaxError, program, spec_program};
use crate::render::{assemble, spec_assembly};
use crate::token::TokenModel;

verus! {

/// The first failure of a compilation.  All are fatal: the pipeline
/// aborts at once and produces no output.
#[derive(PartialEq, Eq, Debug)]
pub enum CompileError {
    /// No scanning rule matched the remaining input.
    Lex(LexError),
    /// A primary expression was expected and absent.
    Syntax(SyntaxError),
    /// An assignment's target is not a variable.
    Gen(GenError),
}

/// The registered symbols of the full grammar, in the order they are
/// tried within one length.
pub open spec fn spec_symbols() -> Seq<Seq<char>> {
    seq![
        "+"@,
        "-"@,
        "*"@,
        "/"@,
        "("@,
        ")"@,
        "=="@,
        "!="@,
        "<"@,
        "<="@,
        ">"@,
        ">="@,
        "="@,
        ";"@,
    ]
}

/// The ignored entries: the blank and the tab.
pub open spec fn spec_ignore() -> Seq<Seq<char>> {
    seq![" "@, "\t"@]
}

/// The symbol table of the full grammar, as a vector the lexer takes.
pub fn default_symbols() -> (v: Vec<String>)
    ensures
        v.deep_view() == spec_symbols(),
{
    let mut v: Vec<String> = Vec::new();
    v.push(String::from_str("+"));
    v.push(String::from_str("-"));
    v.push(String::from_str("*"));
    v.push(String::from_str("/"));
    v.push(String::from_str("("));
    v.push(String::from_str(")"));
    v.push(String::from_str("=="));
    v.push(String::from_str("!="));
    v.push(String::from_str("<"));
    v.push(String::from_str("<="));
    v.push(String::from_str(">"));
    v.push(String::from_str(">="));
    v.push(String::from_str("="));
    v.push(String::from_str(";"));
    proof {
        assert(v.deep_view() =~= spec_symbols());
    }
    v
}

/// The ignored entries, as a vector the lexer takes.
pub fn default_ignore() -> (v: Vec<String>)
    ensures
        v.deep_view() == spec_ignore(),
{
    let mut v: Vec<String> = Vec::new();
    v.push(String::from_str(" "));
    v.push(String::from_str("\t"));
    proof {
        assert(v.deep_view() =~= spec_ignore());
    }
    v
}

/// A scan yields at most one token per character of input.
pub proof fn lemma_tokenize_count(s: Seq<char>, symbols: Seq<Seq<char>>, ignore: Seq<Seq<char>>)
    ensures
        spec_tokenize(s, symbols, ignore) matches Some(toks) ==> toks.len() <= s.len(),
    decreases s.len(),
{
    lemma_round_consumes(s, symbols, ignore);
    match round_result(s, symbols, ignore) {
        Some((t, n)) => {
            if 1 <= n <= s.len() {
                lemma_tokenize_count(s.skip(n as int), symbols, ignore);
            }
        },
        None => {},
    }
}

/// The whole pipeline on a character sequence: the assembly text where
/// scanning, parsing and generation all succeed, `None` otherwise.
pub open spec fn spec_compile(s: Seq<char>) -> Option<Seq<char>> {
    match spec_tokenize(s, spec_symbols(), spec_ignore()) {
        Some(toks) => match spec_program(toks) {
            Some((nodes, count)) => if forall|i: int|
                0 <= i < nodes.len() ==> nodes[i].gen_ok() {
                Some(spec_assembly(nodes, count))
            } else {
                None
            },
            None => None,
        },
        None => None,
    }
}

/// Compiles a source string to assembly text: exactly [`spec_compile`]
/// of its characters.  On failure nothing is emitted, and the error
/// names the stage: scanning failed, or the tokens do not parse, or some
/// statement's tree was refused by the generator.
///
/// The bound on the source length is a machine limit: every variable's
/// byte offset, at most eight times the token count, must fit a `usize`.
pub fn compile(source: &String) -> (r: Result<String, CompileError>)
    requires
        8 * source@.len() + 8 <= usize::MAX,
    ensures
        ({
            let toks = spec_tokenize(source@, spec_symbols(), spec_ignore());
            match r {
                Ok(t) => spec_compile(source@) == Some(t@),
                Err(CompileError::Lex(_)) => toks is None,
                Err(CompileError::Syntax(_)) => toks matches Some(ts) && spec_program(ts) is None,
                Err(CompileError::Gen(_)) => toks matches Some(ts) && spec_program(ts) matches Some(
                    (nodes, count),
                ) && !(forall|i: int| 0 <= i < nodes.len() ==> nodes[i].gen_ok()),
            }
        }),
        r is Err ==> spec_compile(source@) is None,
{
    let symbols = default_symbols();
    let ignore = default_ignore();
    let mut tokens = match tokenize(source, &symbols, &ignore) {
        Ok(t) => t,
        Err(e) => { return Err(CompileError::Lex(e)) },
    };
    proof {
        lemma_tokenize_count(source@, spec_symbols(), spec_ignore());
    }
    let parsed = match program(&mut tokens) {
        Ok(p) => p,
        Err(e) => { return Err(CompileError::Syntax(e)) },
    };
    let (nodes, count) = parsed;
    match assemble(&nodes, count) {
        Ok(t) => Ok(t),
        Err(e) => Err(CompileError::Gen(e)),
    }
}

} // verus!
