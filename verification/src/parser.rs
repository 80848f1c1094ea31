//! Recursive-descent parsing.
//!
//! [`program`] consumes the token sequence destructively, front to back
//! with no backtracking, and returns one AST per statement together with
//! the count of distinct variables.  The grammar, precedence low to high,
//! all binary operators left-associative:
//!
//! ```text
//! program    = statement*
//! statement  = expression ";"
//! expression = assignment
//! assignment = equality ("=" assignment)?        (right-associative)
//! equality   = relational (("==" | "!=") relational)*
//! relational = additive (("<" | "<=" | ">" | ">=") additive)*
//! additive   = multiplicative (("+" | "-") multiplicative)*
//! multiplicative = unary (("*" | "/") unary)*
//! unary      = ("+" | "-")? primary
//! primary    = number | identifier | "(" expression ")"
//! ```
//!
//! `a > b` and `a >= b` are desugared on the spot: the parser swaps the
//! operands and builds `Lt`/`Lte`, so those are the only comparison nodes
//! an AST ever carries.  Unary minus becomes a subtraction from zero;
//! unary plus returns its operand unchanged.
//!
//! Expected tokens are consumed softly: a closing parenthesis or statement
//! terminator that is not the next token is silently tolerated rather
//! than reported, and parsing continues.  Parsing fails with
//! [`SyntaxError`] only where a primary expression is called for and the
//! next token is none of a number, an identifier or `(` — including at
//! the end of the input.
//!
//! The spec functions [`spec_program`] downwards state the same grammar
//! as recursive functions over token models; each parsing function
//! returns exactly the corresponding spec value.

use std::collections::VecDeque;
use vstd::prelude::*;

use crate::ast::{Node, NodeKind};
use crate::text::str_eq;
use crate::token::{Token, TokenKind, TokenModel, tokens_view};

verus! {

/// Parsing failed: a primary expression was expected and the next token
/// (or the end of the input) cannot start one.
#[derive(PartialEq, Eq, Debug)]
pub struct SyntaxError;

/// The variables seen so far, in order of first occurrence.  The offset
/// of the variable at index `i` is `8 * (i + 1)` bytes below the frame
/// base.
pub type VarsModel = Seq<Seq<char>>;

/// The index of the first entry of `vars` equal to `name`.
pub open spec fn spec_lookup(vars: VarsModel, name: Seq<char>) -> Option<int>
    decreases vars.len(),
{
    if vars.len() == 0 {
        None
    } else if vars[0] == name {
        Some(0)
    } else {
        match spec_lookup(vars.skip(1), name) {
            Some(i) => Some(i + 1),
            None => None,
        }
    }
}

/// Resolving a name: a known name keeps its offset, a new name is
/// appended and receives the next one.  Offsets are `8 * (index + 1)`,
/// so they form a bijection between first-occurrence order and the
/// increasing multiples of the word size.
pub open spec fn spec_resolve(vars: VarsModel, name: Seq<char>) -> (int, VarsModel) {
    match spec_lookup(vars, name) {
        Some(i) => (8 * (i + 1), vars),
        None => (8 * (vars.len() + 1) as int, vars.push(name)),
    }
}

/// Whether the next token's text is exactly `s`: the condition under
/// which the soft consumer advances.
pub open spec fn next_is(toks: Seq<TokenModel>, s: Seq<char>) -> bool {
    toks.len() > 0 && toks[0].text == s
}

/// What one grammar rule returns: the node it built, the tokens it left,
/// and the variables seen after it.
pub type ParseStep = Option<(Node, Seq<TokenModel>, VarsModel)>;

/// `primary = number | identifier | "(" expression ")"`.
pub open spec fn spec_primary(toks: Seq<TokenModel>, vars: VarsModel) -> ParseStep
    decreases toks.len(), 1int,
{
    if next_is(toks, "("@) {
        match spec_expr(toks.skip(1), vars) {
            Some((n, t1, v1)) => {
                let t2 = if next_is(t1, ")"@) {
                    t1.skip(1)
                } else {
                    t1
                };
                Some((n, t2, v1))
            },
            None => None,
        }
    } else if toks.len() > 0 && toks[0].kind is Ident {
        let r = spec_resolve(vars, toks[0].text);
        Some((Node::spec_var(r.0 as usize), toks.skip(1), r.1))
    } else if toks.len() > 0 && toks[0].val is Some {
        Some((Node::spec_num(toks[0].val->Some_0), toks.skip(1), vars))
    } else {
        None
    }
}

/// `unary = ("+" | "-")? primary`; `-x` desugars to `0 - x`.
pub open spec fn spec_unary(toks: Seq<TokenModel>, vars: VarsModel) -> ParseStep
    decreases toks.len(), 2int,
{
    if next_is(toks, "+"@) {
        spec_primary(toks.skip(1), vars)
    } else if next_is(toks, "-"@) {
        match spec_primary(toks.skip(1), vars) {
            Some((n, t1, v1)) => Some(
                (Node::spec_bin(NodeKind::Sub, Node::spec_num(0), n), t1, v1),
            ),
            None => None,
        }
    } else {
        spec_primary(toks, vars)
    }
}

/// The trailing `(("*" | "/") unary)*` of a multiplicative expression.
pub open spec fn spec_mul_rest(n: Node, toks: Seq<TokenModel>, vars: VarsModel) -> ParseStep
    decreases toks.len(), 3int,
{
    let op = if next_is(toks, "*"@) {
        Some(NodeKind::Mul)
    } else if next_is(toks, "/"@) {
        Some(NodeKind::Div)
    } else {
        None
    };
    match op {
        Some(kind) => match spec_unary(toks.skip(1), vars) {
            Some((rhs, t1, v1)) => {
                if t1.len() < toks.len() {
                    spec_mul_rest(Node::spec_bin(kind, n, rhs), t1, v1)
                } else {
                    // never reached: parsing consumes tokens
                    None
                }
            },
            None => None,
        },
        None => Some((n, toks, vars)),
    }
}

/// `multiplicative = unary (("*" | "/") unary)*`.
pub open spec fn spec_mul(toks: Seq<TokenModel>, vars: VarsModel) -> ParseStep
    decreases toks.len(), 4int,
{
    match spec_unary(toks, vars) {
        Some((n, t1, v1)) => {
            if t1.len() <= toks.len() {
                spec_mul_rest(n, t1, v1)
            } else {
                // never reached: parsing consumes tokens
                None
            }
        },
        None => None,
    }
}

/// The trailing `(("+" | "-") multiplicative)*` of an additive expression.
pub open spec fn spec_add_rest(n: Node, toks: Seq<TokenModel>, vars: VarsModel) -> ParseStep
    decreases toks.len(), 5int,
{
    let op = if next_is(toks, "+"@) {
        Some(NodeKind::Add)
    } else if next_is(toks, "-"@) {
        Some(NodeKind::Sub)
    } else {
        None
    };
    match op {
        Some(kind) => match spec_mul(toks.skip(1), vars) {
            Some((rhs, t1, v1)) => {
                if t1.len() < toks.len() {
                    spec_add_rest(Node::spec_bin(kind, n, rhs), t1, v1)
                } else {
                    // never reached: parsing consumes tokens
                    None
                }
            },
            None => None,
        },
        None => Some((n, toks, vars)),
    }
}

/// `additive = multiplicative (("+" | "-") multiplicative)*`.
pub open spec fn spec_add(toks: Seq<TokenModel>, vars: VarsModel) -> ParseStep
    decreases toks.len(), 6int,
{
    match spec_mul(toks, vars) {
        Some((n, t1, v1)) => {
            if t1.len() <= toks.len() {
                spec_add_rest(n, t1, v1)
            } else {
                // never reached: parsing consumes tokens
                None
            }
        },
        None => None,
    }
}

/// The trailing comparison chain of a relational expression.  `<` and
/// `<=` keep their operand order; `>` and `>=` swap it and build
/// `Lt`/`Lte`, so no greater-than node exists.
pub open spec fn spec_relational_rest(n: Node, toks: Seq<TokenModel>, vars: VarsModel) -> ParseStep
    decreases toks.len(), 7int,
{
    // (kind, swapped): the node kind and whether the new operand stands
    // on the left.  The two-character symbols are tested first, as the
    // lexer's longest-match rule produces them.
    let op = if next_is(toks, "<="@) {
        Some((NodeKind::Lte, false))
    } else if next_is(toks, ">="@) {
        Some((NodeKind::Lte, true))
    } else if next_is(toks, "<"@) {
        Some((NodeKind::Lt, false))
    } else if next_is(toks, ">"@) {
        Some((NodeKind::Lt, true))
    } else {
        None
    };
    match op {
        Some((kind, swapped)) => match spec_add(toks.skip(1), vars) {
            Some((rhs, t1, v1)) => {
                if t1.len() < toks.len() {
                    let node = if swapped {
                        Node::spec_bin(kind, rhs, n)
                    } else {
                        Node::spec_bin(kind, n, rhs)
                    };
                    spec_relational_rest(node, t1, v1)
                } else {
                    // never reached: parsing consumes tokens
                    None
                }
            },
            None => None,
        },
        None => Some((n, toks, vars)),
    }
}

/// `relational = additive (("<" | "<=" | ">" | ">=") additive)*`.
pub open spec fn spec_relational(toks: Seq<TokenModel>, vars: VarsModel) -> ParseStep
    decreases toks.len(), 8int,
{
    match spec_add(toks, vars) {
        Some((n, t1, v1)) => {
            if t1.len() <= toks.len() {
                spec_relational_rest(n, t1, v1)
            } else {
                // never reached: parsing consumes tokens
                None
            }
        },
        None => None,
    }
}

/// The trailing `(("==" | "!=") relational)*` of an equality expression.
pub open spec fn spec_equality_rest(n: Node, toks: Seq<TokenModel>, vars: VarsModel) -> ParseStep
    decreases toks.len(), 9int,
{
    let op = if next_is(toks, "=="@) {
        Some(NodeKind::Eq)
    } else if next_is(toks, "!="@) {
        Some(NodeKind::Neq)
    } else {
        None
    };
    match op {
        Some(kind) => match spec_relational(toks.skip(1), vars) {
            Some((rhs, t1, v1)) => {
                if t1.len() < toks.len() {
                    spec_equality_rest(Node::spec_bin(kind, n, rhs), t1, v1)
                } else {
                    // never reached: parsing consumes tokens
                    None
                }
            },
            None => None,
        },
        None => Some((n, toks, vars)),
    }
}

/// `equality = relational (("==" | "!=") relational)*`.
pub open spec fn spec_equality(toks: Seq<TokenModel>, vars: VarsModel) -> ParseStep
    decreases toks.len(), 10int,
{
    match spec_relational(toks, vars) {
        Some((n, t1, v1)) => {
            if t1.len() <= toks.len() {
                spec_equality_rest(n, t1, v1)
            } else {
                // never reached: parsing consumes tokens
                None
            }
        },
        None => None,
    }
}

/// `assignment = equality ("=" assignment)?`, right-associative: the
/// value of an assignment is itself assignable.
pub open spec fn spec_assign(toks: Seq<TokenModel>, vars: VarsModel) -> ParseStep
    decreases toks.len(), 11int,
{
    match spec_equality(toks, vars) {
        Some((n, t1, v1)) => {
            if t1.len() <= toks.len() {
                if next_is(t1, "="@) {
                    match spec_assign(t1.skip(1), v1) {
                        Some((rhs, t2, v2)) => Some(
                            (Node::spec_bin(NodeKind::Assign, n, rhs), t2, v2),
                        ),
                        None => None,
                    }
                } else {
                    Some((n, t1, v1))
                }
            } else {
                // never reached: parsing consumes tokens
                None
            }
        },
        None => None,
    }
}

/// `expression = assignment`.
pub open spec fn spec_expr(toks: Seq<TokenModel>, vars: VarsModel) -> ParseStep
    decreases toks.len(), 12int,
{
    spec_assign(toks, vars)
}

/// `statement = expression ";"`, the terminator consumed softly.
pub open spec fn spec_stmt(toks: Seq<TokenModel>, vars: VarsModel) -> ParseStep
    decreases toks.len(), 13int,
{
    match spec_expr(toks, vars) {
        Some((n, t1, v1)) => {
            let t2 = if next_is(t1, ";"@) {
                t1.skip(1)
            } else {
                t1
            };
            Some((n, t2, v1))
        },
        None => None,
    }
}

/// The statements of `program = statement*`, gathered onto `acc`: one
/// statement is parsed first, then more until no token remains.
pub open spec fn spec_program_rest(acc: Seq<Node>, toks: Seq<TokenModel>, vars: VarsModel)
    -> Option<(Seq<Node>, VarsModel)>
    decreases toks.len(), 14int,
{
    match spec_stmt(toks, vars) {
        Some((n, t1, v1)) => {
            if t1.len() == 0 {
                Some((acc.push(n), v1))
            } else if t1.len() < toks.len() {
                spec_program_rest(acc.push(n), t1, v1)
            } else {
                // never reached: parsing consumes tokens
                None
            }
        },
        None => None,
    }
}

/// The whole program: its statement ASTs in order and the count of
/// distinct variables.  Parsing starts with no variables and always
/// parses at least one statement, so an empty token sequence fails.
pub open spec fn spec_program(toks: Seq<TokenModel>) -> Option<(Seq<Node>, nat)> {
    match spec_program_rest(Seq::empty(), toks, Seq::empty()) {
        Some((nodes, vars)) => Some((nodes, vars.len())),
        None => None,
    }
}

/// How an executable grammar rule relates to its spec value: on success
/// the node, the remaining tokens and the variables are exactly the
/// spec's; failure happens exactly where the spec is `None`.
pub open spec fn step_matches(
    r: Result<Node, SyntaxError>,
    step: ParseStep,
    toks_after: Seq<TokenModel>,
    vars_after: VarsModel,
) -> bool {
    match r {
        Ok(n) => step matches Some((sn, st, sv)) && n == sn && toks_after == st && vars_after
            == sv,
        Err(_) => step is None,
    }
}

/// Dropping the front token drops the front model of the view.
proof fn lemma_tokens_view_skip(ts: Seq<Token>)
    requires
        ts.len() > 0,
    ensures
        tokens_view(ts.subrange(1, ts.len() as int)) == tokens_view(ts).skip(1),
{
    assert(tokens_view(ts.subrange(1, ts.len() as int)) =~= tokens_view(ts).skip(1));
}

/// Advances past the next token when its text is exactly `s`; otherwise
/// leaves the sequence alone and reports so.  Absence of an expected
/// token is thereby tolerated silently: the caller goes on unchanged.
fn consume(tokens: &mut VecDeque<Token>, s: &str) -> (b: bool)
    ensures
        b == next_is(tokens_view(old(tokens)@), s@),
        b ==> tokens_view(final(tokens)@) == tokens_view(old(tokens)@).skip(1)
            && final(tokens)@.len() == old(tokens)@.len() - 1,
        !b ==> *final(tokens) == *old(tokens),
{
    if tokens.len() > 0 && str_eq(tokens[0].string.as_str(), s) {
        tokens.pop_front();
        proof {
            lemma_tokens_view_skip(old(tokens)@);
        }
        true
    } else {
        false
    }
}

/// Takes the next token when it is an identifier; otherwise leaves the
/// sequence alone.
fn consume_ident(tokens: &mut VecDeque<Token>) -> (r: Option<Token>)
    ensures
        match r {
            Some(t) => old(tokens)@.len() > 0 && old(tokens)@[0]@.kind is Ident
                && t == old(tokens)@[0]
                && tokens_view(final(tokens)@) == tokens_view(old(tokens)@).skip(1)
                && final(tokens)@.len() == old(tokens)@.len() - 1,
            None => (old(tokens)@.len() == 0 || !(old(tokens)@[0]@.kind is Ident))
                && *final(tokens) == *old(tokens),
        },
{
    if tokens.len() > 0 && matches!(tokens[0].kind, TokenKind::Ident) {
        let t = tokens.pop_front();
        proof {
            lemma_tokens_view_skip(old(tokens)@);
        }
        t
    } else {
        None
    }
}

/// A name found at `i`, with none equal before it, is the one
/// [`spec_lookup`] returns.
proof fn lemma_lookup_found(vars: VarsModel, name: Seq<char>, i: int)
    requires
        0 <= i < vars.len(),
        vars[i] == name,
        forall|j: int| 0 <= j < i ==> vars[j] != name,
    ensures
        spec_lookup(vars, name) == Some(i),
    decreases vars.len(),
{
    if i > 0 {
        lemma_lookup_found(vars.skip(1), name, i - 1);
    }
}

/// A name equal to no entry is not looked up.
proof fn lemma_lookup_none(vars: VarsModel, name: Seq<char>)
    requires
        forall|j: int| 0 <= j < vars.len() ==> vars[j] != name,
    ensures
        spec_lookup(vars, name) is None,
    decreases vars.len(),
{
    if vars.len() > 0 {
        lemma_lookup_none(vars.skip(1), name);
    }
}

/// The storage offset of `name`: the one it already has, or the next
/// free one, the name then recorded.  Exactly [`spec_resolve`].
fn resolve(locals: &mut Vec<String>, name: String) -> (off: usize)
    requires
        8 * (old(locals)@.len() + 1) <= usize::MAX,
    ensures
        ({
            let r = spec_resolve(old(locals).deep_view(), name@);
            off as int == r.0 && final(locals).deep_view() == r.1
        }),
        final(locals)@.len() <= old(locals)@.len() + 1,
{
    let n = locals.len();
    let mut i: usize = 0;
    while i < n
        invariant
            i <= n,
            n == locals@.len(),
            8 * (n + 1) <= usize::MAX,
            forall|j: int| 0 <= j < i ==> locals.deep_view()[j] != name@,
        decreases n - i,
    {
        if str_eq(locals[i].as_str(), name.as_str()) {
            proof {
                lemma_lookup_found(locals.deep_view(), name@, i as int);
            }
            return 8 * (i + 1);
        }
        i = i + 1;
    }
    proof {
        lemma_lookup_none(locals.deep_view(), name@);
    }
    locals.push(name);
    proof {
        assert(final(locals).deep_view() =~= old(locals).deep_view().push(name@));
    }
    8 * locals.len()
}

/// `primary`: a parenthesised expression, a variable, or a number.
/// Anything else — the end of the input included — is the syntax error.
fn primary(tokens: &mut VecDeque<Token>, locals: &mut Vec<String>) -> (r: Result<
    Node,
    SyntaxError,
>)
    requires
        8 * (old(locals)@.len() + old(tokens)@.len()) + 8 <= usize::MAX,
    ensures
        step_matches(
            r,
            spec_primary(tokens_view(old(tokens)@), old(locals).deep_view()),
            tokens_view(final(tokens)@),
            final(locals).deep_view(),
        ),
        final(tokens)@.len() <= old(tokens)@.len(),
        final(locals)@.len() + final(tokens)@.len() <= old(locals)@.len() + old(tokens)@.len(),
        r is Ok ==> final(tokens)@.len() < old(tokens)@.len(),
    decreases tokens@.len(), 1int,
{
    if consume(tokens, "(") {
        match expr(tokens, locals) {
            Ok(n) => {
                consume(tokens, ")");
                Ok(n)
            },
            Err(e) => Err(e),
        }
    } else if let Some(t) = consume_ident(tokens) {
        let off = resolve(locals, t.string);
        Ok(Node { kind: NodeKind::LocalVar { offset: off }, lhs: None, rhs: None })
    } else {
        match tokens.pop_front() {
            Some(t) => {
                proof {
                    lemma_tokens_view_skip(old(tokens)@);
                }
                match t.val {
                    Some(v) => Ok(Node { kind: NodeKind::Num { value: v }, lhs: None, rhs: None }),
                    None => Err(SyntaxError),
                }
            },
            None => Err(SyntaxError),
        }
    }
}

/// `unary`: a leading `+` is a no-op, a leading `-` subtracts the operand
/// from zero.
fn unary(tokens: &mut VecDeque<Token>, locals: &mut Vec<String>) -> (r: Result<Node, SyntaxError>)
    requires
        8 * (old(locals)@.len() + old(tokens)@.len()) + 8 <= usize::MAX,
    ensures
        step_matches(
            r,
            spec_unary(tokens_view(old(tokens)@), old(locals).deep_view()),
            tokens_view(final(tokens)@),
            final(locals).deep_view(),
        ),
        final(tokens)@.len() <= old(tokens)@.len(),
        final(locals)@.len() + final(tokens)@.len() <= old(locals)@.len() + old(tokens)@.len(),
        r is Ok ==> final(tokens)@.len() < old(tokens)@.len(),
    decreases tokens@.len(), 2int,
{
    if consume(tokens, "+") {
        primary(tokens, locals)
    } else if consume(tokens, "-") {
        match primary(tokens, locals) {
            Ok(n) => Ok(
                Node {
                    kind: NodeKind::Sub,
                    lhs: Some(
                        Box::new(Node { kind: NodeKind::Num { value: 0 }, lhs: None, rhs: None }),
                    ),
                    rhs: Some(Box::new(n)),
                },
            ),
            Err(e) => Err(e),
        }
    } else {
        primary(tokens, locals)
    }
}

/// `multiplicative`: a unary operand, then any run of `*` or `/` with
/// further unary operands, folded to the left.
fn mul(tokens: &mut VecDeque<Token>, locals: &mut Vec<String>) -> (r: Result<Node, SyntaxError>)
    requires
        8 * (old(locals)@.len() + old(tokens)@.len()) + 8 <= usize::MAX,
    ensures
        step_matches(
            r,
            spec_mul(tokens_view(old(tokens)@), old(locals).deep_view()),
            tokens_view(final(tokens)@),
            final(locals).deep_view(),
        ),
        final(tokens)@.len() <= old(tokens)@.len(),
        final(locals)@.len() + final(tokens)@.len() <= old(locals)@.len() + old(tokens)@.len(),
        r is Ok ==> final(tokens)@.len() < old(tokens)@.len(),
    decreases tokens@.len(), 4int,
{
    let ghost toks0 = tokens_view(tokens@);
    let ghost vars0 = locals.deep_view();
    let mut node = match unary(tokens, locals) {
        Ok(n) => n,
        Err(e) => { return Err(e) },
    };
    loop
        invariant
            8 * (locals@.len() + tokens@.len()) + 8 <= usize::MAX,
            tokens@.len() < toks0.len(),
            locals@.len() + tokens@.len() <= vars0.len() + toks0.len(),
            toks0 == tokens_view(old(tokens)@),
            vars0 == old(locals).deep_view(),
            spec_mul(toks0, vars0) == spec_mul_rest(
                node,
                tokens_view(tokens@),
                locals.deep_view(),
            ),
        ensures
            spec_mul(toks0, vars0) == Some((node, tokens_view(tokens@), locals.deep_view())),
            tokens@.len() < toks0.len(),
            locals@.len() + tokens@.len() <= vars0.len() + toks0.len(),
        decreases tokens@.len(),
    {
        let is_mul = consume(tokens, "*");
        let is_div = if is_mul {
            false
        } else {
            consume(tokens, "/")
        };
        if !is_mul && !is_div {
            break;
        }
        match unary(tokens, locals) {
            Ok(rhs) => {
                let kind = if is_mul {
                    NodeKind::Mul
                } else {
                    NodeKind::Div
                };
                node = Node { kind, lhs: Some(Box::new(node)), rhs: Some(Box::new(rhs)) };
            },
            Err(e) => { return Err(e) },
        }
    }
    Ok(node)
}

/// `additive`: a multiplicative operand, then any run of `+` or `-`,
/// folded to the left.
fn add(tokens: &mut VecDeque<Token>, locals: &mut Vec<String>) -> (r: Result<Node, SyntaxError>)
    requires
        8 * (old(locals)@.len() + old(tokens)@.len()) + 8 <= usize::MAX,
    ensures
        step_matches(
            r,
            spec_add(tokens_view(old(tokens)@), old(locals).deep_view()),
            tokens_view(final(tokens)@),
            final(locals).deep_view(),
        ),
        final(tokens)@.len() <= old(tokens)@.len(),
        final(locals)@.len() + final(tokens)@.len() <= old(locals)@.len() + old(tokens)@.len(),
        r is Ok ==> final(tokens)@.len() < old(tokens)@.len(),
    decreases tokens@.len(), 6int,
{
    let ghost toks0 = tokens_view(tokens@);
    let ghost vars0 = locals.deep_view();
    let mut node = match self::mul(tokens, locals) {
        Ok(n) => n,
        Err(e) => { return Err(e) },
    };
    loop
        invariant
            8 * (locals@.len() + tokens@.len()) + 8 <= usize::MAX,
            tokens@.len() < toks0.len(),
            locals@.len() + tokens@.len() <= vars0.len() + toks0.len(),
            toks0 == tokens_view(old(tokens)@),
            vars0 == old(locals).deep_view(),
            spec_add(toks0, vars0) == spec_add_rest(
                node,
                tokens_view(tokens@),
                locals.deep_view(),
            ),
        ensures
            spec_add(toks0, vars0) == Some((node, tokens_view(tokens@), locals.deep_view())),
            tokens@.len() < toks0.len(),
            locals@.len() + tokens@.len() <= vars0.len() + toks0.len(),
        decreases tokens@.len(),
    {
        let is_add = consume(tokens, "+");
        let is_sub = if is_add {
            false
        } else {
            consume(tokens, "-")
        };
        if !is_add && !is_sub {
            break;
        }
        match self::mul(tokens, locals) {
            Ok(rhs) => {
                let kind = if is_add {
                    NodeKind::Add
                } else {
                    NodeKind::Sub
                };
                node = Node { kind, lhs: Some(Box::new(node)), rhs: Some(Box::new(rhs)) };
            },
            Err(e) => { return Err(e) },
        }
    }
    Ok(node)
}

/// `relational`: an additive operand, then any run of comparisons, folded
/// to the left.  `>` and `>=` swap their operands and build `Lt`/`Lte`.
/// The two-character symbols are tested first, mirroring the lexer's
/// longest-match rule.
fn relational(tokens: &mut VecDeque<Token>, locals: &mut Vec<String>) -> (r: Result<
    Node,
    SyntaxError,
>)
    requires
        8 * (old(locals)@.len() + old(tokens)@.len()) + 8 <= usize::MAX,
    ensures
        step_matches(
            r,
            spec_relational(tokens_view(old(tokens)@), old(locals).deep_view()),
            tokens_view(final(tokens)@),
            final(locals).deep_view(),
        ),
        final(tokens)@.len() <= old(tokens)@.len(),
        final(locals)@.len() + final(tokens)@.len() <= old(locals)@.len() + old(tokens)@.len(),
        r is Ok ==> final(tokens)@.len() < old(tokens)@.len(),
    decreases tokens@.len(), 8int,
{
    let ghost toks0 = tokens_view(tokens@);
    let ghost vars0 = locals.deep_view();
    let mut node = match self::add(tokens, locals) {
        Ok(n) => n,
        Err(e) => { return Err(e) },
    };
    loop
        invariant
            8 * (locals@.len() + tokens@.len()) + 8 <= usize::MAX,
            tokens@.len() < toks0.len(),
            locals@.len() + tokens@.len() <= vars0.len() + toks0.len(),
            toks0 == tokens_view(old(tokens)@),
            vars0 == old(locals).deep_view(),
            spec_relational(toks0, vars0) == spec_relational_rest(
                node,
                tokens_view(tokens@),
                locals.deep_view(),
            ),
        ensures
            spec_relational(toks0, vars0) == Some(
                (node, tokens_view(tokens@), locals.deep_view()),
            ),
            tokens@.len() < toks0.len(),
            locals@.len() + tokens@.len() <= vars0.len() + toks0.len(),
        decreases tokens@.len(),
    {
        let is_lte = consume(tokens, "<=");
        let is_gte = if is_lte {
            false
        } else {
            consume(tokens, ">=")
        };
        let is_lt = if is_lte || is_gte {
            false
        } else {
            consume(tokens, "<")
        };
        let is_gt = if is_lte || is_gte || is_lt {
            false
        } else {
            consume(tokens, ">")
        };
        if !is_lte && !is_gte && !is_lt && !is_gt {
            break;
        }
        match self::add(tokens, locals) {
            Ok(rhs) => {
                let kind = if is_lte || is_gte {
                    NodeKind::Lte
                } else {
                    NodeKind::Lt
                };
                let swapped = is_gte || is_gt;
                node = if swapped {
                    Node { kind, lhs: Some(Box::new(rhs)), rhs: Some(Box::new(node)) }
                } else {
                    Node { kind, lhs: Some(Box::new(node)), rhs: Some(Box::new(rhs)) }
                };
            },
            Err(e) => { return Err(e) },
        }
    }
    Ok(node)
}

/// `equality`: a relational operand, then any run of `==` or `!=`, folded
/// to the left.
fn equality(tokens: &mut VecDeque<Token>, locals: &mut Vec<String>) -> (r: Result<
    Node,
    SyntaxError,
>)
    requires
        8 * (old(locals)@.len() + old(tokens)@.len()) + 8 <= usize::MAX,
    ensures
        step_matches(
            r,
            spec_equality(tokens_view(old(tokens)@), old(locals).deep_view()),
            tokens_view(final(tokens)@),
            final(locals).deep_view(),
        ),
        final(tokens)@.len() <= old(tokens)@.len(),
        final(locals)@.len() + final(tokens)@.len() <= old(locals)@.len() + old(tokens)@.len(),
        r is Ok ==> final(tokens)@.len() < old(tokens)@.len(),
    decreases tokens@.len(), 10int,
{
    let ghost toks0 = tokens_view(tokens@);
    let ghost vars0 = locals.deep_view();
    let mut node = match relational(tokens, locals) {
        Ok(n) => n,
        Err(e) => { return Err(e) },
    };
    loop
        invariant
            8 * (locals@.len() + tokens@.len()) + 8 <= usize::MAX,
            tokens@.len() < toks0.len(),
            locals@.len() + tokens@.len() <= vars0.len() + toks0.len(),
            toks0 == tokens_view(old(tokens)@),
            vars0 == old(locals).deep_view(),
            spec_equality(toks0, vars0) == spec_equality_rest(
                node,
                tokens_view(tokens@),
                locals.deep_view(),
            ),
        ensures
            spec_equality(toks0, vars0) == Some((node, tokens_view(tokens@), locals.deep_view())),
            tokens@.len() < toks0.len(),
            locals@.len() + tokens@.len() <= vars0.len() + toks0.len(),
        decreases tokens@.len(),
    {
        let is_eq = consume(tokens, "==");
        let is_neq = if is_eq {
            false
        } else {
            consume(tokens, "!=")
        };
        if !is_eq && !is_neq {
            break;
        }
        match relational(tokens, locals) {
            Ok(rhs) => {
                let kind = if is_eq {
                    NodeKind::Eq
                } else {
                    NodeKind::Neq
                };
                node = Node { kind, lhs: Some(Box::new(node)), rhs: Some(Box::new(rhs)) };
            },
            Err(e) => { return Err(e) },
        }
    }
    Ok(node)
}

/// `assignment`: right-associative, so `a = b = c` assigns `c` to `b` and
/// the result to `a`.
fn assign(tokens: &mut VecDeque<Token>, locals: &mut Vec<String>) -> (r: Result<Node, SyntaxError>)
    requires
        8 * (old(locals)@.len() + old(tokens)@.len()) + 8 <= usize::MAX,
    ensures
        step_matches(
            r,
            spec_assign(tokens_view(old(tokens)@), old(locals).deep_view()),
            tokens_view(final(tokens)@),
            final(locals).deep_view(),
        ),
        final(tokens)@.len() <= old(tokens)@.len(),
        final(locals)@.len() + final(tokens)@.len() <= old(locals)@.len() + old(tokens)@.len(),
        r is Ok ==> final(tokens)@.len() < old(tokens)@.len(),
    decreases tokens@.len(), 11int,
{
    let node = match equality(tokens, locals) {
        Ok(n) => n,
        Err(e) => { return Err(e) },
    };
    if consume(tokens, "=") {
        match assign(tokens, locals) {
            Ok(rhs) => Ok(
                Node {
                    kind: NodeKind::Assign,
                    lhs: Some(Box::new(node)),
                    rhs: Some(Box::new(rhs)),
                },
            ),
            Err(e) => Err(e),
        }
    } else {
        Ok(node)
    }
}

/// `expression = assignment`.
fn expr(tokens: &mut VecDeque<Token>, locals: &mut Vec<String>) -> (r: Result<Node, SyntaxError>)
    requires
        8 * (old(locals)@.len() + old(tokens)@.len()) + 8 <= usize::MAX,
    ensures
        step_matches(
            r,
            spec_expr(tokens_view(old(tokens)@), old(locals).deep_view()),
            tokens_view(final(tokens)@),
            final(locals).deep_view(),
        ),
        final(tokens)@.len() <= old(tokens)@.len(),
        final(locals)@.len() + final(tokens)@.len() <= old(locals)@.len() + old(tokens)@.len(),
        r is Ok ==> final(tokens)@.len() < old(tokens)@.len(),
    decreases tokens@.len(), 12int,
{
    assign(tokens, locals)
}

/// `statement = expression ";"`, the terminator consumed softly.
fn stmt(tokens: &mut VecDeque<Token>, locals: &mut Vec<String>) -> (r: Result<Node, SyntaxError>)
    requires
        8 * (old(locals)@.len() + old(tokens)@.len()) + 8 <= usize::MAX,
    ensures
        step_matches(
            r,
            spec_stmt(tokens_view(old(tokens)@), old(locals).deep_view()),
            tokens_view(final(tokens)@),
            final(locals).deep_view(),
        ),
        final(tokens)@.len() <= old(tokens)@.len(),
        final(locals)@.len() + final(tokens)@.len() <= old(locals)@.len() + old(tokens)@.len(),
        r is Ok ==> final(tokens)@.len() < old(tokens)@.len(),
    decreases tokens@.len(), 13int,
{
    match expr(tokens, locals) {
        Ok(n) => {
            consume(tokens, ";");
            Ok(n)
        },
        Err(e) => Err(e),
    }
}

/// Parses the whole token sequence into one AST per statement and the
/// count of distinct variables, which sizes the storage frame.  Returns
/// exactly the value of [`spec_program`] on the tokens: their statement
/// trees when every statement parses, and the syntax error otherwise.
/// The tokens are consumed destructively, front to back.
pub fn program(tokens: &mut VecDeque<Token>) -> (r: Result<(Vec<Node>, usize), SyntaxError>)
    requires
        8 * old(tokens)@.len() + 8 <= usize::MAX,
    ensures
        match r {
            Ok(p) => spec_program(tokens_view(old(tokens)@)) == Some((p.0@, p.1 as nat)),
            Err(_) => spec_program(tokens_view(old(tokens)@)) is None,
        },
{
    let ghost toks0 = tokens_view(tokens@);
    let mut nodes: Vec<Node> = Vec::new();
    let mut locals: Vec<String> = Vec::new();
    proof {
        assert(nodes@ =~= Seq::<Node>::empty());
        assert(locals.deep_view() =~= Seq::<Seq<char>>::empty());
    }
    loop
        invariant_except_break
            spec_program_rest(Seq::empty(), toks0, Seq::empty()) == spec_program_rest(
                nodes@,
                tokens_view(tokens@),
                locals.deep_view(),
            ),
        invariant
            8 * (locals@.len() + tokens@.len()) + 8 <= usize::MAX,
            locals@.len() + tokens@.len() <= toks0.len(),
            toks0 == tokens_view(old(tokens)@),
        ensures
            spec_program_rest(Seq::empty(), toks0, Seq::empty()) == Some(
                (nodes@, locals.deep_view()),
            ),
        decreases tokens@.len(),
    {
        match stmt(tokens, &mut locals) {
            Ok(n) => {
                nodes.push(n);
                if tokens.len() == 0 {
                    proof {
                        assert(tokens_view(tokens@) =~= Seq::<TokenModel>::empty());
                    }
                    break;
                }
            },
            Err(e) => { return Err(e) },
        }
    }
    proof {
        assert(locals.deep_view().len() == locals@.len());
    }
    Ok((nodes, locals.len()))
}

} // verus!
