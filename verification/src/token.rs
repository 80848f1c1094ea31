//! Lexical tokens.
//!
//! A token is produced once by the lexer, in source order, and carries its
//! kind, the numeric value of a number token, and the exact matched text.

use vstd::prelude::*;

verus! {

/// The three classes of token the lexer produces.
#[derive(PartialEq, Eq, Debug, Clone, Copy)]
pub enum TokenKind {
    /// A registered symbol such as `+` or `<=`.
    Reserved,
    /// A numeric literal.
    Num,
    /// A variable name: a run of lowercase letters.
    Ident,
}

/// One lexical token: its kind, the value of a numeric literal, and the
/// exact text the lexer matched.
#[derive(PartialEq, Debug)]
pub struct Token {
    pub kind: TokenKind,
    pub val: Option<i64>,
    pub string: String,
}

/// The mathematical content of a [`Token`]: the same fields with the text
/// as a sequence of characters.
pub ghost struct TokenModel {
    pub kind: TokenKind,
    pub val: Option<i64>,
    pub text: Seq<char>,
}

impl View for Token {
    type V = TokenModel;

    open spec fn view(&self) -> TokenModel {
        TokenModel { kind: self.kind, val: self.val, text: self.string@ }
    }
}

impl Token {
    /// Builds a token from its parts.
    pub fn new(kind: TokenKind, val: Option<i64>, s: String) -> (t: Token)
        ensures
            t@ == (TokenModel { kind, val, text: s@ }),
    {
        Token { kind, val, string: s }
    }
}

/// The models of a sequence of tokens, in order.
pub open spec fn tokens_view(ts: Seq<Token>) -> Seq<TokenModel> {
    ts.map_values(|t: Token| t@)
}

} // verus!
