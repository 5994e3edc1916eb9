use vstd::prelude::*;
use crate::ast::{type_keyword, operand_of};
use crate::number::decimal_of;

verus! {

/// The kind of a lexical token.
#[derive(Clone, Copy, Debug, PartialEq, Eq, Structural)]
pub enum TokenType {
    Identifier,
    IntLiteral,
    FloatLiteral,
    StringLiteral,
    BoolLiteral,
    Type,
    Symbol,
    Operator,
    EOL,
}

/// Where a token starts in the source text: line and column, both from 1.
#[derive(Clone, Copy, Debug, PartialEq, Eq, Structural)]
pub struct TokenPosition {
    pub line: usize,
    pub col: usize,
}

/// A token: its kind, its text and where it starts.
#[derive(Debug, PartialEq)]
pub struct Token {
    pub token_type: TokenType,
    pub content: String,
    pub position: TokenPosition,
}

/// A token's text fits its kind: a number literal reads as a number, a
/// type keyword names a type, an operator is one of the operators.
pub open spec fn token_ok(t: Token) -> bool {
    match t.token_type {
        TokenType::IntLiteral | TokenType::FloatLiteral => decimal_of(t.content@) is Some,
        TokenType::Type => type_keyword(t.content@) is Some,
        TokenType::Operator => operand_of(t.content@) is Some,
        _ => true,
    }
}

/// A token sequence as the lexer makes it: every token fits its kind, and
/// the last one is the end-of-input marker.
pub open spec fn tokens_wf(ts: Seq<Token>) -> bool {
    &&& ts.len() >= 1
    &&& ts.last().token_type == TokenType::EOL
    &&& ts.last().content@.len() == 0
    &&& forall|i: int| 0 <= i < ts.len() ==> #[trigger] token_ok(ts[i])
}

impl TokenPosition {
    pub fn new(line: usize, col: usize) -> (r: TokenPosition)
        ensures
            r.line == line,
            r.col == col,
    {
        TokenPosition { line, col }
    }
}

impl Token {
    pub fn new(token_type: TokenType, content: String, position: TokenPosition) -> (r: Token)
        ensures
            r.token_type == token_type,
            r.content@ == content@,
            r.position == position,
    {
        Token { token_type, content, position }
    }

    /// A copy of the token.
    pub fn copy(&self) -> (r: Token)
        ensures
            r.token_type == self.token_type,
            r.content@ == self.content@,
            r.position == self.position,
    {
        Token { token_type: self.token_type, content: self.content.clone(), position: self.position }
    }
}

} // verus!
