use vstd::prelude::*;
use crate::error::{RunError, error_text};
use crate::token::{Token, TokenType, tokens_wf};
use crate::text::{push_str, str_eq};

verus! {

/// A cursor over a token sequence that can move both ways. It never moves
/// past the final end-of-input marker.
pub struct Traveler {
    pub tokens: Vec<Token>,
    pub top: usize,
}

impl Traveler {
    /// The cursor is on a token of a well-formed sequence.
    pub open spec fn wf(&self) -> bool {
        tokens_wf(self.tokens@) && self.top < self.tokens@.len()
    }

    /// The number of tokens from the cursor on, the marker included.
    pub open spec fn left(&self) -> int {
        self.tokens@.len() - self.top
    }

    /// The token under the cursor.
    pub open spec fn here(&self) -> Token {
        self.tokens@[self.top as int]
    }

    pub fn new(tokens: Vec<Token>) -> (r: Traveler)
        ensures
            r.tokens@ == tokens@,
            r.top == 0,
    {
        Traveler { tokens, top: 0 }
    }

    /// Steps forward unless the cursor is on the last token; says whether it moved.
    pub fn next(&mut self) -> (r: bool)
        requires
            old(self).wf(),
        ensures
            final(self).wf(),
            final(self).tokens@ == old(self).tokens@,
            r == (old(self).top + 1 < old(self).tokens@.len()),
            r ==> final(self).top == old(self).top + 1,
            !r ==> final(self).top == old(self).top,
    {
        if self.top < self.tokens.len() - 1 {
            self.top = self.top + 1;
            true
        } else {
            false
        }
    }

    /// Steps back unless the cursor is on the first token; says whether it moved.
    pub fn prev(&mut self) -> (r: bool)
        requires
            old(self).wf(),
        ensures
            final(self).wf(),
            final(self).tokens@ == old(self).tokens@,
            r == (old(self).top > 0),
            r ==> final(self).top == old(self).top - 1,
            !r ==> final(self).top == old(self).top,
    {
        if self.top > 0 {
            self.top = self.top - 1;
            true
        } else {
            false
        }
    }

    /// The number of tokens from the cursor on, the marker included.
    pub fn remaining(&self) -> (r: usize)
        requires
            self.wf(),
        ensures
            r == self.left(),
    {
        self.tokens.len() - self.top
    }

    /// The token under the cursor.
    pub fn current(&self) -> (r: &Token)
        requires
            self.wf(),
        ensures
            *r == self.here(),
    {
        &self.tokens[self.top]
    }

    /// The text of the token under the cursor.
    pub fn current_content(&self) -> (r: String)
        requires
            self.wf(),
        ensures
            r@ == self.here().content@,
    {
        self.tokens[self.top].content.clone()
    }

    /// Whether the token under the cursor has exactly this text.
    pub fn at(&self, text: &str) -> (r: bool)
        requires
            self.wf(),
        ensures
            r == (self.here().content@ == text@),
    {
        str_eq(self.tokens[self.top].content.as_str(), text)
    }

    /// The kind of the token under the cursor.
    pub fn kind(&self) -> (r: TokenType)
        requires
            self.wf(),
        ensures
            r == self.here().token_type,
    {
        self.tokens[self.top].token_type
    }

    /// Succeeds when the token under the cursor has this text; else an error
    /// at its position.
    pub fn expect_content(&self, text: &str) -> (r: Result<(), RunError>)
        requires
            self.wf(),
        ensures
            r is Ok <==> self.here().content@ == text@,
            r is Err ==> r->Err_0.position == Some(self.here().position),
            r is Err ==> error_text(r->Err_0) == "expected '"@ + text@ + "', found: "@
                + self.here().content@,
    {
        if self.at(text) {
            Ok(())
        } else {
            let mut msg = String::new();
            push_str(&mut msg, "expected '");
            push_str(&mut msg, text);
            push_str(&mut msg, "', found: ");
            push_str(&mut msg, self.tokens[self.top].content.as_str());
            Err(RunError::from_message(msg, Some(self.tokens[self.top].position)))
        }
    }
}

} // verus!
