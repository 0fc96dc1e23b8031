//! A cursor over a token stream: the shell of a recursive-descent parser.

use vstd::prelude::*;

use crate::token::Token;
use crate::token::TokenType;

verus! {

/// A token stream with a cursor.
pub struct Parser {
    pub tokens: Vec<Token>,
    pub current: usize,
}

impl Parser {
    /// A parser standing at the start of the given token stream.
    pub fn new(tokens: Vec<Token>) -> (p: Parser)
        ensures
            p.tokens == tokens,
            p.current == 0,
    {
        Parser { tokens, current: 0 }
    }

    /// Whether the cursor stands on the end-of-input token.
    #[allow(non_snake_case)]
    pub fn isAtEnd(self) -> (r: bool)
        requires
            self.current < self.tokens@.len(),
        ensures
            r == (self.tokens@[self.current as int].token@ is Eof),
    {
        match self.peek() {
            TokenType::EOF => true,
            _ => false,
        }
    }

    /// The token type under the cursor.
    pub fn peek(&self) -> (t: &TokenType)
        requires
            self.current < self.tokens@.len(),
        ensures
            *t == self.tokens@[self.current as int].token,
    {
        &self.tokens[self.current].token
    }

    /// The token type just before the cursor.
    pub fn previous(&self) -> (t: &TokenType)
        requires
            1 <= self.current,
            self.current - 1 < self.tokens@.len(),
        ensures
            *t == self.tokens@[self.current - 1].token,
    {
        &self.tokens[self.current - 1].token
    }

    /// Moves the cursor one token forward.
    pub fn next(&mut self)
        requires
            old(self).current < usize::MAX,
        ensures
            final(self).current == old(self).current + 1,
            final(self).tokens == old(self).tokens,
    {
        self.current += 1;
    }
}

} // verus!
