//! Tokens of the textual assembly form, and the faults a lexer records.

use vstd::prelude::*;

verus! {

/// The classified form of one lexeme.
#[derive(Debug, PartialEq)]
pub enum TokenType {
    /// A run of letters naming an operation.
    OPCODE(String),
    /// A run of digits.
    NUMBER(String),
    /// The `$` sigil announcing a register operand.
    REGISTER,
    /// The `#` sigil announcing an integer operand.
    IntOperand,
    /// The end of the input.
    EOF,
}

/// The mathematical image of a token type: the same shape over character
/// sequences.
pub enum TokenTypeV {
    Opcode(Seq<char>),
    Number(Seq<char>),
    Register,
    IntOperand,
    Eof,
}

impl View for TokenType {
    type V = TokenTypeV;

    open spec fn view(&self) -> TokenTypeV {
        match self {
            TokenType::OPCODE(s) => TokenTypeV::Opcode(s@),
            TokenType::NUMBER(s) => TokenTypeV::Number(s@),
            TokenType::REGISTER => TokenTypeV::Register,
            TokenType::IntOperand => TokenTypeV::IntOperand,
            TokenType::EOF => TokenTypeV::Eof,
        }
    }
}

/// One token, with the line it was read on.
#[derive(Debug, PartialEq)]
pub struct Token {
    pub token: TokenType,
    pub line: usize,
}

/// The mathematical image of a token.
pub struct TokenV {
    pub token: TokenTypeV,
    pub line: nat,
}

impl View for Token {
    type V = TokenV;

    open spec fn view(&self) -> TokenV {
        TokenV { token: self.token@, line: self.line as nat }
    }
}

impl Token {
    pub fn new(token: TokenType, line: usize) -> (t: Token)
        ensures
            t@ == (TokenV { token: token@, line: line as nat }),
    {
        Token { token, line }
    }
}

/// A fault met while lexing: a character no rule accepts, or a comment that
/// is never closed.
#[derive(Debug, PartialEq, Eq, Clone, Copy)]
pub enum Error {
    /// An unexpected character, with its line.
    TokenError(usize, char),
    /// A malformed comment, with its line.
    CommentError(usize),
}

/// A recorded lexer fault.
#[derive(Debug, PartialEq, Eq, Clone, Copy)]
pub struct LexerError {
    pub err: Error,
}

impl View for LexerError {
    type V = Error;

    open spec fn view(&self) -> Error {
        self.err
    }
}

impl LexerError {
    pub fn new(err: Error) -> (e: LexerError)
        ensures
            e@ == err,
    {
        LexerError { err }
    }
}

} // verus!
