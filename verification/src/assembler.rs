//! The assembler's data model: one instruction as parsed from tokens.

use vstd::prelude::*;

use crate::token::Token;

verus! {

/// One assembly instruction: its opcode token and up to three operand
/// tokens, as the grammar allows between one and three operands.
#[derive(Debug, PartialEq)]
pub struct AssemblerInstruction {
    pub opcode: Token,
    pub operand1: Option<Token>,
    pub operand2: Option<Token>,
    pub operand3: Option<Token>,
}

} // verus!
