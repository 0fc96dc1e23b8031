//! The instruction set: operation codes and their decoding from a raw byte.

use vstd::prelude::*;

verus! {

/// An opcode is the first byte of an instruction in machine language; it
/// tells the machine which operation the instruction performs.
#[derive(Debug, PartialEq, Eq, Structural, Clone, Copy)]
pub enum Opcode {
    /// Halt execution.
    HLT,
    /// Load a 16-bit immediate value into a register.
    LOAD,
    /// Add two registers.
    ADD,
    /// Subtract two registers.
    SUB,
    /// Multiply two registers.
    MUL,
    /// Divide two registers, keeping the remainder aside.
    DIV,
    /// Absolute jump: the program counter becomes a register's value.
    JMP,
    /// Relative jump forward by a register's value.
    JMPF,
    /// Relative jump backward by a register's value.
    JMPB,
    /// Equality comparison.
    EQ,
    /// Inequality comparison (reserved; no byte decodes to it).
    NEQ,
    /// Greater-than comparison.
    GT,
    /// Less-than comparison.
    LT,
    /// Greater-or-equal comparison.
    GQT,
    /// Less-or-equal comparison.
    LQT,
    /// Jump if a condition register holds 1.
    JEQ,
    /// Jump if a condition register holds 0.
    JNEQ,
    /// The decode result for any unrecognized byte.
    IGL,
}

/// The operation code that a raw program byte stands for. Decoding is total:
/// every byte outside the recognized range maps to `Opcode::IGL`.
pub open spec fn opcode_of(v: u8) -> Opcode {
    if v == 0 {
        Opcode::HLT
    } else if v == 1 {
        Opcode::LOAD
    } else if v == 2 {
        Opcode::ADD
    } else if v == 3 {
        Opcode::SUB
    } else if v == 4 {
        Opcode::MUL
    } else if v == 5 {
        Opcode::DIV
    } else if v == 6 {
        Opcode::JMP
    } else if v == 7 {
        Opcode::JMPF
    } else if v == 8 {
        Opcode::JMPB
    } else if v == 9 {
        Opcode::EQ
    } else if v == 10 {
        Opcode::GT
    } else if v == 11 {
        Opcode::LT
    } else if v == 12 {
        Opcode::GQT
    } else if v == 13 {
        Opcode::LQT
    } else if v == 14 {
        Opcode::JEQ
    } else if v == 15 {
        Opcode::JNEQ
    } else {
        Opcode::IGL
    }
}

impl From<u8> for Opcode {
    fn from(v: u8) -> (r: Opcode)
        ensures
            r == opcode_of(v),
    {
        match v {
            0 => Opcode::HLT,
            1 => Opcode::LOAD,
            2 => Opcode::ADD,
            3 => Opcode::SUB,
            4 => Opcode::MUL,
            5 => Opcode::DIV,
            6 => Opcode::JMP,
            7 => Opcode::JMPF,
            8 => Opcode::JMPB,
            9 => Opcode::EQ,
            10 => Opcode::GT,
            11 => Opcode::LT,
            12 => Opcode::GQT,
            13 => Opcode::LQT,
            14 => Opcode::JEQ,
            15 => Opcode::JNEQ,
            _ => Opcode::IGL,
        }
    }
}

impl vstd::std_specs::convert::FromSpecImpl<u8> for Opcode {
    open spec fn obeys_from_spec() -> bool {
        true
    }

    open spec fn from_spec(v: u8) -> Opcode {
        opcode_of(v)
    }
}

/// A decoded instruction, identified by its operation code.
#[derive(Debug, PartialEq, Eq, Structural, Clone, Copy)]
pub struct Instruction {
    pub opcode: Opcode,
}

impl Instruction {
    pub fn new(opcode: Opcode) -> (r: Instruction)
        ensures
            r.opcode == opcode,
    {
        Instruction { opcode }
    }
}

} // verus!
