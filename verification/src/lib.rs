//! A small register-based virtual machine with its surrounding tooling: a
//! bytecode interpreter over a fixed bank of 32 signed registers, a textual
//! lexer for its assembly form, a token-stream parser shell, and the state
//! kept by an interactive driver.

pub mod assembler;
pub mod instructions;
pub mod lexer;
pub mod parser;
pub mod repl;
pub mod token;
pub mod vm;
