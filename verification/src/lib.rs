//! A small assembler and register virtual machine.
//!
//! Source text is scanned into tokens, parsed into one assembly instruction
//! per line, resolved against a symbol table of label offsets, and emitted as
//! fixed-width 4-byte cells.  The virtual machine interprets those cells with
//! a fetch-decode-execute loop over 32 signed 32-bit registers, a remainder
//! register, an equality flag and a growable byte heap.

pub mod assembler;
pub mod instruction;
pub mod lexer;
pub mod parser;
pub mod repl;
pub mod symbol;
pub mod symbol_table;
pub mod token;
pub mod vm;

pub use instruction::Instruction;
pub use instruction::Opcode;
