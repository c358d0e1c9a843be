//! A small register-based virtual machine together with the assembler that
//! compiles its textual instruction language into a binary program image.
//!
//! The pipeline is: source text -> [`parser`] -> instruction records ->
//! [`assembler`] (two passes over a [`symbols`] table) -> binary image ->
//! [`vm`].  Every step is specified against a mathematical model of the
//! grammar, the image layout and the machine's transition function, and
//! [`laws`] states and proves the properties that tie them together.

pub mod assembler;
pub mod errors;
pub mod instructions;
pub mod laws;
pub mod parser;
pub mod repl;
pub mod symbols;
pub mod tokens;
pub mod vm;

pub use instructions::Instruction;
pub use instructions::Opcode;
