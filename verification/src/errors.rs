//! The errors assembly can report.  Every kind carries the context needed for
//! an actionable message: the source position, the instruction index or the
//! offending name.

use vstd::prelude::*;

verus! {

/// An error found while assembling.  First-pass errors are collected and
/// reported as a batch; any of them aborts assembly before code generation.
#[derive(Debug, Clone, PartialEq, Eq)]
pub enum AssemblerError {
    /// The source text does not parse; carries the byte position at which
    /// parsing stopped.
    ParseError { position: usize },
    /// A label was declared before any section header.
    NoSegmentDeclarationFound { instruction: u32 },
    /// A string constant directive carries no label on its record.
    StringConstantDeclaredWithoutLabel { instruction: u32 },
    /// The same name was declared as a label twice.
    SymbolAlreadyDeclared { name: Vec<u8> },
    /// A directive with operands whose name is not a known directive.
    UnknownDirectiveFound { directive: Vec<u8> },
    /// A section header whose name names no section.
    InvalidSection { name: Vec<u8> },
    /// The program does not declare exactly one data and one code section.
    InsufficientSections,
    /// A label operand that no symbol resolves.
    UnresolvedLabel { name: Vec<u8> },
    /// A record whose opcode or operand slot holds a token of the wrong kind.
    InvalidOperand,
}

/// The ghost mirror of [`AssemblerError`], with names as byte sequences.
pub ghost enum SpecAsmError {
    ParseError { position: usize },
    NoSegmentDeclarationFound { instruction: u32 },
    StringConstantDeclaredWithoutLabel { instruction: u32 },
    SymbolAlreadyDeclared { name: Seq<u8> },
    UnknownDirectiveFound { directive: Seq<u8> },
    InvalidSection { name: Seq<u8> },
    InsufficientSections,
    UnresolvedLabel { name: Seq<u8> },
    InvalidOperand,
}

impl View for AssemblerError {
    type V = SpecAsmError;

    open spec fn view(&self) -> SpecAsmError {
        match self {
            AssemblerError::ParseError { position } => SpecAsmError::ParseError {
                position: *position,
            },
            AssemblerError::NoSegmentDeclarationFound { instruction } => {
                SpecAsmError::NoSegmentDeclarationFound { instruction: *instruction }
            },
            AssemblerError::StringConstantDeclaredWithoutLabel { instruction } => {
                SpecAsmError::StringConstantDeclaredWithoutLabel { instruction: *instruction }
            },
            AssemblerError::SymbolAlreadyDeclared { name } => SpecAsmError::SymbolAlreadyDeclared {
                name: name@,
            },
            AssemblerError::UnknownDirectiveFound { directive } => {
                SpecAsmError::UnknownDirectiveFound { directive: directive@ }
            },
            AssemblerError::InvalidSection { name } => SpecAsmError::InvalidSection {
                name: name@,
            },
            AssemblerError::InsufficientSections => SpecAsmError::InsufficientSections,
            AssemblerError::UnresolvedLabel { name } => SpecAsmError::UnresolvedLabel {
                name: name@,
            },
            AssemblerError::InvalidOperand => SpecAsmError::InvalidOperand,
        }
    }
}

} // verus!
