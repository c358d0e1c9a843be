//! The instruction set of the virtual machine: a closed set of one-byte
//! opcodes, with conversions from the byte form and from the mnemonic form.

use vstd::prelude::*;
use vstd::string::StringSliceAdditionalSpecFns;

verus! {

/// One-byte instruction code selecting the behaviour of the virtual machine.
/// `IGL` is the explicit "unknown" code: decoding never fails, it yields `IGL`,
/// which the machine treats as a fault when executed.
#[derive(Debug, PartialEq, Eq, Structural, Copy, Clone)]
pub enum Opcode {
    HLT,
    LOAD,
    INC,
    DEC,
    ADD,
    SUB,
    MUL,
    DIV,
    JMP,
    JMPF,
    JMPB,
    EQ,
    NEQ,
    GT,
    LT,
    GTE,
    LTE,
    JMPE,
    ALOC,
    PRTS,
    NOP,
    IGL,
}

/// The byte emitted for an opcode in the binary instruction stream.
pub open spec fn spec_opcode_byte(op: Opcode) -> u8 {
    match op {
        Opcode::HLT => 0,
        Opcode::LOAD => 1,
        Opcode::INC => 2,
        Opcode::DEC => 3,
        Opcode::ADD => 4,
        Opcode::SUB => 5,
        Opcode::MUL => 6,
        Opcode::DIV => 7,
        Opcode::JMP => 8,
        Opcode::JMPF => 9,
        Opcode::JMPB => 10,
        Opcode::EQ => 11,
        Opcode::NEQ => 12,
        Opcode::GT => 13,
        Opcode::LT => 14,
        Opcode::GTE => 15,
        Opcode::LTE => 16,
        Opcode::JMPE => 17,
        Opcode::ALOC => 18,
        Opcode::PRTS => 19,
        Opcode::NOP => 20,
        Opcode::IGL => 21,
    }
}

/// The opcode a byte decodes to; every byte outside the defined range is `IGL`.
pub open spec fn spec_opcode_of_byte(b: u8) -> Opcode {
    if b == 0 {
        Opcode::HLT
    } else if b == 1 {
        Opcode::LOAD
    } else if b == 2 {
        Opcode::INC
    } else if b == 3 {
        Opcode::DEC
    } else if b == 4 {
        Opcode::ADD
    } else if b == 5 {
        Opcode::SUB
    } else if b == 6 {
        Opcode::MUL
    } else if b == 7 {
        Opcode::DIV
    } else if b == 8 {
        Opcode::JMP
    } else if b == 9 {
        Opcode::JMPF
    } else if b == 10 {
        Opcode::JMPB
    } else if b == 11 {
        Opcode::EQ
    } else if b == 12 {
        Opcode::NEQ
    } else if b == 13 {
        Opcode::GT
    } else if b == 14 {
        Opcode::LT
    } else if b == 15 {
        Opcode::GTE
    } else if b == 16 {
        Opcode::LTE
    } else if b == 17 {
        Opcode::JMPE
    } else if b == 18 {
        Opcode::ALOC
    } else if b == 19 {
        Opcode::PRTS
    } else if b == 20 {
        Opcode::NOP
    } else {
        Opcode::IGL
    }
}

impl Opcode {
    /// The byte this opcode is emitted as.
    pub fn to_byte(self) -> (r: u8)
        ensures
            r == spec_opcode_byte(self),
    {
        match self {
            Opcode::HLT => 0,
            Opcode::LOAD => 1,
            Opcode::INC => 2,
            Opcode::DEC => 3,
            Opcode::ADD => 4,
            Opcode::SUB => 5,
            Opcode::MUL => 6,
            Opcode::DIV => 7,
            Opcode::JMP => 8,
            Opcode::JMPF => 9,
            Opcode::JMPB => 10,
            Opcode::EQ => 11,
            Opcode::NEQ => 12,
            Opcode::GT => 13,
            Opcode::LT => 14,
            Opcode::GTE => 15,
            Opcode::LTE => 16,
            Opcode::JMPE => 17,
            Opcode::ALOC => 18,
            Opcode::PRTS => 19,
            Opcode::NOP => 20,
            Opcode::IGL => 21,
        }
    }
}

impl From<u8> for Opcode {
    fn from(v: u8) -> (r: Opcode) {
        if v == 0 {
            Opcode::HLT
        } else if v == 1 {
            Opcode::LOAD
        } else if v == 2 {
            Opcode::INC
        } else if v == 3 {
            Opcode::DEC
        } else if v == 4 {
            Opcode::ADD
        } else if v == 5 {
            Opcode::SUB
        } else if v == 6 {
            Opcode::MUL
        } else if v == 7 {
            Opcode::DIV
        } else if v == 8 {
            Opcode::JMP
        } else if v == 9 {
            Opcode::JMPF
        } else if v == 10 {
            Opcode::JMPB
        } else if v == 11 {
            Opcode::EQ
        } else if v == 12 {
            Opcode::NEQ
        } else if v == 13 {
            Opcode::GT
        } else if v == 14 {
            Opcode::LT
        } else if v == 15 {
            Opcode::GTE
        } else if v == 16 {
            Opcode::LTE
        } else if v == 17 {
            Opcode::JMPE
        } else if v == 18 {
            Opcode::ALOC
        } else if v == 19 {
            Opcode::PRTS
        } else if v == 20 {
            Opcode::NOP
        } else {
            Opcode::IGL
        }
    }
}

impl vstd::std_specs::convert::FromSpecImpl<u8> for Opcode {
    open spec fn obeys_from_spec() -> bool {
        true
    }

    open spec fn from_spec(v: u8) -> Opcode {
        spec_opcode_of_byte(v)
    }
}

impl From<&str> for Opcode {
    /// Resolves a mnemonic such as `load`; an unknown one is `IGL`.
    fn from(v: &str) -> (r: Opcode) {
        let b = v.as_bytes();
        proof {
            assert(b@.subrange(0, b@.len() as int) =~= b@);
        }
        crate::parser::mnemonic_code(b, 0, b.len())
    }
}

impl vstd::std_specs::convert::FromSpecImpl<&str> for Opcode {
    open spec fn obeys_from_spec() -> bool {
        true
    }

    open spec fn from_spec(v: &str) -> Opcode {
        crate::parser::spec_mnemonic(v.spec_bytes())
    }
}

/// Decoding the byte an opcode was emitted as gives the opcode back.
pub proof fn lemma_opcode_byte_round_trip(op: Opcode)
    ensures
        spec_opcode_of_byte(spec_opcode_byte(op)) == op,
{
}

/// A decoded instruction: for now only the operation itself.
#[derive(Debug, PartialEq, Eq, Structural)]
pub struct Instruction {
    pub opcode: Opcode,
}

impl Instruction {
    pub fn new(opcode: Opcode) -> (r: Instruction)
        ensures
            r.opcode == opcode,
    {
        Instruction { opcode }
    }
}

} // verus!
