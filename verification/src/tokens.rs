//! Tokens of the assembly language, the instruction records the parser builds
//! from them, and the serialization of a record into a four-byte instruction
//! word.  Label, directive and string contents are byte strings taken from the
//! source text.

use crate::errors::AssemblerError;
use crate::errors::SpecAsmError;
use crate::instructions::spec_opcode_byte;
use crate::instructions::Opcode;
use crate::symbols::table_value;
use crate::symbols::SpecSymbol;
use crate::symbols::SymbolTable;
use vstd::prelude::*;

verus! {

/// One lexical element of the assembly language.
#[derive(Debug, Clone, PartialEq, Eq)]
pub enum Token {
    Op { code: Opcode },
    Register { reg_num: u8 },
    IntegerOperand { value: i32 },
    LabelDeclaration { name: Vec<u8> },
    LabelUsage { name: Vec<u8> },
    Directive { name: Vec<u8> },
    IrString { name: Vec<u8> },
}

/// The ghost mirror of [`Token`], with contents as byte sequences.
pub ghost enum SpecToken {
    Op { code: Opcode },
    Register { reg_num: u8 },
    IntegerOperand { value: i32 },
    LabelDeclaration { name: Seq<u8> },
    LabelUsage { name: Seq<u8> },
    Directive { name: Seq<u8> },
    IrString { name: Seq<u8> },
}

impl View for Token {
    type V = SpecToken;

    open spec fn view(&self) -> SpecToken {
        match self {
            Token::Op { code } => SpecToken::Op { code: *code },
            Token::Register { reg_num } => SpecToken::Register { reg_num: *reg_num },
            Token::IntegerOperand { value } => SpecToken::IntegerOperand { value: *value },
            Token::LabelDeclaration { name } => SpecToken::LabelDeclaration { name: name@ },
            Token::LabelUsage { name } => SpecToken::LabelUsage { name: name@ },
            Token::Directive { name } => SpecToken::Directive { name: name@ },
            Token::IrString { name } => SpecToken::IrString { name: name@ },
        }
    }
}

pub open spec fn opt_token_view(o: Option<Token>) -> Option<SpecToken> {
    match o {
        Some(t) => Some(t@),
        None => None,
    }
}

/// One source record: an optional label declaration, an opcode or a directive,
/// and up to three operand tokens.
#[derive(Debug, Clone, PartialEq, Eq)]
pub struct AssemblerInstruction {
    pub opcode: Option<Token>,
    pub label: Option<Token>,
    pub directive: Option<Token>,
    pub operand1: Option<Token>,
    pub operand2: Option<Token>,
    pub operand3: Option<Token>,
}

/// The ghost mirror of [`AssemblerInstruction`].
pub ghost struct SpecInstr {
    pub opcode: Option<SpecToken>,
    pub label: Option<SpecToken>,
    pub directive: Option<SpecToken>,
    pub operand1: Option<SpecToken>,
    pub operand2: Option<SpecToken>,
    pub operand3: Option<SpecToken>,
}

impl View for AssemblerInstruction {
    type V = SpecInstr;

    open spec fn view(&self) -> SpecInstr {
        SpecInstr {
            opcode: opt_token_view(self.opcode),
            label: opt_token_view(self.label),
            directive: opt_token_view(self.directive),
            operand1: opt_token_view(self.operand1),
            operand2: opt_token_view(self.operand2),
            operand3: opt_token_view(self.operand3),
        }
    }
}

/// The value of a signed 32-bit operand truncated to its low 16 bits,
/// read as an unsigned number (two's-complement image).
pub open spec fn spec_wrap16(v: i32) -> int {
    (if v >= 0 {
        v as int
    } else {
        v as int + 0x1_0000_0000
    }) % 0x10000
}

/// A 16-bit value as two big-endian bytes.
pub open spec fn spec_be16(m: int) -> Seq<u8> {
    seq![(m / 256) as u8, (m % 256) as u8]
}

/// The bytes one operand token contributes to an instruction word, or the
/// error it raises: a register is one byte, an integer is two big-endian
/// bytes, a label usage is its resolved offset as two big-endian bytes and an
/// unresolved one is an error, and any other token cannot stand as an operand.
pub open spec fn spec_operand_bytes(t: SpecToken, syms: Seq<SpecSymbol>) -> Result<
    Seq<u8>,
    SpecAsmError,
> {
    match t {
        SpecToken::Register { reg_num } => Ok(seq![reg_num]),
        SpecToken::IntegerOperand { value } => Ok(spec_be16(spec_wrap16(value))),
        SpecToken::LabelUsage { name } => match table_value(syms, name) {
            Some(off) => Ok(spec_be16(off as int % 0x10000)),
            None => Err(SpecAsmError::UnresolvedLabel { name }),
        },
        _ => Err(SpecAsmError::InvalidOperand),
    }
}

pub open spec fn spec_opt_operand_bytes(o: Option<SpecToken>, syms: Seq<SpecSymbol>) -> Result<
    Seq<u8>,
    SpecAsmError,
> {
    match o {
        None => Ok(Seq::empty()),
        Some(t) => spec_operand_bytes(t, syms),
    }
}

/// Zero-pads an instruction word to four bytes.
pub open spec fn spec_pad4(s: Seq<u8>) -> Seq<u8> {
    if s.len() >= 4 {
        s
    } else {
        s + Seq::new((4 - s.len()) as nat, |i: int| 0u8)
    }
}

/// The bytes an opcode-bearing record assembles to: the opcode byte, each
/// present operand's bytes in order, zero-padded to four bytes.  A record
/// whose opcode slot holds no opcode token cannot be serialized.
pub open spec fn spec_record_bytes(rec: SpecInstr, syms: Seq<SpecSymbol>) -> Result<
    Seq<u8>,
    SpecAsmError,
> {
    match rec.opcode {
        Some(SpecToken::Op { code }) => match spec_opt_operand_bytes(rec.operand1, syms) {
            Err(e) => Err(e),
            Ok(b1) => match spec_opt_operand_bytes(rec.operand2, syms) {
                Err(e) => Err(e),
                Ok(b2) => match spec_opt_operand_bytes(rec.operand3, syms) {
                    Err(e) => Err(e),
                    Ok(b3) => Ok(spec_pad4(seq![spec_opcode_byte(code)] + b1 + b2 + b3)),
                },
            },
        },
        _ => Err(SpecAsmError::InvalidOperand),
    }
}

/// How an executable serialization result matches its specification.
pub open spec fn to_bytes_post(
    r: Result<Vec<u8>, AssemblerError>,
    sp: Result<Seq<u8>, SpecAsmError>,
) -> bool {
    match sp {
        Ok(b) => r matches Ok(v) && v@ == b,
        Err(e) => r matches Err(x) && x@ == e,
    }
}

pub open spec fn extract_post(
    r: Result<(), AssemblerError>,
    before: Seq<u8>,
    after: Seq<u8>,
    sp: Result<Seq<u8>, SpecAsmError>,
) -> bool {
    match sp {
        Ok(b) => r is Ok && after == before + b,
        Err(e) => r matches Err(x) && x@ == e && after == before,
    }
}

impl AssemblerInstruction {
    pub fn is_label(&self) -> (r: bool)
        ensures
            r == (self@.label is Some),
    {
        self.label.is_some()
    }

    pub fn is_opcode(&self) -> (r: bool)
        ensures
            r == (self@.opcode is Some),
    {
        self.opcode.is_some()
    }

    pub fn is_directive(&self) -> (r: bool)
        ensures
            r == (self@.directive is Some),
    {
        self.directive.is_some()
    }

    pub fn has_operands(&self) -> (r: bool)
        ensures
            r == (self@.operand1 is Some || self@.operand2 is Some || self@.operand3 is Some),
    {
        self.operand1.is_some() || self.operand2.is_some() || self.operand3.is_some()
    }

    /// The name declared by this record's label token, if it carries one.
    pub fn label_name(&self) -> (r: Option<Vec<u8>>)
        ensures
            r matches Some(n) ==> self@.label matches Some(SpecToken::LabelDeclaration { name })
                && n@ == name,
            r is None ==> !(self@.label matches Some(SpecToken::LabelDeclaration { name })),
    {
        match &self.label {
            Some(Token::LabelDeclaration { name }) => Some(crate::symbols::clone_bytes(name)),
            _ => None,
        }
    }

    /// The name of this record's directive token, if it carries one.
    pub(crate) fn get_directive_name(&self) -> (r: Option<Vec<u8>>)
        ensures
            r matches Some(n) ==> self@.directive matches Some(SpecToken::Directive { name })
                && n@ == name,
            r is None ==> !(self@.directive matches Some(SpecToken::Directive { name })),
    {
        match &self.directive {
            Some(Token::Directive { name }) => Some(crate::symbols::clone_bytes(name)),
            _ => None,
        }
    }

    /// The string constant in this record's first operand, if it holds one.
    pub(crate) fn get_string_constant(&self) -> (r: Option<Vec<u8>>)
        ensures
            r matches Some(n) ==> self@.operand1 matches Some(SpecToken::IrString { name }) && n@
                == name,
            r is None ==> !(self@.operand1 matches Some(SpecToken::IrString { name })),
    {
        match &self.operand1 {
            Some(Token::IrString { name }) => Some(crate::symbols::clone_bytes(name)),
            _ => None,
        }
    }

    /// Appends the bytes of one operand token to `results`, or reports why it
    /// contributes none.
    fn extract_operand(t: &Token, results: &mut Vec<u8>, symbols: &SymbolTable) -> (r: Result<
        (),
        AssemblerError,
    >)
        ensures
            extract_post(r, old(results)@, final(results)@, spec_operand_bytes(t@, symbols@)),
    {
        match t {
            Token::Register { reg_num } => {
                results.push(*reg_num);
                proof {
                    assert(results@ =~= old(results)@ + seq![*reg_num]);
                }
                Ok(())
            },
            Token::IntegerOperand { value } => {
                let v = *value;
                let w: u32 = if v >= 0 {
                    v as u32
                } else {
                    ((v as i64) + 0x1_0000_0000) as u32
                };
                let m: u32 = w % 0x10000;
                results.push((m / 256) as u8);
                results.push((m % 256) as u8);
                proof {
                    assert(m as int == spec_wrap16(v));
                    assert(results@ =~= old(results)@ + spec_be16(spec_wrap16(v)));
                }
                Ok(())
            },
            Token::LabelUsage { name } => {
                match symbols.symbol_value(name.as_slice()) {
                    Some(offset) => {
                        let m: u32 = offset % 0x10000;
                        results.push((m / 256) as u8);
                        results.push((m % 256) as u8);
                        proof {
                            assert(results@ =~= old(results)@ + spec_be16(offset as int % 0x10000));
                        }
                        Ok(())
                    },
                    None => Err(AssemblerError::UnresolvedLabel {
                        name: crate::symbols::clone_bytes(name),
                    }),
                }
            },
            _ => Err(AssemblerError::InvalidOperand),
        }
    }

    /// Serializes this record into one instruction word: the opcode byte and
    /// the operand bytes, zero-padded to four bytes.
    pub fn to_bytes(&self, symbols: &SymbolTable) -> (r: Result<Vec<u8>, AssemblerError>)
        ensures
            to_bytes_post(r, spec_record_bytes(self@, symbols@)),
    {
        let mut results: Vec<u8> = Vec::new();
        let code = match &self.opcode {
            Some(Token::Op { code }) => *code,
            _ => {
                return Err(AssemblerError::InvalidOperand);
            },
        };
        results.push(code.to_byte());
        proof {
            assert(results@ =~= seq![spec_opcode_byte(code)]);
        }
        if let Some(t) = &self.operand1 {
            match Self::extract_operand(t, &mut results, symbols) {
                Ok(()) => {},
                Err(e) => {
                    return Err(e);
                },
            }
        }
        if let Some(t) = &self.operand2 {
            match Self::extract_operand(t, &mut results, symbols) {
                Ok(()) => {},
                Err(e) => {
                    return Err(e);
                },
            }
        }
        if let Some(t) = &self.operand3 {
            match Self::extract_operand(t, &mut results, symbols) {
                Ok(()) => {},
                Err(e) => {
                    return Err(e);
                },
            }
        }
        let ghost core = results@;
        while results.len() < 4
            invariant
                results@ =~= core + Seq::new((results@.len() - core.len()) as nat, |i: int| 0u8),
                core.len() <= results@.len() <= 4 || results@ == core,
            decreases 4 - results@.len(),
        {
            results.push(0);
            proof {
                assert(results@ =~= core + Seq::new(
                    (results@.len() - core.len()) as nat,
                    |i: int| 0u8,
                ));
            }
        }
        proof {
            assert(results@ =~= spec_pad4(core));
        }
        Ok(results)
    }
}

/// An ordered sequence of instruction records; order determines both symbol
/// offsets and execution order.
#[derive(Debug, PartialEq, Eq)]
pub struct Program {
    pub instructions: Vec<AssemblerInstruction>,
}

impl View for Program {
    type V = Seq<SpecInstr>;

    open spec fn view(&self) -> Seq<SpecInstr> {
        Seq::new(self.instructions@.len(), |i: int| self.instructions@[i]@)
    }
}

/// The concatenated instruction words of a sequence of records; the first
/// record that cannot be serialized aborts with its error.
pub open spec fn spec_program_bytes(recs: Seq<SpecInstr>, syms: Seq<SpecSymbol>) -> Result<
    Seq<u8>,
    SpecAsmError,
>
    decreases recs.len(),
{
    if recs.len() == 0 {
        Ok(Seq::empty())
    } else {
        match spec_record_bytes(recs[0], syms) {
            Err(e) => Err(e),
            Ok(b) => match spec_program_bytes(recs.drop_first(), syms) {
                Err(e) => Err(e),
                Ok(rest) => Ok(b + rest),
            },
        }
    }
}

impl Program {
    /// Serializes every record in order.
    pub fn to_bytes(&self, symbols: &SymbolTable) -> (r: Result<Vec<u8>, AssemblerError>)
        ensures
            to_bytes_post(r, spec_program_bytes(self@, symbols@)),
    {
        let mut program: Vec<u8> = Vec::new();
        let n = self.instructions.len();
        proof {
            assert(self@.skip(0) =~= self@);
            if spec_program_bytes(self@, symbols@) is Ok {
                assert(Seq::<u8>::empty() + spec_program_bytes(self@, symbols@)->Ok_0
                    =~= spec_program_bytes(self@, symbols@)->Ok_0);
            }
        }
        let mut i: usize = 0;
        while i < n
            invariant
                i <= n,
                n == self.instructions@.len(),
                spec_program_bytes(self@, symbols@) == (match spec_program_bytes(
                    self@.skip(i as int),
                    symbols@,
                ) {
                    Ok(rest) => Ok::<Seq<u8>, SpecAsmError>(program@ + rest),
                    Err(e) => Err::<Seq<u8>, SpecAsmError>(e),
                }),
            decreases n - i,
        {
            proof {
                assert(self@.skip(i as int)[0] == self@[i as int]);
                assert(self@.skip(i as int).drop_first() =~= self@.skip(i as int + 1));
            }
            match self.instructions[i].to_bytes(symbols) {
                Ok(bytes) => {
                    let ghost before = program@;
                    let mut bytes = bytes;
                    program.append(&mut bytes);
                    proof {
                        if spec_program_bytes(self@.skip(i as int + 1), symbols@) is Ok {
                            let rest = spec_program_bytes(
                                self@.skip(i as int + 1),
                                symbols@,
                            )->Ok_0;
                            assert(program@ + rest =~= before + (spec_record_bytes(
                                self@[i as int],
                                symbols@,
                            )->Ok_0 + rest));
                        }
                    }
                },
                Err(e) => {
                    return Err(e);
                },
            }
            i = i + 1;
        }
        proof {
            assert(self@.skip(n as int).len() == 0);
            assert(program@ + Seq::<u8>::empty() =~= program@);
        }
        Ok(program)
    }
}

} // verus!
