//! The two-pass assembler.  Pass one walks the parsed records to collect
//! labels and sections; pass two re-walks them to emit one four-byte
//! instruction word per opcode-bearing record, resolving label operands
//! against the now-complete symbol table.  The final image is the fixed
//! header (magic prefix, the length of the read-only segment big-endian in
//! bytes 4 through 7, zero padding), the read-only segment, then the code
//! segment.  Code-label offsets are `65 + 4 * record_index`: the byte offset
//! the record's word would have in the loaded program buffer, counting every
//! record as one word.
//!
//! All pass-one errors are collected and reported as a batch; any error
//! aborts assembly before pass two.  An unresolved label operand in pass two
//! is an error as well, never silently emitted bytes.

use crate::errors::AssemblerError;
use crate::errors::SpecAsmError;
use crate::parser;
use crate::symbols::clone_bytes;
use crate::symbols::sym_index;
use crate::symbols::table_has;
use crate::symbols::SpecSymbol;
use crate::symbols::Symbol;
use crate::symbols::SymbolTable;
use crate::symbols::SymbolType;
use crate::tokens::spec_record_bytes;
use crate::tokens::AssemblerInstruction;
use crate::tokens::to_bytes_post;
use crate::tokens::Program;
use crate::tokens::SpecInstr;
use crate::tokens::SpecToken;
use crate::vm::PIE_HEADER_LENGTH;
use vstd::prelude::*;
use vstd::string::StringSliceAdditionalSpecFns;

verus! {

#[derive(Debug, PartialEq, Eq, Structural, Copy, Clone)]
pub enum AssemblerPhase {
    First,
    Second,
}

/// A section of the program text.  The starting instruction is kept for
/// diagnostics; section identity is the variant alone.
#[derive(Debug, Copy, Clone, PartialEq, Eq)]
pub enum AssemblerSection {
    Data { starting_instruction: Option<u32> },
    Code { starting_instruction: Option<u32> },
    Unknown,
}

impl Default for AssemblerSection {
    fn default() -> (r: Self)
        ensures
            r is Unknown,
    {
        AssemblerSection::Unknown
    }
}

/// The name bytes of the `data` section header.
pub open spec fn spec_data_name() -> Seq<u8> {
    seq![
        crate::parser::LET_D,
        crate::parser::LET_A,
        crate::parser::LET_T,
        crate::parser::LET_A,
    ]
}

/// The name bytes of the `code` section header.
pub open spec fn spec_code_name() -> Seq<u8> {
    seq![
        crate::parser::LET_C,
        crate::parser::LET_O,
        crate::parser::LET_D,
        crate::parser::LET_E,
    ]
}

/// The name bytes of the `asciiz` directive.
pub open spec fn spec_asciiz_name() -> Seq<u8> {
    seq![
        crate::parser::LET_A,
        crate::parser::LET_S,
        crate::parser::LET_C,
        crate::parser::LET_I,
        crate::parser::LET_I,
        crate::parser::LET_Z,
    ]
}

/// The section a header name declares.
pub open spec fn spec_section_of(name: Seq<u8>) -> AssemblerSection {
    if name == spec_data_name() {
        AssemblerSection::Data { starting_instruction: None }
    } else if name == spec_code_name() {
        AssemblerSection::Code { starting_instruction: None }
    } else {
        AssemblerSection::Unknown
    }
}

/// Maps a section header name to its section.
pub fn section_of_name(name: &[u8]) -> (r: AssemblerSection)
    ensures
        r == spec_section_of(name@),
{
    if name.len() == 4 && name[0] == crate::parser::LET_D && name[1] == crate::parser::LET_A
        && name[2] == crate::parser::LET_T && name[3] == crate::parser::LET_A {
        proof {
            assert(name@ =~= spec_data_name());
        }
        AssemblerSection::Data { starting_instruction: None }
    } else if name.len() == 4 && name[0] == crate::parser::LET_C && name[1]
        == crate::parser::LET_O && name[2] == crate::parser::LET_D && name[3]
        == crate::parser::LET_E {
        proof {
            assert(name@ =~= spec_code_name());
        }
        AssemblerSection::Code { starting_instruction: None }
    } else {
        proof {
            if name@ == spec_data_name() {
                assert(name@.len() == 4 && name@[0] == crate::parser::LET_D && name@[1]
                    == crate::parser::LET_A && name@[2] == crate::parser::LET_T && name@[3]
                    == crate::parser::LET_A);
            }
            if name@ == spec_code_name() {
                assert(name@.len() == 4 && name@[0] == crate::parser::LET_C && name@[1]
                    == crate::parser::LET_O && name@[2] == crate::parser::LET_D && name@[3]
                    == crate::parser::LET_E);
            }
        }
        AssemblerSection::Unknown
    }
}

fn is_asciiz_name(name: &[u8]) -> (r: bool)
    ensures
        r == (name@ == spec_asciiz_name()),
{
    let ok = name.len() == 6 && name[0] == crate::parser::LET_A && name[1] == crate::parser::LET_S
        && name[2] == crate::parser::LET_C && name[3] == crate::parser::LET_I && name[4]
        == crate::parser::LET_I && name[5] == crate::parser::LET_Z;
    proof {
        if ok {
            assert(name@ =~= spec_asciiz_name());
        } else {
            if name@ == spec_asciiz_name() {
                assert(name@.len() == 6 && name@[0] == crate::parser::LET_A && name@[1]
                    == crate::parser::LET_S && name@[2] == crate::parser::LET_C && name@[3]
                    == crate::parser::LET_I && name@[4] == crate::parser::LET_I && name@[5]
                    == crate::parser::LET_Z);
            }
        }
    }
    ok
}

/// The state pass one folds over the records.
pub ghost struct P1 {
    pub symbols: Seq<SpecSymbol>,
    pub ro: Seq<u8>,
    pub sections: Seq<AssemblerSection>,
    pub current_section: Option<AssemblerSection>,
    pub errors: Seq<SpecAsmError>,
}

pub open spec fn p1_init() -> P1 {
    P1 {
        symbols: Seq::empty(),
        ro: Seq::empty(),
        sections: Seq::empty(),
        current_section: None,
        errors: Seq::empty(),
    }
}

/// The offset recorded for a code label declared on record `idx`: the byte
/// offset its word would have, saturating at the largest offset.
pub open spec fn p1_label_offset(idx: u32) -> u32 {
    if idx <= (u32::MAX - 65) / 4 {
        (65 + 4 * idx) as u32
    } else {
        u32::MAX
    }
}

/// The offset recorded for a string constant: the byte position at which it
/// starts in the read-only segment, saturating at the largest offset.
pub open spec fn p1_ro_offset(len: int) -> u32 {
    if len <= u32::MAX {
        len as u32
    } else {
        u32::MAX
    }
}

pub open spec fn sat_inc(idx: u32) -> u32 {
    if idx < u32::MAX {
        (idx + 1) as u32
    } else {
        idx
    }
}

/// Pass-one handling of a record's label declaration, with the current
/// section known to be set: a fresh name is recorded with its code offset, a
/// duplicate is an error.
pub open spec fn p1_label_step(st: P1, rec: SpecInstr, idx: u32) -> P1 {
    match rec.label {
        Some(SpecToken::LabelDeclaration { name }) => {
            if table_has(st.symbols, name) {
                P1 { errors: st.errors.push(SpecAsmError::SymbolAlreadyDeclared { name }), ..st }
            } else {
                P1 {
                    symbols: st.symbols.push(
                        SpecSymbol {
                            name,
                            symbol_type: SymbolType::Label,
                            offset: Some(p1_label_offset(idx)),
                        },
                    ),
                    ..st
                }
            }
        },
        _ => P1 {
            errors: st.errors.push(
                SpecAsmError::StringConstantDeclaredWithoutLabel { instruction: idx },
            ),
            ..st
        },
    }
}

/// Pass-one handling of an `asciiz` directive: the record's label symbol is
/// re-pointed at the current end of the read-only segment, then the string's
/// bytes and one zero terminator are appended.
pub open spec fn p1_asciiz_step(st: P1, rec: SpecInstr, idx: u32) -> P1 {
    match rec.operand1 {
        Some(SpecToken::IrString { name: content }) => match rec.label {
            Some(SpecToken::LabelDeclaration { name }) => {
                let symbols2 = if table_has(st.symbols, name) {
                    st.symbols.update(
                        sym_index(st.symbols, name),
                        SpecSymbol {
                            offset: Some(p1_ro_offset(st.ro.len() as int)),
                            ..st.symbols[sym_index(st.symbols, name)]
                        },
                    )
                } else {
                    st.symbols
                };
                P1 { symbols: symbols2, ro: st.ro + content + seq![0u8], ..st }
            },
            _ => P1 {
                errors: st.errors.push(
                    SpecAsmError::StringConstantDeclaredWithoutLabel { instruction: idx },
                ),
                ..st
            },
        },
        _ => st,
    }
}

/// Pass-one handling of a record's directive: with operands, only `asciiz`
/// is defined; without, the name declares a section, which becomes current.
pub open spec fn p1_directive_step(st: P1, rec: SpecInstr, idx: u32) -> P1 {
    match rec.directive {
        Some(SpecToken::Directive { name }) => {
            if rec.operand1 is Some || rec.operand2 is Some || rec.operand3 is Some {
                if name == spec_asciiz_name() {
                    p1_asciiz_step(st, rec, idx)
                } else {
                    P1 {
                        errors: st.errors.push(
                            SpecAsmError::UnknownDirectiveFound { directive: name },
                        ),
                        ..st
                    }
                }
            } else {
                let sec = spec_section_of(name);
                if sec is Unknown {
                    P1 { errors: st.errors.push(SpecAsmError::InvalidSection { name }), ..st }
                } else {
                    P1 { sections: st.sections.push(sec), current_section: Some(sec), ..st }
                }
            }
        },
        _ => P1 {
            errors: st.errors.push(
                SpecAsmError::UnknownDirectiveFound { directive: Seq::empty() },
            ),
            ..st
        },
    }
}

/// Pass one on a single record.
pub open spec fn p1_step(st: P1, rec: SpecInstr, idx: u32) -> P1 {
    let st1 = if rec.label is Some {
        if st.current_section is Some {
            p1_label_step(st, rec, idx)
        } else {
            P1 {
                errors: st.errors.push(SpecAsmError::NoSegmentDeclarationFound { instruction: idx }),
                ..st
            }
        }
    } else {
        st
    };
    if rec.directive is Some {
        p1_directive_step(st1, rec, idx)
    } else {
        st1
    }
}

/// Pass one over a record sequence.
pub open spec fn p1_run(recs: Seq<SpecInstr>, st: P1, idx: u32) -> P1
    decreases recs.len(),
{
    if recs.len() == 0 {
        st
    } else {
        p1_run(recs.drop_first(), p1_step(st, recs[0], idx), sat_inc(idx))
    }
}

/// A well-formed program declares exactly one data and one code section.
pub open spec fn p1_sections_ok(sections: Seq<AssemblerSection>) -> bool {
    sections.len() == 2 && ((sections[0] is Data && sections[1] is Code) || (sections[0] is Code
        && sections[1] is Data))
}

/// Pass one, followed by the section check.
pub open spec fn p1_final(recs: Seq<SpecInstr>) -> P1 {
    let st = p1_run(recs, p1_init(), 0);
    if p1_sections_ok(st.sections) {
        st
    } else {
        P1 { errors: st.errors.push(SpecAsmError::InsufficientSections), ..st }
    }
}

/// The length of the read-only segment as recorded in the header: images
/// cannot record a segment of 2^32 bytes or more, so the field saturates.
pub open spec fn spec_ro_cap(len: int) -> int {
    if len <= 0xffff_ffff {
        len
    } else {
        0xffff_ffff
    }
}

/// The 65-byte image header: the magic prefix, the length of the read-only
/// segment big-endian in bytes 4 through 7, and zero padding.
pub open spec fn spec_header(ro_len: int) -> Seq<u8> {
    Seq::new(
        65,
        |i: int|
            if i == 0 {
                45u8
            } else if i == 1 {
                50u8
            } else if i == 2 {
                49u8
            } else if i == 3 {
                45u8
            } else if i == 4 {
                (spec_ro_cap(ro_len) / 0x1000000 % 0x100) as u8
            } else if i == 5 {
                (spec_ro_cap(ro_len) / 0x10000 % 0x100) as u8
            } else if i == 6 {
                (spec_ro_cap(ro_len) / 0x100 % 0x100) as u8
            } else if i == 7 {
                (spec_ro_cap(ro_len) % 0x100) as u8
            } else {
                0u8
            },
    )
}

/// The code segment pass two emits: the words of the opcode-bearing records
/// in order; the first record that cannot be serialized aborts with its
/// error.
pub open spec fn p2_bytes(recs: Seq<SpecInstr>, syms: Seq<SpecSymbol>) -> Result<
    Seq<u8>,
    SpecAsmError,
>
    decreases recs.len(),
{
    if recs.len() == 0 {
        Ok(Seq::empty())
    } else if recs[0].opcode is Some {
        match spec_record_bytes(recs[0], syms) {
            Err(e) => Err(e),
            Ok(b) => match p2_bytes(recs.drop_first(), syms) {
                Err(e) => Err(e),
                Ok(rest) => Ok(b + rest),
            },
        }
    } else {
        p2_bytes(recs.drop_first(), syms)
    }
}

/// What assembling a source text yields: the parse, pass one with its
/// section check (all collected errors abort assembly), then pass two and
/// the assembled image: header, read-only segment, code segment.
pub open spec fn spec_assemble(src: Seq<u8>) -> Result<Seq<u8>, Seq<SpecAsmError>> {
    match parser::spec_program(src) {
        Err(pos) => Err(seq![SpecAsmError::ParseError { position: pos as usize }]),
        Ok(recs) => {
            let st = p1_final(recs);
            if st.errors.len() > 0 {
                Err(st.errors)
            } else {
                match p2_bytes(recs, st.symbols) {
                    Err(e) => Err(seq![e]),
                    Ok(code) => Ok(spec_header(st.ro.len() as int) + st.ro + code),
                }
            }
        },
    }
}

/// The view of a list of reported errors.
pub open spec fn errs_view(v: Seq<AssemblerError>) -> Seq<SpecAsmError> {
    Seq::new(v.len(), |i: int| v[i]@)
}

/// What a successful assembly leaves in the assembler: the completed symbol
/// table of pass one, and the code segment pass two emitted.
pub open spec fn assemble_state_post(a: Assembler, src: Seq<u8>) -> bool {
    match parser::spec_program(src) {
        Ok(recs) => a.symbols@ == p1_final(recs).symbols && a.bytecode@ == p2_bytes(
            recs,
            p1_final(recs).symbols,
        )->Ok_0,
        Err(_) => true,
    }
}

/// How an executable assembly result matches its specification.
pub open spec fn assemble_post(
    r: Result<Vec<u8>, Vec<AssemblerError>>,
    sp: Result<Seq<u8>, Seq<SpecAsmError>>,
) -> bool {
    match sp {
        Ok(b) => r matches Ok(v) && v@ == b,
        Err(es) => r matches Err(ev) && errs_view(ev@) == es,
    }
}

#[derive(Debug)]
pub struct Assembler {
    /// Tracks which phase the assembler is in.
    pub phase: AssemblerPhase,
    /// Symbol table for labels and string constants.
    pub symbols: SymbolTable,
    /// The read-only data section that string constants are put into.
    pub ro: Vec<u8>,
    /// The most recently emitted code segment.
    pub bytecode: Vec<u8>,
    /// The current offset of the read-only section; always its length.
    pub ro_offset: usize,
    /// Every section header seen so far, in order.
    pub sections: Vec<AssemblerSection>,
    /// The section the records being walked are currently in.
    pub current_section: Option<AssemblerSection>,
    /// The index of the record being walked.
    pub current_instruction: u32,
    /// The errors found so far, reported as a batch.
    pub errors: Vec<AssemblerError>,
}

/// The pass-one state an assembler holds.
pub open spec fn p1_of(a: Assembler) -> P1 {
    P1 {
        symbols: a.symbols@,
        ro: a.ro@,
        sections: a.sections@,
        current_section: a.current_section,
        errors: errs_view(a.errors@),
    }
}

impl Assembler {
    /// A fresh assembler, ready for one compilation.
    pub open spec fn is_initial(&self) -> bool {
        &&& self.phase is First
    &&& p1_of(*self) == p1_init()
    &&& self.ro_offset == 0
    &&& self.current_instruction == 0
    &&& self.bytecode@.len() == 0
    }

    pub fn new() -> (r: Assembler)
        ensures
            r.is_initial(),
    {
        let r = Assembler {
            phase: AssemblerPhase::First,
            symbols: SymbolTable::new(),
            ro: Vec::new(),
            bytecode: Vec::new(),
            ro_offset: 0,
            sections: Vec::new(),
            current_section: None,
            current_instruction: 0,
            errors: Vec::new(),
        };
        proof {
            assert(r.symbols@ =~= Seq::<SpecSymbol>::empty());
            assert(errs_view(r.errors@) =~= Seq::<SpecAsmError>::empty());
        }
        r
    }

    /// The image header for the current read-only segment.
    fn write_pie_header(&self) -> (r: Vec<u8>)
        ensures
            r@ == spec_header(self.ro@.len() as int),
    {
        let mut header: Vec<u8> = Vec::new();
        header.push(45);
        header.push(50);
        header.push(49);
        header.push(45);
        let cap: u32 = if (self.ro.len() as u64) > 0xffff_ffffu64 {
            0xffff_ffffu32
        } else {
            self.ro.len() as u32
        };
        header.push((cap / 0x1000000 % 0x100) as u8);
        header.push((cap / 0x10000 % 0x100) as u8);
        header.push((cap / 0x100 % 0x100) as u8);
        header.push((cap % 0x100) as u8);
        let mut i: usize = 8;
        while i <= PIE_HEADER_LENGTH
            invariant
                8 <= i <= PIE_HEADER_LENGTH + 1,
                header@.len() == i,
                forall|j: int| 0 <= j < i ==> header@[j] == spec_header(self.ro@.len() as int)[j],
            decreases PIE_HEADER_LENGTH + 1 - i,
        {
            header.push(0);
            i = i + 1;
        }
        proof {
            assert(header@ =~= spec_header(self.ro@.len() as int));
        }
        header
    }

    /// Pass-one handling of a label declared on the current record.
    fn process_label_declaration(&mut self, i: &AssemblerInstruction)
        ensures
            p1_of(*final(self)) == p1_label_step(
                p1_of(*old(self)),
                i@,
                old(self).current_instruction,
            ),
            final(self).phase == old(self).phase,
            final(self).current_instruction == old(self).current_instruction,
            final(self).ro_offset == old(self).ro_offset,
            final(self).bytecode@ == old(self).bytecode@,
    {
        let name = match i.label_name() {
            Some(name) => name,
            None => {
                self.errors.push(
                    AssemblerError::StringConstantDeclaredWithoutLabel {
                        instruction: self.current_instruction,
                    },
                );
                proof {
                    assert(errs_view(self.errors@) =~= errs_view(old(self).errors@).push(
                        SpecAsmError::StringConstantDeclaredWithoutLabel {
                            instruction: old(self).current_instruction,
                        },
                    ));
                }
                return ;
            },
        };
        if self.symbols.has_symbol(name.as_slice()) {
            let ghost namev = name@;
            self.errors.push(AssemblerError::SymbolAlreadyDeclared { name });
            proof {
                assert(errs_view(self.errors@) =~= errs_view(old(self).errors@).push(
                    SpecAsmError::SymbolAlreadyDeclared { name: namev },
                ));
            }
            return ;
        }
        let offset: u32 = if self.current_instruction <= (u32::MAX - 65) / 4 {
            65 + self.current_instruction * 4
        } else {
            u32::MAX
        };
        self.symbols.add_symbol(Symbol::new_with_offset(name, SymbolType::Label, offset));
    }

    /// Pass-one handling of an `asciiz` string constant.
    fn handle_asciiz(&mut self, i: &AssemblerInstruction)
        requires
            old(self).ro_offset == old(self).ro@.len(),
        ensures
            p1_of(*final(self)) == p1_asciiz_step(
                p1_of(*old(self)),
                i@,
                old(self).current_instruction,
            ),
            final(self).ro_offset == final(self).ro@.len(),
            final(self).phase == old(self).phase,
            final(self).current_instruction == old(self).current_instruction,
            final(self).bytecode@ == old(self).bytecode@,
    {
        let content = match i.get_string_constant() {
            Some(s) => s,
            None => {
                return ;
            },
        };
        match i.label_name() {
            Some(name) => {
                let off: u32 = if (self.ro_offset as u64) <= 0xffff_ffffu64 {
                    self.ro_offset as u32
                } else {
                    u32::MAX
                };
                self.symbols.set_symbol_offset(name.as_slice(), off);
            },
            None => {
                self.errors.push(
                    AssemblerError::StringConstantDeclaredWithoutLabel {
                        instruction: self.current_instruction,
                    },
                );
                proof {
                    assert(errs_view(self.errors@) =~= errs_view(old(self).errors@).push(
                        SpecAsmError::StringConstantDeclaredWithoutLabel {
                            instruction: old(self).current_instruction,
                        },
                    ));
                }
                return ;
            },
        };
        let n = content.len();
        let mut k: usize = 0;
        while k < n
            invariant
                k <= n,
                n == content@.len(),
                self.ro@ =~= old(self).ro@ + content@.subrange(0, k as int),
                self.symbols@ == p1_asciiz_step(
                    p1_of(*old(self)),
                    i@,
                    old(self).current_instruction,
                ).symbols,
                self.errors@ == old(self).errors@,
                self.sections@ == old(self).sections@,
                self.current_section == old(self).current_section,
                self.phase == old(self).phase,
                self.current_instruction == old(self).current_instruction,
                self.bytecode@ == old(self).bytecode@,
            decreases n - k,
        {
            let byte = content[k];
            self.ro.push(byte);
            proof {
                assert(self.ro@ =~= old(self).ro@ + content@.subrange(0, k as int + 1));
            }
            k = k + 1;
        }
        self.ro.push(0);
        self.ro_offset = self.ro.len();
        proof {
            assert(content@.subrange(0, n as int) =~= content@);
            assert(self.ro@ =~= old(self).ro@ + content@ + seq![0u8]);
        }
    }

    /// Pass-one handling of a directive record.
    fn process_directive(&mut self, i: &AssemblerInstruction)
        requires
            old(self).ro_offset == old(self).ro@.len(),
        ensures
            p1_of(*final(self)) == p1_directive_step(
                p1_of(*old(self)),
                i@,
                old(self).current_instruction,
            ),
            final(self).ro_offset == final(self).ro@.len(),
            final(self).phase == old(self).phase,
            final(self).current_instruction == old(self).current_instruction,
            final(self).bytecode@ == old(self).bytecode@,
    {
        let directive_name = match i.get_directive_name() {
            Some(name) => name,
            None => {
                self.errors.push(AssemblerError::UnknownDirectiveFound { directive: Vec::new() });
                proof {
                    assert(errs_view(self.errors@) =~= errs_view(old(self).errors@).push(
                        SpecAsmError::UnknownDirectiveFound { directive: Seq::empty() },
                    ));
                }
                return ;
            },
        };
        if i.has_operands() {
            if is_asciiz_name(directive_name.as_slice()) {
                self.handle_asciiz(i);
            } else {
                let ghost dv = directive_name@;
                self.errors.push(
                    AssemblerError::UnknownDirectiveFound { directive: directive_name },
                );
                proof {
                    assert(errs_view(self.errors@) =~= errs_view(old(self).errors@).push(
                        SpecAsmError::UnknownDirectiveFound { directive: dv },
                    ));
                }
            }
        } else {
            self.process_section_header(directive_name);
        }
    }

    /// Pass-one handling of a section header such as `.code`.
    fn process_section_header(&mut self, header_name: Vec<u8>)
        ensures
            p1_of(*final(self)) == ({
                let st = p1_of(*old(self));
                let sec = spec_section_of(header_name@);
                if sec is Unknown {
                    P1 {
                        errors: st.errors.push(SpecAsmError::InvalidSection { name: header_name@ }),
                        ..st
                    }
                } else {
                    P1 { sections: st.sections.push(sec), current_section: Some(sec), ..st }
                }
            }),
            final(self).ro_offset == old(self).ro_offset,
            final(self).phase == old(self).phase,
            final(self).current_instruction == old(self).current_instruction,
            final(self).bytecode@ == old(self).bytecode@,
    {
        let new_section = section_of_name(header_name.as_slice());
        if matches!(new_section, AssemblerSection::Unknown) {
            let ghost nv = header_name@;
            self.errors.push(AssemblerError::InvalidSection { name: header_name });
            proof {
                assert(errs_view(self.errors@) =~= errs_view(old(self).errors@).push(
                    SpecAsmError::InvalidSection { name: nv },
                ));
            }
            return ;
        }
        self.sections.push(new_section);
        self.current_section = Some(new_section);
    }

    /// Pass one: walks the records once, collecting labels into the symbol
    /// table, section headers into the section list, and string constants
    /// into the read-only segment; errors accumulate for batch reporting.
    fn process_first_phase(&mut self, p: &Program)
        requires
            old(self).ro_offset == old(self).ro@.len(),
        ensures
            p1_of(*final(self)) == p1_run(p@, p1_of(*old(self)), old(self).current_instruction),
            final(self).ro_offset == final(self).ro@.len(),
            final(self).phase is Second,
            final(self).bytecode@ == old(self).bytecode@,
    {
        let n = p.instructions.len();
        let mut i: usize = 0;
        proof {
            assert(p@.skip(0) =~= p@);
        }
        while i < n
            invariant
                i <= n,
                n == p.instructions@.len(),
                self.ro_offset == self.ro@.len(),
                self.phase == old(self).phase,
                self.bytecode@ == old(self).bytecode@,
                p1_run(p@, p1_of(*old(self)), old(self).current_instruction) == p1_run(
                    p@.skip(i as int),
                    p1_of(*self),
                    self.current_instruction,
                ),
            decreases n - i,
        {
            proof {
                assert(p@.skip(i as int)[0] == p@[i as int]);
                assert(p@.skip(i as int).drop_first() =~= p@.skip(i as int + 1));
            }
            let rec = &p.instructions[i];
            proof {
                assert(rec@ == p@[i as int]);
            }
            if rec.is_label() {
                if self.current_section.is_some() {
                    self.process_label_declaration(rec);
                } else {
                    let ghost pre = errs_view(self.errors@);
                    self.errors.push(
                        AssemblerError::NoSegmentDeclarationFound {
                            instruction: self.current_instruction,
                        },
                    );
                    proof {
                        assert(errs_view(self.errors@) =~= pre.push(
                            SpecAsmError::NoSegmentDeclarationFound {
                                instruction: self.current_instruction,
                            },
                        ));
                    }
                }
            }
            if rec.is_directive() {
                self.process_directive(rec);
            }
            if self.current_instruction < u32::MAX {
                self.current_instruction = self.current_instruction + 1;
            }
            i = i + 1;
        }
        proof {
            assert(p@.skip(n as int).len() == 0);
        }
        self.phase = AssemblerPhase::Second;
    }

    /// Pass two: re-walks the records and emits one four-byte word per
    /// opcode-bearing record, resolving label operands against the symbol
    /// table; the first record that cannot be serialized aborts.
    fn process_second_phase(&mut self, p: &Program) -> (r: Result<Vec<u8>, AssemblerError>)
        ensures
            to_bytes_post(r, p2_bytes(p@, old(self).symbols@)),
            p1_of(*final(self)) == p1_of(*old(self)),
            final(self).ro_offset == old(self).ro_offset,
            final(self).phase == old(self).phase,
    {
        self.current_instruction = 0;
        let mut program: Vec<u8> = Vec::new();
        let n = p.instructions.len();
        proof {
            assert(p@.skip(0) =~= p@);
            if p2_bytes(p@, self.symbols@) is Ok {
                assert(Seq::<u8>::empty() + p2_bytes(p@, self.symbols@)->Ok_0 =~= p2_bytes(
                    p@,
                    self.symbols@,
                )->Ok_0);
            }
        }
        let mut i: usize = 0;
        while i < n
            invariant
                i <= n,
                n == p.instructions@.len(),
                p1_of(*self) == p1_of(*old(self)),
                self.ro_offset == old(self).ro_offset,
                self.phase == old(self).phase,
                p2_bytes(p@, self.symbols@) == (match p2_bytes(p@.skip(i as int), self.symbols@) {
                    Ok(rest) => Ok::<Seq<u8>, SpecAsmError>(program@ + rest),
                    Err(e) => Err::<Seq<u8>, SpecAsmError>(e),
                }),
            decreases n - i,
        {
            proof {
                assert(p@.skip(i as int)[0] == p@[i as int]);
                assert(p@.skip(i as int).drop_first() =~= p@.skip(i as int + 1));
            }
            let rec = &p.instructions[i];
            proof {
                assert(rec@ == p@[i as int]);
            }
            if rec.is_opcode() {
                match rec.to_bytes(&self.symbols) {
                    Ok(bytes) => {
                        let ghost before = program@;
                        let mut bytes = bytes;
                        program.append(&mut bytes);
                        proof {
                            if p2_bytes(p@.skip(i as int + 1), self.symbols@) is Ok {
                                let rest = p2_bytes(p@.skip(i as int + 1), self.symbols@)->Ok_0;
                                assert(program@ + rest =~= before + (spec_record_bytes(
                                    p@[i as int],
                                    self.symbols@,
                                )->Ok_0 + rest));
                            }
                        }
                    },
                    Err(e) => {
                        return Err(e);
                    },
                }
            }
            if self.current_instruction < u32::MAX {
                self.current_instruction = self.current_instruction + 1;
            }
            i = i + 1;
        }
        proof {
            assert(p@.skip(n as int).len() == 0);
            assert(program@ + Seq::<u8>::empty() =~= program@);
        }
        Ok(program)
    }

    /// Assembles a source text into a binary image, or the batch of errors
    /// that stopped it.  The assembler must be fresh: each compilation uses
    /// its own assembler.
    pub fn assemble(&mut self, raw: &str) -> (r: Result<Vec<u8>, Vec<AssemblerError>>)
        requires
            old(self).is_initial(),
        ensures
            assemble_post(r, spec_assemble(raw.spec_bytes())),
            r is Ok ==> assemble_state_post(*final(self), raw.spec_bytes()),
    {
        match parser::program(raw) {
            Err(e) => {
                let ghost ev = e@;
                let mut v: Vec<AssemblerError> = Vec::new();
                v.push(e);
                proof {
                    assert(errs_view(v@) =~= seq![ev]);
                }
                Err(v)
            },
            Ok(prog) => {
                self.process_first_phase(&prog);
                let sections_ok = self.sections.len() == 2 && ((matches!(
                    self.sections[0],
                    AssemblerSection::Data { .. },
                ) && matches!(self.sections[1], AssemblerSection::Code { .. })) || (matches!(
                    self.sections[0],
                    AssemblerSection::Code { .. },
                ) && matches!(self.sections[1], AssemblerSection::Data { .. })));
                if !sections_ok {
                    self.errors.push(AssemblerError::InsufficientSections);
                    proof {
                        assert(errs_view(self.errors@) =~= p1_run(
                            prog@,
                            p1_init(),
                            0,
                        ).errors.push(SpecAsmError::InsufficientSections));
                    }
                }
                if self.errors.len() > 0 {
                    let mut errs: Vec<AssemblerError> = Vec::new();
                    core::mem::swap(&mut self.errors, &mut errs);
                    return Err(errs);
                }
                match self.process_second_phase(&prog) {
                    Err(e) => {
                        let ghost ev = e@;
                        let mut v: Vec<AssemblerError> = Vec::new();
                        v.push(e);
                        proof {
                            assert(errs_view(v@) =~= seq![ev]);
                        }
                        Err(v)
                    },
                    Ok(body) => {
                        self.bytecode = clone_bytes(&body);
                        let mut out = self.write_pie_header();
                        let ghost hv = out@;
                        let mut ro_copy = clone_bytes(&self.ro);
                        out.append(&mut ro_copy);
                        let mut body = body;
                        let ghost bv = body@;
                        out.append(&mut body);
                        proof {
                            assert(out@ =~= hv + self.ro@ + bv);
                        }
                        Ok(out)
                    },
                }
            },
        }
    }
}

} // verus!
