//! Proved laws of the assembler and the machine, stated over the same spec
//! functions the executable contracts use.

use crate::assembler::p1_final;
use crate::assembler::p1_init;
use crate::assembler::p1_run;
use crate::assembler::p1_sections_ok;
use crate::assembler::p1_step;
use crate::assembler::p2_bytes;
use crate::assembler::sat_inc;
use crate::assembler::spec_assemble;
use crate::assembler::spec_section_of;
use crate::assembler::P1;
use crate::errors::SpecAsmError;
use crate::instructions::spec_opcode_of_byte;
use crate::instructions::Opcode;
use crate::parser::spec_program;
use crate::symbols::sym_index;
use crate::symbols::table_has;
use crate::symbols::SpecSymbol;
use crate::tokens::spec_opt_operand_bytes;
use crate::tokens::spec_record_bytes;
use crate::tokens::SpecInstr;
use crate::tokens::SpecToken;
use crate::vm::spec_step;
use crate::vm::VmModel;
use vstd::prelude::*;

verus! {

// ---------------------------------------------------------------------------
// The size of the code segment.
// ---------------------------------------------------------------------------
/// Whether a record's operands fit beside the opcode byte in one word: at
/// most three operand bytes.  Every instruction of the surface language fits
/// (registers are one byte, immediates and label references two, and no
/// instruction takes more than one two-byte operand with one register).
pub open spec fn record_fits(rec: SpecInstr, syms: Seq<SpecSymbol>) -> bool {
    match (
        spec_opt_operand_bytes(rec.operand1, syms),
        spec_opt_operand_bytes(rec.operand2, syms),
        spec_opt_operand_bytes(rec.operand3, syms),
    ) {
        (Ok(b1), Ok(b2), Ok(b3)) => b1.len() + b2.len() + b3.len() <= 3,
        _ => true,
    }
}

/// How many records of the sequence carry an opcode.
pub open spec fn opcode_count(recs: Seq<SpecInstr>) -> int
    decreases recs.len(),
{
    if recs.len() == 0 {
        0
    } else {
        (if recs[0].opcode is Some {
            1int
        } else {
            0int
        }) + opcode_count(recs.drop_first())
    }
}

proof fn lemma_record_word_len(rec: SpecInstr, syms: Seq<SpecSymbol>)
    requires
        spec_record_bytes(rec, syms) is Ok,
        record_fits(rec, syms),
    ensures
        spec_record_bytes(rec, syms)->Ok_0.len() == 4,
{
}

/// For any program whose serialization succeeds and whose records fit, the
/// code segment is exactly four bytes per opcode-bearing record.
pub proof fn lemma_code_segment_length(recs: Seq<SpecInstr>, syms: Seq<SpecSymbol>)
    requires
        p2_bytes(recs, syms) is Ok,
        forall|i: int| 0 <= i < recs.len() ==> #[trigger] record_fits(recs[i], syms),
    ensures
        p2_bytes(recs, syms)->Ok_0.len() == 4 * opcode_count(recs),
    decreases recs.len(),
{
    if recs.len() > 0 {
        assert forall|i: int| 0 <= i < recs.drop_first().len() implies #[trigger] record_fits(
            recs.drop_first()[i],
            syms,
        ) by {
            assert(recs.drop_first()[i] == recs[i + 1]);
        }
        lemma_code_segment_length(recs.drop_first(), syms);
        if recs[0].opcode is Some {
            lemma_record_word_len(recs[0], syms);
        }
    }
}

/// For any source text that assembles, with every record fitting one word,
/// the image is the 65-byte header, the read-only segment, and exactly four
/// bytes of code per opcode-bearing record.
pub proof fn lemma_image_length(src: Seq<u8>, recs: Seq<SpecInstr>)
    requires
        spec_program(src) == Ok::<Seq<SpecInstr>, int>(recs),
        spec_assemble(src) is Ok,
        forall|i: int|
            0 <= i < recs.len() ==> #[trigger] record_fits(recs[i], p1_final(recs).symbols),
    ensures
        spec_assemble(src)->Ok_0.len() == 65 + p1_final(recs).ro.len() + 4 * opcode_count(recs),
{
    let st = p1_final(recs);
    lemma_code_segment_length(recs, st.symbols);
}

proof fn lemma_be32_round_trip(c: int)
    requires
        0 <= c < 0x1_0000_0000,
    ensures
        (c / 0x1000000 % 0x100) * 0x1000000 + (c / 0x10000 % 0x100) * 0x10000 + (c / 0x100
            % 0x100) * 0x100 + (c % 0x100) == c,
{
    vstd::arithmetic::div_mod::lemma_div_denominator(c, 0x10000, 0x100);
    vstd::arithmetic::div_mod::lemma_div_denominator(c, 0x100, 0x100);
    vstd::arithmetic::div_mod::lemma_fundamental_div_mod(c / 0x10000, 0x100);
    vstd::arithmetic::div_mod::lemma_fundamental_div_mod(c / 0x100, 0x100);
    vstd::arithmetic::div_mod::lemma_fundamental_div_mod(c, 0x100);
    vstd::arithmetic::div_mod::lemma_div_is_ordered(c, 0xffff_ffff, 0x1000000);
    vstd::arithmetic::div_mod::lemma_div_pos_is_pos(c, 0x1000000);
    vstd::arithmetic::div_mod::lemma_small_mod((c / 0x1000000) as nat, 0x100);
}

/// Every assembled image loads: the magic prefix is in place, the header
/// records the exact length of the read-only segment, and loading splits the
/// image back into the read-only segment and the program that assembly put
/// there.  The header length, the segment placement and the offset
/// arithmetic are mutually consistent.
pub proof fn lemma_assembled_image_loads(src: Seq<u8>, recs: Seq<SpecInstr>)
    requires
        spec_program(src) == Ok::<Seq<SpecInstr>, int>(recs),
        spec_assemble(src) is Ok,
        p1_final(recs).ro.len() <= 0xffff_ffff,
    ensures
        ({
            let img = spec_assemble(src)->Ok_0;
            let st = p1_final(recs);
            &&& crate::vm::spec_load_ok(img)
            &&& crate::vm::spec_ro_len(img) == st.ro.len()
            &&& img.subrange(65, 65 + st.ro.len() as int) == st.ro
            &&& img.subrange(0, 65) == crate::assembler::spec_header(st.ro.len() as int)
        }),
{
    let st = p1_final(recs);
    let code = p2_bytes(recs, st.symbols)->Ok_0;
    let hdr = crate::assembler::spec_header(st.ro.len() as int);
    let img = hdr + st.ro + code;
    let c = st.ro.len() as int;
    assert(spec_assemble(src)->Ok_0 == img);
    assert(hdr.len() == 65);
    lemma_be32_round_trip(c);
    assert(img[4] == hdr[4] && img[5] == hdr[5] && img[6] == hdr[6] && img[7] == hdr[7]);
    assert(crate::vm::spec_ro_len(img) == c);
    assert(img.subrange(65, 65 + c) =~= st.ro);
    assert(img.subrange(0, 65) =~= hdr);
}

// ---------------------------------------------------------------------------
// Duplicate label declarations.
// ---------------------------------------------------------------------------
/// Whether some symbol of the table carries the name.
pub open spec fn has_symbol_named(syms: Seq<SpecSymbol>, n: Seq<u8>) -> bool {
    exists|i: int| 0 <= i < syms.len() && #[trigger] syms[i].name == n
}

/// Whether the error list reports the name as declared twice.
pub open spec fn has_dup_error(errs: Seq<SpecAsmError>, n: Seq<u8>) -> bool {
    exists|i: int|
        0 <= i < errs.len() && #[trigger] errs[i] == (SpecAsmError::SymbolAlreadyDeclared {
            name: n,
        })
}

/// Whether the record declares a label named `n`.
pub open spec fn declares_label(rec: SpecInstr, n: Seq<u8>) -> bool {
    rec.label matches Some(SpecToken::LabelDeclaration { name }) && name == n
}

/// Whether the record is a section header that sets the current section.
pub open spec fn opens_section(rec: SpecInstr) -> bool {
    &&& rec.directive matches Some(SpecToken::Directive { name })
    &&& !(rec.operand1 is Some || rec.operand2 is Some || rec.operand3 is Some)
    &&& !(spec_section_of(name) is Unknown)
}

proof fn lemma_table_has_exists(syms: Seq<SpecSymbol>, n: Seq<u8>)
    ensures
        table_has(syms, n) == has_symbol_named(syms, n),
{
    crate::symbols::lemma_sym_index_props(syms, n);
    if table_has(syms, n) {
        assert(syms[sym_index(syms, n)].name == n);
    }
}

/// One label-handling step never loses a recorded name, a reported
/// duplicate, or the current section.
proof fn lemma_label_mono(st: P1, rec: SpecInstr, idx: u32, n: Seq<u8>)
    ensures
        has_dup_error(st.errors, n) ==> has_dup_error(
            crate::assembler::p1_label_step(st, rec, idx).errors,
            n,
        ),
        has_symbol_named(st.symbols, n) ==> has_symbol_named(
            crate::assembler::p1_label_step(st, rec, idx).symbols,
            n,
        ),
        crate::assembler::p1_label_step(st, rec, idx).current_section == st.current_section,
{
    let st2 = crate::assembler::p1_label_step(st, rec, idx);
    assert(st2.symbols == st.symbols || (exists|x: SpecSymbol|
        st2.symbols == st.symbols.push(x)));
    assert(st2.errors == st.errors || (exists|e: SpecAsmError| st2.errors == st.errors.push(e)));
    if has_dup_error(st.errors, n) {
        let i = choose|i: int|
            0 <= i < st.errors.len() && #[trigger] st.errors[i]
                == (SpecAsmError::SymbolAlreadyDeclared { name: n });
        assert(st2.errors[i] == st.errors[i]);
    }
    if has_symbol_named(st.symbols, n) {
        let i = choose|i: int| 0 <= i < st.symbols.len() && #[trigger] st.symbols[i].name == n;
        assert(st2.symbols[i] == st.symbols[i]);
    }
}

/// One directive-handling step never loses a recorded name, a reported
/// duplicate, or the current section once set.
proof fn lemma_directive_mono(st: P1, rec: SpecInstr, idx: u32, n: Seq<u8>)
    ensures
        has_dup_error(st.errors, n) ==> has_dup_error(
            crate::assembler::p1_directive_step(st, rec, idx).errors,
            n,
        ),
        has_symbol_named(st.symbols, n) ==> has_symbol_named(
            crate::assembler::p1_directive_step(st, rec, idx).symbols,
            n,
        ),
        st.current_section is Some ==> crate::assembler::p1_directive_step(
            st,
            rec,
            idx,
        ).current_section is Some,
{
    let st2 = crate::assembler::p1_directive_step(st, rec, idx);
    match rec.label {
        Some(SpecToken::LabelDeclaration { name: lname }) => {
            crate::symbols::lemma_sym_index_props(st.symbols, lname);
        },
        _ => {},
    }
    if has_dup_error(st.errors, n) {
        let i = choose|i: int|
            0 <= i < st.errors.len() && #[trigger] st.errors[i]
                == (SpecAsmError::SymbolAlreadyDeclared { name: n });
        assert(st2.errors == st.errors || (exists|e: SpecAsmError|
            st2.errors == st.errors.push(e)));
        assert(st2.errors[i] == st.errors[i]);
    }
    if has_symbol_named(st.symbols, n) {
        let i = choose|i: int| 0 <= i < st.symbols.len() && #[trigger] st.symbols[i].name == n;
        if st2.symbols == st.symbols {
            assert(st2.symbols[i].name == n);
        } else {
            // the asciiz case: one symbol's offset is re-pointed, names stay
            assert(st2.symbols.len() == st.symbols.len());
            assert(st2.symbols[i].name == st.symbols[i].name);
        }
    }
}

/// One pass-one step never loses a recorded name, a reported duplicate, or
/// the current section.
proof fn lemma_p1_step_mono(st: P1, rec: SpecInstr, idx: u32, n: Seq<u8>)
    ensures
        has_dup_error(st.errors, n) ==> has_dup_error(p1_step(st, rec, idx).errors, n),
        has_symbol_named(st.symbols, n) ==> has_symbol_named(p1_step(st, rec, idx).symbols, n),
        st.current_section is Some ==> p1_step(st, rec, idx).current_section is Some,
{
    let st1 = if rec.label is Some {
        if st.current_section is Some {
            crate::assembler::p1_label_step(st, rec, idx)
        } else {
            P1 {
                errors: st.errors.push(
                    SpecAsmError::NoSegmentDeclarationFound { instruction: idx },
                ),
                ..st
            }
        }
    } else {
        st
    };
    lemma_label_mono(st, rec, idx, n);
    if has_dup_error(st.errors, n) {
        let i = choose|i: int|
            0 <= i < st.errors.len() && #[trigger] st.errors[i]
                == (SpecAsmError::SymbolAlreadyDeclared { name: n });
        assert(st1.errors[i] == st.errors[i]);
        assert(has_dup_error(st1.errors, n));
    }
    if has_symbol_named(st.symbols, n) {
        assert(has_symbol_named(st1.symbols, n));
    }
    if rec.directive is Some {
        lemma_directive_mono(st1, rec, idx, n);
    }
}

/// After a step on a record that declares `n` while a section is current,
/// either `n` is in the table or its duplication is already reported.
proof fn lemma_p1_step_declares(st: P1, rec: SpecInstr, idx: u32, n: Seq<u8>)
    requires
        st.current_section is Some,
        declares_label(rec, n),
    ensures
        has_symbol_named(p1_step(st, rec, idx).symbols, n) || has_dup_error(
            p1_step(st, rec, idx).errors,
            n,
        ),
{
    lemma_table_has_exists(st.symbols, n);
    let st1 = crate::assembler::p1_label_step(st, rec, idx);
    if table_has(st.symbols, n) {
        assert(st1.errors[st1.errors.len() - 1] == (SpecAsmError::SymbolAlreadyDeclared {
            name: n,
        }));
        assert(has_dup_error(st1.errors, n));
    } else {
        assert(st1.symbols[st1.symbols.len() - 1].name == n);
        assert(has_symbol_named(st1.symbols, n));
    }
    // the directive half of the step keeps both properties
    if rec.directive is Some {
        lemma_directive_mono(st1, rec, idx, n);
    }
}

/// A step on a record that declares `n` while the name is already in the
/// table reports the duplication.
proof fn lemma_p1_step_dup(st: P1, rec: SpecInstr, idx: u32, n: Seq<u8>)
    requires
        st.current_section is Some,
        declares_label(rec, n),
        has_symbol_named(st.symbols, n),
    ensures
        has_dup_error(p1_step(st, rec, idx).errors, n),
{
    lemma_table_has_exists(st.symbols, n);
    let st1 = crate::assembler::p1_label_step(st, rec, idx);
    assert(st1.errors[st1.errors.len() - 1] == (SpecAsmError::SymbolAlreadyDeclared { name: n }));
    assert(has_dup_error(st1.errors, n));
    if rec.directive is Some {
        lemma_directive_mono(st1, rec, idx, n);
    }
}

/// Whatever still runs of pass one, a reported duplicate stays reported.
proof fn lemma_p1_run_keeps_dup(recs: Seq<SpecInstr>, st: P1, idx: u32, n: Seq<u8>)
    requires
        has_dup_error(st.errors, n),
    ensures
        has_dup_error(p1_run(recs, st, idx).errors, n),
    decreases recs.len(),
{
    if recs.len() > 0 {
        lemma_p1_step_mono(st, recs[0], idx, n);
        lemma_p1_run_keeps_dup(recs.drop_first(), p1_step(st, recs[0], idx), sat_inc(idx), n);
    }
}

/// From a state that already holds `n` (or its duplicate report), a later
/// record declaring `n` makes the report certain.
proof fn lemma_p1_run_dup_from_present(
    recs: Seq<SpecInstr>,
    st: P1,
    idx: u32,
    j: int,
    n: Seq<u8>,
)
    requires
        st.current_section is Some,
        has_symbol_named(st.symbols, n) || has_dup_error(st.errors, n),
        0 <= j < recs.len(),
        declares_label(recs[j], n),
    ensures
        has_dup_error(p1_run(recs, st, idx).errors, n),
    decreases j,
{
    let st2 = p1_step(st, recs[0], idx);
    lemma_p1_step_mono(st, recs[0], idx, n);
    if j == 0 {
        if has_symbol_named(st.symbols, n) {
            lemma_p1_step_dup(st, recs[0], idx, n);
        }
        lemma_p1_run_keeps_dup(recs.drop_first(), st2, sat_inc(idx), n);
    } else {
        assert(recs.drop_first()[j - 1] == recs[j]);
        lemma_p1_run_dup_from_present(recs.drop_first(), st2, sat_inc(idx), j - 1, n);
    }
}

/// From a state whose current section is set, two later records declaring
/// the same name make the report certain.
proof fn lemma_p1_run_dup_in_section(
    recs: Seq<SpecInstr>,
    st: P1,
    idx: u32,
    i: int,
    j: int,
    n: Seq<u8>,
)
    requires
        st.current_section is Some,
        0 <= i < j < recs.len(),
        declares_label(recs[i], n),
        declares_label(recs[j], n),
    ensures
        has_dup_error(p1_run(recs, st, idx).errors, n),
    decreases i,
{
    let st2 = p1_step(st, recs[0], idx);
    lemma_p1_step_mono(st, recs[0], idx, n);
    if i == 0 {
        lemma_p1_step_declares(st, recs[0], idx, n);
        assert(recs.drop_first()[j - 1] == recs[j]);
        lemma_p1_run_dup_from_present(recs.drop_first(), st2, sat_inc(idx), j - 1, n);
    } else {
        assert(recs.drop_first()[i - 1] == recs[i]);
        assert(recs.drop_first()[j - 1] == recs[j]);
        lemma_p1_run_dup_in_section(recs.drop_first(), st2, sat_inc(idx), i - 1, j - 1, n);
    }
}

/// A section header sets the current section.
proof fn lemma_p1_step_opens(st: P1, rec: SpecInstr, idx: u32)
    requires
        opens_section(rec),
    ensures
        p1_step(st, rec, idx).current_section is Some,
{
}

/// Declaring the same label name on two records after a section header
/// anywhere before them makes pass one report `SymbolAlreadyDeclared` with
/// that name.
pub proof fn lemma_duplicate_label_reported(
    recs: Seq<SpecInstr>,
    st: P1,
    idx: u32,
    k: int,
    i: int,
    j: int,
    n: Seq<u8>,
)
    requires
        0 <= k < i < j < recs.len(),
        opens_section(recs[k]),
        declares_label(recs[i], n),
        declares_label(recs[j], n),
    ensures
        has_dup_error(p1_run(recs, st, idx).errors, n),
    decreases k,
{
    let st2 = p1_step(st, recs[0], idx);
    if k == 0 {
        lemma_p1_step_opens(st, recs[0], idx);
        assert(recs.drop_first()[i - 1] == recs[i]);
        assert(recs.drop_first()[j - 1] == recs[j]);
        lemma_p1_run_dup_in_section(recs.drop_first(), st2, sat_inc(idx), i - 1, j - 1, n);
    } else {
        assert(recs.drop_first()[k - 1] == recs[k]);
        assert(recs.drop_first()[i - 1] == recs[i]);
        assert(recs.drop_first()[j - 1] == recs[j]);
        lemma_duplicate_label_reported(recs.drop_first(), st2, sat_inc(idx), k - 1, i - 1, j - 1, n);
    }
}

/// Assembling a source text whose parse declares the same label name twice,
/// both after some section header, fails, and `SymbolAlreadyDeclared` with
/// that name is among the reported errors.
pub proof fn lemma_duplicate_label_fails(
    src: Seq<u8>,
    recs: Seq<SpecInstr>,
    k: int,
    i: int,
    j: int,
    n: Seq<u8>,
)
    requires
        spec_program(src) == Ok::<Seq<SpecInstr>, int>(recs),
        0 <= k < i < j < recs.len(),
        opens_section(recs[k]),
        declares_label(recs[i], n),
        declares_label(recs[j], n),
    ensures
        spec_assemble(src) matches Err(es) && has_dup_error(es, n),
{
    lemma_duplicate_label_reported(recs, p1_init(), 0, k, i, j, n);
    let st = p1_run(recs, p1_init(), 0);
    let stf = p1_final(recs);
    if !p1_sections_ok(st.sections) {
        let x = choose|x: int|
            0 <= x < st.errors.len() && #[trigger] st.errors[x]
                == (SpecAsmError::SymbolAlreadyDeclared { name: n });
        assert(stf.errors[x] == st.errors[x]);
    }
    assert(has_dup_error(stf.errors, n));
}

// ---------------------------------------------------------------------------
// Missing sections.
// ---------------------------------------------------------------------------
/// Whether the record is a `.data` section header.
pub open spec fn is_data_header(rec: SpecInstr) -> bool {
    &&& rec.directive matches Some(SpecToken::Directive { name })
    &&& !(rec.operand1 is Some || rec.operand2 is Some || rec.operand3 is Some)
    &&& spec_section_of(name) is Data
}

/// Whether the record is a `.code` section header.
pub open spec fn is_code_header(rec: SpecInstr) -> bool {
    &&& rec.directive matches Some(SpecToken::Directive { name })
    &&& !(rec.operand1 is Some || rec.operand2 is Some || rec.operand3 is Some)
    &&& spec_section_of(name) is Code
}

/// Whether the error list reports missing sections.
pub open spec fn has_insufficient_error(errs: Seq<SpecAsmError>) -> bool {
    exists|i: int| 0 <= i < errs.len() && #[trigger] errs[i] == SpecAsmError::InsufficientSections
}

pub open spec fn no_data_section(s: Seq<crate::assembler::AssemblerSection>) -> bool {
    forall|i: int| 0 <= i < s.len() ==> !(#[trigger] s[i] is Data)
}

pub open spec fn no_code_section(s: Seq<crate::assembler::AssemblerSection>) -> bool {
    forall|i: int| 0 <= i < s.len() ==> !(#[trigger] s[i] is Code)
}

proof fn lemma_p1_step_sections(st: P1, rec: SpecInstr, idx: u32)
    ensures
        !is_data_header(rec) && no_data_section(st.sections) ==> no_data_section(
            p1_step(st, rec, idx).sections,
        ),
        !is_code_header(rec) && no_code_section(st.sections) ==> no_code_section(
            p1_step(st, rec, idx).sections,
        ),
{
    let st2 = p1_step(st, rec, idx);
    assert forall|i: int|
        0 <= i < st2.sections.len() && i < st.sections.len() implies st2.sections[i]
        == st.sections[i] by {}
}

proof fn lemma_p1_run_sections(recs: Seq<SpecInstr>, st: P1, idx: u32)
    ensures
        (forall|i: int| 0 <= i < recs.len() ==> !#[trigger] is_data_header(recs[i]))
            && no_data_section(st.sections) ==> no_data_section(p1_run(recs, st, idx).sections),
        (forall|i: int| 0 <= i < recs.len() ==> !#[trigger] is_code_header(recs[i]))
            && no_code_section(st.sections) ==> no_code_section(p1_run(recs, st, idx).sections),
    decreases recs.len(),
{
    if recs.len() > 0 {
        lemma_p1_step_sections(st, recs[0], idx);
        assert forall|i: int| 0 <= i < recs.drop_first().len() implies recs.drop_first()[i]
            == recs[i + 1] by {}
        lemma_p1_run_sections(recs.drop_first(), p1_step(st, recs[0], idx), sat_inc(idx));
    }
}

/// Assembling a source text whose parse holds no `.data` header, or no
/// `.code` header, fails, and `InsufficientSections` is among the reported
/// errors.
pub proof fn lemma_missing_section_fails(src: Seq<u8>, recs: Seq<SpecInstr>)
    requires
        spec_program(src) == Ok::<Seq<SpecInstr>, int>(recs),
        (forall|i: int| 0 <= i < recs.len() ==> !#[trigger] is_data_header(recs[i])) || (forall|
            i: int,
        | 0 <= i < recs.len() ==> !#[trigger] is_code_header(recs[i])),
    ensures
        spec_assemble(src) matches Err(es) && has_insufficient_error(es),
{
    let st = p1_run(recs, p1_init(), 0);
    lemma_p1_run_sections(recs, p1_init(), 0);
    assert(!p1_sections_ok(st.sections));
    let stf = p1_final(recs);
    assert(stf.errors == st.errors.push(SpecAsmError::InsufficientSections));
    let last = stf.errors.len() - 1;
    assert(0 <= last < stf.errors.len() && stf.errors[last]
        == SpecAsmError::InsufficientSections);
    assert(stf.errors.len() > 0);
    assert(spec_assemble(src) == Err::<Seq<u8>, Seq<SpecAsmError>>(stf.errors));
    assert(has_insufficient_error(stf.errors));
}

// ---------------------------------------------------------------------------
// Heap growth.
// ---------------------------------------------------------------------------
/// A PRTS step emits exactly the read-only bytes from its offset up to, and
/// not including, the first zero terminator, and execution continues.
pub proof fn lemma_prts_output(m: VmModel, off: int)
    requires
        m.registers.len() == 32,
        m.status is Running,
        m.pc + 3 <= m.program.len(),
        spec_opcode_of_byte(m.program[m.pc as int]) == Opcode::PRTS,
        off == m.program[m.pc as int + 1] as int * 256 + m.program[m.pc as int + 2] as int,
        crate::vm::first_zero(m.ro_data, off) >= 0,
    ensures
        spec_step(m).output == m.output + m.ro_data.subrange(
            off,
            crate::vm::first_zero(m.ro_data, off),
        ),
        m.ro_data[crate::vm::first_zero(m.ro_data, off)] == 0,
        forall|j: int|
            off <= j < crate::vm::first_zero(m.ro_data, off) ==> m.ro_data[j] != 0,
        spec_step(m).status is Running,
{
    let m1 = VmModel { pc: (m.pc + 1) as nat, ..m };
    assert(spec_step(m) == crate::vm::spec_exec_op(m1, Opcode::PRTS));
    crate::vm::lemma_first_zero_bounds(m.ro_data, off);
}

/// An ALOC step appends exactly the register's value in zero bytes to the
/// heap: each call adds, never replaces, and the new region is zero-filled.
pub proof fn lemma_aloc_appends(m: VmModel, r: u8)
    requires
        m.registers.len() == 32,
        m.status is Running,
        m.pc + 2 <= m.program.len(),
        spec_opcode_of_byte(m.program[m.pc as int]) == Opcode::ALOC,
        m.program[m.pc as int + 1] == r,
        r < 32,
        m.registers[r as int] >= 0,
        m.heap.len() + m.registers[r as int] <= usize::MAX,
    ensures
        spec_step(m).heap == m.heap + Seq::new(m.registers[r as int] as nat, |i: int| 0u8),
        spec_step(m).heap.len() == m.heap.len() + m.registers[r as int],
        forall|i: int|
            m.heap.len() <= i < spec_step(m).heap.len() ==> #[trigger] spec_step(m).heap[i] == 0,
        spec_step(m).status is Running,
{
    let m1 = VmModel { pc: (m.pc + 1) as nat, ..m };
    assert(spec_step(m) == crate::vm::spec_exec_op(m1, Opcode::ALOC));
}

} // verus!
