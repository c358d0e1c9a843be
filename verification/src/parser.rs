//! The parser of the assembly language: a recursive-descent reading of the
//! grammar
//!
//! ```text
//! register        := '$' digits            (index 0 to 31)
//! integer_operand := '#' digits            (base 10, fits a signed 32-bit)
//! label_decl      := alnum+ ':'
//! label_usage     := '@' alnum+
//! string_literal  := "'" any-but-quote* "'"
//! directive_name  := '.' alpha+
//! operand         := integer_operand | label_usage | register | string_literal
//! instruction     := label_decl? (opcode operand{0,3} | directive_name operand{0,3})
//! program         := instruction+          (consuming the entire input)
//! ```
//!
//! Whitespace is insignificant between tokens.  An unrecognized mnemonic is
//! not a parse failure: it becomes the illegal-opcode token and faults when
//! executed.  Every parser is specified against a spec-level mirror of the
//! grammar over the byte sequence of the source text.

use crate::instructions::Opcode;
use crate::tokens::AssemblerInstruction;
use crate::tokens::Program;
use crate::tokens::SpecInstr;
use crate::tokens::SpecToken;
use crate::tokens::Token;
use crate::errors::AssemblerError;
use crate::errors::SpecAsmError;
use vstd::prelude::*;
use vstd::string::StringSliceAdditionalSpecFns;

verus! {

// Byte values of the punctuation and letters the grammar reads.
pub const B_HASH: u8 = 35;

pub const B_DOLLAR: u8 = 36;

pub const B_QUOTE: u8 = 39;

pub const B_DOT: u8 = 46;

pub const B_COLON: u8 = 58;

pub const B_AT: u8 = 64;

pub const LET_A: u8 = 97;

pub const LET_B: u8 = 98;

pub const LET_C: u8 = 99;

pub const LET_D: u8 = 100;

pub const LET_E: u8 = 101;

pub const LET_F: u8 = 102;

pub const LET_G: u8 = 103;

pub const LET_H: u8 = 104;

pub const LET_I: u8 = 105;

pub const LET_J: u8 = 106;

pub const LET_L: u8 = 108;

pub const LET_M: u8 = 109;

pub const LET_N: u8 = 110;

pub const LET_O: u8 = 111;

pub const LET_P: u8 = 112;

pub const LET_Q: u8 = 113;

pub const LET_R: u8 = 114;

pub const LET_S: u8 = 115;

pub const LET_T: u8 = 116;

pub const LET_U: u8 = 117;

pub const LET_V: u8 = 118;

pub const LET_Y: u8 = 121;

pub const LET_Z: u8 = 122;

pub const B_UNDER: u8 = 95;

/// ASCII space, tab, line feed or carriage return.
pub open spec fn is_space(b: u8) -> bool {
    b == 32 || b == 9 || b == 10 || b == 13
}

/// ASCII decimal digit.
pub open spec fn is_digit(b: u8) -> bool {
    48 <= b <= 57
}

/// ASCII letter.
pub open spec fn is_alpha(b: u8) -> bool {
    (65 <= b <= 90) || (97 <= b <= 122)
}

/// ASCII letter or digit.
pub open spec fn is_alnum(b: u8) -> bool {
    is_alpha(b) || is_digit(b)
}

/// Position of the first non-whitespace byte at or after `i`.
pub open spec fn spec_skip_ws(s: Seq<u8>, i: int) -> int
    decreases s.len() - i,
{
    if 0 <= i < s.len() && is_space(s[i]) {
        spec_skip_ws(s, i + 1)
    } else {
        i
    }
}

/// End of the run of digits starting at `i`.
pub open spec fn spec_span_digits(s: Seq<u8>, i: int) -> int
    decreases s.len() - i,
{
    if 0 <= i < s.len() && is_digit(s[i]) {
        spec_span_digits(s, i + 1)
    } else {
        i
    }
}

/// End of the run of letters starting at `i`.
pub open spec fn spec_span_alpha(s: Seq<u8>, i: int) -> int
    decreases s.len() - i,
{
    if 0 <= i < s.len() && is_alpha(s[i]) {
        spec_span_alpha(s, i + 1)
    } else {
        i
    }
}

/// End of the run of letters and digits starting at `i`.
pub open spec fn spec_span_alnum(s: Seq<u8>, i: int) -> int
    decreases s.len() - i,
{
    if 0 <= i < s.len() && is_alnum(s[i]) {
        spec_span_alnum(s, i + 1)
    } else {
        i
    }
}

/// Position of the first quote byte at or after `i`, or -1 if none remains.
pub open spec fn spec_find_quote(s: Seq<u8>, i: int) -> int
    decreases s.len() - i,
{
    if i >= s.len() {
        -1
    } else if s[i] == B_QUOTE {
        i
    } else {
        spec_find_quote(s, i + 1)
    }
}

/// The number the digit run `s[i..j)` denotes in base 10.
pub open spec fn spec_digits_val(s: Seq<u8>, i: int, j: int) -> int
    decreases j - i,
{
    if j <= i {
        0
    } else {
        spec_digits_val(s, i, j - 1) * 10 + (s[j - 1] - 48)
    }
}

pub proof fn lemma_digits_val_nonneg(s: Seq<u8>, i: int, j: int)
    requires
        forall|k: int| i <= k < j ==> is_digit(#[trigger] s[k]),
        0 <= i,
        j <= s.len(),
    ensures
        spec_digits_val(s, i, j) >= 0,
    decreases j - i,
{
    if j > i {
        lemma_digits_val_nonneg(s, i, j - 1);
    }
}

pub proof fn lemma_digits_val_mono(s: Seq<u8>, i: int, j: int, j2: int)
    requires
        forall|k: int| i <= k < j2 ==> is_digit(#[trigger] s[k]),
        0 <= i <= j <= j2 <= s.len(),
    ensures
        spec_digits_val(s, i, j) <= spec_digits_val(s, i, j2),
    decreases j2 - j,
{
    if j < j2 {
        lemma_digits_val_mono(s, i, j, j2 - 1);
        lemma_digits_val_nonneg(s, i, j2 - 1);
    }
}

/// First non-whitespace position, executable form.
pub fn skip_ws(s: &[u8], from: usize) -> (r: usize)
    requires
        from <= s@.len(),
    ensures
        from <= r <= s@.len(),
        r == spec_skip_ws(s@, from as int),
{
    let n = s.len();
    let mut pos = from;
    while pos < n && (s[pos] == 32 || s[pos] == 9 || s[pos] == 10 || s[pos] == 13)
        invariant
            from <= pos <= n,
            n == s@.len(),
            spec_skip_ws(s@, from as int) == spec_skip_ws(s@, pos as int),
        decreases n - pos,
    {
        pos = pos + 1;
    }
    pos
}

fn span_digits(s: &[u8], from: usize) -> (r: usize)
    requires
        from <= s@.len(),
    ensures
        from <= r <= s@.len(),
        r == spec_span_digits(s@, from as int),
        forall|k: int| from <= k < r ==> is_digit(#[trigger] s@[k]),
{
    let n = s.len();
    let mut pos = from;
    while pos < n && 48 <= s[pos] && s[pos] <= 57
        invariant
            from <= pos <= n,
            n == s@.len(),
            spec_span_digits(s@, from as int) == spec_span_digits(s@, pos as int),
            forall|k: int| from <= k < pos ==> is_digit(#[trigger] s@[k]),
        decreases n - pos,
    {
        pos = pos + 1;
    }
    pos
}

fn span_alpha(s: &[u8], from: usize) -> (r: usize)
    requires
        from <= s@.len(),
    ensures
        from <= r <= s@.len(),
        r == spec_span_alpha(s@, from as int),
{
    let n = s.len();
    let mut pos = from;
    while pos < n && ((65 <= s[pos] && s[pos] <= 90) || (97 <= s[pos] && s[pos] <= 122))
        invariant
            from <= pos <= n,
            n == s@.len(),
            spec_span_alpha(s@, from as int) == spec_span_alpha(s@, pos as int),
        decreases n - pos,
    {
        pos = pos + 1;
    }
    pos
}

fn span_alnum(s: &[u8], from: usize) -> (r: usize)
    requires
        from <= s@.len(),
    ensures
        from <= r <= s@.len(),
        r == spec_span_alnum(s@, from as int),
{
    let n = s.len();
    let mut pos = from;
    while pos < n && ((65 <= s[pos] && s[pos] <= 90) || (97 <= s[pos] && s[pos] <= 122) || (48
        <= s[pos] && s[pos] <= 57))
        invariant
            from <= pos <= n,
            n == s@.len(),
            spec_span_alnum(s@, from as int) == spec_span_alnum(s@, pos as int),
        decreases n - pos,
    {
        pos = pos + 1;
    }
    pos
}

fn find_quote(s: &[u8], from: usize) -> (r: Option<usize>)
    requires
        from <= s@.len(),
    ensures
        r matches Some(q) ==> from <= q < s@.len() && q == spec_find_quote(s@, from as int),
        r is None ==> spec_find_quote(s@, from as int) == -1,
{
    let n = s.len();
    let mut pos = from;
    while pos < n && s[pos] != B_QUOTE
        invariant
            from <= pos <= n,
            n == s@.len(),
            spec_find_quote(s@, from as int) == spec_find_quote(s@, pos as int),
        decreases n - pos,
    {
        pos = pos + 1;
    }
    if pos < n {
        Some(pos)
    } else {
        None
    }
}

/// A fresh copy of `s[from..to)`.
fn copy_range(s: &[u8], from: usize, to: usize) -> (r: Vec<u8>)
    requires
        from <= to <= s@.len(),
    ensures
        r@ == s@.subrange(from as int, to as int),
{
    let sub = vstd::slice::slice_subrange(s, from, to);
    vstd::slice::slice_to_vec(sub)
}

/// The value of the digit run `s[from..to)` if it is at most `max`, else
/// nothing (the number is too large for its operand).
fn parse_decimal(s: &[u8], from: usize, to: usize, max: u64) -> (r: Option<u64>)
    requires
        from <= to <= s@.len(),
        forall|k: int| from <= k < to ==> is_digit(#[trigger] s@[k]),
        9 <= max <= 0xffff_ffff,
    ensures
        r matches Some(v) ==> v as int == spec_digits_val(s@, from as int, to as int) && v <= max,
        r is None ==> spec_digits_val(s@, from as int, to as int) > max,
{
    let mut acc: u64 = 0;
    let mut k = from;
    while k < to
        invariant
            from <= k <= to <= s@.len(),
            forall|j: int| from <= j < to ==> is_digit(#[trigger] s@[j]),
            9 <= max <= 0xffff_ffff,
            acc as int == spec_digits_val(s@, from as int, k as int),
            acc <= max,
        decreases to - k,
    {
        let d: u64 = (s[k] - 48) as u64;
        if acc > (max - d) / 10 {
            proof {
                assert(10 * ((max - d) as int / 10) <= max - d) by (nonlinear_arith)
                    requires
                        0 <= d <= max,
                ;
                assert(acc as int * 10 + d as int > max) by (nonlinear_arith)
                    requires
                        acc as int > (max - d) as int / 10,
                        10 * ((max - d) as int / 10) >= max - d - 9,
                        0 <= d <= 9,
                ;
                assert(spec_digits_val(s@, from as int, k as int + 1) > max);
                lemma_digits_val_mono(s@, from as int, k as int + 1, to as int);
            }
            return None;
        }
        proof {
            assert(10 * ((max - d) as int / 10) <= max - d) by (nonlinear_arith)
                requires
                    0 <= d <= max,
            ;
            assert(acc as int * 10 + d as int <= max) by (nonlinear_arith)
                requires
                    acc as int <= (max - d) as int / 10,
                    10 * ((max - d) as int / 10) <= max - d,
                    0 <= d,
            ;
        }
        acc = acc * 10 + d;
        k = k + 1;
    }
    Some(acc)
}

/// The opcode a mnemonic names; an unknown mnemonic is the illegal opcode.
pub open spec fn spec_mnemonic(s: Seq<u8>) -> Opcode {
    if s.len() == 2 {
        if s[0] == LET_E && s[1] == LET_Q {
            Opcode::EQ
        } else if s[0] == LET_G && s[1] == LET_T {
            Opcode::GT
        } else if s[0] == LET_L && s[1] == LET_T {
            Opcode::LT
        } else {
            Opcode::IGL
        }
    } else if s.len() == 3 {
        if s[0] == LET_H && s[1] == LET_L && s[2] == LET_T {
            Opcode::HLT
        } else if s[0] == LET_I && s[1] == LET_N && s[2] == LET_C {
            Opcode::INC
        } else if s[0] == LET_D && s[1] == LET_E && s[2] == LET_C {
            Opcode::DEC
        } else if s[0] == LET_A && s[1] == LET_D && s[2] == LET_D {
            Opcode::ADD
        } else if s[0] == LET_S && s[1] == LET_U && s[2] == LET_B {
            Opcode::SUB
        } else if s[0] == LET_M && s[1] == LET_U && s[2] == LET_L {
            Opcode::MUL
        } else if s[0] == LET_D && s[1] == LET_I && s[2] == LET_V {
            Opcode::DIV
        } else if s[0] == LET_J && s[1] == LET_M && s[2] == LET_P {
            Opcode::JMP
        } else if s[0] == LET_N && s[1] == LET_E && s[2] == LET_Q {
            Opcode::NEQ
        } else if s[0] == LET_G && s[1] == LET_T && s[2] == LET_E {
            Opcode::GTE
        } else if s[0] == LET_L && s[1] == LET_T && s[2] == LET_E {
            Opcode::LTE
        } else if s[0] == LET_N && s[1] == LET_O && s[2] == LET_P {
            Opcode::NOP
        } else {
            Opcode::IGL
        }
    } else if s.len() == 4 {
        if s[0] == LET_L && s[1] == LET_O && s[2] == LET_A && s[3] == LET_D {
            Opcode::LOAD
        } else if s[0] == LET_J && s[1] == LET_M && s[2] == LET_P && s[3] == LET_F {
            Opcode::JMPF
        } else if s[0] == LET_J && s[1] == LET_M && s[2] == LET_P && s[3] == LET_B {
            Opcode::JMPB
        } else if s[0] == LET_J && s[1] == LET_M && s[2] == LET_P && s[3] == LET_E {
            Opcode::JMPE
        } else if s[0] == LET_A && s[1] == LET_L && s[2] == LET_O && s[3] == LET_C {
            Opcode::ALOC
        } else if s[0] == LET_P && s[1] == LET_R && s[2] == LET_T && s[3] == LET_S {
            Opcode::PRTS
        } else {
            Opcode::IGL
        }
    } else {
        Opcode::IGL
    }
}

/// Looks the letter run `s[from..to)` up in the mnemonic table.
pub(crate) fn mnemonic_code(s: &[u8], from: usize, to: usize) -> (r: Opcode)
    requires
        from <= to <= s@.len(),
    ensures
        r == spec_mnemonic(s@.subrange(from as int, to as int)),
{
    let n = to - from;
    if n == 2 {
        let a = s[from];
        let b = s[from + 1];
        if a == LET_E && b == LET_Q {
            Opcode::EQ
        } else if a == LET_G && b == LET_T {
            Opcode::GT
        } else if a == LET_L && b == LET_T {
            Opcode::LT
        } else {
            Opcode::IGL
        }
    } else if n == 3 {
        let a = s[from];
        let b = s[from + 1];
        let c = s[from + 2];
        if a == LET_H && b == LET_L && c == LET_T {
            Opcode::HLT
        } else if a == LET_I && b == LET_N && c == LET_C {
            Opcode::INC
        } else if a == LET_D && b == LET_E && c == LET_C {
            Opcode::DEC
        } else if a == LET_A && b == LET_D && c == LET_D {
            Opcode::ADD
        } else if a == LET_S && b == LET_U && c == LET_B {
            Opcode::SUB
        } else if a == LET_M && b == LET_U && c == LET_L {
            Opcode::MUL
        } else if a == LET_D && b == LET_I && c == LET_V {
            Opcode::DIV
        } else if a == LET_J && b == LET_M && c == LET_P {
            Opcode::JMP
        } else if a == LET_N && b == LET_E && c == LET_Q {
            Opcode::NEQ
        } else if a == LET_G && b == LET_T && c == LET_E {
            Opcode::GTE
        } else if a == LET_L && b == LET_T && c == LET_E {
            Opcode::LTE
        } else if a == LET_N && b == LET_O && c == LET_P {
            Opcode::NOP
        } else {
            Opcode::IGL
        }
    } else if n == 4 {
        let a = s[from];
        let b = s[from + 1];
        let c = s[from + 2];
        let d = s[from + 3];
        if a == LET_L && b == LET_O && c == LET_A && d == LET_D {
            Opcode::LOAD
        } else if a == LET_J && b == LET_M && c == LET_P && d == LET_F {
            Opcode::JMPF
        } else if a == LET_J && b == LET_M && c == LET_P && d == LET_B {
            Opcode::JMPB
        } else if a == LET_J && b == LET_M && c == LET_P && d == LET_E {
            Opcode::JMPE
        } else if a == LET_A && b == LET_L && c == LET_O && d == LET_C {
            Opcode::ALOC
        } else if a == LET_P && b == LET_R && c == LET_T && d == LET_S {
            Opcode::PRTS
        } else {
            Opcode::IGL
        }
    } else {
        Opcode::IGL
    }
}

/// The view of a token parser's result.
pub open spec fn tok_res_view(r: Option<(usize, Token)>) -> Option<(int, SpecToken)> {
    match r {
        Some((j, t)) => Some((j as int, t@)),
        None => None,
    }
}



/// Mirror of the register parser: optional whitespace, `$`, optional
/// whitespace, a digit run denoting an index no larger than 31.
pub open spec fn spec_register(s: Seq<u8>, i: int) -> Option<(int, SpecToken)> {
    let j = spec_skip_ws(s, i);
    if j < s.len() && s[j] == B_DOLLAR {
        let k = spec_skip_ws(s, j + 1);
        let e = spec_span_digits(s, k);
        if e == k {
            None
        } else {
            let v = spec_digits_val(s, k, e);
            if v <= 31 {
                Some((e, SpecToken::Register { reg_num: v as u8 }))
            } else {
                None
            }
        }
    } else {
        None
    }
}

/// Mirror of the integer operand parser: `#` then a digit run whose value
/// fits a signed 32-bit integer.
pub open spec fn spec_integer_operand(s: Seq<u8>, i: int) -> Option<(int, SpecToken)> {
    let j = spec_skip_ws(s, i);
    if j < s.len() && s[j] == B_HASH {
        let k = spec_skip_ws(s, j + 1);
        let e = spec_span_digits(s, k);
        if e == k {
            None
        } else {
            let v = spec_digits_val(s, k, e);
            if v <= i32::MAX {
                Some((e, SpecToken::IntegerOperand { value: v as i32 }))
            } else {
                None
            }
        }
    } else {
        None
    }
}

/// Mirror of the label usage parser: `@` then a letter-or-digit run.
pub open spec fn spec_label_usage(s: Seq<u8>, i: int) -> Option<(int, SpecToken)> {
    let j = spec_skip_ws(s, i);
    if j < s.len() && s[j] == B_AT {
        let k = spec_skip_ws(s, j + 1);
        let e = spec_span_alnum(s, k);
        if e == k {
            None
        } else {
            Some((e, SpecToken::LabelUsage { name: s.subrange(k, e) }))
        }
    } else {
        None
    }
}

/// Mirror of the string literal parser: a quote, anything up to the next
/// quote, and that closing quote.
pub open spec fn spec_irstring(s: Seq<u8>, i: int) -> Option<(int, SpecToken)> {
    let j = spec_skip_ws(s, i);
    if j < s.len() && s[j] == B_QUOTE {
        let q = spec_find_quote(s, j + 1);
        if q < 0 {
            None
        } else {
            Some((q + 1, SpecToken::IrString { name: s.subrange(j + 1, q) }))
        }
    } else {
        None
    }
}

/// Mirror of the label declaration parser: a letter-or-digit run, then a
/// colon with whitespace allowed around it.
pub open spec fn spec_label_declaration(s: Seq<u8>, i: int) -> Option<(int, SpecToken)> {
    let e = spec_span_alnum(s, i);
    if e == i {
        None
    } else {
        let j = spec_skip_ws(s, e);
        if j < s.len() && s[j] == B_COLON {
            Some((spec_skip_ws(s, j + 1), SpecToken::LabelDeclaration { name: s.subrange(i, e) }))
        } else {
            None
        }
    }
}

/// Mirror of the directive name parser: a dot then a letter run.
pub open spec fn spec_directive_declaration(s: Seq<u8>, i: int) -> Option<(int, SpecToken)> {
    if 0 <= i < s.len() && s[i] == B_DOT {
        let e = spec_span_alpha(s, i + 1);
        if e == i + 1 {
            None
        } else {
            Some((e, SpecToken::Directive { name: s.subrange(i + 1, e) }))
        }
    } else {
        None
    }
}

/// Mirror of the mnemonic parser: a letter run looked up in the opcode
/// table; an unknown run is the illegal opcode, not a failure.
pub open spec fn spec_opcode_load(s: Seq<u8>, i: int) -> Option<(int, SpecToken)> {
    let e = spec_span_alpha(s, i);
    if e == i {
        None
    } else {
        Some((e, SpecToken::Op { code: spec_mnemonic(s.subrange(i, e)) }))
    }
}

/// Mirror of the operand parser: the alternatives in the grammar's order.
pub open spec fn spec_operand(s: Seq<u8>, i: int) -> Option<(int, SpecToken)> {
    match spec_integer_operand(s, i) {
        Some(r) => Some(r),
        None => match spec_label_usage(s, i) {
            Some(r) => Some(r),
            None => match spec_register(s, i) {
                Some(r) => Some(r),
                None => spec_irstring(s, i),
            },
        },
    }
}

/// Parses a register operand such as `$0`.
pub fn register(s: &[u8], from: usize) -> (r: Option<(usize, Token)>)
    requires
        from <= s@.len(),
    ensures
        tok_res_view(r) == spec_register(s@, from as int),
        r matches Some((j, _)) ==> from < j <= s@.len(),
{
    let j = skip_ws(s, from);
    if j < s.len() && s[j] == B_DOLLAR {
        let k = skip_ws(s, j + 1);
        let e = span_digits(s, k);
        if e == k {
            return None;
        }
        match parse_decimal(s, k, e, 31) {
            Some(v) => Some((e, Token::Register { reg_num: v as u8 })),
            None => None,
        }
    } else {
        None
    }
}

/// Parses an integer operand such as `#100`.
fn integer_operand(s: &[u8], from: usize) -> (r: Option<(usize, Token)>)
    requires
        from <= s@.len(),
    ensures
        tok_res_view(r) == spec_integer_operand(s@, from as int),
        r matches Some((j, _)) ==> from < j <= s@.len(),
{
    let j = skip_ws(s, from);
    if j < s.len() && s[j] == B_HASH {
        let k = skip_ws(s, j + 1);
        let e = span_digits(s, k);
        if e == k {
            return None;
        }
        match parse_decimal(s, k, e, 0x7fff_ffff) {
            Some(v) => Some((e, Token::IntegerOperand { value: v as i32 })),
            None => None,
        }
    } else {
        None
    }
}

/// Parses a label reference such as `@loop`.
pub fn label_usage(s: &[u8], from: usize) -> (r: Option<(usize, Token)>)
    requires
        from <= s@.len(),
    ensures
        tok_res_view(r) == spec_label_usage(s@, from as int),
        r matches Some((j, _)) ==> from < j <= s@.len(),
{
    let j = skip_ws(s, from);
    if j < s.len() && s[j] == B_AT {
        let k = skip_ws(s, j + 1);
        let e = span_alnum(s, k);
        if e == k {
            return None;
        }
        Some((e, Token::LabelUsage { name: copy_range(s, k, e) }))
    } else {
        None
    }
}

/// Parses a string literal such as `'Hello'`.
fn irstring(s: &[u8], from: usize) -> (r: Option<(usize, Token)>)
    requires
        from <= s@.len(),
    ensures
        tok_res_view(r) == spec_irstring(s@, from as int),
        r matches Some((j, _)) ==> from < j <= s@.len(),
{
    let j = skip_ws(s, from);
    if j < s.len() && s[j] == B_QUOTE {
        match find_quote(s, j + 1) {
            Some(q) => Some((q + 1, Token::IrString { name: copy_range(s, j + 1, q) })),
            None => None,
        }
    } else {
        None
    }
}

/// Parses a label declaration such as `loop:`.
pub fn label_declaration(s: &[u8], from: usize) -> (r: Option<(usize, Token)>)
    requires
        from <= s@.len(),
    ensures
        tok_res_view(r) == spec_label_declaration(s@, from as int),
        r matches Some((j, _)) ==> from < j <= s@.len(),
{
    let e = span_alnum(s, from);
    if e == from {
        return None;
    }
    let j = skip_ws(s, e);
    if j < s.len() && s[j] == B_COLON {
        let j2 = skip_ws(s, j + 1);
        Some((j2, Token::LabelDeclaration { name: copy_range(s, from, e) }))
    } else {
        None
    }
}

/// Parses a directive name such as `.data`.
pub fn directive_declaration(s: &[u8], from: usize) -> (r: Option<(usize, Token)>)
    requires
        from <= s@.len(),
    ensures
        tok_res_view(r) == spec_directive_declaration(s@, from as int),
        r matches Some((j, _)) ==> from < j <= s@.len(),
{
    if from < s.len() && s[from] == B_DOT {
        let e = span_alpha(s, from + 1);
        if e == from + 1 {
            return None;
        }
        Some((e, Token::Directive { name: copy_range(s, from + 1, e) }))
    } else {
        None
    }
}

/// Parses a mnemonic into its opcode token.
pub fn opcode_load(s: &[u8], from: usize) -> (r: Option<(usize, Token)>)
    requires
        from <= s@.len(),
    ensures
        tok_res_view(r) == spec_opcode_load(s@, from as int),
        r matches Some((j, _)) ==> from < j <= s@.len(),
{
    let e = span_alpha(s, from);
    if e == from {
        return None;
    }
    Some((e, Token::Op { code: mnemonic_code(s, from, e) }))
}

/// Parses one operand, trying integer, label reference, register and string
/// literal in that order.
pub fn operand(s: &[u8], from: usize) -> (r: Option<(usize, Token)>)
    requires
        from <= s@.len(),
    ensures
        tok_res_view(r) == spec_operand(s@, from as int),
        r matches Some((j, _)) ==> from < j <= s@.len(),
{
    match integer_operand(s, from) {
        Some(r) => {
            return Some(r);
        },
        None => {},
    }
    match label_usage(s, from) {
        Some(r) => {
            return Some(r);
        },
        None => {},
    }
    match register(s, from) {
        Some(r) => {
            return Some(r);
        },
        None => {},
    }
    irstring(s, from)
}

/// The view of a record parser's result.
pub open spec fn instr_res_view(r: Option<(usize, AssemblerInstruction)>) -> Option<
    (int, SpecInstr),
> {
    match r {
        Some((j, rec)) => Some((j as int, rec@)),
        None => None,
    }
}

/// Mirror of an opcode-bearing record: an optional label declaration, a
/// mnemonic, and up to three operands.
pub open spec fn spec_instruction_combined(s: Seq<u8>, i: int) -> Option<(int, SpecInstr)> {
    let (i1, lab) = match spec_label_declaration(s, i) {
        Some((j, t)) => (j, Some(t)),
        None => (i, None),
    };
    match spec_opcode_load(s, i1) {
        None => None,
        Some((i2, op)) => {
            let (i3, o1) = match spec_operand(s, i2) {
                Some((j, t)) => (j, Some(t)),
                None => (i2, None),
            };
            let (i4, o2) = match spec_operand(s, i3) {
                Some((j, t)) => (j, Some(t)),
                None => (i3, None),
            };
            let (i5, o3) = match spec_operand(s, i4) {
                Some((j, t)) => (j, Some(t)),
                None => (i4, None),
            };
            Some(
                (
                    i5,
                    SpecInstr {
                        opcode: Some(op),
                        label: lab,
                        directive: None,
                        operand1: o1,
                        operand2: o2,
                        operand3: o3,
                    },
                ),
            )
        },
    }
}

/// Mirror of a directive record: an optional label declaration, a directive
/// name, and up to three operands.
pub open spec fn spec_directive_combined(s: Seq<u8>, i: int) -> Option<(int, SpecInstr)> {
    let (i1, lab) = match spec_label_declaration(s, i) {
        Some((j, t)) => (j, Some(t)),
        None => (i, None),
    };
    match spec_directive_declaration(s, i1) {
        None => None,
        Some((i2, d)) => {
            let (i3, o1) = match spec_operand(s, i2) {
                Some((j, t)) => (j, Some(t)),
                None => (i2, None),
            };
            let (i4, o2) = match spec_operand(s, i3) {
                Some((j, t)) => (j, Some(t)),
                None => (i3, None),
            };
            let (i5, o3) = match spec_operand(s, i4) {
                Some((j, t)) => (j, Some(t)),
                None => (i4, None),
            };
            Some(
                (
                    i5,
                    SpecInstr {
                        opcode: None,
                        label: lab,
                        directive: Some(d),
                        operand1: o1,
                        operand2: o2,
                        operand3: o3,
                    },
                ),
            )
        },
    }
}

/// Mirror of one record: leading whitespace skipped, then an opcode record
/// or a directive record.
pub open spec fn spec_instruction(s: Seq<u8>, i: int) -> Option<(int, SpecInstr)> {
    let j = spec_skip_ws(s, i);
    match spec_instruction_combined(s, j) {
        Some(r) => Some(r),
        None => spec_directive_combined(s, j),
    }
}

fn instruction_combined(s: &[u8], from: usize) -> (r: Option<(usize, AssemblerInstruction)>)
    requires
        from <= s@.len(),
    ensures
        instr_res_view(r) == spec_instruction_combined(s@, from as int),
        r matches Some((j, _)) ==> from < j <= s@.len(),
{
    let (i1, label) = match label_declaration(s, from) {
        Some((j, t)) => (j, Some(t)),
        None => (from, None),
    };
    match opcode_load(s, i1) {
        None => None,
        Some((i2, op)) => {
            let (i3, o1) = match operand(s, i2) {
                Some((j, t)) => (j, Some(t)),
                None => (i2, None),
            };
            let (i4, o2) = match operand(s, i3) {
                Some((j, t)) => (j, Some(t)),
                None => (i3, None),
            };
            let (i5, o3) = match operand(s, i4) {
                Some((j, t)) => (j, Some(t)),
                None => (i4, None),
            };
            Some(
                (
                    i5,
                    AssemblerInstruction {
                        opcode: Some(op),
                        label,
                        directive: None,
                        operand1: o1,
                        operand2: o2,
                        operand3: o3,
                    },
                ),
            )
        },
    }
}

fn directive_combined(s: &[u8], from: usize) -> (r: Option<(usize, AssemblerInstruction)>)
    requires
        from <= s@.len(),
    ensures
        instr_res_view(r) == spec_directive_combined(s@, from as int),
        r matches Some((j, _)) ==> from < j <= s@.len(),
{
    let (i1, label) = match label_declaration(s, from) {
        Some((j, t)) => (j, Some(t)),
        None => (from, None),
    };
    match directive_declaration(s, i1) {
        None => None,
        Some((i2, d)) => {
            let (i3, o1) = match operand(s, i2) {
                Some((j, t)) => (j, Some(t)),
                None => (i2, None),
            };
            let (i4, o2) = match operand(s, i3) {
                Some((j, t)) => (j, Some(t)),
                None => (i3, None),
            };
            let (i5, o3) = match operand(s, i4) {
                Some((j, t)) => (j, Some(t)),
                None => (i4, None),
            };
            Some(
                (
                    i5,
                    AssemblerInstruction {
                        opcode: None,
                        label,
                        directive: Some(d),
                        operand1: o1,
                        operand2: o2,
                        operand3: o3,
                    },
                ),
            )
        },
    }
}

/// Parses a directive record, with its optional label and operands.
pub fn directive(s: &[u8], from: usize) -> (r: Option<(usize, AssemblerInstruction)>)
    requires
        from <= s@.len(),
    ensures
        instr_res_view(r) == spec_directive_combined(s@, from as int),
        r matches Some((j, _)) ==> from < j <= s@.len(),
{
    directive_combined(s, from)
}

/// Parses one record: an opcode instruction or a directive.
pub fn instruction(s: &[u8], from: usize) -> (r: Option<(usize, AssemblerInstruction)>)
    requires
        from <= s@.len(),
    ensures
        instr_res_view(r) == spec_instruction(s@, from as int),
        r matches Some((j, _)) ==> from < j <= s@.len(),
{
    let j = skip_ws(s, from);
    match instruction_combined(s, j) {
        Some(r) => Some(r),
        None => directive_combined(s, j),
    }
}

/// Records parsed from position `i` to the end of the input, or the position
/// at which no record could be read.
pub open spec fn spec_program_rec(s: Seq<u8>, i: int) -> Result<Seq<SpecInstr>, int>
    decreases s.len() - i,
{
    if i >= s.len() {
        Ok(Seq::empty())
    } else {
        let j = spec_skip_ws(s, i);
        if j >= s.len() {
            Ok(Seq::empty())
        } else {
            match spec_instruction(s, i) {
                None => Err(j),
                Some((k, rec)) => {
                    let next = if k <= i {
                        i + 1
                    } else if k <= s.len() {
                        k
                    } else {
                        s.len() as int
                    };
                    match spec_program_rec(s, next) {
                        Err(p) => Err(p),
                        Ok(rest) => Ok(seq![rec] + rest),
                    }
                },
            }
        }
    }
}

/// Mirror of the whole-program parser: one or more records consuming the
/// entire input; otherwise the position at which parsing stopped.
pub open spec fn spec_program(s: Seq<u8>) -> Result<Seq<SpecInstr>, int> {
    match spec_program_rec(s, 0) {
        Err(p) => Err(p),
        Ok(recs) => if recs.len() == 0 {
            Err(spec_skip_ws(s, 0))
        } else {
            Ok(recs)
        },
    }
}

/// The view of a sequence of records.
pub open spec fn recs_view(v: Seq<AssemblerInstruction>) -> Seq<SpecInstr> {
    Seq::new(v.len(), |i: int| v[i]@)
}

/// How the program parser's result matches its mirror.
pub open spec fn program_post(
    r: Result<Program, AssemblerError>,
    sp: Result<Seq<SpecInstr>, int>,
) -> bool {
    match sp {
        Ok(recs) => r matches Ok(p) && p@ == recs,
        Err(pos) => r matches Err(e) && e@ == (SpecAsmError::ParseError {
            position: pos as usize,
        }),
    }
}

/// Relates the records read so far to the whole parse: whatever the rest of
/// the input yields from position `i`, prepending `acc` gives the result of
/// the parse from the start.
pub open spec fn rec_cont(s: Seq<u8>, i: int, acc: Seq<SpecInstr>) -> bool {
    match spec_program_rec(s, i) {
        Ok(rest) => spec_program_rec(s, 0) == Ok::<Seq<SpecInstr>, int>(acc + rest),
        Err(p) => spec_program_rec(s, 0) == Err::<Seq<SpecInstr>, int>(p),
    }
}

/// Parses a whole source text into its records.  The grammar requires at
/// least one record and the parser must consume the entire input: trailing
/// text that is not a record is an error, carrying the position at which
/// parsing stopped.
pub fn program(input: &str) -> (r: Result<Program, AssemblerError>)
    ensures
        program_post(r, spec_program(input.spec_bytes())),
{
    let bytes: &[u8] = input.as_bytes();
    let ghost sv = input.spec_bytes();
    let n = bytes.len();
    let mut records: Vec<AssemblerInstruction> = Vec::new();
    let mut pos: usize = 0;
    proof {
        if spec_program_rec(sv, 0) is Ok {
            assert(Seq::<SpecInstr>::empty() + spec_program_rec(sv, 0)->Ok_0 =~= spec_program_rec(
                sv,
                0,
            )->Ok_0);
        }
        assert(recs_view(records@) =~= Seq::<SpecInstr>::empty());
    }
    loop
        invariant_except_break
            pos <= n,
            n == bytes@.len(),
            bytes@ == sv,
            sv == input.spec_bytes(),
            rec_cont(sv, pos as int, recs_view(records@)),
        ensures
            pos <= n,
            n == bytes@.len(),
            bytes@ == sv,
            sv == input.spec_bytes(),
            rec_cont(sv, pos as int, recs_view(records@)),
            spec_skip_ws(sv, pos as int) >= n,
        decreases n - pos,
    {
        let j = skip_ws(bytes, pos);
        if j >= n {
            break ;
        }
        match instruction(bytes, pos) {
            Some((k, rec)) => {
                let ghost recv = rec@;
                let ghost acc0 = recs_view(records@);
                records.push(rec);
                pos = k;
                proof {
                    assert(recs_view(records@) =~= acc0 + seq![recv]);
                    if spec_program_rec(sv, k as int) is Ok {
                        let rest = spec_program_rec(sv, k as int)->Ok_0;
                        assert(acc0 + (seq![recv] + rest) =~= (acc0 + seq![recv]) + rest);
                    }
                }
            },
            None => {
                return Err(AssemblerError::ParseError { position: j });
            },
        }
    }
    if records.len() == 0 {
        let j0 = skip_ws(bytes, 0);
        return Err(AssemblerError::ParseError { position: j0 });
    }
    let prog = Program { instructions: records };
    proof {
        assert(prog@ =~= recs_view(prog.instructions@));
    }
    Ok(prog)
}

} // verus!
