//! The interactive shell's verified core: its state (command history, a
//! machine, an assembler), the recognition of meta-commands, and the parsing
//! of raw hexadecimal program lines.  The reading and printing around these
//! decisions lives outside the library.

use crate::assembler::Assembler;
use crate::parser::is_space;
use crate::parser::B_DOT;
use crate::parser::B_UNDER;
use crate::parser::LET_A;
use crate::parser::LET_B;
use crate::parser::LET_C;
use crate::parser::LET_D;
use crate::parser::LET_E;
use crate::parser::LET_F;
use crate::parser::LET_G;
use crate::parser::LET_H;
use crate::parser::LET_I;
use crate::parser::LET_L;
use crate::parser::LET_M;
use crate::parser::LET_O;
use crate::parser::LET_P;
use crate::parser::LET_Q;
use crate::parser::LET_R;
use crate::parser::LET_S;
use crate::parser::LET_T;
use crate::parser::LET_U;
use crate::parser::LET_Y;
use crate::vm::VM;
use vstd::prelude::*;
use vstd::string::StringSliceAdditionalSpecFns;

verus! {

/// What one line typed at the shell asks for.
#[derive(Debug, PartialEq, Eq, Structural, Copy, Clone)]
pub enum ReplCommand {
    /// `.quit`: leave the shell.
    Quit,
    /// `.history`: list the lines typed so far.
    History,
    /// `.program`: list the bytes of the machine's program buffer.
    Program,
    /// `.registers`: list the registers.
    Registers,
    /// `.symbols`: list the symbol table.
    Symbols,
    /// `.clear_program`: empty the machine's program buffer.
    ClearProgram,
    /// `.clear_registers`: zero the registers.
    ClearRegisters,
    /// `.load_file`: assemble a file and run it.
    LoadFile,
    /// Anything else: the line is assembly source to run.
    Source,
}

pub open spec fn cmd_quit() -> Seq<u8> {
    seq![B_DOT, LET_Q, LET_U, LET_I, LET_T]
}

pub open spec fn cmd_history() -> Seq<u8> {
    seq![B_DOT, LET_H, LET_I, LET_S, LET_T, LET_O, LET_R, LET_Y]
}

pub open spec fn cmd_program() -> Seq<u8> {
    seq![B_DOT, LET_P, LET_R, LET_O, LET_G, LET_R, LET_A, LET_M]
}

pub open spec fn cmd_registers() -> Seq<u8> {
    seq![B_DOT, LET_R, LET_E, LET_G, LET_I, LET_S, LET_T, LET_E, LET_R, LET_S]
}

pub open spec fn cmd_symbols() -> Seq<u8> {
    seq![B_DOT, LET_S, LET_Y, LET_M, LET_B, LET_O, LET_L, LET_S]
}

pub open spec fn cmd_clear_program() -> Seq<u8> {
    seq![
        B_DOT,
        LET_C,
        LET_L,
        LET_E,
        LET_A,
        LET_R,
        B_UNDER,
        LET_P,
        LET_R,
        LET_O,
        LET_G,
        LET_R,
        LET_A,
        LET_M,
    ]
}

pub open spec fn cmd_clear_registers() -> Seq<u8> {
    seq![
        B_DOT,
        LET_C,
        LET_L,
        LET_E,
        LET_A,
        LET_R,
        B_UNDER,
        LET_R,
        LET_E,
        LET_G,
        LET_I,
        LET_S,
        LET_T,
        LET_E,
        LET_R,
        LET_S,
    ]
}

pub open spec fn cmd_load_file() -> Seq<u8> {
    seq![B_DOT, LET_L, LET_O, LET_A, LET_D, B_UNDER, LET_F, LET_I, LET_L, LET_E]
}

/// The command a trimmed input line names; a line that names none is source.
pub open spec fn spec_parse_command(s: Seq<u8>) -> ReplCommand {
    if s == cmd_quit() {
        ReplCommand::Quit
    } else if s == cmd_history() {
        ReplCommand::History
    } else if s == cmd_program() {
        ReplCommand::Program
    } else if s == cmd_registers() {
        ReplCommand::Registers
    } else if s == cmd_symbols() {
        ReplCommand::Symbols
    } else if s == cmd_clear_program() {
        ReplCommand::ClearProgram
    } else if s == cmd_clear_registers() {
        ReplCommand::ClearRegisters
    } else if s == cmd_load_file() {
        ReplCommand::LoadFile
    } else {
        ReplCommand::Source
    }
}

fn seq_cmd_eq(line: &[u8], w: &[u8]) -> (r: bool)
    ensures
        r == (line@ == w@),
{
    crate::symbols::bytes_eq(line, w)
}

/// A command word as a byte vector, for comparison with the input line.
fn cmd_bytes(which: ReplCommand) -> (r: Vec<u8>)
    ensures
        which is Quit ==> r@ == cmd_quit(),
        which is History ==> r@ == cmd_history(),
        which is Program ==> r@ == cmd_program(),
        which is Registers ==> r@ == cmd_registers(),
        which is Symbols ==> r@ == cmd_symbols(),
        which is ClearProgram ==> r@ == cmd_clear_program(),
        which is ClearRegisters ==> r@ == cmd_clear_registers(),
        which is LoadFile ==> r@ == cmd_load_file(),
        which is Source ==> r@.len() == 0,
{
    let mut v: Vec<u8> = Vec::new();
    match which {
        ReplCommand::Quit => {
            v.push(B_DOT);
            v.push(LET_Q);
            v.push(LET_U);
            v.push(LET_I);
            v.push(LET_T);
            proof {
                assert(v@ =~= cmd_quit());
            }
        },
        ReplCommand::History => {
            v.push(B_DOT);
            v.push(LET_H);
            v.push(LET_I);
            v.push(LET_S);
            v.push(LET_T);
            v.push(LET_O);
            v.push(LET_R);
            v.push(LET_Y);
            proof {
                assert(v@ =~= cmd_history());
            }
        },
        ReplCommand::Program => {
            v.push(B_DOT);
            v.push(LET_P);
            v.push(LET_R);
            v.push(LET_O);
            v.push(LET_G);
            v.push(LET_R);
            v.push(LET_A);
            v.push(LET_M);
            proof {
                assert(v@ =~= cmd_program());
            }
        },
        ReplCommand::Registers => {
            v.push(B_DOT);
            v.push(LET_R);
            v.push(LET_E);
            v.push(LET_G);
            v.push(LET_I);
            v.push(LET_S);
            v.push(LET_T);
            v.push(LET_E);
            v.push(LET_R);
            v.push(LET_S);
            proof {
                assert(v@ =~= cmd_registers());
            }
        },
        ReplCommand::Symbols => {
            v.push(B_DOT);
            v.push(LET_S);
            v.push(LET_Y);
            v.push(LET_M);
            v.push(LET_B);
            v.push(LET_O);
            v.push(LET_L);
            v.push(LET_S);
            proof {
                assert(v@ =~= cmd_symbols());
            }
        },
        ReplCommand::ClearProgram => {
            v.push(B_DOT);
            v.push(LET_C);
            v.push(LET_L);
            v.push(LET_E);
            v.push(LET_A);
            v.push(LET_R);
            v.push(B_UNDER);
            v.push(LET_P);
            v.push(LET_R);
            v.push(LET_O);
            v.push(LET_G);
            v.push(LET_R);
            v.push(LET_A);
            v.push(LET_M);
            proof {
                assert(v@ =~= cmd_clear_program());
            }
        },
        ReplCommand::ClearRegisters => {
            v.push(B_DOT);
            v.push(LET_C);
            v.push(LET_L);
            v.push(LET_E);
            v.push(LET_A);
            v.push(LET_R);
            v.push(B_UNDER);
            v.push(LET_R);
            v.push(LET_E);
            v.push(LET_G);
            v.push(LET_I);
            v.push(LET_S);
            v.push(LET_T);
            v.push(LET_E);
            v.push(LET_R);
            v.push(LET_S);
            proof {
                assert(v@ =~= cmd_clear_registers());
            }
        },
        ReplCommand::LoadFile => {
            v.push(B_DOT);
            v.push(LET_L);
            v.push(LET_O);
            v.push(LET_A);
            v.push(LET_D);
            v.push(B_UNDER);
            v.push(LET_F);
            v.push(LET_I);
            v.push(LET_L);
            v.push(LET_E);
            proof {
                assert(v@ =~= cmd_load_file());
            }
        },
        ReplCommand::Source => {},
    }
    v
}

/// Recognizes the meta-command a trimmed shell line names, if any.
pub fn parse_command(line: &str) -> (r: ReplCommand)
    ensures
        r == spec_parse_command(line.spec_bytes()),
{
    let b: &[u8] = line.as_bytes();
    if seq_cmd_eq(b, cmd_bytes(ReplCommand::Quit).as_slice()) {
        ReplCommand::Quit
    } else if seq_cmd_eq(b, cmd_bytes(ReplCommand::History).as_slice()) {
        ReplCommand::History
    } else if seq_cmd_eq(b, cmd_bytes(ReplCommand::Program).as_slice()) {
        ReplCommand::Program
    } else if seq_cmd_eq(b, cmd_bytes(ReplCommand::Registers).as_slice()) {
        ReplCommand::Registers
    } else if seq_cmd_eq(b, cmd_bytes(ReplCommand::Symbols).as_slice()) {
        ReplCommand::Symbols
    } else if seq_cmd_eq(b, cmd_bytes(ReplCommand::ClearProgram).as_slice()) {
        ReplCommand::ClearProgram
    } else if seq_cmd_eq(b, cmd_bytes(ReplCommand::ClearRegisters).as_slice()) {
        ReplCommand::ClearRegisters
    } else if seq_cmd_eq(b, cmd_bytes(ReplCommand::LoadFile).as_slice()) {
        ReplCommand::LoadFile
    } else {
        ReplCommand::Source
    }
}

/// An ASCII hexadecimal digit.
pub open spec fn is_hex_digit(b: u8) -> bool {
    (48 <= b <= 57) || (97 <= b <= 102) || (65 <= b <= 70)
}

/// The value of one hexadecimal digit.
pub open spec fn hex_digit_val(b: u8) -> int {
    if 48 <= b <= 57 {
        b - 48
    } else if 97 <= b <= 102 {
        b - 87
    } else {
        b - 55
    }
}

/// The value of the hexadecimal digit run `s[i..j)`.
pub open spec fn spec_hex_val(s: Seq<u8>, i: int, j: int) -> int
    decreases j - i,
{
    if j <= i {
        0
    } else {
        spec_hex_val(s, i, j - 1) * 16 + hex_digit_val(s[j - 1])
    }
}

/// End of the run of non-space bytes starting at `i`.
pub open spec fn spec_span_word(s: Seq<u8>, i: int) -> int
    decreases s.len() - i,
{
    if 0 <= i < s.len() && !is_space(s[i]) {
        spec_span_word(s, i + 1)
    } else {
        i
    }
}

/// The bytes a space-separated line of hexadecimal byte values denotes, if
/// every word of it is a run of hexadecimal digits valued below 256.
pub open spec fn spec_parse_hex(s: Seq<u8>, i: int) -> Option<Seq<u8>>
    decreases s.len() - i,
{
    let e = spec_span_word(s, i);
    if e <= i || e > s.len() {
        None
    } else if !(forall|k: int| i <= k < e ==> is_hex_digit(#[trigger] s[k])) {
        None
    } else if spec_hex_val(s, i, e) > 255 {
        None
    } else {
        let b = spec_hex_val(s, i, e) as u8;
        if e >= s.len() {
            Some(seq![b])
        } else {
            match spec_parse_hex(s, e + 1) {
                None => None,
                Some(rest) => Some(seq![b] + rest),
            }
        }
    }
}

proof fn lemma_hex_val_nonneg(s: Seq<u8>, i: int, j: int)
    requires
        forall|k: int| i <= k < j ==> is_hex_digit(#[trigger] s[k]),
        0 <= i,
        j <= s.len(),
    ensures
        spec_hex_val(s, i, j) >= 0,
    decreases j - i,
{
    if j > i {
        lemma_hex_val_nonneg(s, i, j - 1);
    }
}

proof fn lemma_hex_val_mono(s: Seq<u8>, i: int, j: int, j2: int)
    requires
        forall|k: int| i <= k < j2 ==> is_hex_digit(#[trigger] s[k]),
        0 <= i <= j <= j2 <= s.len(),
    ensures
        spec_hex_val(s, i, j) <= spec_hex_val(s, i, j2),
    decreases j2 - j,
{
    if j < j2 {
        lemma_hex_val_mono(s, i, j, j2 - 1);
        lemma_hex_val_nonneg(s, i, j2 - 1);
    }
}

fn span_word(s: &[u8], from: usize) -> (r: usize)
    requires
        from <= s@.len(),
    ensures
        from <= r <= s@.len(),
        r == spec_span_word(s@, from as int),
{
    let n = s.len();
    let mut pos = from;
    while pos < n && !(s[pos] == 32 || s[pos] == 9 || s[pos] == 10 || s[pos] == 13)
        invariant
            from <= pos <= n,
            n == s@.len(),
            spec_span_word(s@, from as int) == spec_span_word(s@, pos as int),
        decreases n - pos,
    {
        pos = pos + 1;
    }
    pos
}

/// One word of hexadecimal digits as a byte value, if it is one.
fn parse_hex_word(s: &[u8], from: usize, to: usize) -> (r: Option<u8>)
    requires
        from < to <= s@.len(),
    ensures
        r matches Some(v) ==> (forall|k: int| from <= k < to ==> is_hex_digit(#[trigger] s@[k]))
            && v as int == spec_hex_val(s@, from as int, to as int) && v <= 255,
        r is None ==> ((forall|k: int| from <= k < to ==> is_hex_digit(#[trigger] s@[k]))
            ==> spec_hex_val(s@, from as int, to as int) > 255),
{
    let mut acc: u32 = 0;
    let mut k = from;
    while k < to
        invariant
            from <= k <= to <= s@.len(),
            forall|j: int| from <= j < k ==> is_hex_digit(#[trigger] s@[j]),
            acc as int == spec_hex_val(s@, from as int, k as int),
            acc <= 255,
        decreases to - k,
    {
        let b = s[k];
        let d: u32 = if 48 <= b && b <= 57 {
            (b - 48) as u32
        } else if 97 <= b && b <= 102 {
            (b - 87) as u32
        } else if 65 <= b && b <= 70 {
            (b - 55) as u32
        } else {
            proof {
                assert(!is_hex_digit(s@[k as int]));
                assert(!(forall|j: int| from <= j < to ==> is_hex_digit(#[trigger] s@[j])));
            }
            return None;
        };
        if acc > (255 - d) / 16 {
            proof {
                assert(16 * ((255 - d) as int / 16) >= 255 - d - 15) by (nonlinear_arith)
                    requires
                        0 <= d <= 255,
                ;
                assert(acc as int * 16 + d as int > 255) by (nonlinear_arith)
                    requires
                        acc as int > (255 - d) as int / 16,
                        16 * ((255 - d) as int / 16) >= 255 - d - 15,
                        0 <= d <= 15,
                ;
                assert(spec_hex_val(s@, from as int, k as int + 1) > 255);
                if forall|j: int| from <= j < to ==> is_hex_digit(#[trigger] s@[j]) {
                    lemma_hex_val_mono(s@, from as int, k as int + 1, to as int);
                }
            }
            return None;
        }
        proof {
            assert(16 * ((255 - d) as int / 16) <= 255 - d) by (nonlinear_arith)
                requires
                    0 <= d <= 255,
            ;
            assert(acc as int * 16 + d as int <= 255) by (nonlinear_arith)
                requires
                    acc as int <= (255 - d) as int / 16,
                    16 * ((255 - d) as int / 16) <= 255 - d,
                    0 <= d,
            ;
        }
        acc = acc * 16 + d;
        k = k + 1;
    }
    Some(acc as u8)
}

/// The interactive shell's state.
#[derive(Debug)]
pub struct REPL {
    pub command_buffer: Vec<String>,
    pub vm: VM,
    pub assembler: Assembler,
}

impl REPL {
    /// A fresh shell: an empty history, a fresh machine and a fresh
    /// assembler.
    pub fn new() -> (r: REPL)
        ensures
            r.command_buffer@.len() == 0,
            r.vm.wf(),
            r.vm@.status is Running,
            r.vm@.program.len() == 0,
            r.assembler.is_initial(),
    {
        REPL { command_buffer: Vec::new(), vm: VM::new(), assembler: Assembler::new() }
    }

    /// Records one typed line in the history.
    pub fn record_command(&mut self, line: String)
        ensures
            final(self).command_buffer@ == old(self).command_buffer@.push(line),
            final(self).vm == old(self).vm,
            final(self).assembler == old(self).assembler,
    {
        self.command_buffer.push(line);
    }

    /// Parses a line of space-separated hexadecimal byte values, such as a
    /// raw instruction word `01 01 03 E8`, into the bytes it denotes.
    pub fn parse_hex(&mut self, i: &str) -> (r: Option<Vec<u8>>)
        ensures
            *final(self) == *old(self),
            (match r {
                Some(v) => spec_parse_hex(i.spec_bytes(), 0) == Some(v@),
                None => spec_parse_hex(i.spec_bytes(), 0) is None,
            }),
    {
        let s: &[u8] = i.as_bytes();
        let n = s.len();
        let mut results: Vec<u8> = Vec::new();
        let mut pos: usize = 0;
        proof {
            if spec_parse_hex(s@, 0) is Some {
                assert(Seq::<u8>::empty() + spec_parse_hex(s@, 0)->0 =~= spec_parse_hex(s@, 0)->0);
            }
        }
        loop
            invariant_except_break
                pos <= n,
                n == s@.len(),
                s@ == i.spec_bytes(),
                *self == *old(self),
                (match spec_parse_hex(s@, pos as int) {
                    Some(rest) => spec_parse_hex(s@, 0) == Some(results@ + rest),
                    None => spec_parse_hex(s@, 0) is None,
                }),
            ensures
                *self == *old(self),
                spec_parse_hex(s@, 0) == Some(results@),
                s@ == i.spec_bytes(),
            decreases n - pos,
        {
            let e = span_word(s, pos);
            if e == pos || e > n {
                return None;
            }
            match parse_hex_word(s, pos, e) {
                None => {
                    return None;
                },
                Some(v) => {
                    let ghost before = results@;
                    results.push(v);
                    proof {
                        if e < n && spec_parse_hex(s@, e as int + 1) is Some {
                            let rest = spec_parse_hex(s@, e as int + 1)->0;
                            assert(before + (seq![v] + rest) =~= (before + seq![v]) + rest);
                        }
                        assert(before + seq![v] =~= results@);
                    }
                    if e >= n {
                        proof {
                            assert(before + seq![v] =~= results@);
                        }
                        break ;
                    }
                    pos = e + 1;
                },
            }
        }
        Some(results)
    }
}

impl Default for REPL {
    fn default() -> (r: Self)
        ensures
            r.command_buffer@.len() == 0,
            r.vm.wf(),
            r.vm@.status is Running,
            r.assembler.is_initial(),
    {
        Self::new()
    }
}

} // verus!
