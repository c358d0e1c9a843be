//! The virtual machine: 32 signed 32-bit registers, a byte-addressed program
//! buffer, a grow-only heap, a read-only data buffer for string constants and
//! an output buffer that print instructions append to.
//!
//! The machine's behaviour is captured by the total transition function
//! [`spec_step`] on the abstract state [`VmModel`]; `run_once` performs exactly
//! one such step and `run` iterates it.  Every fault (illegal opcode, short
//! fetch, division by zero, bad jump, bad register, bad allocation, missing
//! string terminator) moves the machine into a `Faulted` state instead of
//! panicking; running past the end of the program is a clean halt.

use crate::instructions::spec_opcode_of_byte;
use crate::instructions::Opcode;
use vstd::prelude::*;

verus! {

/// Total length in bytes of the image header: a four-byte magic prefix, a
/// four-byte big-endian length of the read-only segment, and zero padding
/// through byte index `PIE_HEADER_LENGTH`.
pub const PIE_HEADER_LENGTH: usize = 64;

/// The four magic bytes opening every assembled image.
pub open spec fn spec_header_prefix() -> Seq<u8> {
    seq![45u8, 50u8, 49u8, 45u8]
}

/// The reason a run stopped other than by a clean halt.
#[derive(Debug, PartialEq, Eq, Structural, Copy, Clone)]
pub enum VmFault {
    /// The fetched opcode byte does not name an instruction.
    IllegalOpcode,
    /// An operand fetch would read past the end of the program buffer.
    OutOfRangeFetch,
    /// DIV with a zero divisor.
    DivideByZero,
    /// An arithmetic result does not fit a signed 32-bit register.
    Overflow,
    /// A jump to a negative or unrepresentable program counter.
    InvalidJump,
    /// A register operand byte outside 0..32.
    InvalidRegister,
    /// A heap growth by a negative or unrepresentable amount.
    InvalidAllocation,
    /// A read of the read-only segment that finds no zero terminator.
    UnterminatedRead,
}

#[derive(Debug, PartialEq, Eq, Structural, Copy, Clone)]
pub enum VmStatus {
    Running,
    Halted,
    Faulted(VmFault),
}

/// The abstract machine state that the contracts speak of.
#[verifier::ext_equal]
pub ghost struct VmModel {
    pub registers: Seq<i32>,
    pub pc: nat,
    pub program: Seq<u8>,
    pub heap: Seq<u8>,
    pub remainder: u32,
    pub equal_flag: bool,
    pub ro_data: Seq<u8>,
    pub output: Seq<u8>,
    pub status: VmStatus,
}

pub open spec fn with_fault(m: VmModel, f: VmFault) -> VmModel {
    VmModel { status: VmStatus::Faulted(f), ..m }
}

/// The immediate operand held in two big-endian bytes, zero-extended.
pub open spec fn spec_imm16(hi: u8, lo: u8) -> i32 {
    (hi as int * 256 + lo as int) as i32
}

pub open spec fn iabs(a: int) -> int {
    if a < 0 {
        -a
    } else {
        a
    }
}

/// Quotient of division truncated toward zero, as Rust's `/` computes it.
pub open spec fn trunc_div(a: int, b: int) -> int {
    if (a < 0) != (b < 0) {
        -(iabs(a) / iabs(b))
    } else {
        iabs(a) / iabs(b)
    }
}

/// Remainder of division truncated toward zero: it carries the dividend's sign.
pub open spec fn trunc_rem(a: int, b: int) -> int {
    if a < 0 {
        -(iabs(a) % iabs(b))
    } else {
        iabs(a) % iabs(b)
    }
}

/// The two's-complement 32-bit image of a value in (-2^31, 2^32).
pub open spec fn wrap_u32(v: int) -> u32 {
    if v >= 0 {
        v as u32
    } else {
        (v + 0x1_0000_0000) as u32
    }
}

/// Index of the first zero byte of `ro` at or after `i`, or -1 if none.
pub open spec fn first_zero(ro: Seq<u8>, i: int) -> int
    decreases ro.len() - i,
{
    if i >= ro.len() {
        -1
    } else if ro[i] == 0 {
        i
    } else {
        first_zero(ro, i + 1)
    }
}

pub proof fn lemma_first_zero_bounds(ro: Seq<u8>, i: int)
    requires
        0 <= i,
        first_zero(ro, i) >= 0,
    ensures
        i <= first_zero(ro, i) < ro.len(),
        ro[first_zero(ro, i)] == 0,
        forall|j: int| i <= j < first_zero(ro, i) ==> ro[j] != 0,
    decreases ro.len() - i,
{
    if i < ro.len() && ro[i] != 0 {
        lemma_first_zero_bounds(ro, i + 1);
    }
}

pub proof fn lemma_first_zero_at(ro: Seq<u8>, i: int, end: int)
    requires
        0 <= i <= end < ro.len(),
        ro[end] == 0,
        forall|j: int| i <= j < end ==> ro[j] != 0,
    ensures
        first_zero(ro, i) == end,
    decreases end - i,
{
    if i < end {
        lemma_first_zero_at(ro, i + 1, end);
    }
}

pub proof fn lemma_first_zero_none(ro: Seq<u8>, i: int)
    requires
        0 <= i,
        forall|j: int| i <= j < ro.len() ==> ro[j] != 0,
    ensures
        first_zero(ro, i) == -1,
    decreases ro.len() - i,
{
    if i < ro.len() {
        lemma_first_zero_none(ro, i + 1);
    }
}

/// The effect of an ADD, SUB, MUL or DIV once its three register operand
/// bytes `r1 r2 rd` have been fetched (`m.pc` already points past them).
pub open spec fn spec_binop(m: VmModel, op: Opcode, r1: u8, r2: u8, rd: u8) -> VmModel {
    if r1 >= 32 || r2 >= 32 || rd >= 32 {
        with_fault(m, VmFault::InvalidRegister)
    } else {
        let a = m.registers[r1 as int] as int;
        let b = m.registers[r2 as int] as int;
        if op == Opcode::DIV && b == 0 {
            with_fault(m, VmFault::DivideByZero)
        } else {
            let v = if op == Opcode::ADD {
                a + b
            } else if op == Opcode::SUB {
                a - b
            } else if op == Opcode::MUL {
                a * b
            } else {
                trunc_div(a, b)
            };
            if v > i32::MAX as int || v < i32::MIN as int {
                with_fault(m, VmFault::Overflow)
            } else if op == Opcode::DIV {
                VmModel {
                    registers: m.registers.update(rd as int, v as i32),
                    remainder: wrap_u32(trunc_rem(a, b)),
                    ..m
                }
            } else {
                VmModel { registers: m.registers.update(rd as int, v as i32), ..m }
            }
        }
    }
}

/// The effect of a comparison once its two register operand bytes (and the
/// discarded padding byte) have been fetched.
pub open spec fn spec_cmp(m: VmModel, op: Opcode, r1: u8, r2: u8) -> VmModel {
    if r1 >= 32 || r2 >= 32 {
        with_fault(m, VmFault::InvalidRegister)
    } else {
        let a = m.registers[r1 as int];
        let b = m.registers[r2 as int];
        let f = if op == Opcode::EQ {
            a == b
        } else if op == Opcode::NEQ {
            a != b
        } else if op == Opcode::GT {
            a > b
        } else if op == Opcode::LT {
            a < b
        } else if op == Opcode::GTE {
            a >= b
        } else {
            a <= b
        };
        VmModel { equal_flag: f, ..m }
    }
}

/// The effect of the decoded instruction `op` on the state `m`, where `m.pc`
/// already points at the first operand byte.
pub open spec fn spec_exec_op(m: VmModel, op: Opcode) -> VmModel {
    match op {
        Opcode::HLT => VmModel { status: VmStatus::Halted, ..m },
        Opcode::NOP => m,
        Opcode::IGL => with_fault(m, VmFault::IllegalOpcode),
        Opcode::LOAD => if m.pc + 3 <= m.program.len() {
            let r = m.program[m.pc as int];
            let hi = m.program[m.pc as int + 1];
            let lo = m.program[m.pc as int + 2];
            let m2 = VmModel { pc: (m.pc + 3) as nat, ..m };
            if r >= 32 {
                with_fault(m2, VmFault::InvalidRegister)
            } else {
                VmModel { registers: m2.registers.update(r as int, spec_imm16(hi, lo)), ..m2 }
            }
        } else {
            with_fault(m, VmFault::OutOfRangeFetch)
        },
        Opcode::INC | Opcode::DEC => if m.pc + 1 <= m.program.len() {
            let r = m.program[m.pc as int];
            let m2 = VmModel { pc: (m.pc + 1) as nat, ..m };
            if r >= 32 {
                with_fault(m2, VmFault::InvalidRegister)
            } else {
                let v = m2.registers[r as int] as int + if op == Opcode::INC {
                    1int
                } else {
                    -1int
                };
                if v > i32::MAX as int || v < i32::MIN as int {
                    with_fault(m2, VmFault::Overflow)
                } else {
                    VmModel { registers: m2.registers.update(r as int, v as i32), ..m2 }
                }
            }
        } else {
            with_fault(m, VmFault::OutOfRangeFetch)
        },
        Opcode::ADD | Opcode::SUB | Opcode::MUL | Opcode::DIV => if m.pc + 3 <= m.program.len() {
            let r1 = m.program[m.pc as int];
            let r2 = m.program[m.pc as int + 1];
            let rd = m.program[m.pc as int + 2];
            spec_binop(VmModel { pc: (m.pc + 3) as nat, ..m }, op, r1, r2, rd)
        } else {
            with_fault(m, VmFault::OutOfRangeFetch)
        },
        Opcode::EQ | Opcode::NEQ | Opcode::GT | Opcode::LT | Opcode::GTE | Opcode::LTE => if m.pc
            + 3 <= m.program.len() {
            let r1 = m.program[m.pc as int];
            let r2 = m.program[m.pc as int + 1];
            spec_cmp(VmModel { pc: (m.pc + 3) as nat, ..m }, op, r1, r2)
        } else {
            with_fault(m, VmFault::OutOfRangeFetch)
        },
        Opcode::JMP => if m.pc + 1 <= m.program.len() {
            let r = m.program[m.pc as int];
            let m2 = VmModel { pc: (m.pc + 1) as nat, ..m };
            if r >= 32 {
                with_fault(m2, VmFault::InvalidRegister)
            } else if m2.registers[r as int] < 0 {
                with_fault(m2, VmFault::InvalidJump)
            } else {
                VmModel { pc: m2.registers[r as int] as nat, ..m2 }
            }
        } else {
            with_fault(m, VmFault::OutOfRangeFetch)
        },
        Opcode::JMPF | Opcode::JMPB => if m.pc + 1 <= m.program.len() {
            let r = m.program[m.pc as int];
            let m2 = VmModel { pc: (m.pc + 1) as nat, ..m };
            if r >= 32 {
                with_fault(m2, VmFault::InvalidRegister)
            } else {
                let amt = m2.registers[r as int];
                if amt < 0 {
                    with_fault(m2, VmFault::InvalidJump)
                } else if op == Opcode::JMPF {
                    if m2.pc + amt > usize::MAX {
                        with_fault(m2, VmFault::InvalidJump)
                    } else {
                        VmModel { pc: (m2.pc + amt) as nat, ..m2 }
                    }
                } else {
                    if amt > m2.pc {
                        with_fault(m2, VmFault::InvalidJump)
                    } else {
                        VmModel { pc: (m2.pc - amt) as nat, ..m2 }
                    }
                }
            }
        } else {
            with_fault(m, VmFault::OutOfRangeFetch)
        },
        Opcode::JMPE => if m.pc + 1 <= m.program.len() {
            let r = m.program[m.pc as int];
            let m2 = VmModel { pc: (m.pc + 1) as nat, ..m };
            if r >= 32 {
                with_fault(m2, VmFault::InvalidRegister)
            } else if !m2.equal_flag {
                m2
            } else if m2.registers[r as int] < 0 {
                with_fault(m2, VmFault::InvalidJump)
            } else {
                VmModel { pc: m2.registers[r as int] as nat, ..m2 }
            }
        } else {
            with_fault(m, VmFault::OutOfRangeFetch)
        },
        Opcode::ALOC => if m.pc + 1 <= m.program.len() {
            let r = m.program[m.pc as int];
            let m2 = VmModel { pc: (m.pc + 1) as nat, ..m };
            if r >= 32 {
                with_fault(m2, VmFault::InvalidRegister)
            } else {
                let v = m2.registers[r as int];
                if v < 0 || m2.heap.len() + v > usize::MAX {
                    with_fault(m2, VmFault::InvalidAllocation)
                } else {
                    VmModel { heap: m2.heap + Seq::new(v as nat, |i: int| 0u8), ..m2 }
                }
            }
        } else {
            with_fault(m, VmFault::OutOfRangeFetch)
        },
        Opcode::PRTS => if m.pc + 2 <= m.program.len() {
            let hi = m.program[m.pc as int];
            let lo = m.program[m.pc as int + 1];
            let m2 = VmModel { pc: (m.pc + 2) as nat, ..m };
            let off = hi as int * 256 + lo as int;
            let end = first_zero(m2.ro_data, off);
            if end < 0 {
                with_fault(m2, VmFault::UnterminatedRead)
            } else {
                VmModel { output: m2.output + m2.ro_data.subrange(off, end), ..m2 }
            }
        } else {
            with_fault(m, VmFault::OutOfRangeFetch)
        },
    }
}

/// One fetch-decode-execute step.  Total: a machine that is not running is
/// left unchanged, and running past the end of the program is a clean halt.
pub open spec fn spec_step(m: VmModel) -> VmModel {
    if !(m.status is Running) {
        m
    } else if m.pc >= m.program.len() {
        VmModel { status: VmStatus::Halted, ..m }
    } else {
        let op = spec_opcode_of_byte(m.program[m.pc as int]);
        spec_exec_op(VmModel { pc: (m.pc + 1) as nat, ..m }, op)
    }
}

/// `n` steps of the machine.
pub open spec fn spec_step_n(m: VmModel, n: nat) -> VmModel
    decreases n,
{
    if n == 0 {
        m
    } else {
        spec_step(spec_step_n(m, (n - 1) as nat))
    }
}

/// A step preserves the size of the register file.
/// The machine itself.  All fields are public so that a host can inspect the
/// state between steps; verified methods require only that the register file
/// keeps its fixed size (`wf`).
#[derive(Debug)]
pub struct VM {
    pub registers: Vec<i32>,
    pub pc: usize,
    pub program: Vec<u8>,
    pub heap: Vec<u8>,
    pub remainder: u32,
    pub equal_flag: bool,
    pub ro_data: Vec<u8>,
    pub output: Vec<u8>,
    pub status: VmStatus,
}

impl View for VM {
    type V = VmModel;

    open spec fn view(&self) -> VmModel {
        VmModel {
            registers: self.registers@,
            pc: self.pc as nat,
            program: self.program@,
            heap: self.heap@,
            remainder: self.remainder,
            equal_flag: self.equal_flag,
            ro_data: self.ro_data@,
            output: self.output@,
            status: self.status,
        }
    }
}

/// Whether an image buffer is loadable: long enough for the header, the magic
/// prefix in place, and the recorded read-only length within the buffer.
pub open spec fn spec_load_ok(b: Seq<u8>) -> bool {
    &&& b.len() >= 65
    &&& b[0] == 45
    &&& b[1] == 50
    &&& b[2] == 49
    &&& b[3] == 45
    &&& 65 + spec_ro_len(b) <= b.len()
}

/// The length of the read-only segment as recorded big-endian in header bytes
/// 4 through 7.
pub open spec fn spec_ro_len(b: Seq<u8>) -> int {
    b[4] as int * 0x1000000 + b[5] as int * 0x10000 + b[6] as int * 0x100 + b[7] as int
}

impl VM {
    /// The one invariant the verified methods need: 32 registers.
    pub open spec fn wf(&self) -> bool {
        self.registers@.len() == 32
    }

    /// A fresh machine: zeroed registers, empty buffers, the program counter
    /// placed just past the header, ready to run.
    pub fn new() -> (r: VM)
        ensures
            r.wf(),
            forall|j: int| 0 <= j < 32 ==> #[trigger] r@.registers[j] == 0i32,
            r@.pc == PIE_HEADER_LENGTH + 1,
            r@.program.len() == 0,
            r@.heap.len() == 0,
            r@.remainder == 0,
            r@.equal_flag == false,
            r@.ro_data.len() == 0,
            r@.output.len() == 0,
            r@.status is Running,
    {
        let mut registers: Vec<i32> = Vec::new();
        let mut i: usize = 0;
        while i < 32
            invariant
                i <= 32,
                registers@.len() == i,
                forall|j: int| 0 <= j < i ==> #[trigger] registers@[j] == 0i32,
            decreases 32 - i,
        {
            registers.push(0);
            i = i + 1;
        }
        VM {
            registers,
            pc: PIE_HEADER_LENGTH + 1,
            program: Vec::new(),
            heap: Vec::new(),
            remainder: 0,
            equal_flag: false,
            ro_data: Vec::new(),
            output: Vec::new(),
            status: VmStatus::Running,
        }
    }

    /// Whether the program buffer opens with the magic header prefix.
    pub fn verify_header(&self) -> (r: bool)
        ensures
            r == (self.program@.len() >= 4 && self.program@.subrange(0, 4)
                == spec_header_prefix()),
    {
        if self.program.len() < 4 {
            return false;
        }
        let ok = self.program[0] == 45 && self.program[1] == 50 && self.program[2] == 49
            && self.program[3] == 45;
        proof {
            if ok {
                assert(self.program@.subrange(0, 4) =~= spec_header_prefix());
            } else {
                assert(self.program@.subrange(0, 4) != spec_header_prefix()) by {
                    if self.program@.subrange(0, 4) == spec_header_prefix() {
                        assert(self.program@[0] == 45 && self.program@[1] == 50
                            && self.program@[2] == 49 && self.program@[3] == 45);
                    }
                }
            }
        }
        ok
    }

    /// Appends one byte to the program buffer.
    pub fn add_byte(&mut self, byte: u8)
        ensures
            final(self)@ == (VmModel { program: old(self)@.program.push(byte), ..old(self)@ }),
    {
        self.program.push(byte);
    }

    /// Appends a buffer of bytes to the program buffer.
    pub fn add_bytes(&mut self, bytes: Vec<u8>)
        ensures
            final(self)@ == (VmModel { program: old(self)@.program + bytes@, ..old(self)@ }),
    {
        let mut bytes = bytes;
        self.program.append(&mut bytes);
    }

    /// Loads an assembled image: checks the magic prefix, reads the length of
    /// the read-only segment from the header, moves that segment into the
    /// read-only buffer, keeps header and code as the program, and rewinds the
    /// program counter to the first code byte.  Returns false, changing
    /// nothing, if the buffer is not a well-formed image.
    pub fn load(&mut self, bytes: Vec<u8>) -> (ok: bool)
        ensures
            ok == spec_load_ok(bytes@),
            ok ==> final(self)@ == (VmModel {
                program: bytes@.subrange(0, 65) + bytes@.subrange(
                    65 + spec_ro_len(bytes@),
                    bytes@.len() as int,
                ),
                ro_data: bytes@.subrange(65, 65 + spec_ro_len(bytes@)),
                pc: (PIE_HEADER_LENGTH + 1) as nat,
                status: VmStatus::Running,
                ..old(self)@
            }),
            !ok ==> *final(self) == *old(self),
    {
        if bytes.len() < 65 {
            return false;
        }
        if !(bytes[0] == 45 && bytes[1] == 50 && bytes[2] == 49 && bytes[3] == 45) {
            return false;
        }
        let ro_len64: u64 = (bytes[4] as u64) * 0x1000000 + (bytes[5] as u64) * 0x10000 + (
        bytes[6] as u64) * 0x100 + (bytes[7] as u64);
        if ro_len64 > (bytes.len() - 65) as u64 {
            return false;
        }
        let ro_len: usize = ro_len64 as usize;
        let n = bytes.len();
        let mut ro: Vec<u8> = Vec::new();
        let mut k: usize = 0;
        while k < ro_len
            invariant
                k <= ro_len,
                65 + ro_len <= n,
                n == bytes@.len(),
                ro@ =~= bytes@.subrange(65, 65 + k),
            decreases ro_len - k,
        {
            ro.push(bytes[65 + k]);
            proof {
                assert(ro@ =~= bytes@.subrange(65, 65 + k + 1));
            }
            k = k + 1;
        }
        let mut prog: Vec<u8> = Vec::new();
        let mut k: usize = 0;
        while k < 65
            invariant
                k <= 65,
                65 + ro_len <= n,
                n == bytes@.len(),
                prog@ =~= bytes@.subrange(0, k as int),
            decreases 65 - k,
        {
            prog.push(bytes[k]);
            proof {
                assert(prog@ =~= bytes@.subrange(0, k + 1));
            }
            k = k + 1;
        }
        let mut k: usize = 65 + ro_len;
        while k < n
            invariant
                65 + ro_len <= k <= n,
                n == bytes@.len(),
                prog@ =~= bytes@.subrange(0, 65) + bytes@.subrange(65 + ro_len, k as int),
            decreases n - k,
        {
            prog.push(bytes[k]);
            proof {
                assert(prog@ =~= bytes@.subrange(0, 65) + bytes@.subrange(
                    65 + ro_len,
                    k + 1,
                ));
            }
            k = k + 1;
        }
        self.ro_data = ro;
        self.program = prog;
        self.pc = PIE_HEADER_LENGTH + 1;
        self.status = VmStatus::Running;
        true
    }

    /// Reads and decodes the opcode byte under the program counter.
    fn decode_opcode(&mut self) -> (op: Opcode)
        requires
            old(self).pc < old(self).program.len(),
        ensures
            final(self)@ == (VmModel { pc: (old(self)@.pc + 1) as nat, ..old(self)@ }),
            op == spec_opcode_of_byte(old(self)@.program[old(self)@.pc as int]),
    {
        let opcode = Opcode::from(self.program[self.pc]);
        self.pc = self.pc + 1;
        opcode
    }

    /// Reads the next operand byte; the caller has checked it is there.
    fn next_8_bits(&mut self) -> (r: u8)
        requires
            old(self).pc < old(self).program.len(),
        ensures
            final(self)@ == (VmModel { pc: (old(self)@.pc + 1) as nat, ..old(self)@ }),
            r == old(self)@.program[old(self)@.pc as int],
    {
        let result = self.program[self.pc];
        self.pc = self.pc + 1;
        result
    }

    /// Reads the next two operand bytes as one big-endian 16-bit value.
    fn next_16_bits(&mut self) -> (r: u16)
        requires
            old(self).pc + 2 <= old(self).program.len(),
        ensures
            final(self)@ == (VmModel { pc: (old(self)@.pc + 2) as nat, ..old(self)@ }),
            r == old(self)@.program[old(self)@.pc as int] as int * 256 + old(
                self,
            )@.program[old(self)@.pc as int + 1] as int,
    {
        let hi = self.program[self.pc];
        let lo = self.program[self.pc + 1];
        self.pc = self.pc + 2;
        (hi as u16) * 256 + (lo as u16)
    }
}



/// What a full run guarantees: the final state lies `n` machine steps from
/// the initial one, and the machine is still running only if the whole step
/// budget of `run` was consumed.
pub open spec fn run_post(init: VmModel, fin: VmModel, n: nat) -> bool {
    fin == spec_step_n(init, n) && (n == u64::MAX as nat || !(fin.status is Running))
}

impl VM {
    /// Performs exactly one fetch-decode-execute step: the machine moves to
    /// `spec_step` of its previous state.  A machine that is already halted or
    /// faulted is left unchanged.
    #[verifier::loop_isolation(false)]
    #[verifier::rlimit(60)]
    pub fn run_once(&mut self)
        requires
            old(self).wf(),
        ensures
            final(self).wf(),
            final(self)@ == spec_step(old(self)@),
    {
        if !(self.status == VmStatus::Running) {
            return ;
        }
        if self.pc >= self.program.len() {
            self.status = VmStatus::Halted;
            return ;
        }
        let ghost m0 = self@;
        let op = self.decode_opcode();
        let ghost m1 = self@;
        proof {
            assert(spec_step(m0) == spec_exec_op(m1, op));
        }
        match op {
            Opcode::HLT => {
                self.status = VmStatus::Halted;
            },
            Opcode::NOP => {},
            Opcode::IGL => {
                self.status = VmStatus::Faulted(VmFault::IllegalOpcode);
            },
            Opcode::LOAD => {
                if self.program.len() - self.pc >= 3 {
                    let r = self.next_8_bits();
                    let val = self.next_16_bits();
                    if r >= 32 {
                        self.status = VmStatus::Faulted(VmFault::InvalidRegister);
                    } else {
                        self.registers[r as usize] = val as i32;
                    }
                } else {
                    self.status = VmStatus::Faulted(VmFault::OutOfRangeFetch);
                }
                proof {
                    assert(self@ =~~= spec_exec_op(m1, op));
                }
            },
            Opcode::INC | Opcode::DEC => {
                if self.program.len() - self.pc >= 1 {
                    let r = self.next_8_bits();
                    if r >= 32 {
                        self.status = VmStatus::Faulted(VmFault::InvalidRegister);
                    } else {
                        let v = self.registers[r as usize];
                        if op == Opcode::INC {
                            if v == i32::MAX {
                                self.status = VmStatus::Faulted(VmFault::Overflow);
                            } else {
                                self.registers[r as usize] = v + 1;
                            }
                        } else {
                            if v == i32::MIN {
                                self.status = VmStatus::Faulted(VmFault::Overflow);
                            } else {
                                self.registers[r as usize] = v - 1;
                            }
                        }
                    }
                } else {
                    self.status = VmStatus::Faulted(VmFault::OutOfRangeFetch);
                }
                proof {
                    assert(self@ =~~= spec_exec_op(m1, op));
                }
            },
            Opcode::ADD | Opcode::SUB | Opcode::MUL | Opcode::DIV => {
                if self.program.len() - self.pc >= 3 {
                    let r1 = self.next_8_bits();
                    let r2 = self.next_8_bits();
                    let rd = self.next_8_bits();
                    if r1 >= 32 || r2 >= 32 || rd >= 32 {
                        self.status = VmStatus::Faulted(VmFault::InvalidRegister);
                    } else {
                        let a = self.registers[r1 as usize];
                        let b = self.registers[r2 as usize];
                        let a64: i64 = a as i64;
                        let b64: i64 = b as i64;
                        if op == Opcode::DIV && b == 0 {
                            self.status = VmStatus::Faulted(VmFault::DivideByZero);
                        } else {
                            if op == Opcode::DIV {
                                let na: u64 = if a64 < 0 {
                                    (-a64) as u64
                                } else {
                                    a64 as u64
                                };
                                let nb: u64 = if b64 < 0 {
                                    (-b64) as u64
                                } else {
                                    b64 as u64
                                };
                                let q0 = na / nb;
                                let r0 = na % nb;
                                proof {
                                    assert(q0 <= na) by (nonlinear_arith)
                                        requires
                                            nb >= 1,
                                            q0 == na / nb,
                                    ;
                                    assert(na as int == iabs(a as int));
                                    assert(nb as int == iabs(b as int));
                                }
                                let q64: i64 = if (a < 0) != (b < 0) {
                                    -(q0 as i64)
                                } else {
                                    q0 as i64
                                };
                                let rem64: i64 = if a < 0 {
                                    -(r0 as i64)
                                } else {
                                    r0 as i64
                                };
                                if q64 > 2147483647 {
                                    self.status = VmStatus::Faulted(VmFault::Overflow);
                                } else {
                                    self.registers[rd as usize] = q64 as i32;
                                    self.remainder = if rem64 >= 0 {
                                        rem64 as u32
                                    } else {
                                        (rem64 + 0x1_0000_0000) as u32
                                    };
                                }
                            } else {
                                let v64: i64 = if op == Opcode::ADD {
                                    a64 + b64
                                } else if op == Opcode::SUB {
                                    a64 - b64
                                } else {
                                    proof {
                                        assert(-0x4000_0000_0000_0000 <= a64 as int * b64 as int
                                            <= 0x4000_0000_0000_0000) by (nonlinear_arith)
                                            requires
                                                -0x8000_0000 <= a64 as int <= 0x7fff_ffff,
                                                -0x8000_0000 <= b64 as int <= 0x7fff_ffff,
                                        ;
                                    }
                                    a64 * b64
                                };
                                if v64 > 2147483647 || v64 < -2147483648 {
                                    self.status = VmStatus::Faulted(VmFault::Overflow);
                                } else {
                                    self.registers[rd as usize] = v64 as i32;
                                }
                            }
                        }
                    }
                } else {
                    self.status = VmStatus::Faulted(VmFault::OutOfRangeFetch);
                }
                proof {
                    assert(self@ =~~= spec_exec_op(m1, op));
                }
            },
            Opcode::EQ | Opcode::NEQ | Opcode::GT | Opcode::LT | Opcode::GTE | Opcode::LTE => {
                if self.program.len() - self.pc >= 3 {
                    let r1 = self.next_8_bits();
                    let r2 = self.next_8_bits();
                    let _pad = self.next_8_bits();
                    if r1 >= 32 || r2 >= 32 {
                        self.status = VmStatus::Faulted(VmFault::InvalidRegister);
                    } else {
                        let a = self.registers[r1 as usize];
                        let b = self.registers[r2 as usize];
                        self.equal_flag = if op == Opcode::EQ {
                            a == b
                        } else if op == Opcode::NEQ {
                            a != b
                        } else if op == Opcode::GT {
                            a > b
                        } else if op == Opcode::LT {
                            a < b
                        } else if op == Opcode::GTE {
                            a >= b
                        } else {
                            a <= b
                        };
                    }
                } else {
                    self.status = VmStatus::Faulted(VmFault::OutOfRangeFetch);
                }
                proof {
                    assert(self@ =~~= spec_exec_op(m1, op));
                }
            },
            Opcode::JMP => {
                if self.program.len() - self.pc >= 1 {
                    let r = self.next_8_bits();
                    if r >= 32 {
                        self.status = VmStatus::Faulted(VmFault::InvalidRegister);
                    } else {
                        let target = self.registers[r as usize];
                        if target < 0 {
                            self.status = VmStatus::Faulted(VmFault::InvalidJump);
                        } else {
                            self.pc = target as usize;
                        }
                    }
                } else {
                    self.status = VmStatus::Faulted(VmFault::OutOfRangeFetch);
                }
                proof {
                    assert(self@ =~~= spec_exec_op(m1, op));
                }
            },
            Opcode::JMPF | Opcode::JMPB => {
                if self.program.len() - self.pc >= 1 {
                    let r = self.next_8_bits();
                    if r >= 32 {
                        self.status = VmStatus::Faulted(VmFault::InvalidRegister);
                    } else {
                        let amount = self.registers[r as usize];
                        if amount < 0 {
                            self.status = VmStatus::Faulted(VmFault::InvalidJump);
                        } else {
                            let amt = amount as usize;
                            if op == Opcode::JMPF {
                                if amt > usize::MAX - self.pc {
                                    self.status = VmStatus::Faulted(VmFault::InvalidJump);
                                } else {
                                    self.pc = self.pc + amt;
                                }
                            } else {
                                if amt > self.pc {
                                    self.status = VmStatus::Faulted(VmFault::InvalidJump);
                                } else {
                                    self.pc = self.pc - amt;
                                }
                            }
                        }
                    }
                } else {
                    self.status = VmStatus::Faulted(VmFault::OutOfRangeFetch);
                }
                proof {
                    assert(self@ =~~= spec_exec_op(m1, op));
                }
            },
            Opcode::JMPE => {
                if self.program.len() - self.pc >= 1 {
                    let r = self.next_8_bits();
                    if r >= 32 {
                        self.status = VmStatus::Faulted(VmFault::InvalidRegister);
                    } else if self.equal_flag {
                        let target = self.registers[r as usize];
                        if target < 0 {
                            self.status = VmStatus::Faulted(VmFault::InvalidJump);
                        } else {
                            self.pc = target as usize;
                        }
                    }
                } else {
                    self.status = VmStatus::Faulted(VmFault::OutOfRangeFetch);
                }
                proof {
                    assert(self@ =~~= spec_exec_op(m1, op));
                }
            },
            Opcode::ALOC => {
                if self.program.len() - self.pc >= 1 {
                    let r = self.next_8_bits();
                    if r >= 32 {
                        self.status = VmStatus::Faulted(VmFault::InvalidRegister);
                    } else {
                        let v = self.registers[r as usize];
                        if v < 0 {
                            self.status = VmStatus::Faulted(VmFault::InvalidAllocation);
                        } else {
                            let grow = v as usize;
                            if grow > usize::MAX - self.heap.len() {
                                self.status = VmStatus::Faulted(VmFault::InvalidAllocation);
                            } else {
                                let ghost h0 = self.heap@;
                                let ghost before = self@;
                                let mut k: usize = 0;
                                while k < grow
                                    invariant
                                        k <= grow,
                                        self@ =~= (VmModel {
                                            heap: h0 + Seq::new(k as nat, |i: int| 0u8),
                                            ..before
                                        }),
                                    decreases grow - k,
                                {
                                    self.heap.push(0);
                                    proof {
                                        assert(self.heap@ =~= h0 + Seq::new(
                                            (k + 1) as nat,
                                            |i: int| 0u8,
                                        ));
                                    }
                                    k = k + 1;
                                }
                            }
                        }
                    }
                } else {
                    self.status = VmStatus::Faulted(VmFault::OutOfRangeFetch);
                }
                proof {
                    assert(self@ =~~= spec_exec_op(m1, op));
                }
            },
            Opcode::PRTS => {
                if self.program.len() - self.pc >= 2 {
                    let off16 = self.next_16_bits();
                    let off = off16 as usize;
                    let n = self.ro_data.len();
                    if off >= n {
                        self.status = VmStatus::Faulted(VmFault::UnterminatedRead);
                    } else {
                        let mut end = off;
                        while end < n && self.ro_data[end] != 0
                            invariant
                                off <= end <= n,
                                forall|j: int| off <= j < end ==> self.ro_data@[j] != 0,
                            decreases n - end,
                        {
                            end = end + 1;
                        }
                        if end == n {
                            proof {
                                lemma_first_zero_none(self.ro_data@, off as int);
                            }
                            self.status = VmStatus::Faulted(VmFault::UnterminatedRead);
                        } else {
                            proof {
                                lemma_first_zero_at(self.ro_data@, off as int, end as int);
                            }
                            let ghost out0 = self.output@;
                            let ghost before = self@;
                            let mut k: usize = off;
                            while k < end
                                invariant
                                    off <= k <= end <= self.ro_data@.len(),
                                    self@ =~= (VmModel {
                                        output: out0 + self.ro_data@.subrange(
                                            off as int,
                                            k as int,
                                        ),
                                        ..before
                                    }),
                                decreases end - k,
                            {
                                let byte = self.ro_data[k];
                                self.output.push(byte);
                                proof {
                                    assert(self.output@ =~= out0 + self.ro_data@.subrange(
                                        off as int,
                                        k + 1,
                                    ));
                                }
                                k = k + 1;
                            }
                        }
                    }
                } else {
                    self.status = VmStatus::Faulted(VmFault::OutOfRangeFetch);
                }
                proof {
                    assert(self@ =~~= spec_exec_op(m1, op));
                }
            },
        }
    }

    /// Runs the machine until it halts or faults.  The loop carries a step
    /// budget so large (2^64 - 1 steps) that exhausting it is not reachable in
    /// practice; the contract records both outcomes faithfully: the final
    /// state is some number of machine steps from the initial one, and the
    /// machine still runs only if the whole budget was consumed.
    pub fn run(&mut self)
        requires
            old(self).wf(),
        ensures
            final(self).wf(),
            exists|n: nat| #[trigger] run_post(old(self)@, final(self)@, n),
    {
        let ghost init = self@;
        let ghost mut steps: nat = 0;
        let mut fuel: u64 = u64::MAX;
        while fuel > 0 && self.status == VmStatus::Running
            invariant
                self.wf(),
                self@ == spec_step_n(init, steps),
                steps + fuel == u64::MAX,
                init == old(self)@,
            decreases fuel,
        {
            self.run_once();
            fuel = fuel - 1;
            proof {
                steps = steps + 1;
            }
        }
        proof {
            assert(run_post(init, self@, steps));
        }
    }
}

} // verus!
