use iridium::vm::VmFault;
use iridium::vm::VmStatus;
use iridium::vm::VM;

fn prepend_header(mut b: Vec<u8>) -> Vec<u8> {
    let mut prepension = vec![45, 50, 49, 45];
    while prepension.len() <= 64 {
        prepension.push(0);
    }
    prepension.append(&mut b);
    prepension
}

#[test]
fn test_create_vm() {
    let test_vm = VM::new();
    assert_eq!(test_vm.registers[0], 0)
}

#[test]
fn test_opcode_hlt() {
    let mut test_vm = VM::new();
    let test_bytes = vec![0, 0, 0, 0];
    test_vm.program = prepend_header(test_bytes);
    test_vm.run_once();
    assert_eq!(test_vm.pc, 66);
}

#[test]
fn test_load_opcode() {
    let mut test_vm = VM::new();
    test_vm.program = prepend_header(vec![1, 0, 1, 244]);
    test_vm.run_once();
    assert_eq!(test_vm.registers[0], 500);
}

#[test]
fn test_inc_opcode() {
    let mut test_vm = VM::new();
    test_vm.registers[0] = 100;
    test_vm.program = prepend_header(vec![2, 0, 0, 0]);
    test_vm.run_once();
    assert_eq!(test_vm.registers[0], 101);
}

#[test]
fn test_add_opcode() {
    let mut test_vm = VM::new();
    test_vm.program = prepend_header(vec![
        1, 0, 0, 1, // Load 1 into r0
        1, 1, 0, 1, // Load 1 into r1
        4, 0, 1, 2, // Add r0 and r1 and store in r2
        0,
    ]);
    test_vm.run();
    assert_eq!(test_vm.registers[2], 2);
}

#[test]
fn test_sub_opcode() {
    let mut test_vm = VM::new();
    test_vm.program = prepend_header(vec![
        1, 0, 0, 4, // Load 4 => r0
        1, 1, 0, 1, // Load 1 => r1
        5, 0, 1, 2, // SUB r0 - r1 => r2
        0,
    ]);
    test_vm.run();
    assert_eq!(test_vm.registers[2], 3);
}

#[test]
fn test_mul_opcode() {
    let mut test_vm = VM::new();
    test_vm.program = prepend_header(vec![
        1, 0, 0, 4, // Load 4 => r0
        1, 1, 0, 2, // Load 2 => r1
        6, 0, 1, 2, // MUL r0 * r1 => r2
        0,
    ]);
    test_vm.run();
    assert_eq!(test_vm.registers[2], 8);
}

#[test]
fn test_div_opcode() {
    let mut test_vm = VM::new();
    test_vm.program = prepend_header(vec![
        1, 0, 0, 5, // Load 5 => r0
        1, 1, 0, 2, // Load 2 => r1
        7, 0, 1, 2, // DIV r0 / r1 => r2
        0,
    ]);
    test_vm.run();
    assert_eq!(test_vm.registers[2], 2);
    assert_eq!(test_vm.remainder, 1);
}

#[test]
fn test_jmp_opcode() {
    let mut test_vm = VM::new();
    test_vm.program = prepend_header(vec![
        1, 0, 0, 1, // Load 1 into r0
        8, 0, 0, 0, // JMP from r0 (pc = 1)
        0,
    ]);
    test_vm.run_once();
    test_vm.run_once();
    assert_eq!(test_vm.pc, 1);
}

#[test]
fn test_jmpf_opcode() {
    let mut test_vm = VM::new();
    test_vm.program = prepend_header(vec![
        1, 0, 0, 2, // Load 2 into r0
        9, 0, 0, 0, // JMPF from r0
        0,
    ]);
    test_vm.run_once();
    test_vm.run_once();
    assert_eq!(test_vm.pc, 73);
}

#[test]
fn test_jmpb_opcode() {
    let mut test_vm = VM::new();
    test_vm.program = prepend_header(vec![
        1, 0, 0, 2, // Load 2 into r0
        10, 0, 0, 0, // JMPB from r0
        0,
    ]);
    test_vm.run_once();
    test_vm.run_once();
    assert_eq!(test_vm.pc, 69);
}

#[test]
fn test_eq_opcode() {
    let mut test_vm = VM::new();
    test_vm.registers[0] = 10;
    test_vm.registers[1] = 10;
    test_vm.program = prepend_header(vec![
        11, 0, 1, 0, // EQ r0 == r1 (ignore last 0)
        11, 0, 1, 0, // EQ r0 == r1 (ignore last 0)
        0,
    ]);
    test_vm.run_once();
    assert_eq!(test_vm.equal_flag, true);
    test_vm.registers[1] = 20;
    test_vm.run_once();
    assert_eq!(test_vm.equal_flag, false);
}

#[test]
fn test_neq_opcode() {
    let mut test_vm = VM::new();
    test_vm.registers[0] = 10;
    test_vm.registers[1] = 10;
    test_vm.program = prepend_header(vec![
        12, 0, 1, 0, // NEQ r0 != r1 (ignore last 0)
        12, 0, 1, 0, // NEQ r0 != r1 (ignore last 0)
        0,
    ]);
    test_vm.run_once();
    assert_eq!(test_vm.equal_flag, false);
    test_vm.registers[1] = 20;
    test_vm.run_once();
    assert_eq!(test_vm.equal_flag, true);
}

#[test]
fn test_gt_opcode() {
    let mut test_vm = VM::new();
    test_vm.registers[0] = 20;
    test_vm.registers[1] = 10;
    test_vm.program = prepend_header(vec![
        13, 0, 1, 0, // GT r0 > r1 (ignore last 0)
        13, 0, 1, 0, // GT r0 > r1 (ignore last 0)
        0,
    ]);
    test_vm.run_once();
    assert_eq!(test_vm.equal_flag, true);
    test_vm.registers[1] = 20;
    test_vm.run_once();
    assert_eq!(test_vm.equal_flag, false);
}

#[test]
fn test_lt_opcode() {
    let mut test_vm = VM::new();
    test_vm.registers[0] = 10;
    test_vm.registers[1] = 10;
    test_vm.program = prepend_header(vec![
        14, 0, 1, 0, // LT r0 < r1 (ignore last 0)
        14, 0, 1, 0, // LT r0 < r1 (ignore last 0)
        0,
    ]);
    test_vm.run_once();
    assert_eq!(test_vm.equal_flag, false);
    test_vm.registers[1] = 20;
    test_vm.run_once();
    assert_eq!(test_vm.equal_flag, true);
}

#[test]
fn test_gtq_opcode() {
    let mut test_vm = VM::new();
    test_vm.registers[0] = 20;
    test_vm.registers[1] = 10;
    test_vm.program = prepend_header(vec![
        15, 0, 1, 0, // GTE r0 >= r1 (ignore last 0)
        15, 0, 1, 0, // GTE r0 >= r1 (ignore last 0)
        15, 0, 1, 0, // GTE r0 >= r1 (ignore last 0)
        0,
    ]);
    test_vm.run_once();
    assert_eq!(test_vm.equal_flag, true);
    test_vm.registers[1] = 20;
    test_vm.run_once();
    assert_eq!(test_vm.equal_flag, true);
    test_vm.registers[1] = 30;
    test_vm.run_once();
    assert_eq!(test_vm.equal_flag, false);
}

#[test]
fn test_ltq_opcode() {
    let mut test_vm = VM::new();
    test_vm.registers[0] = 10;
    test_vm.registers[1] = 10;
    test_vm.program = prepend_header(vec![
        16, 0, 1, 0, // LTE r0 <= r1 (ignore last 0)
        16, 0, 1, 0, // LTE r0 <= r1 (ignore last 0)
        16, 0, 1, 0, // LTE r0 <= r1 (ignore last 0)
        0,
    ]);
    test_vm.run_once();
    assert_eq!(test_vm.equal_flag, true);
    test_vm.registers[1] = 20;
    test_vm.run_once();
    assert_eq!(test_vm.equal_flag, true);
    test_vm.registers[1] = 0;
    test_vm.run_once();
    assert_eq!(test_vm.equal_flag, false);
}

#[test]
fn test_jeq_opcode() {
    let mut test_vm = VM::new();
    test_vm.registers[0] = 7;
    test_vm.equal_flag = true;
    test_vm.program = prepend_header(vec![17, 0, 0, 0, 17, 0, 0, 0, 17, 0, 0, 0]);
    test_vm.run_once();
    assert_eq!(test_vm.pc, 7);
}

#[test]
fn test_igl_opcode() {
    let mut test_vm = VM::new();
    let test_bytes = prepend_header(vec![200, 0, 0, 0]);
    test_vm.program = test_bytes;
    test_vm.run_once();
    assert_eq!(test_vm.pc, 66);
}

#[test]
fn test_aloc_opcode() {
    let mut test_vm = VM::new();
    test_vm.registers[0] = 1024;
    test_vm.program = prepend_header(vec![18, 0, 0, 0]);
    test_vm.run_once();
    assert_eq!(test_vm.heap.len(), 1024);
}

#[test]
fn test_aloc_adds_and_zero_fills() {
    let mut test_vm = VM::new();
    test_vm.registers[0] = 1024;
    // ALOC consumes its opcode and one register byte; the second ALOC
    // follows immediately
    test_vm.program = prepend_header(vec![18, 0, 18, 0]);
    test_vm.run_once();
    assert_eq!(test_vm.heap.len(), 1024);
    assert!(test_vm.heap.iter().all(|&b| b == 0));
    test_vm.run_once();
    assert_eq!(test_vm.heap.len(), 2048);
    assert!(test_vm.heap.iter().all(|&b| b == 0));
}

#[test]
fn test_prts_prints_until_terminator() {
    let mut test_vm = VM::new();
    test_vm.ro_data = vec![72, 105, 0, 88, 89]; // "Hi\0XY"
    test_vm.program = prepend_header(vec![19, 0, 0, 0]);
    test_vm.run_once();
    assert_eq!(test_vm.output, vec![72, 105]); // exactly "Hi"
    assert_eq!(test_vm.status, VmStatus::Running);
}

#[test]
fn test_prts_unterminated_faults() {
    let mut test_vm = VM::new();
    test_vm.ro_data = vec![72, 105]; // no terminator
    test_vm.program = prepend_header(vec![19, 0, 0, 0]);
    test_vm.run_once();
    assert_eq!(test_vm.status, VmStatus::Faulted(VmFault::UnterminatedRead));
}

#[test]
fn test_div_by_zero_faults() {
    let mut test_vm = VM::new();
    test_vm.registers[0] = 5;
    test_vm.program = prepend_header(vec![7, 0, 1, 2]);
    test_vm.run_once();
    assert_eq!(test_vm.status, VmStatus::Faulted(VmFault::DivideByZero));
}

#[test]
fn test_div_negative_operands() {
    let mut test_vm = VM::new();
    test_vm.registers[0] = -7;
    test_vm.registers[1] = 2;
    test_vm.program = prepend_header(vec![7, 0, 1, 2]);
    test_vm.run_once();
    // truncated toward zero, remainder carries the dividend's sign (wrapped)
    assert_eq!(test_vm.registers[2], -3);
    assert_eq!(test_vm.remainder, (-1i32) as u32);
}

#[test]
fn test_jmpb_underflow_faults() {
    let mut test_vm = VM::new();
    test_vm.registers[0] = 1000;
    test_vm.program = prepend_header(vec![10, 0, 0, 0]);
    test_vm.run_once();
    assert_eq!(test_vm.status, VmStatus::Faulted(VmFault::InvalidJump));
}

#[test]
fn test_bad_register_faults() {
    let mut test_vm = VM::new();
    test_vm.program = prepend_header(vec![1, 40, 0, 5]);
    test_vm.run_once();
    assert_eq!(test_vm.status, VmStatus::Faulted(VmFault::InvalidRegister));
}

#[test]
fn test_short_fetch_faults() {
    let mut test_vm = VM::new();
    test_vm.program = prepend_header(vec![1, 0]);
    test_vm.run_once();
    assert_eq!(test_vm.status, VmStatus::Faulted(VmFault::OutOfRangeFetch));
}

#[test]
fn test_inc_overflow_faults() {
    let mut test_vm = VM::new();
    test_vm.registers[0] = i32::MAX;
    test_vm.program = prepend_header(vec![2, 0, 0, 0]);
    test_vm.run_once();
    assert_eq!(test_vm.status, VmStatus::Faulted(VmFault::Overflow));
}

#[test]
fn test_run_past_end_halts_cleanly() {
    let mut test_vm = VM::new();
    test_vm.program = prepend_header(vec![]);
    test_vm.run();
    assert_eq!(test_vm.status, VmStatus::Halted);
}

#[test]
fn test_verify_header() {
    let mut test_vm = VM::new();
    test_vm.program = prepend_header(vec![]);
    assert!(test_vm.verify_header());
    test_vm.program[0] = 0;
    assert!(!test_vm.verify_header());
}

#[test]
fn test_load_image() {
    let mut test_vm = VM::new();
    // header with a 3-byte read-only segment, then "Hi\0", then HLT word
    let mut image = vec![45, 50, 49, 45, 0, 0, 0, 3];
    while image.len() <= 64 {
        image.push(0);
    }
    image.extend_from_slice(&[72, 105, 0]);
    image.extend_from_slice(&[0, 0, 0, 0]);
    assert!(test_vm.load(image));
    assert_eq!(test_vm.ro_data, vec![72, 105, 0]);
    assert_eq!(test_vm.pc, 65);
    assert_eq!(test_vm.program.len(), 69); // header + code, read-only split out
    let mut other = VM::new();
    assert!(!other.load(vec![1, 2, 3]));
}
