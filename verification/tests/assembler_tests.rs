use iridium::assembler::Assembler;
use iridium::errors::AssemblerError;
use iridium::symbols::SymbolTable;
use iridium::tokens::AssemblerInstruction;
use iridium::tokens::Token;
use iridium::vm::VmStatus;
use iridium::vm::VM;

#[test]
fn test_assemble_program() {
    let mut assembler = Assembler::new();
    let test_string =
        ".data\n.code\nload $0 #100\nload $1 #1\nload $2 #0\ntest: inc $0\nneq $0 $2\njmpe @test\nhlt";
    let program = assembler.assemble(test_string).unwrap();
    let mut vm = VM::new();
    assert_eq!(program.len(), 93);
    vm.add_bytes(program);
    assert_eq!(vm.program.len(), 93);
}

#[test]
fn test_code_segment_is_four_bytes_per_instruction() {
    let mut assembler = Assembler::new();
    // seven opcode-bearing records, two directives
    let src = ".data\n.code\nload $0 #100\nload $1 #1\nload $2 #0\ntest: inc $0\nneq $0 $2\njmpe @test\nhlt";
    let image = assembler.assemble(src).unwrap();
    assert_eq!(image.len() - 65, 4 * 7);
}

#[test]
fn test_load_word_layout() {
    let mut assembler = Assembler::new();
    let image = assembler.assemble(".data\n.code\nload $0 #100\nhlt").unwrap();
    assert_eq!(&image[65..69], &[1, 0, 0, 100]);
}

#[test]
fn test_label_offset_resolution() {
    let mut assembler = Assembler::new();
    // `test:` stands on record index 2, so it resolves to 65 + 4 * 2 = 73
    let image = assembler.assemble(".data\n.code\ntest: hlt\njmp @test").unwrap();
    assert_eq!(&image[69..73], &[8, 0, 73, 0]);
}

#[test]
fn test_duplicate_label_fails() {
    let mut assembler = Assembler::new();
    let r = assembler.assemble(".data\n.code\ntest: inc $0\ntest: inc $1\nhlt");
    let errs = r.unwrap_err();
    assert!(errs
        .iter()
        .any(|e| matches!(e, AssemblerError::SymbolAlreadyDeclared { name } if name == b"test")));
}

#[test]
fn test_missing_section_fails() {
    let mut assembler = Assembler::new();
    let r = assembler.assemble(".code\nhlt");
    let errs = r.unwrap_err();
    assert!(errs.iter().any(|e| matches!(e, AssemblerError::InsufficientSections)));

    let mut asm2 = Assembler::new();
    let r2 = asm2.assemble(".data\nhlt");
    let errs2 = r2.unwrap_err();
    assert!(errs2.iter().any(|e| matches!(e, AssemblerError::InsufficientSections)));
}

#[test]
fn test_label_outside_section_fails() {
    let mut assembler = Assembler::new();
    let r = assembler.assemble("early: inc $0\n.data\n.code\nhlt");
    let errs = r.unwrap_err();
    assert!(errs
        .iter()
        .any(|e| matches!(e, AssemblerError::NoSegmentDeclarationFound { .. })));
}

#[test]
fn test_string_without_label_fails() {
    let mut assembler = Assembler::new();
    let r = assembler.assemble(".data\n.asciiz 'x'\n.code\nhlt");
    let errs = r.unwrap_err();
    assert!(errs
        .iter()
        .any(|e| matches!(e, AssemblerError::StringConstantDeclaredWithoutLabel { .. })));
}

#[test]
fn test_unknown_directive_fails() {
    let mut assembler = Assembler::new();
    let r = assembler.assemble(".data\n.code\n.blob 'x'\nhlt");
    let errs = r.unwrap_err();
    assert!(errs
        .iter()
        .any(|e| matches!(e, AssemblerError::UnknownDirectiveFound { directive } if directive == b"blob")));
}

#[test]
fn test_invalid_section_fails() {
    let mut assembler = Assembler::new();
    let r = assembler.assemble(".bogus\n.data\n.code\nhlt");
    let errs = r.unwrap_err();
    assert!(errs
        .iter()
        .any(|e| matches!(e, AssemblerError::InvalidSection { name } if name == b"bogus")));
}

#[test]
fn test_unresolved_label_fails() {
    let mut assembler = Assembler::new();
    let r = assembler.assemble(".data\n.code\njmpe @nowhere\nhlt");
    let errs = r.unwrap_err();
    assert!(errs
        .iter()
        .any(|e| matches!(e, AssemblerError::UnresolvedLabel { name } if name == b"nowhere")));
}

#[test]
fn test_string_operand_on_opcode_fails() {
    let mut assembler = Assembler::new();
    let r = assembler.assemble(".data\n.code\nload 'oops'\nhlt");
    let errs = r.unwrap_err();
    assert!(errs.iter().any(|e| matches!(e, AssemblerError::InvalidOperand)));
}

#[test]
fn test_parse_failure_is_reported() {
    let mut assembler = Assembler::new();
    let r = assembler.assemble("???");
    let errs = r.unwrap_err();
    assert!(errs.iter().any(|e| matches!(e, AssemblerError::ParseError { .. })));
}

#[test]
fn test_load_and_run_assembled_program() {
    let mut assembler = Assembler::new();
    let image = assembler.assemble(".data\n.code\nload $0 #100\nhlt").unwrap();
    let mut vm = VM::new();
    assert!(vm.load(image));
    vm.run();
    assert_eq!(vm.status, VmStatus::Halted);
    assert_eq!(vm.registers[0], 100);
}

#[test]
fn test_end_to_end_loop_program() {
    let mut assembler = Assembler::new();
    let src = ".data\n.code\nload $0 #100\nload $1 #1\nload $2 #0\ntest: inc $0\nneq $0 $2\njmpe @test\nhlt";
    let image = assembler.assemble(src).unwrap();
    let mut vm = VM::new();
    assert!(vm.load(image));
    vm.run();
    assert_eq!(vm.status, VmStatus::Halted);
    assert!(vm.registers[0] > 100);
}

#[test]
fn test_asciiz_prts_end_to_end() {
    let mut assembler = Assembler::new();
    let src = ".data\nhello: .asciiz 'Hi'\n.code\nprts @hello\nhlt";
    let image = assembler.assemble(src).unwrap();
    let mut vm = VM::new();
    assert!(vm.load(image));
    vm.run();
    assert_eq!(vm.status, VmStatus::Halted);
    assert_eq!(vm.output, b"Hi".to_vec());
}

#[test]
fn test_arithmetic_results() {
    // registers loaded with 4 and 2: ADD 6, SUB 2, MUL 8, DIV 2 remainder 0
    let mut assembler = Assembler::new();
    let src = ".data\n.code\nload $0 #4\nload $1 #2\nadd $0 $1 $2\nsub $0 $1 $3\nmul $0 $1 $4\ndiv $0 $1 $5\nhlt";
    let image = assembler.assemble(src).unwrap();
    let mut vm = VM::new();
    assert!(vm.load(image));
    vm.run();
    assert_eq!(vm.status, VmStatus::Halted);
    assert_eq!(vm.registers[2], 6);
    assert_eq!(vm.registers[3], 2);
    assert_eq!(vm.registers[4], 8);
    assert_eq!(vm.registers[5], 2);
    assert_eq!(vm.remainder, 0);
}

#[test]
fn test_negative_immediate_truncation() {
    // a negative immediate is emitted as its low 16 bits, big-endian
    let rec = AssemblerInstruction {
        opcode: Some(Token::Op { code: iridium::Opcode::LOAD }),
        label: None,
        directive: None,
        operand1: Some(Token::Register { reg_num: 0 }),
        operand2: Some(Token::IntegerOperand { value: -1 }),
        operand3: None,
    };
    let bytes = rec.to_bytes(&SymbolTable::new()).unwrap();
    assert_eq!(bytes, vec![1, 0, 255, 255]);
}

#[test]
fn test_header_records_read_only_length() {
    let mut assembler = Assembler::new();
    let image = assembler.assemble(".data\nhello: .asciiz 'Hi'\n.code\nhlt").unwrap();
    assert_eq!(&image[0..4], &[45, 50, 49, 45]);
    assert_eq!(&image[4..8], &[0, 0, 0, 3]); // "Hi" plus its terminator
    assert_eq!(&image[65..68], &[72, 105, 0]);
}
