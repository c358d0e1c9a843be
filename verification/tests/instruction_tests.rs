use iridium::Instruction;
use iridium::Opcode;

#[test]
fn test_create_hlt() {
    let opcode = Opcode::HLT;
    assert_eq!(opcode, Opcode::HLT);
}

#[test]
fn test_create_instruction() {
    let inst = Instruction::new(Opcode::HLT);
    assert_eq!(inst.opcode, Opcode::HLT);
}

#[test]
fn test_opcode_from() {
    let mut opcode = Opcode::from(0);
    assert_eq!(opcode, Opcode::HLT);

    opcode = Opcode::from(100);
    assert_eq!(opcode, Opcode::IGL);
}

#[test]
fn test_opcode_from_str() {
    let mut opcode = Opcode::from("load");
    assert_eq!(opcode, Opcode::LOAD);

    opcode = Opcode::from("oadl");
    assert_eq!(opcode, Opcode::IGL);
}

#[test]
fn test_opcode_byte_round_trip() {
    let all = [
        Opcode::HLT,
        Opcode::LOAD,
        Opcode::INC,
        Opcode::DEC,
        Opcode::ADD,
        Opcode::SUB,
        Opcode::MUL,
        Opcode::DIV,
        Opcode::JMP,
        Opcode::JMPF,
        Opcode::JMPB,
        Opcode::EQ,
        Opcode::NEQ,
        Opcode::GT,
        Opcode::LT,
        Opcode::GTE,
        Opcode::LTE,
        Opcode::JMPE,
        Opcode::ALOC,
        Opcode::PRTS,
        Opcode::NOP,
        Opcode::IGL,
    ];
    for op in all {
        assert_eq!(Opcode::from(op.to_byte()), op);
    }
}
