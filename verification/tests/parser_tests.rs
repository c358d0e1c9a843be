use iridium::parser::directive;
use iridium::parser::instruction;
use iridium::parser::label_declaration;
use iridium::parser::label_usage;
use iridium::parser::opcode_load;
use iridium::parser::operand;
use iridium::parser::program;
use iridium::parser::register;
use iridium::symbols::SymbolTable;
use iridium::tokens::AssemblerInstruction;
use iridium::tokens::Token;
use iridium::Opcode;

#[test]
fn test_string_directive() {
    let input = b"test: .asciiz 'Hello'";
    let result = directive(input, 0);
    assert!(result.is_some());

    let (_, parsed) = result.unwrap();

    let correct_instruction = AssemblerInstruction {
        opcode: None,
        label: Some(Token::LabelDeclaration { name: b"test".to_vec() }),
        directive: Some(Token::Directive { name: b"asciiz".to_vec() }),
        operand1: Some(Token::IrString { name: b"Hello".to_vec() }),
        operand2: None,
        operand3: None,
    };

    assert_eq!(parsed, correct_instruction);
}

#[test]
fn test_parse_instruction_from_one() {
    let input = b"load $0 #100\n";
    let result = instruction(input, 0);
    assert_eq!(
        result,
        Some((
            12, // everything but the trailing newline is consumed
            AssemblerInstruction {
                label: None,
                directive: None,
                opcode: Some(Token::Op { code: Opcode::LOAD }),
                operand1: Some(Token::Register { reg_num: 0 }),
                operand2: Some(Token::IntegerOperand { value: 100 }),
                operand3: None
            }
        ))
    );
}

#[test]
fn test_parse_label_declaration() {
    let result = label_declaration(b"test:", 0);
    assert!(result.is_some());
    let (_, token) = result.unwrap();
    assert_eq!(token, Token::LabelDeclaration { name: b"test".to_vec() });

    let result = label_declaration(b"test", 0);
    assert!(result.is_none());
}

#[test]
fn test_parse_label_usage() {
    let result = label_usage(b"@test", 0);
    assert!(result.is_some());
    let (_, token) = result.unwrap();
    assert_eq!(token, Token::LabelUsage { name: b"test".to_vec() });

    let result = label_declaration(b"test", 0);
    assert!(result.is_none());
}

#[test]
fn test_opcode_load() {
    // First tests that the opcode is detected and parsed correctly
    let result = opcode_load(b"load", 0);
    assert!(result.is_some());
    let (rest, token) = result.unwrap();
    assert_eq!(token, Token::Op { code: Opcode::LOAD });
    assert_eq!(rest, 4); // the whole input is consumed

    let result = opcode_load(b"oadl", 0);
    assert!(result.is_some());
    let (_rest, token) = result.unwrap();
    assert_eq!(token, Token::Op { code: Opcode::IGL });
}

#[test]
fn test_parse_integer_operand() {
    // Test a valid operand
    let result = operand(b"#10", 0);
    assert!(result.is_some());
    let (rest, value) = result.unwrap();
    assert_eq!(rest, 3);
    assert_eq!(value, Token::IntegerOperand { value: 10 });

    let result = operand(b"10", 0);
    assert!(result.is_none());
}

#[test]
fn test_parse_string_operand() {
    let result = operand(b"'This is a test'", 0);
    assert!(result.is_some());
    let (_, result) = result.unwrap();
    assert_eq!(result, Token::IrString { name: b"This is a test".to_vec() })
}

#[test]
fn test_parse_program() {
    let result = program("load $0 #100\n");
    assert!(result.is_ok());
    let prog = result.unwrap();
    assert_eq!(prog.instructions.len(), 1);
}

#[test]
fn test_program_to_bytes() {
    let result = program("load $0 #100\n");
    assert!(result.is_ok());
    let prog = result.unwrap();
    let symbols = SymbolTable::new();
    let bytecode = prog.to_bytes(&symbols).unwrap();
    assert_eq!(bytecode.len(), 4);
    assert_eq!(bytecode, vec![1, 0, 0, 100]);
}

#[test]
fn test_parse_register() {
    let result = register(b"$0", 0);
    assert!(result.is_some());
    let (rest, value) = result.unwrap();
    assert_eq!(rest, 2);
    assert_eq!(value, Token::Register { reg_num: 0 });

    let result = register(b"0", 0);
    assert!(result.is_none());
    let result = register(b"$a", 0);
    assert!(result.is_none());
}

#[test]
fn test_register_out_of_range() {
    assert!(register(b"$31", 0).is_some());
    assert!(register(b"$32", 0).is_none());
    assert!(register(b"$300", 0).is_none());
}

#[test]
fn test_integer_operand_overflow() {
    assert!(operand(b"#2147483647", 0).is_some());
    assert!(operand(b"#2147483648", 0).is_none());
}

#[test]
fn test_parse_error_position() {
    let result = program("load $0 #100 ???");
    assert!(matches!(
        result,
        Err(iridium::errors::AssemblerError::ParseError { position: 13 })
    ));
}

#[test]
fn test_parse_empty_input_fails() {
    assert!(program("").is_err());
    assert!(program("   \n  ").is_err());
}
