use iridium::repl::parse_command;
use iridium::repl::ReplCommand;
use iridium::repl::REPL;

#[test]
fn test_parse_hex() {
    let mut repl = REPL::new();
    let bytes = repl.parse_hex("01 01 03 E8").unwrap();
    assert_eq!(bytes, vec![1, 1, 3, 232]);
    let bytes = repl.parse_hex("00 ff").unwrap();
    assert_eq!(bytes, vec![0, 255]);
    assert!(repl.parse_hex("zz").is_none());
    assert!(repl.parse_hex("100").is_none()); // 256 does not fit one byte
}

#[test]
fn test_parse_command_words() {
    assert_eq!(parse_command(".quit"), ReplCommand::Quit);
    assert_eq!(parse_command(".history"), ReplCommand::History);
    assert_eq!(parse_command(".program"), ReplCommand::Program);
    assert_eq!(parse_command(".registers"), ReplCommand::Registers);
    assert_eq!(parse_command(".symbols"), ReplCommand::Symbols);
    assert_eq!(parse_command(".clear_program"), ReplCommand::ClearProgram);
    assert_eq!(parse_command(".clear_registers"), ReplCommand::ClearRegisters);
    assert_eq!(parse_command(".load_file"), ReplCommand::LoadFile);
    assert_eq!(parse_command("load $0 #100"), ReplCommand::Source);
}

#[test]
fn test_repl_records_history() {
    let mut repl = REPL::new();
    repl.record_command(String::from("load $0 #1"));
    repl.record_command(String::from(".quit"));
    assert_eq!(repl.command_buffer.len(), 2);
    assert_eq!(repl.command_buffer[0], "load $0 #1");
}
