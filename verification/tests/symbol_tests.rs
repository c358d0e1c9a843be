use iridium::symbols::Symbol;
use iridium::symbols::SymbolTable;
use iridium::symbols::SymbolType;

#[test]
fn test_symbol_table() {
    let mut sym = SymbolTable::new();
    let new_symbol = Symbol::new_with_offset(b"test".to_vec(), SymbolType::Label, 12);
    sym.add_symbol(new_symbol);
    assert_eq!(sym.symbols.len(), 1);
    let v = sym.symbol_value(b"test");
    assert!(v.is_some());
    let v = v.unwrap();
    assert_eq!(v, 12);
    let v = sym.symbol_value(b"does_not_exist");
    assert!(v.is_none());
}

#[test]
fn test_symbol_offset_update() {
    let mut sym = SymbolTable::new();
    sym.add_symbol(Symbol::new(b"hello".to_vec(), SymbolType::IrString));
    assert!(sym.has_symbol(b"hello"));
    assert_eq!(sym.symbol_value(b"hello"), None);
    assert!(sym.set_symbol_offset(b"hello", 7));
    assert_eq!(sym.symbol_value(b"hello"), Some(7));
    assert!(!sym.set_symbol_offset(b"absent", 9));
}
