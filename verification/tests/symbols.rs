use octo_parser::{OctoParser, SymbolTable};

#[test]
fn a_new_table_is_empty() {
    let table: SymbolTable<usize> = SymbolTable::new();
    assert_eq!(table.get("px"), None);
    assert_eq!(table.get(""), None);
}

#[test]
fn what_was_inserted_is_found() {
    let mut table: SymbolTable<usize> = SymbolTable::new();
    table.insert("px".to_string(), 3);
    table.insert("py".to_string(), 4);
    assert_eq!(table.get("px"), Some(3));
    assert_eq!(table.get("py"), Some(4));
    assert_eq!(table.get("pz"), None);
    assert_eq!(table.get("PX"), None);
    assert_eq!(table.get("p"), None);
}

#[test]
fn a_second_insertion_replaces_the_value() {
    let mut table: SymbolTable<isize> = SymbolTable::new();
    table.insert("a".to_string(), 1);
    table.insert("b".to_string(), 2);
    table.insert("a".to_string(), -3);
    assert_eq!(table.get("a"), Some(-3));
    assert_eq!(table.get("b"), Some(2));
    table.insert("b".to_string(), 5);
    table.insert("a".to_string(), 7);
    assert_eq!(table.get("a"), Some(7));
    assert_eq!(table.get("b"), Some(5));
}

#[test]
fn a_label_without_address_differs_from_no_label() {
    let mut table: SymbolTable<Option<usize>> = SymbolTable::new();
    table.insert("main".to_string(), None);
    table.insert("data".to_string(), Some(0x200));
    assert_eq!(table.get("main"), Some(None));
    assert_eq!(table.get("data"), Some(Some(0x200)));
    assert_eq!(table.get("other"), None);
}

#[test]
fn a_new_parser_knows_nothing() {
    let parser = OctoParser::new();
    assert_eq!(parser.line_count(), 0);
    assert_eq!(parser.line_count, 0);
    assert_eq!(parser.reg_aliases.get("px"), None);
    assert_eq!(parser.addr_symbols.get("main"), None);
    assert_eq!(parser.constants.get("limit"), None);
}

#[test]
fn each_table_has_its_own_insertion() {
    let mut parser = OctoParser::new();
    parser.insert_alias("x".to_string(), 1);
    parser.insert_label("y".to_string());
    parser.insert_constant("z".to_string(), 42);
    assert_eq!(parser.reg_aliases.get("x"), Some(1));
    assert_eq!(parser.reg_aliases.get("y"), None);
    assert_eq!(parser.reg_aliases.get("z"), None);
    assert_eq!(parser.addr_symbols.get("x"), None);
    assert_eq!(parser.addr_symbols.get("y"), Some(None));
    assert_eq!(parser.addr_symbols.get("z"), None);
    assert_eq!(parser.constants.get("x"), None);
    assert_eq!(parser.constants.get("y"), None);
    assert_eq!(parser.constants.get("z"), Some(42));
    assert_eq!(parser.line_count(), 0);
    let copy = parser.clone();
    parser.insert_alias("x".to_string(), 2);
    assert_eq!(parser.reg_aliases.get("x"), Some(2));
    assert_eq!(copy.reg_aliases.get("x"), Some(1));
}
