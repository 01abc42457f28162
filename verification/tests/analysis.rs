use stack_usage::{
    analyze_executable, report, AnalysisError, Executable, Section, Symbol, SymbolKind,
    SymbolTable,
};

fn function<'a>(name: &'a str, address: u64, size: u64) -> Symbol<'a> {
    Symbol { kind: SymbolKind::Function, address, size, name: Some(name) }
}

#[test]
fn a_record_with_the_low_bit_set_reaches_the_function() {
    let section = [0x01, 0x10, 0x00, 0x00, 24];
    let executable = Executable {
        symbols: SymbolTable::Entries32(vec![function("foo", 0x1000, 16)]),
        stack_sizes: Some(&section),
    };
    let functions = analyze_executable(&executable).unwrap();
    assert!(functions.have_32_bit_addresses);
    assert!(functions.undefined.is_empty());
    assert_eq!(functions.defined.len(), 1);
    let foo = &functions.defined[&0x1000];
    assert_eq!(foo.names(), &["foo"]);
    assert_eq!(foo.size(), 16);
    assert_eq!(foo.stack(), Some(24));
    let rows = report(&functions, 0);
    assert_eq!(rows.len(), 1);
    assert_eq!(rows[0].name, "foo");
    assert_eq!(rows[0].code_size, 16);
    assert_eq!(rows[0].stack_size, 24);
}

#[test]
fn wide_entries_mean_wide_addresses() {
    let section = [0x00, 0x10, 0x00, 0x00, 0x01, 0x00, 0x00, 0x00, 0xa0, 0x01];
    let executable = Executable {
        symbols: SymbolTable::Entries64(vec![function("far", 0x1_0000_1000, 2)]),
        stack_sizes: Some(&section),
    };
    let functions = analyze_executable(&executable).unwrap();
    assert!(!functions.have_32_bit_addresses);
    assert_eq!(functions.defined[&0x1_0000_1000].stack(), Some(160));
}

#[test]
fn without_a_section_no_stack_size_is_known() {
    let executable = Executable {
        symbols: SymbolTable::Entries32(vec![function("foo", 0x1000, 16), function("bar", 0x2000, 8)]),
        stack_sizes: None,
    };
    let functions = analyze_executable(&executable).unwrap();
    assert_eq!(functions.defined.len(), 2);
    assert_eq!(functions.defined[&0x1000].stack(), None);
    assert_eq!(functions.defined[&0x2000].stack(), None);
}

#[test]
fn an_empty_section_leaves_every_stack_size_unset() {
    let section: [u8; 0] = [];
    let executable = Executable {
        symbols: SymbolTable::Entries64(vec![function("foo", 0x1000, 16), function("bar", 0x2001, 8)]),
        stack_sizes: Some(&section),
    };
    let functions = analyze_executable(&executable).unwrap();
    assert_eq!(functions.defined.len(), 2);
    assert!(functions.defined.values().all(|function| function.stack().is_none()));
}

#[test]
fn a_truncated_final_record_is_malformed_input() {
    let section = [0x00, 0x10, 0x00, 0x00, 24, 0x00, 0x20, 0x00, 0x00, 0x80, 0x80];
    let executable = Executable {
        symbols: SymbolTable::Entries32(vec![function("foo", 0x1000, 16)]),
        stack_sizes: Some(&section),
    };
    assert_eq!(
        analyze_executable(&executable).err(),
        Some(AnalysisError::MalformedInput { section: Section::StackSizes, offset: 5 })
    );
}

#[test]
fn an_undefined_function_is_not_reported() {
    let executable = Executable {
        symbols: SymbolTable::Entries32(vec![function("extern_fn", 0, 0), function("main", 0x100, 4)]),
        stack_sizes: None,
    };
    let functions = analyze_executable(&executable).unwrap();
    assert_eq!(functions.undefined, vec!["extern_fn"]);
    assert!(!functions.defined.contains_key(&0));
    let rows = report(&functions, 0);
    assert_eq!(rows.len(), 1);
    assert_eq!(rows[0].name, "main");
    assert!(rows.iter().all(|row| !row.name.contains("extern_fn")));
}

#[test]
fn an_executable_without_symbols_has_no_functions() {
    let executable = Executable { symbols: SymbolTable::Absent, stack_sizes: None };
    let functions = analyze_executable(&executable).unwrap();
    assert!(!functions.have_32_bit_addresses);
    assert!(functions.undefined.is_empty());
    assert!(functions.defined.is_empty());
    assert!(report(&functions, 0).is_empty());
}

#[test]
fn without_symbols_the_section_is_still_decoded() {
    let whole = [0, 0, 0, 0, 0, 0, 0, 0, 4];
    let executable = Executable { symbols: SymbolTable::Absent, stack_sizes: Some(&whole) };
    assert!(analyze_executable(&executable).unwrap().defined.is_empty());
    let cut = [0, 0, 0, 0, 4];
    let executable = Executable { symbols: SymbolTable::Absent, stack_sizes: Some(&cut) };
    assert_eq!(
        analyze_executable(&executable).err(),
        Some(AnalysisError::MalformedInput { section: Section::StackSizes, offset: 0 })
    );
}

#[test]
fn a_symbol_table_of_another_kind_is_malformed_input() {
    let executable = Executable { symbols: SymbolTable::Unrecognized, stack_sizes: None };
    assert_eq!(
        analyze_executable(&executable).err(),
        Some(AnalysisError::MalformedInput { section: Section::SymbolTable, offset: 0 })
    );
}

#[test]
fn a_function_without_a_name_is_an_unresolved_name() {
    let symbols = vec![
        function("ok", 0x100, 4),
        Symbol { kind: SymbolKind::Function, address: 0x200, size: 4, name: None },
    ];
    let executable = Executable { symbols: SymbolTable::Entries64(symbols), stack_sizes: None };
    assert_eq!(
        analyze_executable(&executable).err(),
        Some(AnalysisError::UnresolvedName { index: 1 })
    );
}

#[test]
fn an_error_in_the_symbol_table_comes_first() {
    let cut = [0x80];
    let symbols = vec![Symbol { kind: SymbolKind::Function, address: 0x200, size: 4, name: None }];
    let executable =
        Executable { symbols: SymbolTable::Entries32(symbols), stack_sizes: Some(&cut) };
    assert_eq!(
        analyze_executable(&executable).err(),
        Some(AnalysisError::UnresolvedName { index: 0 })
    );
    let executable = Executable { symbols: SymbolTable::Unrecognized, stack_sizes: Some(&cut) };
    assert_eq!(
        analyze_executable(&executable).err(),
        Some(AnalysisError::MalformedInput { section: Section::SymbolTable, offset: 0 })
    );
}

#[test]
fn aliases_and_stack_sizes_meet_in_one_function() {
    let section = [0x00, 0x01, 0x00, 0x00, 0x20, 0x00, 0x03, 0x00, 0x00, 0x08];
    let symbols = vec![
        function("handler", 0x101, 12),
        Symbol { kind: SymbolKind::Untyped, address: 0x100, size: 0, name: Some("$t") },
        Symbol { kind: SymbolKind::Untyped, address: 0x100, size: 0, name: Some("isr") },
        function("undefined_fn", 0, 0),
    ];
    let executable =
        Executable { symbols: SymbolTable::Entries32(symbols), stack_sizes: Some(&section) };
    let functions = analyze_executable(&executable).unwrap();
    assert_eq!(functions.undefined, vec!["undefined_fn"]);
    assert_eq!(functions.defined.len(), 1);
    assert_eq!(functions.defined[&0x101].names(), &["handler", "isr"]);
    assert_eq!(functions.defined[&0x101].size(), 12);
    assert_eq!(functions.defined[&0x101].stack(), Some(32));
}

#[test]
fn sections_have_their_names() {
    assert_eq!(Section::SymbolTable.name(), ".symtab");
    assert_eq!(Section::StackSizes.name(), ".stack_sizes");
}
