use stack_usage::names::{insert_name, same_name};
use stack_usage::symtab::{attach_aliases, process_symtab_exec};
use stack_usage::{is_tag, AnalysisError, Symbol, SymbolKind};

fn function<'a>(name: &'a str, address: u64, size: u64) -> Symbol<'a> {
    Symbol { kind: SymbolKind::Function, address, size, name: Some(name) }
}

fn untyped<'a>(name: &'a str, address: u64) -> Symbol<'a> {
    Symbol { kind: SymbolKind::Untyped, address, size: 0, name: Some(name) }
}

#[test]
fn bare_tags_are_tags() {
    assert!(is_tag("$a"));
    assert!(is_tag("$t"));
    assert!(is_tag("$d"));
}

#[test]
fn numbered_tags_are_tags() {
    assert!(is_tag("$a.0"));
    assert!(is_tag("$t.12"));
    assert!(is_tag("$d.007"));
    assert!(is_tag("$a.4294967296"));
}

#[test]
fn a_tag_may_have_any_number_of_digits() {
    assert!(is_tag("$a.99999999999999999999999"));
}

#[test]
fn other_names_are_no_tags() {
    assert!(!is_tag(""));
    assert!(!is_tag("$"));
    assert!(!is_tag("a"));
    assert!(!is_tag("$x"));
    assert!(!is_tag("$A"));
    assert!(!is_tag("$ab"));
    assert!(!is_tag("$a1"));
    assert!(!is_tag("$a."));
    assert!(!is_tag("$a.x"));
    assert!(!is_tag("$a.1x"));
    assert!(!is_tag("$a.1.2"));
    assert!(!is_tag("$a.+5"));
    assert!(!is_tag("$a.-5"));
    assert!(!is_tag("$a. 5"));
    assert!(!is_tag("$x.5"));
    assert!(!is_tag("x$a"));
    assert!(!is_tag("main"));
    assert!(!is_tag("_ZN3foo3barE"));
}

#[test]
fn digits_of_other_scripts_make_no_tag() {
    assert!(!is_tag("$a.\u{0661}"));
    assert!(!is_tag("$\u{00e4}"));
    assert!(!is_tag("\u{ff04}a"));
}

#[test]
fn names_compare_by_their_characters() {
    assert!(same_name("", ""));
    assert!(same_name("foo", "foo"));
    assert!(!same_name("foo", "fo"));
    assert!(!same_name("foo", "fop"));
    assert!(!same_name("foo", "Foo"));
    assert!(same_name("h\u{00e9}", "h\u{00e9}"));
    assert!(!same_name("h\u{00e9}", "he"));
}

#[test]
fn a_name_is_inserted_once() {
    let mut names: Vec<&str> = Vec::new();
    insert_name(&mut names, "b");
    insert_name(&mut names, "a");
    insert_name(&mut names, "b");
    insert_name(&mut names, "c");
    insert_name(&mut names, "a");
    assert_eq!(names, vec!["b", "a", "c"]);
}

#[test]
fn an_empty_table_defines_nothing() {
    let (undefined, defined) = process_symtab_exec(&[]).unwrap();
    assert!(undefined.is_empty());
    assert!(defined.is_empty());
}

#[test]
fn names_at_one_address_keep_the_order_of_the_table() {
    let symbols = [
        function("first", 0x100, 8),
        function("elsewhere", 0x200, 4),
        function("second", 0x100, 8),
        function("third", 0x100, 8),
    ];
    let (undefined, defined) = process_symtab_exec(&symbols).unwrap();
    assert!(undefined.is_empty());
    assert_eq!(defined.len(), 2);
    assert_eq!(defined[&0x100].names(), &["first", "second", "third"]);
    assert_eq!(defined[&0x200].names(), &["elsewhere"]);
}

#[test]
fn the_first_entry_gives_the_size() {
    let symbols = [function("small", 0x100, 8), function("large", 0x100, 64)];
    let (_, defined) = process_symtab_exec(&symbols).unwrap();
    assert_eq!(defined[&0x100].size(), 8);
    assert_eq!(defined[&0x100].names(), &["small", "large"]);
    assert_eq!(defined[&0x100].stack(), None);
}

#[test]
fn a_function_without_address_and_size_is_undefined() {
    let symbols = [function("extern_fn", 0, 0), function("main", 0x40, 12)];
    let (undefined, defined) = process_symtab_exec(&symbols).unwrap();
    assert_eq!(undefined, vec!["extern_fn"]);
    assert_eq!(defined.len(), 1);
    assert!(!defined.contains_key(&0));
    assert_eq!(defined[&0x40].names(), &["main"]);
}

#[test]
fn undefined_names_are_a_set() {
    let symbols = [function("puts", 0, 0), function("exit", 0, 0), function("puts", 0, 0)];
    let (undefined, defined) = process_symtab_exec(&symbols).unwrap();
    assert_eq!(undefined, vec!["puts", "exit"]);
    assert!(defined.is_empty());
}

#[test]
fn a_function_at_address_zero_with_a_size_is_defined() {
    let symbols = [function("reset", 0, 4), function("weak", 0, 0)];
    let (undefined, defined) = process_symtab_exec(&symbols).unwrap();
    assert_eq!(undefined, vec!["weak"]);
    assert_eq!(defined[&0].names(), &["reset"]);
    assert_eq!(defined[&0].size(), 4);
}

#[test]
fn a_function_with_an_address_and_no_size_is_defined() {
    let symbols = [function("stub", 0x20, 0)];
    let (undefined, defined) = process_symtab_exec(&symbols).unwrap();
    assert!(undefined.is_empty());
    assert_eq!(defined[&0x20].size(), 0);
}

#[test]
fn a_function_without_a_name_is_an_error() {
    let symbols = [
        function("ok", 0x10, 2),
        Symbol { kind: SymbolKind::Untyped, address: 0x10, size: 0, name: None },
        Symbol { kind: SymbolKind::Function, address: 0x20, size: 2, name: None },
        Symbol { kind: SymbolKind::Function, address: 0x30, size: 2, name: None },
    ];
    assert_eq!(
        process_symtab_exec(&symbols).err(),
        Some(AnalysisError::UnresolvedName { index: 2 })
    );
}

#[test]
fn an_undefined_function_without_a_name_is_an_error_too() {
    let symbols = [Symbol { kind: SymbolKind::Function, address: 0, size: 0, name: None }];
    assert_eq!(
        process_symtab_exec(&symbols).err(),
        Some(AnalysisError::UnresolvedName { index: 0 })
    );
}

#[test]
fn an_untyped_entry_without_a_name_is_passed_over() {
    let symbols = [
        Symbol { kind: SymbolKind::Untyped, address: 0x10, size: 0, name: None },
        function("f", 0x10, 2),
    ];
    let (_, defined) = process_symtab_exec(&symbols).unwrap();
    assert_eq!(defined[&0x10].names(), &["f"]);
}

#[test]
fn other_kinds_of_entries_are_passed_over() {
    let symbols = [
        Symbol { kind: SymbolKind::Other, address: 0x10, size: 4, name: Some("table") },
        Symbol { kind: SymbolKind::Other, address: 0, size: 0, name: None },
        function("f", 0x10, 2),
    ];
    let (undefined, defined) = process_symtab_exec(&symbols).unwrap();
    assert!(undefined.is_empty());
    assert_eq!(defined.len(), 1);
    assert_eq!(defined[&0x10].names(), &["f"]);
}

#[test]
fn an_alias_follows_the_names_of_the_function() {
    let symbols = [untyped("alias", 0x100), function("f", 0x100, 8), function("g", 0x100, 8)];
    let (_, defined) = process_symtab_exec(&symbols).unwrap();
    assert_eq!(defined[&0x100].names(), &["f", "g", "alias"]);
}

#[test]
fn an_alias_at_the_even_address_goes_to_the_odd_function() {
    let symbols = [function("thumb", 0x101, 8), untyped("alias", 0x100)];
    let (_, defined) = process_symtab_exec(&symbols).unwrap();
    assert_eq!(defined.len(), 1);
    assert_eq!(defined[&0x101].names(), &["thumb", "alias"]);
}

#[test]
fn an_alias_at_the_odd_address_goes_to_the_even_function() {
    let symbols = [function("arm", 0x100, 8), untyped("alias", 0x101)];
    let (_, defined) = process_symtab_exec(&symbols).unwrap();
    assert_eq!(defined[&0x100].names(), &["arm", "alias"]);
}

#[test]
fn aliases_prefer_the_odd_function() {
    let symbols = [
        function("even", 0x100, 8),
        function("odd", 0x101, 8),
        untyped("at_even", 0x100),
        untyped("at_odd", 0x101),
    ];
    let (_, defined) = process_symtab_exec(&symbols).unwrap();
    assert_eq!(defined[&0x100].names(), &["even"]);
    assert_eq!(defined[&0x101].names(), &["odd", "at_even", "at_odd"]);
}

#[test]
fn aliases_at_the_even_address_come_first() {
    let symbols = [
        untyped("o1", 0x101),
        untyped("e1", 0x100),
        function("f", 0x101, 8),
        untyped("o2", 0x101),
        untyped("e2", 0x100),
    ];
    let (_, defined) = process_symtab_exec(&symbols).unwrap();
    assert_eq!(defined[&0x101].names(), &["f", "e1", "e2", "o1", "o2"]);
}

#[test]
fn an_alias_of_no_function_is_dropped() {
    let symbols = [function("f", 0x100, 8), untyped("lost", 0x102), untyped("far", 0x200)];
    let (undefined, defined) = process_symtab_exec(&symbols).unwrap();
    assert!(undefined.is_empty());
    assert_eq!(defined.len(), 1);
    assert_eq!(defined[&0x100].names(), &["f"]);
}

#[test]
fn mapping_tags_are_no_aliases() {
    let symbols = [
        function("f", 0x101, 8),
        untyped("$t", 0x100),
        untyped("$a", 0x101),
        untyped("$d", 0x100),
        untyped("$t.3", 0x100),
        untyped("$a.17", 0x101),
        untyped("$d.0", 0x101),
        untyped("real", 0x100),
    ];
    let (_, defined) = process_symtab_exec(&symbols).unwrap();
    assert_eq!(defined[&0x101].names(), &["f", "real"]);
}

#[test]
fn a_function_named_like_a_tag_keeps_its_name() {
    let symbols = [function("$t", 0x100, 8)];
    let (_, defined) = process_symtab_exec(&symbols).unwrap();
    assert_eq!(defined[&0x100].names(), &["$t"]);
}

#[test]
fn an_untyped_entry_at_address_zero_is_an_alias_candidate() {
    let symbols = [untyped("", 0), function("reset", 1, 4), function("extern_fn", 0, 0)];
    let (undefined, defined) = process_symtab_exec(&symbols).unwrap();
    assert_eq!(undefined, vec!["extern_fn"]);
    assert_eq!(defined[&1].names(), &["reset", ""]);
}

#[test]
fn aliases_at_the_largest_address() {
    let symbols = [function("top", u64::MAX, 1), untyped("below", u64::MAX - 1)];
    let (_, defined) = process_symtab_exec(&symbols).unwrap();
    assert_eq!(defined[&u64::MAX].names(), &["top", "below"]);
}

#[test]
fn aliases_are_attached_by_the_parity_of_their_value() {
    let symbols = [function("f", 0x101, 8), untyped("e", 0x100), untyped("o", 0x101)];
    let (_, mut defined) = process_symtab_exec(&[symbols[0]]).unwrap();
    attach_aliases(&symbols, &mut defined, true);
    assert_eq!(defined[&0x101].names(), &["f", "o"]);
    attach_aliases(&symbols, &mut defined, false);
    assert_eq!(defined[&0x101].names(), &["f", "o", "e"]);
}
