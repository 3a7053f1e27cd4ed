use cargo_asm::commands::{
    cargo_binary_path, find_symbol, list_symbols, matching_symbols, several_binaries,
    write_list_line, write_number,
};
use cargo_asm::errors::CargoAsmError;
use cargo_asm::matcher::SymbolMatcher;
use cargo_asm::symbol::Symbol;

fn sample_symbols() -> Vec<Symbol> {
    vec![
        Symbol::new("main", 0x1160, 0x160, 0x40),
        Symbol::new("pow", 0x1140, 0x140, 0x20),
        Symbol::new("Pow_helper", 0x11a0, 0x1a0, 0x123),
        Symbol::new("_ZN3foo3powE", 0, 0x400, 0),
    ]
}

fn number(n: u64, base: u64, width: usize, fill: char) -> String {
    let mut out = String::new();
    write_number(&mut out, n, base, width, fill);
    out
}

#[test]
fn first_symbol_that_matches_wins() {
    let symbols = sample_symbols();
    assert_eq!(find_symbol(&symbols, &SymbolMatcher::new("pow")), Some(1));
    assert_eq!(find_symbol(&symbols, &SymbolMatcher::new("helper")), Some(2));
    assert_eq!(find_symbol(&symbols, &SymbolMatcher::new("foo pow")), Some(3));
    assert_eq!(find_symbol(&symbols, &SymbolMatcher::new("MAIN")), Some(0));
    assert_eq!(find_symbol(&symbols, &SymbolMatcher::new("")), Some(0));
    assert_eq!(find_symbol(&symbols, &SymbolMatcher::new("pw")), None);
    assert_eq!(find_symbol(&Vec::new(), &SymbolMatcher::new("")), None);
}

#[test]
fn all_symbols_that_match_are_listed_in_order() {
    let symbols = sample_symbols();
    assert_eq!(matching_symbols(&symbols, &SymbolMatcher::new("pow")), vec![1, 2, 3]);
    assert_eq!(matching_symbols(&symbols, &SymbolMatcher::new("main")), vec![0]);
    assert_eq!(matching_symbols(&symbols, &SymbolMatcher::new("")), vec![0, 1, 2, 3]);
    assert!(matching_symbols(&symbols, &SymbolMatcher::new("nothing")).is_empty());
}

#[test]
fn list_of_one_symbol_has_one_line() {
    let symbols = vec![Symbol::new("pow", 0x1140, 0x140, 0x20), Symbol::new("main", 0x1160, 0x160, 0x40)];
    let lines = list_symbols(&symbols, &SymbolMatcher::new("pow")).unwrap();
    assert_eq!(lines, vec!["[address: 0x1140] [size: 32 bytes] pow"]);
}

#[test]
fn list_pads_addresses_and_sizes_to_the_widest() {
    let lines = list_symbols(&sample_symbols(), &SymbolMatcher::new("pow")).unwrap();
    assert_eq!(
        lines,
        vec![
            "[address: 0x1140] [size:  32 bytes] pow",
            "[address: 0x11A0] [size: 291 bytes] Pow_helper",
            "[address: 0x0000] [size:   0 bytes] foo::pow",
        ]
    );
}

#[test]
fn list_of_symbols_at_zero_shows_one_digit() {
    let symbols = vec![Symbol::new("at_zero", 0, 0, 0)];
    assert_eq!(
        list_symbols(&symbols, &SymbolMatcher::new("zero")).unwrap(),
        vec!["[address: 0x0] [size: 0 bytes] at_zero"]
    );
}

#[test]
fn list_without_a_match_is_an_error() {
    match list_symbols(&sample_symbols(), &SymbolMatcher::new("nothing here")) {
        Err(CargoAsmError::NoSymbolMatch(needle)) => assert_eq!(needle, "nothing here"),
        _ => panic!("no error"),
    }
    assert!(matches!(
        list_symbols(&Vec::new(), &SymbolMatcher::new("")),
        Err(CargoAsmError::NoSymbolMatch(_))
    ));
}

#[test]
fn line_of_a_symbol() {
    let symbol = Symbol::new("_ZN3foo3barE", 0xabcdef, 0, 12);
    assert_eq!(write_list_line(&symbol, 8, 4), "[address: 0x00ABCDEF] [size:   12 bytes] foo::bar");
    assert_eq!(write_list_line(&symbol, 0, 0), "[address: 0xABCDEF] [size: 12 bytes] foo::bar");
}

#[test]
fn numbers_are_written_to_a_base() {
    assert_eq!(number(0, 10, 0, ' '), "0");
    assert_eq!(number(0, 16, 3, '0'), "000");
    assert_eq!(number(255, 16, 0, '0'), "FF");
    assert_eq!(number(255, 10, 5, ' '), "  255");
    assert_eq!(number(255, 2, 0, ' '), "11111111");
    assert_eq!(number(u64::MAX, 16, 4, '0'), "FFFFFFFFFFFFFFFF");
    assert_eq!(number(u64::MAX, 10, 0, ' '), "18446744073709551615");
    assert_eq!(number(0x1f, 16, 4, '.'), "..1F");
    let mut out = String::from("n=");
    write_number(&mut out, 42, 10, 0, ' ');
    assert_eq!(out, "n=42");
}

#[test]
fn cargo_binary_is_the_first_program() {
    let targets = vec!["tool".to_string(), "other".to_string()];
    assert_eq!(
        cargo_binary_path(&targets, None).unwrap(),
        ("debug".to_string(), "tool".to_string())
    );
    assert_eq!(
        cargo_binary_path(&targets, Some("release")).unwrap(),
        ("release".to_string(), "tool".to_string())
    );
    assert!(several_binaries(&targets));
    assert!(!several_binaries(&vec!["tool".to_string()]));
    assert!(!several_binaries(&Vec::new()));
}

#[test]
fn package_without_a_program_is_an_error() {
    assert!(matches!(cargo_binary_path(&Vec::new(), None), Err(CargoAsmError::NoCargoBinary)));
    assert!(matches!(
        cargo_binary_path(&Vec::new(), Some("release")),
        Err(CargoAsmError::NoCargoBinary)
    ));
}
