use cargo_asm::arena::SymbolArena;
use cargo_asm::errors::CargoAsmError;
use cargo_asm::pdb::Pdb;

#[test]
fn message_of_no_symbol_match() {
    assert_eq!(
        CargoAsmError::NoSymbolMatch("pw".to_string()).message(),
        "no symbol matched the search string `pw`"
    );
    assert_eq!(
        CargoAsmError::NoSymbolMatch(String::new()).message(),
        "no symbol matched the search string ``"
    );
}

#[test]
fn message_of_unsupported_format() {
    assert_eq!(
        CargoAsmError::UnsupportedBinaryFormat("Archive").message(),
        "binary format `Archive` not supported"
    );
    assert_eq!(
        CargoAsmError::UnsupportedBinaryFormat("<< UNKNOWN >>").message(),
        "binary format `<< UNKNOWN >>` not supported"
    );
}

#[test]
fn message_of_unsupported_operation() {
    assert_eq!(
        CargoAsmError::UnsupportedBinaryFormatOp("PE", "line mapping").message(),
        "operation `line mapping` not supported for `PE` binary format"
    );
    assert_eq!(
        CargoAsmError::UnsupportedBinaryFormatOp("PE", "").message(),
        "binary format `PE` not supported"
    );
}

#[test]
fn message_of_the_other_errors() {
    assert_eq!(CargoAsmError::NoCargoBinary.message(), "no cargo binary found");
    assert_eq!(CargoAsmError::Malformed("bad magic".to_string()).message(), "bad magic");
    assert_eq!(CargoAsmError::Decoder("invalid handle".to_string()).message(), "invalid handle");
}

#[test]
fn arena_holds_names_as_they_are() {
    let mut arena = SymbolArena::new();
    let first = arena.store("pow");
    let second = arena.store("");
    let third = arena.store("größe::main");
    assert_eq!(arena.get(first), b"pow");
    assert_eq!(arena.get(second), b"");
    assert_eq!(arena.get(third), "größe::main".as_bytes());
    assert_ne!(first, third);
}

#[test]
fn arena_keeps_names_when_a_chunk_is_full() {
    let mut arena = SymbolArena::new();
    let small = arena.store("a");
    let long = "x".repeat(3000);
    let big = arena.store(&long);
    let mut names = Vec::new();
    for i in 0..400 {
        let text = format!("symbol_number_{}", i);
        names.push((arena.store(&text), text));
    }
    assert_eq!(arena.get(small), b"a");
    assert_eq!(arena.get(big), long.as_bytes());
    for (name, text) in &names {
        assert_eq!(arena.get(*name), text.as_bytes());
    }
}

#[test]
fn pdb_holds_its_bytes() {
    let pdb = Pdb::parse(vec![0x4d, 0x69, 0x63, 0x72]);
    assert_eq!(pdb.data(), &[0x4d, 0x69, 0x63, 0x72]);
    assert!(Pdb::parse(Vec::new()).data().is_empty());
}
