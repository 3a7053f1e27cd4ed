use cargo_asm::binary::{
    BinaryArch, BinaryBits, BinaryEndian, MachDebug, NameLookup, ObjectExt, PEDebug, PEExt,
};
use cargo_asm::elf::{analyze_elf, elf_function_symbols, ElfSection, ElfSymbolEntry};
use cargo_asm::errors::CargoAsmError;
use cargo_asm::mach::{
    analyze_mach_object, choose_external_dwarf, find_external_dwarf, fix_section_name,
    get_section_by_name, mach_function_symbols, readable_symbols, MachSection, MachSymbolEntry,
};
use cargo_asm::pe::{
    analyze_pe, choose_pdb_path, coff_entries, coff_string_offset, coff_string_offsets,
    get_coff_symbols, get_pdb_symbols, is_pdb_file_name,
    pe_section_range, section_addresses, CoffSymbolEntry, PdbContents, PdbProcedure, PeSection,
    RawCoffSymbol,
};
use cargo_asm::symbol::Symbol;

fn shape(symbols: &[Symbol]) -> Vec<(String, u64, usize, usize)> {
    symbols.iter().map(|s| (s.original_name.clone(), s.addr, s.offset, s.size)).collect()
}

fn elf_function(name: &str, value: u64, size: u64, section_index: usize) -> ElfSymbolEntry {
    ElfSymbolEntry {
        name: NameLookup::Found(name.to_string()),
        info: 0x12,
        size,
        value,
        section_index,
    }
}

fn elf_sections() -> Vec<ElfSection> {
    vec![
        ElfSection { offset: 0, addr: 0, size: 0 },
        ElfSection { offset: 0x140, addr: 0x1140, size: 0x60 },
    ]
}

fn coff(name: &str, value: u32, section_number: i16, typ: u16, storage_class: u8) -> CoffSymbolEntry {
    CoffSymbolEntry { name: Some(name.to_string()), typ, value, section_number, storage_class }
}

fn pe_sections() -> Vec<PeSection> {
    vec![PeSection { virtual_address: 0x1000, pointer_to_raw_data: 0x200, virtual_size: 0x70 }]
}

fn stab(name: &str, n_type: u8, n_sect: usize, n_value: u64) -> MachSymbolEntry {
    MachSymbolEntry { name: name.to_string(), n_type, n_sect, n_value }
}

#[test]
fn elf_functions_become_symbols() {
    let entries = vec![
        elf_function("pow", 0x1140, 0x20, 1),
        elf_function("main", 0x1160, 0x40, 1),
    ];
    let symbols = elf_function_symbols(&entries, &elf_sections()).unwrap();
    assert_eq!(
        shape(&symbols),
        vec![("pow".to_string(), 0x1140, 0x140, 0x20), ("main".to_string(), 0x1160, 0x160, 0x40)]
    );
    assert_eq!(symbols[0].demangled_name, "pow");
    for symbol in &symbols {
        assert!(symbol.size > 0);
        assert!(symbol.offset + symbol.size <= 0x1a0);
    }
}

#[test]
fn elf_symbol_names_are_demangled() {
    let entries = vec![elf_function("_ZN3foo3barE", 0x1140, 1, 1)];
    let symbols = elf_function_symbols(&entries, &elf_sections()).unwrap();
    assert_eq!(symbols[0].original_name, "_ZN3foo3barE");
    assert_eq!(symbols[0].demangled_name, "foo::bar");
}

#[test]
fn elf_entries_that_are_no_functions_are_skipped() {
    let mut object = elf_function("data", 0x1140, 8, 1);
    object.info = 0x11;
    let mut section = elf_function("sec", 0x1140, 8, 1);
    section.info = 0x03;
    let local_function = ElfSymbolEntry { info: 0x02, ..elf_function("local", 0x1150, 4, 1) };
    let symbols = elf_function_symbols(&vec![object, section, local_function], &elf_sections()).unwrap();
    assert_eq!(shape(&symbols), vec![("local".to_string(), 0x1150, 0x150, 4)]);
}

#[test]
fn elf_functions_without_size_name_or_section_are_skipped() {
    let unnamed = ElfSymbolEntry { name: NameLookup::Missing, ..elf_function("", 0x1140, 8, 1) };
    let entries = vec![
        elf_function("extern", 0, 0, 0),
        unnamed,
        elf_function("far", 0x1140, 8, 7),
        elf_function("before", 0x1000, 8, 1),
        elf_function("kept", 0x1141, 8, 1),
    ];
    let symbols = elf_function_symbols(&entries, &elf_sections()).unwrap();
    assert_eq!(shape(&symbols), vec![("kept".to_string(), 0x1141, 0x141, 8)]);
}

#[test]
fn elf_function_with_unreadable_name_is_an_error() {
    let bad = ElfSymbolEntry { name: NameLookup::Invalid, ..elf_function("", 0x1140, 8, 1) };
    let entries = vec![elf_function("pow", 0x1140, 0x20, 1), bad];
    assert!(matches!(
        elf_function_symbols(&entries, &elf_sections()),
        Err(CargoAsmError::Malformed(_))
    ));
    let ignored = ElfSymbolEntry { size: 0, name: NameLookup::Invalid, ..elf_function("", 0, 0, 1) };
    assert!(elf_function_symbols(&vec![ignored], &elf_sections()).unwrap().is_empty());
}

#[test]
fn elf_header_names_width_order_and_machine() {
    let entries = vec![elf_function("pow", 0x1140, 0x20, 1)];
    let binary = analyze_elf(2, 1, 62, &entries, &elf_sections()).unwrap();
    assert_eq!(binary.bits, BinaryBits::Bits64);
    assert_eq!(binary.endian, BinaryEndian::Little);
    assert_eq!(binary.arch, BinaryArch::AMD64);
    assert!(matches!(binary.object, ObjectExt::Elf));
    assert_eq!(binary.symbols.len(), 1);
    let other = analyze_elf(1, 2, 20, &Vec::new(), &Vec::new()).unwrap();
    assert_eq!(other.bits, BinaryBits::Bits32);
    assert_eq!(other.endian, BinaryEndian::Big);
    assert_eq!(other.arch, BinaryArch::PowerPC);
}

#[test]
fn elf_header_with_unknown_width_or_machine_is_unknown() {
    let binary = analyze_elf(9, 1, 0, &Vec::new(), &Vec::new()).unwrap();
    assert_eq!(binary.bits, BinaryBits::Unknown);
    assert_eq!(binary.arch, BinaryArch::Unknown);
    assert_eq!(analyze_elf(2, 1, 0xbeef, &Vec::new(), &Vec::new()).unwrap().arch, BinaryArch::Unknown);
}

#[test]
fn elf_header_with_unknown_byte_order_is_an_error() {
    assert!(matches!(
        analyze_elf(2, 0, 62, &Vec::new(), &Vec::new()),
        Err(CargoAsmError::Malformed(_))
    ));
    assert!(matches!(
        analyze_elf(2, 3, 62, &Vec::new(), &Vec::new()),
        Err(CargoAsmError::Malformed(_))
    ));
}

#[test]
fn coff_symbols_are_ordered_and_sized_by_the_gap() {
    let entries = vec![
        coff("main", 0x30, 1, 0x20, 2),
        coff("pow", 0x10, 1, 0x20, 2),
        coff("end", 0x70, 1, 0x20, 3),
    ];
    let symbols = get_coff_symbols(&entries, &pe_sections(), 0x1_4000_0000);
    assert_eq!(
        shape(&symbols),
        vec![
            ("pow".to_string(), 0x1_4000_1010, 0x210, 0x20),
            ("main".to_string(), 0x1_4000_1030, 0x230, 0x40),
            ("end".to_string(), 0x1_4000_1070, 0x270, 0),
        ]
    );
}

#[test]
fn coff_symbols_at_one_address_keep_their_order() {
    let entries = vec![
        coff("b", 0x20, 1, 0x20, 2),
        coff("first", 0x10, 1, 0x20, 6),
        coff("second", 0x10, 1, 0x20, 3),
    ];
    let symbols = get_coff_symbols(&entries, &pe_sections(), 0);
    assert_eq!(
        shape(&symbols),
        vec![
            ("first".to_string(), 0x1010, 0x210, 0),
            ("second".to_string(), 0x1010, 0x210, 0x10),
            ("b".to_string(), 0x1020, 0x220, 0),
        ]
    );
}

#[test]
fn coff_entries_that_are_no_code_are_skipped() {
    let entries = vec![
        coff("data", 0x10, 1, 0x00, 2),
        coff("zero", 0, 1, 0x20, 2),
        coff("", 0x10, 1, 0x20, 2),
        CoffSymbolEntry { name: None, ..coff("x", 0x10, 1, 0x20, 2) },
        coff("undefined", 0x10, 0, 0x20, 2),
        coff("absolute", 0x10, -1, 0x20, 2),
        coff("far", 0x10, 2, 0x20, 2),
        coff("file", 0x10, 1, 0x20, 103),
        coff("definition", 0x18, 1, 0x2f, 2),
        coff("kept", 0x10, 1, 0x20, 3),
    ];
    let symbols = get_coff_symbols(&entries, &pe_sections(), 0x40_0000);
    assert_eq!(
        shape(&symbols),
        vec![
            ("kept".to_string(), 0x40_1010, 0x210, 8),
            ("definition".to_string(), 0x40_1018, 0x218, 0),
        ]
    );
}

#[test]
fn pdb_procedures_follow_the_coff_symbols() {
    let sections = pe_sections();
    let procedures = vec![
        PdbProcedure { name: "none".to_string(), section: 0, offset: 0, len: 4, rva: Some(1) },
        PdbProcedure { name: "far".to_string(), section: 2, offset: 0, len: 4, rva: Some(1) },
        PdbProcedure { name: "proc".to_string(), section: 1, offset: 0x30, len: 0x12, rva: Some(0x1030) },
        PdbProcedure { name: "lost".to_string(), section: 1, offset: 0x50, len: 0, rva: None },
    ];
    let mut symbols = vec![Symbol::new("first", 1, 2, 3)];
    get_pdb_symbols(0x40_0000, &procedures, &sections, &mut symbols);
    assert_eq!(
        shape(&symbols),
        vec![
            ("first".to_string(), 1, 2, 3),
            ("proc".to_string(), 0x40_1030, 0x230, 0x12),
            ("lost".to_string(), 0x40_0000, 0x250, 0),
        ]
    );
}

#[test]
fn pe_binary_is_little_endian_with_the_width_of_its_header() {
    let entries = vec![coff("pow", 0x10, 1, 0x20, 2)];
    let binary = analyze_pe(true, 0x8664, 0x1_4000_0000, &entries, &pe_sections(), None);
    assert_eq!(binary.endian, BinaryEndian::Little);
    assert_eq!(binary.bits, BinaryBits::Bits64);
    assert_eq!(binary.arch, BinaryArch::AMD64);
    assert!(matches!(
        binary.object,
        ObjectExt::PE(PEExt { image_base: 0x1_4000_0000, debug: PEDebug::Dwarf })
    ));
    assert_eq!(shape(&binary.symbols), vec![("pow".to_string(), 0x1_4000_1010, 0x210, 0)]);
    let small = analyze_pe(false, 0x1f0, 0, &Vec::new(), &Vec::new(), None);
    assert_eq!(small.bits, BinaryBits::Bits32);
    assert_eq!(small.arch, BinaryArch::PowerPC);
    assert_eq!(analyze_pe(true, 0x1f0, 0, &Vec::new(), &Vec::new(), None).arch, BinaryArch::PowerPC64);
    assert_eq!(analyze_pe(true, 0, 0, &Vec::new(), &Vec::new(), None).arch, BinaryArch::Unknown);
}

#[test]
fn pe_binary_with_a_pdb_file_has_its_procedures() {
    let pdb = PdbContents {
        sections: pe_sections(),
        procedures: vec![PdbProcedure {
            name: "proc".to_string(),
            section: 1,
            offset: 0x40,
            len: 8,
            rva: Some(0x1040),
        }],
    };
    let entries = vec![coff("pow", 0x10, 1, 0x20, 2)];
    let binary = analyze_pe(true, 0x8664, 0x1000_0000, &entries, &pe_sections(), Some(&pdb));
    assert!(matches!(binary.object, ObjectExt::PE(PEExt { debug: PEDebug::PDB, .. })));
    assert_eq!(
        shape(&binary.symbols),
        vec![("pow".to_string(), 0x1000_1010, 0x210, 0), ("proc".to_string(), 0x1000_1040, 0x240, 8)]
    );
}

#[test]
fn pdb_file_is_named_after_the_binary() {
    assert!(is_pdb_file_name("app.pdb", "app"));
    assert!(is_pdb_file_name("my.app.pdb", "my.app"));
    assert!(!is_pdb_file_name("app.PDB", "app"));
    assert!(!is_pdb_file_name("app.pdb", "App"));
    assert!(!is_pdb_file_name("app.exe", "app"));
    assert!(!is_pdb_file_name("app.pdb.bak", "app"));
    assert!(!is_pdb_file_name("app", "app"));
    assert!(!is_pdb_file_name(".pdb", ""));
    assert!(!is_pdb_file_name("xapp.pdb", "app"));
}

#[test]
fn pe_section_lies_in_the_file_or_not() {
    let section = PeSection { virtual_address: 0x1000, pointer_to_raw_data: 0x200, virtual_size: 0x70 };
    assert_eq!(pe_section_range(section, 0x270), Some((0x200, 0x270)));
    assert_eq!(pe_section_range(section, 0x1000), Some((0x200, 0x270)));
    assert_eq!(pe_section_range(section, 0x26f), None);
    assert_eq!(pe_section_range(section, 0), None);
    let empty = PeSection { virtual_address: 0, pointer_to_raw_data: 0, virtual_size: 0 };
    assert_eq!(pe_section_range(empty, 0), Some((0, 0)));
}

#[test]
fn sections_are_loaded_above_the_image_base() {
    let sections = vec![
        PeSection { virtual_address: 0x1000, pointer_to_raw_data: 0, virtual_size: 0 },
        PeSection { virtual_address: 0x3000, pointer_to_raw_data: 0, virtual_size: 0 },
    ];
    assert_eq!(section_addresses(0x40_0000, &sections), vec![0x40_1000, 0x40_3000]);
    assert_eq!(section_addresses(u64::MAX, &sections), vec![0xfff, 0x2fff]);
    assert!(section_addresses(5, &Vec::new()).is_empty());
}

#[test]
fn mach_functions_are_sized_by_the_next_address() {
    let sections = vec![MachSection { addr: 0x1_0000_0f00, offset: 0x100 }];
    let entries = vec![
        stab("_main", 0x24, 1, 0x1_0000_0f20),
        stab("", 0x2e, 1, 0x1_0000_0f60),
        stab("_pow", 0x24, 1, 0x1_0000_0f00),
        stab("_pow", 0x0f, 1, 0x1_0000_0f10),
        stab("_zero", 0x24, 0, 0x1_0000_0f08),
    ];
    let symbols = mach_function_symbols(&entries, &sections);
    assert_eq!(
        shape(&symbols),
        vec![
            ("_main".to_string(), 0x1_0000_0f20, 0x120, 0x40),
            ("_pow".to_string(), 0x1_0000_0f00, 0x100, 0x20),
        ]
    );
}

#[test]
fn mach_function_without_a_higher_address_gets_address_zero() {
    let sections = vec![MachSection { addr: 0x1000, offset: 0x400 }];
    let entries = vec![
        stab("_a", 0x24, 1, 0x1000),
        stab("_b", 0x24, 1, 0x1010),
        stab("_b2", 0x24, 1, 0x1010),
    ];
    let symbols = mach_function_symbols(&entries, &sections);
    assert_eq!(
        shape(&symbols),
        vec![
            ("_a".to_string(), 0x1000, 0x400, 0x10),
            ("_b".to_string(), 0, 0x410, 0),
            ("_b2".to_string(), 0, 0x410, 0),
        ]
    );
    for symbol in &symbols {
        assert!(symbol.size > 0 || symbol.addr == 0);
    }
}

#[test]
fn mach_entries_that_are_no_functions_are_skipped() {
    let sections = vec![MachSection { addr: 0x1000, offset: 0x400 }];
    let entries = vec![
        stab("", 0x24, 1, 0x1000),
        stab("_far", 0x24, 3, 0x1004),
        stab("_before", 0x24, 1, 0x800),
        stab("_so", 0x64, 1, 0x1008),
        stab("_kept", 0x24, 1, 0x100c),
        stab("_top", 0x20, 1, 0x2000),
    ];
    let symbols = mach_function_symbols(&entries, &sections);
    assert_eq!(shape(&symbols), vec![("_kept".to_string(), 0x100c, 0x40c, 0xff4)]);
}

#[test]
fn mach_object_names_width_order_and_machine() {
    let binary = analyze_mach_object(true, true, 0x0100_0007, 3, &Vec::new(), &Vec::new(), None);
    assert_eq!(binary.bits, BinaryBits::Bits64);
    assert_eq!(binary.endian, BinaryEndian::Little);
    assert_eq!(binary.arch, BinaryArch::AMD64);
    match &binary.object {
        ObjectExt::Mach(ext) => assert!(matches!(ext.debug, MachDebug::Internal)),
        _ => panic!("not a Mach-O binary"),
    }
    let other = analyze_mach_object(
        false,
        false,
        18,
        0,
        &Vec::new(),
        &Vec::new(),
        Some("/p/app.dSYM/Contents/Resources/DWARF/app".to_string()),
    );
    assert_eq!(other.bits, BinaryBits::Bits32);
    assert_eq!(other.endian, BinaryEndian::Big);
    assert_eq!(other.arch, BinaryArch::PowerPC);
    match &other.object {
        ObjectExt::Mach(ext) => match &ext.debug {
            MachDebug::External(path) => assert_eq!(path, "/p/app.dSYM/Contents/Resources/DWARF/app"),
            _ => panic!("no external debug information"),
        },
        _ => panic!("not a Mach-O binary"),
    }
    assert_eq!(
        analyze_mach_object(true, true, 99, 0, &Vec::new(), &Vec::new(), None).arch,
        BinaryArch::Unknown
    );
}

#[test]
fn section_name_loses_dot_or_underscores() {
    assert_eq!(fix_section_name(".debug_info"), "debug_info");
    assert_eq!(fix_section_name("__debug_info"), "debug_info");
    assert_eq!(fix_section_name("debug_info"), "debug_info");
    assert_eq!(fix_section_name("_debug"), "_debug");
    assert_eq!(fix_section_name("..x"), ".x");
    assert_eq!(fix_section_name("___x"), "_x");
    assert_eq!(fix_section_name("."), "");
    assert_eq!(fix_section_name("__"), "");
    assert_eq!(fix_section_name(""), "");
}

#[test]
fn section_is_found_by_its_fixed_name() {
    let names = vec![
        "__text".to_string(),
        "__debug_line".to_string(),
        ".debug_line".to_string(),
        "__debug_info".to_string(),
    ];
    assert_eq!(get_section_by_name(&names, ".debug_line"), Some(1));
    assert_eq!(get_section_by_name(&names, "debug_info"), Some(3));
    assert_eq!(get_section_by_name(&names, "__text"), Some(0));
    assert_eq!(get_section_by_name(&names, ".debug_str"), None);
    assert_eq!(get_section_by_name(&Vec::new(), ".text"), None);
}

#[test]
fn external_dwarf_lies_in_the_bundle_of_the_binary() {
    assert_eq!(
        find_external_dwarf("app", "app"),
        vec!["app.dSYM", "Contents", "Resources", "DWARF", "app"]
    );
    assert_eq!(
        find_external_dwarf("tool", "tool.bin"),
        vec!["tool.dSYM", "Contents", "Resources", "DWARF", "tool.bin"]
    );
}

#[test]
fn pdb_file_that_the_binary_names_is_taken_where_it_is_a_file() {
    let named = || Some("C:/build/a.pdb".to_string());
    let beside = || Some("./a.pdb".to_string());
    assert_eq!(choose_pdb_path(named(), true, beside()), named());
    assert_eq!(choose_pdb_path(named(), false, beside()), beside());
    assert_eq!(choose_pdb_path(None, true, beside()), beside());
    assert_eq!(choose_pdb_path(named(), false, None), None);
    assert_eq!(choose_pdb_path(named(), true, None), named());
    assert_eq!(choose_pdb_path(None, false, None), None);
}

#[test]
fn debug_file_of_the_name_of_the_binary_is_taken_where_it_is_a_file() {
    let exact = || "a.dSYM/Contents/Resources/DWARF/a".to_string();
    let others = || vec!["d/a-1f2e".to_string(), "d/b".to_string()];
    assert_eq!(choose_external_dwarf(exact(), true, others()), Some(exact()));
    assert_eq!(choose_external_dwarf(exact(), true, Vec::new()), Some(exact()));
    assert_eq!(choose_external_dwarf(exact(), false, others()), Some("d/a-1f2e".to_string()));
    assert_eq!(choose_external_dwarf(exact(), false, Vec::new()), None);
}

fn raw_coff(inline_name: Option<&str>, name_field: [u8; 8]) -> RawCoffSymbol {
    RawCoffSymbol {
        inline_name: inline_name.map(|n| n.to_string()),
        name_field: name_field.to_vec(),
        typ: 0x20,
        value: 0x10,
        section_number: 1,
        storage_class: 2,
    }
}

#[test]
fn place_of_a_name_is_counted_from_the_length_of_the_table() {
    assert_eq!(coff_string_offset(&vec![0, 0, 0, 0, 4, 0, 0, 0]), Some(0));
    assert_eq!(coff_string_offset(&vec![0, 0, 0, 0, 0x17, 0, 0, 0]), Some(0x13));
    assert_eq!(coff_string_offset(&vec![0, 0, 0, 0, 0x04, 0x03, 0x02, 0x01]), Some(0x0102_0300));
    assert_eq!(coff_string_offset(&vec![0, 9, 9, 9, 0xff, 0xff, 0xff, 0xff]), Some(0xffff_fffb));
    assert_eq!(coff_string_offset(&vec![0, 0, 0, 0, 3, 0, 0, 0]), None);
    assert_eq!(coff_string_offset(&vec![0, 0, 0, 0, 0, 0, 0, 0]), None);
    assert_eq!(coff_string_offset(&vec![b'm', b'a', b'i', b'n', 4, 0, 0, 0]), None);
    assert_eq!(coff_string_offset(&vec![0, 0, 0, 0, 4, 0, 0]), None);
    assert_eq!(coff_string_offset(&Vec::new()), None);
}

#[test]
fn names_are_looked_up_only_for_entries_that_hold_none() {
    let raw = vec![
        raw_coff(Some("main"), *b"main\0\0\0\0"),
        raw_coff(None, [0, 0, 0, 0, 8, 0, 0, 0]),
        raw_coff(Some("odd"), [0, 0, 0, 0, 8, 0, 0, 0]),
        raw_coff(None, [0xff, 0, 0, 0, 8, 0, 0, 0]),
    ];
    assert_eq!(coff_string_offsets(&raw), vec![None, Some(4), None, None]);
    assert!(coff_string_offsets(&Vec::new()).is_empty());
}

#[test]
fn entry_takes_the_name_that_it_holds_before_the_one_of_the_table() {
    let raw = vec![
        raw_coff(Some("main"), *b"main\0\0\0\0"),
        raw_coff(None, [0, 0, 0, 0, 8, 0, 0, 0]),
        raw_coff(None, [0, 0, 0, 0, 9, 0, 0, 0]),
        raw_coff(None, [0, 0, 0, 0, 10, 0, 0, 0]),
    ];
    let strings = vec![Some("other".to_string()), Some("long_name".to_string()), None];
    let entries = coff_entries(&raw, &strings);
    let names: Vec<Option<&str>> = entries.iter().map(|e| e.name.as_deref()).collect();
    assert_eq!(names, vec![Some("main"), Some("long_name"), None, None]);
    assert!(entries.iter().all(|e| e.typ == 0x20 && e.value == 0x10));
    assert!(entries.iter().all(|e| e.section_number == 1 && e.storage_class == 2));
}

#[test]
fn symbols_behind_one_that_cannot_be_read_are_left_out() {
    let entry = |name: &str, n_value: u64| {
        Some(MachSymbolEntry { name: name.to_string(), n_type: 0x24, n_sect: 1, n_value })
    };
    let names = |found: &Vec<Option<MachSymbolEntry>>| -> Vec<(String, u64)> {
        readable_symbols(found).into_iter().map(|e| (e.name, e.n_value)).collect()
    };
    let all = vec![entry("_a", 1), entry("_b", 2), entry("_c", 3)];
    assert_eq!(
        names(&all),
        vec![("_a".to_string(), 1), ("_b".to_string(), 2), ("_c".to_string(), 3)]
    );
    let cut = vec![entry("_a", 1), None, entry("_c", 3)];
    assert_eq!(names(&cut), vec![("_a".to_string(), 1)]);
    assert!(names(&vec![None, entry("_a", 1)]).is_empty());
    assert!(names(&Vec::new()).is_empty());
}
