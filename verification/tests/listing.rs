use cargo_asm::amd64::{Instruction, Operand};
use cargo_asm::arch::OperandPatches;
use cargo_asm::jumps::InnerJumpTable;
use cargo_asm::line_cache::FileLineCache;
use cargo_asm::listing::{
    measure, write_address, write_disasm_output, write_padded, DisasmConfig, SourceLine, Span,
    Style,
};
use cargo_asm::strategy::FileResolveStrategy;
use cargo_asm::symbol::Symbol;

fn instr(address: u64, bytes: &[u8], mnemonic: &str, op_str: &str) -> Instruction {
    Instruction {
        address,
        bytes: bytes.to_vec(),
        mnemonic: mnemonic.to_string(),
        op_str: op_str.to_string(),
        groups: Vec::new(),
        opcode: Vec::new(),
        operands: Vec::<Operand>::new(),
    }
}

fn pow_instrs() -> Vec<Instruction> {
    vec![
        instr(0x1140, &[0xb8, 1, 0, 0, 0], "mov", "eax, 1"),
        instr(0x1145, &[0x85, 0xf6], "test", "esi, esi"),
        instr(0x1147, &[0x74, 0x08], "je", "0x1151"),
        instr(0x1149, &[0x0f, 0xaf, 0xc7], "imul", "eax, edi"),
        instr(0x114c, &[0x83, 0xee, 0x01], "sub", "esi, 1"),
        instr(0x114f, &[0x75, 0xf8], "jne", "0x1149"),
        instr(0x1151, &[0xc3], "ret", ""),
    ]
}

fn main_instrs() -> Vec<Instruction> {
    vec![
        instr(0x1160, &[0xbf, 2, 0, 0, 0], "mov", "edi, 2"),
        instr(0x1165, &[0xbe, 3, 0, 0, 0], "mov", "esi, 3"),
        instr(0x116a, &[0xe8, 0xd1, 0xff, 0xff, 0xff], "call", "0x1140"),
        instr(0x116f, &[0xc3], "ret", ""),
    ]
}

fn pow_jumps() -> InnerJumpTable {
    let mut jumps = InnerJumpTable::new();
    jumps.insert(2, 6);
    jumps.insert(5, 3);
    jumps.sort_and_calc_overlaps();
    jumps
}

fn config(address: bool, bytes: bool, jumps: bool, instr: bool, source: bool) -> DisasmConfig {
    let mut config = DisasmConfig::default();
    config.display_address = address;
    config.display_bytes = bytes;
    config.display_jumps = jumps;
    config.display_instr = instr;
    config.display_patches = true;
    config.display_source = source;
    config
}

fn text_of(spans: &[Span]) -> String {
    spans.iter().map(|s| s.text.as_str()).collect()
}

fn no_lines(count: usize) -> Vec<SourceLine> {
    vec![None; count]
}

#[test]
fn default_config_shows_nothing() {
    let config = DisasmConfig::default();
    assert!(!config.display_address && !config.display_patches && !config.display_bytes);
    assert!(!config.display_jumps && !config.display_instr && !config.display_source);
    assert!(!config.load_debug_info && !config.display_length && !config.display_instr_count);
    assert_eq!(config.source_file_resolve, FileResolveStrategy::PreferRelative);
    assert_eq!(config.source_base_directory, "");
}

#[test]
fn columns_are_as_wide_as_their_widest_entry() {
    let m = measure(&pow_instrs(), &config(true, true, true, true, false), &pow_jumps(), &OperandPatches::new());
    assert_eq!(
        (m.address_width, m.bytes_width, m.jumps_width, m.mnemonic_width, m.operands_width),
        (4, 14, 3, 4, 8)
    );
}

#[test]
fn columns_that_are_not_shown_have_no_width() {
    let m = measure(&pow_instrs(), &DisasmConfig::default(), &pow_jumps(), &OperandPatches::new());
    assert_eq!(
        (m.address_width, m.bytes_width, m.jumps_width, m.mnemonic_width, m.operands_width),
        (0, 0, 0, 0, 0)
    );
    let none = measure(&Vec::new(), &config(true, true, true, true, true), &InnerJumpTable::new(), &OperandPatches::new());
    assert_eq!(
        (none.address_width, none.bytes_width, none.jumps_width, none.mnemonic_width, none.operands_width),
        (0, 0, 1, 0, 0)
    );
}

#[test]
fn operands_column_goes_by_the_patch_where_patches_are_shown() {
    let mut patches = OperandPatches::new();
    let mut symbol = Symbol::new("x", 0x1140, 0, 0);
    symbol.demangled_name = "some::long::path::pow".to_string();
    patches.insert(2, &symbol);
    let mut shown = config(false, false, false, true, false);
    let m = measure(&main_instrs(), &shown, &InnerJumpTable::new(), &patches);
    assert_eq!((m.mnemonic_width, m.operands_width), (4, 21));
    shown.display_patches = false;
    let m = measure(&main_instrs(), &shown, &InnerJumpTable::new(), &patches);
    assert_eq!((m.mnemonic_width, m.operands_width), (4, 6));
}

#[test]
fn widths_are_counted_in_bytes() {
    let instrs = vec![instr(0, &[], "é", "ü, ö")];
    let m = measure(&instrs, &config(true, true, false, true, false), &InnerJumpTable::new(), &OperandPatches::new());
    assert_eq!((m.address_width, m.bytes_width, m.mnemonic_width, m.operands_width), (0, 0, 2, 6));
}

#[test]
fn address_is_lower_case_hex_with_zeros() {
    let mut out = String::from("@");
    write_address(&mut out, 0x1abc, 8);
    assert_eq!(out, "@00001abc");
    let mut short = String::new();
    write_address(&mut short, 0xdeadbeef, 4);
    assert_eq!(short, "deadbeef");
    let mut zero = String::new();
    write_address(&mut zero, 0, 0);
    assert_eq!(zero, "0");
    let mut padded_zero = String::new();
    write_address(&mut padded_zero, 0, 3);
    assert_eq!(padded_zero, "000");
    let mut max = String::new();
    write_address(&mut max, u64::MAX, 16);
    assert_eq!(max, "ffffffffffffffff");
}

#[test]
fn text_is_padded_with_spaces_behind_it() {
    let mut out = String::from("|");
    write_padded(&mut out, "mov", 6);
    out.push('|');
    write_padded(&mut out, "imul", 2);
    out.push('|');
    write_padded(&mut out, "", 2);
    out.push('|');
    assert_eq!(out, "|mov   |imul|  |");
}

#[test]
fn listing_with_all_columns() {
    let symbol = Symbol::new("pow", 0x1140, 0x140, 0x20);
    let (spans, m) = write_disasm_output(
        &symbol,
        &pow_instrs(),
        &config(true, true, true, true, false),
        &pow_jumps(),
        &OperandPatches::new(),
        &no_lines(7),
        &FileLineCache::new(),
    );
    assert_eq!(m.jumps_width, 3);
    assert_eq!(
        text_of(&spans),
        "pow:\n  1140:    B8 01 00 00 00       mov     eax, 1  \n  1145:    85 F6                test    esi, esi\n  1147:    74 08               ◀je      0x1151  \n  1149:    0F AF C7          ┌─▶imul    eax, edi\n  114c:    83 EE 01          │ │sub     esi, 1  \n  114f:    75 F8             └─◀jne     0x1149  \n  1151:    C3                  ▶ret             \n"
    );
    assert_eq!(spans.len(), 1 + 7 * 3);
    assert_eq!(spans[0].text, "pow:\n");
    assert_eq!(spans[0].style, Style::Plain);
    assert_eq!(spans[1].text, "  1140:    B8 01 00 00 00       ");
    assert_eq!(spans[1].style, Style::Plain);
    assert_eq!(spans[2].text, "mov     ");
    assert_eq!(spans[2].style, Style::Mnemonic);
    assert_eq!(spans[3].text, "eax, 1  \n");
    assert_eq!(spans[3].style, Style::Plain);
}

#[test]
fn listing_begins_with_the_demangled_name() {
    let symbol = Symbol::new("_ZN3foo3powE", 0x1140, 0x140, 0x20);
    let (spans, _) = write_disasm_output(
        &symbol,
        &Vec::new(),
        &config(true, true, true, true, true),
        &InnerJumpTable::new(),
        &OperandPatches::new(),
        &Vec::new(),
        &FileLineCache::new(),
    );
    assert_eq!(text_of(&spans), "foo::pow:\n");
    assert_eq!(spans.len(), 1);
}

#[test]
fn listing_of_instructions_alone() {
    let symbol = Symbol::new("pow", 0x1140, 0x140, 0x20);
    let (spans, _) = write_disasm_output(
        &symbol,
        &pow_instrs(),
        &config(false, false, false, true, false),
        &pow_jumps(),
        &OperandPatches::new(),
        &no_lines(7),
        &FileLineCache::new(),
    );
    assert_eq!(
        text_of(&spans),
        "pow:\n  mov     eax, 1  \n  test    esi, esi\n  je      0x1151  \n  imul    eax, edi\n  sub     esi, 1  \n  jne     0x1149  \n  ret             \n"
    );
}

#[test]
fn listing_without_instructions_has_one_span_for_each_row() {
    let symbol = Symbol::new("pow", 0x1140, 0x140, 0x20);
    let (spans, _) = write_disasm_output(
        &symbol,
        &pow_instrs(),
        &config(true, false, true, false, false),
        &pow_jumps(),
        &OperandPatches::new(),
        &no_lines(7),
        &FileLineCache::new(),
    );
    assert_eq!(
        text_of(&spans),
        "pow:\n  1140:       \n  1145:       \n  1147:      ◀\n  1149:    ┌─▶\n  114c:    │ │\n  114f:    └─◀\n  1151:      ▶\n"
    );
    assert_eq!(spans.len(), 8);
    assert!(spans.iter().all(|s| s.style == Style::Plain));
}

#[test]
fn forward_short_jump_draws_one_arrow_in_lane_zero() {
    let instrs = vec![
        instr(0x10, &[0xeb, 0x05], "jmp", "0x17"),
        instr(0x12, &[0x48, 0x89, 0xc8], "mov", "rax, rcx"),
        instr(0x15, &[0x31, 0xc0], "xor", "eax, eax"),
        instr(0x17, &[0xc3], "ret", ""),
    ];
    let mut jumps = InnerJumpTable::new();
    jumps.insert(0, 3);
    jumps.sort_and_calc_overlaps();
    assert_eq!(jumps.iter()[0].display_offset, 0);
    let (spans, m) = write_disasm_output(
        &Symbol::new("fwd", 0x10, 0, 8),
        &instrs,
        &config(true, true, true, true, false),
        &jumps,
        &OperandPatches::new(),
        &no_lines(4),
        &FileLineCache::new(),
    );
    assert_eq!(m.jumps_width, 1);
    assert_eq!(
        text_of(&spans),
        "fwd:\n  10:    EB 05       ◀jmp    0x17    \n  12:    48 89 C8    │mov    rax, rcx\n  15:    31 C0       │xor    eax, eax\n  17:    C3          ▶ret            \n"
    );
}

#[test]
fn patched_operand_shows_the_name_of_the_symbol() {
    let mut patches = OperandPatches::new();
    patches.insert(2, &Symbol::new("pow", 0x1140, 0x140, 0x20));
    let symbol = Symbol::new("main", 0x1160, 0x160, 0x40);
    let (spans, m) = write_disasm_output(
        &symbol,
        &main_instrs(),
        &config(true, true, true, true, false),
        &InnerJumpTable::new(),
        &patches,
        &no_lines(4),
        &FileLineCache::new(),
    );
    assert_eq!(
        (m.address_width, m.bytes_width, m.jumps_width, m.mnemonic_width, m.operands_width),
        (4, 14, 1, 4, 6)
    );
    assert_eq!(
        text_of(&spans),
        "main:\n  1160:    BF 02 00 00 00     mov     edi, 2\n  1165:    BE 03 00 00 00     mov     esi, 3\n  116a:    E8 D1 FF FF FF     call    pow   \n  116f:    C3                 ret           \n"
    );
}

#[test]
fn patched_operand_is_not_shown_where_patches_are_off() {
    let mut patches = OperandPatches::new();
    let mut pow = Symbol::new("x", 0x1140, 0, 0);
    pow.demangled_name = "some::long::path::pow".to_string();
    patches.insert(2, &pow);
    let symbol = Symbol::new("main", 0x1160, 0x160, 0x40);
    let mut shown = config(false, false, false, true, false);
    let (spans, _) = write_disasm_output(
        &symbol,
        &main_instrs(),
        &shown,
        &InnerJumpTable::new(),
        &patches,
        &no_lines(4),
        &FileLineCache::new(),
    );
    assert_eq!(
        text_of(&spans),
        "main:\n  mov     edi, 2               \n  mov     esi, 3               \n  call    some::long::path::pow\n  ret                          \n"
    );
    shown.display_patches = false;
    let (spans, _) = write_disasm_output(
        &symbol,
        &main_instrs(),
        &shown,
        &InnerJumpTable::new(),
        &patches,
        &no_lines(4),
        &FileLineCache::new(),
    );
    assert_eq!(
        text_of(&spans),
        "main:\n  mov     edi, 2\n  mov     esi, 3\n  call    0x1140\n  ret           \n"
    );
}

#[test]
fn source_line_is_shown_once_above_its_first_instruction() {
    let mut cache = FileLineCache::new();
    cache.insert(
        "src/lib.rs",
        Some("l1\nl2\nl3\nl4\nfn pow(base: u32, mut exp: u32) -> u32 {\nl6\n    while exp > 0 {\n        out *= base;\nl9\n    out\n"),
    );
    let at = |line: u32| Some(("src/lib.rs".to_string(), line));
    let mappings: Vec<SourceLine> = vec![at(5), at(7), at(7), at(8), None, at(8), at(10)];
    let symbol = Symbol::new("pow", 0x1140, 0x140, 0x20);
    let (spans, _) = write_disasm_output(
        &symbol,
        &pow_instrs(),
        &config(true, false, false, true, true),
        &pow_jumps(),
        &OperandPatches::new(),
        &mappings,
        &cache,
    );
    assert_eq!(
        text_of(&spans),
        "pow:\nfn pow(base: u32, mut exp: u32) -> u32 {\n  1140:    mov     eax, 1  \n    while exp > 0 {\n  1145:    test    esi, esi\n  1147:    je      0x1151  \n        out *= base;\n  1149:    imul    eax, edi\n  114c:    sub     esi, 1  \n  114f:    jne     0x1149  \n    out\n  1151:    ret             \n"
    );
    let sources: Vec<&str> =
        spans.iter().filter(|s| s.style == Style::Source).map(|s| s.text.as_str()).collect();
    assert_eq!(
        sources,
        vec![
            "fn pow(base: u32, mut exp: u32) -> u32 {\n",
            "    while exp > 0 {\n",
            "        out *= base;\n",
            "    out\n",
        ]
    );
    assert_eq!(text_of(&spans).matches("while exp > 0").count(), 1);
}

#[test]
fn source_line_is_shown_again_when_the_file_changes() {
    let mut cache = FileLineCache::new();
    cache.insert("a.rs", Some("a one\na two\n"));
    cache.insert("b.rs", Some("b one\n"));
    let mappings: Vec<SourceLine> = vec![
        Some(("a.rs".to_string(), 1)),
        Some(("b.rs".to_string(), 1)),
        Some(("a.rs".to_string(), 1)),
        Some(("a.rs".to_string(), 1)),
    ];
    let (spans, _) = write_disasm_output(
        &Symbol::new("main", 0x1160, 0x160, 0x40),
        &main_instrs(),
        &config(false, false, false, false, true),
        &InnerJumpTable::new(),
        &OperandPatches::new(),
        &mappings,
        &cache,
    );
    assert_eq!(text_of(&spans), "main:\na one\n  \nb one\n  \na one\n  \n  \n");
}

#[test]
fn source_line_that_cannot_be_had_is_left_out() {
    let mut cache = FileLineCache::new();
    cache.insert("a.rs", Some("a one\n"));
    cache.insert("gone.rs", None);
    let mappings: Vec<SourceLine> = vec![
        Some(("a.rs".to_string(), 2)),
        Some(("gone.rs".to_string(), 1)),
        Some(("never.rs".to_string(), 1)),
        Some(("a.rs".to_string(), 0)),
    ];
    let (spans, _) = write_disasm_output(
        &Symbol::new("main", 0x1160, 0x160, 0x40),
        &main_instrs(),
        &config(false, false, false, false, true),
        &InnerJumpTable::new(),
        &OperandPatches::new(),
        &mappings,
        &cache,
    );
    assert_eq!(text_of(&spans), "main:\n  \n  \n  \n  \n");
}

#[test]
fn source_is_not_shown_where_it_is_off() {
    let mut cache = FileLineCache::new();
    cache.insert("a.rs", Some("a one\n"));
    let mappings: Vec<SourceLine> = vec![Some(("a.rs".to_string(), 1)); 4];
    let (spans, _) = write_disasm_output(
        &Symbol::new("main", 0x1160, 0x160, 0x40),
        &main_instrs(),
        &config(false, false, false, false, false),
        &InnerJumpTable::new(),
        &OperandPatches::new(),
        &mappings,
        &cache,
    );
    assert_eq!(text_of(&spans), "main:\n  \n  \n  \n  \n");
}
