use cargo_asm::amd64::{
    amd64_get_call_target, amd64_get_jump_target, amd64_is_call_opcode, amd64_is_jump_opcode,
    analyze_instructions_amd64, check_addresses_ascend, find_instruction, find_symbol_at,
    get_branch_target, get_operand_value, Instruction, Operand, X86_GRP_CALL, X86_GRP_JUMP,
    X86_REG_EIP, X86_REG_INVALID, X86_REG_RIP,
};
use cargo_asm::arch::{analyze_instructions, OperandPatches};
use cargo_asm::binary::BinaryArch;
use cargo_asm::decoder::{decode, WCapstoneError};
use cargo_asm::errors::CargoAsmError;
use cargo_asm::jumps::{InnerJump, InnerJumpTable};
use cargo_asm::line_cache::FileLineCache;
use cargo_asm::listing::{write_disasm_output, DisasmConfig};
use cargo_asm::symbol::Symbol;

fn plain(address: u64, len: usize) -> Instruction {
    Instruction {
        address,
        bytes: vec![0x90; len],
        mnemonic: "nop".to_string(),
        op_str: String::new(),
        groups: Vec::new(),
        opcode: vec![0x90, 0, 0, 0],
        operands: Vec::new(),
    }
}

fn jump(address: u64, len: usize, target: u64) -> Instruction {
    Instruction {
        address,
        bytes: vec![0xeb; len],
        mnemonic: "jmp".to_string(),
        op_str: format!("{:#x}", target),
        groups: vec![X86_GRP_JUMP, 7],
        opcode: vec![0xeb, 0, 0, 0],
        operands: vec![Operand::Imm(target as i64)],
    }
}

fn call_rip(address: u64, disp: i64) -> Instruction {
    Instruction {
        address,
        bytes: vec![0xff, 0x15, 0, 0, 0, 0],
        mnemonic: "call".to_string(),
        op_str: format!("qword ptr [rip + {:#x}]", disp),
        groups: vec![X86_GRP_CALL, 145],
        opcode: vec![0xff, 0, 0, 0],
        operands: vec![Operand::Mem { segment: 0, base: X86_REG_RIP, index: 0, disp }],
    }
}

fn patches_of(patches: &OperandPatches, count: usize) -> Vec<Option<String>> {
    (0..count).map(|i| patches.get(i).cloned()).collect()
}

#[test]
fn numbers_of_groups_and_registers_are_those_of_the_decoder() {
    assert_eq!(X86_GRP_JUMP as u32, capstone::arch::x86::X86InsnGroup::X86_GRP_JUMP);
    assert_eq!(X86_GRP_CALL as u32, capstone::arch::x86::X86InsnGroup::X86_GRP_CALL);
    assert_eq!(X86_REG_INVALID as u32, capstone::arch::x86::X86Reg::X86_REG_INVALID);
    assert_eq!(X86_REG_EIP as u32, capstone::arch::x86::X86Reg::X86_REG_EIP);
    assert_eq!(X86_REG_RIP as u32, capstone::arch::x86::X86Reg::X86_REG_RIP);
}

#[test]
fn opcodes_of_jumps() {
    for first in [0xebu8, 0xe9, 0xff, 0xea, 0xe3] {
        assert!(amd64_is_jump_opcode(&[first]));
        assert!(amd64_is_jump_opcode(&[first, 0, 0, 0]));
    }
    for first in 0x70u8..=0x7f {
        assert!(amd64_is_jump_opcode(&[first, 0x12]));
    }
    for second in 0x80u8..=0x8f {
        assert!(amd64_is_jump_opcode(&[0x0f, second, 0, 0]));
    }
    assert!(!amd64_is_jump_opcode(&[]));
    assert!(!amd64_is_jump_opcode(&[0x0f]));
    assert!(!amd64_is_jump_opcode(&[0x0f, 0x7f]));
    assert!(!amd64_is_jump_opcode(&[0x0f, 0x90]));
    assert!(!amd64_is_jump_opcode(&[0x6f]));
    assert!(!amd64_is_jump_opcode(&[0x80, 0x0f]));
    assert!(!amd64_is_jump_opcode(&[0xe8]));
    assert!(!amd64_is_jump_opcode(&[0x9a]));
    assert!(!amd64_is_jump_opcode(&[0x90, 0xeb]));
}

#[test]
fn opcodes_of_calls() {
    for first in [0xe8u8, 0xff, 0x9a] {
        assert!(amd64_is_call_opcode(&[first]));
        assert!(amd64_is_call_opcode(&[first, 0x15, 0, 0]));
    }
    assert!(!amd64_is_call_opcode(&[]));
    assert!(!amd64_is_call_opcode(&[0xeb]));
    assert!(!amd64_is_call_opcode(&[0xe9]));
    assert!(!amd64_is_call_opcode(&[0x0f, 0xe8]));
}

#[test]
fn immediate_operand_is_the_address() {
    assert_eq!(get_operand_value(0x1000, 2, Operand::Imm(0x1151)), Some(0x1151));
    assert_eq!(get_operand_value(0x1000, 2, Operand::Imm(0)), Some(0));
    assert_eq!(get_operand_value(0x1000, 2, Operand::Imm(-1)), Some(u64::MAX));
    assert_eq!(get_operand_value(0x1000, 2, Operand::Imm(i64::MIN)), Some(1 << 63));
}

#[test]
fn memory_operand_is_relative_to_the_next_instruction() {
    let mem = |segment, base, index, disp| Operand::Mem { segment, base, index, disp };
    assert_eq!(get_operand_value(0x1000, 6, mem(0, X86_REG_RIP, 0, 0x200)), Some(0x1206));
    assert_eq!(get_operand_value(0x1000, 6, mem(0, X86_REG_EIP, 0, 0x200)), Some(0x1206));
    assert_eq!(get_operand_value(0x1000, 6, mem(0, X86_REG_RIP, 0, -0x10)), Some(0xff6));
    assert_eq!(get_operand_value(0x1000, 0, mem(0, X86_REG_RIP, 0, 0)), Some(0x1000));
    assert_eq!(get_operand_value(u64::MAX - 1, 2, mem(0, X86_REG_RIP, 0, 0)), Some(0));
    assert_eq!(get_operand_value(u64::MAX, 6, mem(0, X86_REG_RIP, 0, 1)), Some(6));
    assert_eq!(get_operand_value(0, 1, mem(0, X86_REG_RIP, 0, -2)), Some(u64::MAX));
}

#[test]
fn other_operands_name_no_address() {
    let mem = |segment, base, index, disp| Operand::Mem { segment, base, index, disp };
    assert_eq!(get_operand_value(0x1000, 6, mem(1, X86_REG_RIP, 0, 0x200)), None);
    assert_eq!(get_operand_value(0x1000, 6, mem(0, X86_REG_RIP, 35, 0x200)), None);
    assert_eq!(get_operand_value(0x1000, 6, mem(0, 35, 0, 0x200)), None);
    assert_eq!(get_operand_value(0x1000, 6, mem(0, X86_REG_INVALID, 0, 0x200)), None);
    assert_eq!(get_operand_value(0x1000, 6, Operand::Reg(35)), None);
    assert_eq!(get_operand_value(0x1000, 6, Operand::Invalid), None);
}

#[test]
fn target_of_a_jump_needs_its_opcode_and_one_operand() {
    let good = jump(0x1000, 2, 0x1007);
    assert_eq!(amd64_get_jump_target(&good), Some(0x1007));
    assert_eq!(get_branch_target(&good), Some(0x1007));
    let mut other_opcode = jump(0x1000, 2, 0x1007);
    other_opcode.opcode = vec![0xe8, 0, 0, 0];
    assert_eq!(amd64_get_jump_target(&other_opcode), None);
    assert_eq!(get_branch_target(&other_opcode), None);
    let mut two = jump(0x1000, 2, 0x1007);
    two.operands.push(Operand::Imm(1));
    assert_eq!(get_branch_target(&two), None);
    let mut none = jump(0x1000, 2, 0x1007);
    none.operands.clear();
    assert_eq!(get_branch_target(&none), None);
    let mut no_group = jump(0x1000, 2, 0x1007);
    no_group.groups = vec![7];
    assert_eq!(get_branch_target(&no_group), None);
    assert_eq!(amd64_get_jump_target(&no_group), Some(0x1007));
}

#[test]
fn target_of_a_call_needs_its_opcode_and_one_operand() {
    let good = call_rip(0x1000, 0x200);
    assert_eq!(amd64_get_call_target(&good), Some(0x1206));
    assert_eq!(get_branch_target(&good), Some(0x1206));
    let mut direct = call_rip(0x116a, 0);
    direct.opcode = vec![0xe8, 0, 0, 0];
    direct.operands = vec![Operand::Imm(0x1140)];
    assert_eq!(get_branch_target(&direct), Some(0x1140));
    let mut other_opcode = call_rip(0x1000, 0x200);
    other_opcode.opcode = vec![0xeb, 0, 0, 0];
    assert_eq!(get_branch_target(&other_opcode), None);
    let mut both = call_rip(0x1000, 0x200);
    both.groups = vec![X86_GRP_CALL, X86_GRP_JUMP];
    assert_eq!(get_branch_target(&both), Some(0x1206));
    both.opcode = vec![0xe8, 0, 0, 0];
    assert_eq!(get_branch_target(&both), None);
    assert_eq!(get_branch_target(&plain(0x1000, 1)), None);
}

#[test]
fn instruction_is_found_by_its_address() {
    let instrs = vec![plain(0x10, 1), plain(0x11, 3), plain(0x14, 2), plain(0x16, 1)];
    assert!(check_addresses_ascend(&instrs));
    for (i, instr) in instrs.iter().enumerate() {
        assert_eq!(find_instruction(&instrs, instr.address, true), Some(i));
        assert_eq!(find_instruction(&instrs, instr.address, false), Some(i));
    }
    for address in [0, 0xf, 0x12, 0x15, 0x17, u64::MAX] {
        assert_eq!(find_instruction(&instrs, address, true), None);
        assert_eq!(find_instruction(&instrs, address, false), None);
    }
    assert_eq!(find_instruction(&Vec::new(), 0x10, true), None);
}

#[test]
fn instruction_out_of_order_is_found_at_its_first_place() {
    let instrs = vec![plain(0x20, 1), plain(0x10, 1), plain(0x20, 1), plain(0x10, 1)];
    assert!(!check_addresses_ascend(&instrs));
    assert_eq!(find_instruction(&instrs, 0x10, false), Some(1));
    assert_eq!(find_instruction(&instrs, 0x20, false), Some(0));
    assert!(!check_addresses_ascend(&vec![plain(1, 1), plain(1, 1)]));
    assert!(check_addresses_ascend(&vec![plain(1, 1)]));
    assert!(check_addresses_ascend(&Vec::new()));
}

#[test]
fn symbol_is_found_by_its_address() {
    let symbols = vec![
        Symbol::new("a", 0x100, 0, 1),
        Symbol::new("b", 0x200, 0, 1),
        Symbol::new("c", 0x100, 0, 1),
    ];
    assert_eq!(find_symbol_at(&symbols, 0x100), Some(0));
    assert_eq!(find_symbol_at(&symbols, 0x200), Some(1));
    assert_eq!(find_symbol_at(&symbols, 0x101), None);
    assert_eq!(find_symbol_at(&Vec::new(), 0x100), None);
}

#[test]
fn jump_to_an_instruction_of_the_function_is_an_inner_jump() {
    let instrs = vec![
        jump(0x1000, 2, 0x1007),
        plain(0x1002, 3),
        plain(0x1005, 2),
        plain(0x1007, 1),
        jump(0x1008, 2, 0x1002),
        jump(0x100a, 2, 0x1003),
        jump(0x100c, 2, 0x100c),
    ];
    let mut jumps = InnerJumpTable::new();
    let mut patches = OperandPatches::new();
    analyze_instructions_amd64(&Vec::new(), &instrs, &mut jumps, &mut patches);
    assert_eq!(
        jumps.iter().to_vec(),
        vec![
            InnerJump { source: 0, target: 3, display_offset: 0 },
            InnerJump { source: 4, target: 1, display_offset: 0 },
            InnerJump { source: 6, target: 6, display_offset: 0 },
        ]
    );
    assert_eq!(patches_of(&patches, 8), vec![None; 8]);
    for jump in jumps.iter() {
        assert!(jump.source < instrs.len() && jump.target < instrs.len());
        assert_eq!(get_branch_target(&instrs[jump.source]), Some(instrs[jump.target].address));
    }
}

#[test]
fn call_to_a_known_symbol_shows_its_short_name() {
    let drop_at = 0x1000 + 6 + 0x200;
    let mut symbols = vec![
        Symbol::new("other", 0x5000, 0, 1),
        Symbol::new("drop", drop_at, 0, 1),
        Symbol::new("second", drop_at, 0, 1),
    ];
    symbols[1].demangled_name = "std::ops::drop".to_string();
    let instrs = vec![call_rip(0x1000, 0x200), plain(0x1006, 1), call_rip(0x1007, 0x999)];
    let mut jumps = InnerJumpTable::new();
    let mut patches = OperandPatches::new();
    analyze_instructions_amd64(&symbols, &instrs, &mut jumps, &mut patches);
    assert!(jumps.iter().is_empty());
    assert_eq!(
        patches_of(&patches, 4),
        vec![Some("std::ops::drop".to_string()), None, None, None]
    );
}

#[test]
fn call_into_the_function_is_an_inner_jump_and_no_patch() {
    let symbols = vec![Symbol::new("here", 0x1006, 0, 1)];
    let instrs = vec![call_rip(0x1000, 0), plain(0x1006, 1)];
    let mut jumps = InnerJumpTable::new();
    let mut patches = OperandPatches::new();
    analyze_instructions_amd64(&symbols, &instrs, &mut jumps, &mut patches);
    assert_eq!(jumps.iter().to_vec(), vec![InnerJump { source: 0, target: 1, display_offset: 0 }]);
    assert_eq!(patches_of(&patches, 2), vec![None, None]);
}

#[test]
fn patch_shows_the_short_name_of_an_impl() {
    let mut symbols = vec![Symbol::new("x", 0x9000, 0, 1)];
    symbols[0].demangled_name =
        "anyhow::context::<impl anyhow::Context<T,E> for core::result::Result<T,E>>::with_context"
            .to_string();
    let mut patches = OperandPatches::new();
    patches.insert(3, &symbols[0]);
    assert_eq!(
        patches_of(&patches, 5),
        vec![None, None, None, Some("anyhow::Context::with_context".to_string()), None]
    );
    patches.insert(0, &Symbol::new("main", 0, 0, 0));
    patches.insert(3, &Symbol::new("pow", 0, 0, 0));
    assert_eq!(
        patches_of(&patches, 5),
        vec![Some("main".to_string()), None, None, Some("pow".to_string()), None]
    );
    assert_eq!(patches.get(usize::MAX), None);
    patches.clear();
    assert_eq!(patches_of(&patches, 5), vec![None; 5]);
}

#[test]
fn analysis_places_the_jumps_it_finds() {
    let instrs = vec![
        plain(0x1000, 1),
        plain(0x1001, 1),
        plain(0x1002, 1),
        plain(0x1003, 1),
        plain(0x1004, 1),
        jump(0x1005, 2, 0x1001),
        plain(0x1007, 1),
        jump(0x1008, 2, 0x1003),
    ];
    let mut jumps = InnerJumpTable::new();
    let mut patches = OperandPatches::new();
    analyze_instructions(&Vec::new(), BinaryArch::AMD64, &instrs, &mut jumps, &mut patches);
    assert_eq!(
        jumps.iter().to_vec(),
        vec![
            InnerJump { source: 5, target: 1, display_offset: 0 },
            InnerJump { source: 7, target: 3, display_offset: 2 },
        ]
    );
    assert_eq!(jumps.max_display_offset(), 2);
}

#[test]
fn analysis_of_another_architecture_finds_nothing() {
    let instrs = vec![jump(0x1000, 2, 0x1002), plain(0x1002, 1)];
    let symbols = vec![Symbol::new("f", 0x1002, 0, 1)];
    for arch in [BinaryArch::X86, BinaryArch::AArch64, BinaryArch::Unknown] {
        let mut jumps = InnerJumpTable::new();
        let mut patches = OperandPatches::new();
        jumps.insert(9, 2);
        jumps.insert(3, 5);
        analyze_instructions(&symbols, arch, &instrs, &mut jumps, &mut patches);
        assert_eq!(
            jumps.iter().to_vec(),
            vec![
                InnerJump { source: 3, target: 5, display_offset: 0 },
                InnerJump { source: 9, target: 2, display_offset: 2 },
            ]
        );
        assert_eq!(patches_of(&patches, 2), vec![None, None]);
    }
}

#[test]
fn decodes_a_short_jump() {
    let code = [0xeb, 0x05, 0x48, 0x89, 0xc8, 0x31, 0xc0, 0xc3];
    let instrs = decode(&code, 0x1000).unwrap();
    assert_eq!(instrs.len(), 4);
    assert_eq!(instrs[0].address, 0x1000);
    assert_eq!(instrs[0].mnemonic, "jmp");
    assert_eq!(instrs[0].op_str, "0x1007");
    assert_eq!(instrs[0].bytes, vec![0xeb, 0x05]);
    assert_eq!(instrs[0].operands, vec![Operand::Imm(0x1007)]);
    assert!(instrs[0].groups.contains(&X86_GRP_JUMP));
    assert_eq!(instrs[0].opcode, vec![0xeb, 0, 0, 0]);
    assert_eq!(instrs[1].address, 0x1002);
    assert_eq!(instrs[1].mnemonic, "mov");
    assert_eq!(instrs[1].op_str, "rax, rcx");
    assert_eq!(instrs[1].bytes, vec![0x48, 0x89, 0xc8]);
    assert_eq!(instrs[1].operands.len(), 2);
    assert!(matches!(instrs[1].operands[0], Operand::Reg(_)));
    assert_eq!(instrs[2].address, 0x1005);
    assert_eq!(instrs[3].address, 0x1007);
    assert_eq!(instrs[3].mnemonic, "ret");
    assert_eq!(instrs[3].op_str, "");
    assert!(check_addresses_ascend(&instrs));
    assert_eq!(get_branch_target(&instrs[0]), Some(0x1007));
    assert_eq!(get_branch_target(&instrs[1]), None);
}

#[test]
fn decodes_a_call_through_memory() {
    let code = [0xff, 0x15, 0x00, 0x02, 0x00, 0x00, 0x0f, 0x85, 0xf4, 0xff, 0xff, 0xff];
    let instrs = decode(&code, 0x4000).unwrap();
    assert_eq!(instrs.len(), 2);
    assert_eq!(instrs[0].mnemonic, "call");
    assert_eq!(instrs[0].op_str, "qword ptr [rip + 0x200]");
    assert_eq!(
        instrs[0].operands,
        vec![Operand::Mem { segment: 0, base: X86_REG_RIP, index: X86_REG_INVALID, disp: 0x200 }]
    );
    assert!(instrs[0].groups.contains(&X86_GRP_CALL));
    assert_eq!(instrs[0].opcode[0], 0xff);
    assert_eq!(get_branch_target(&instrs[0]), Some(0x4206));
    assert_eq!(instrs[1].address, 0x4006);
    assert_eq!(instrs[1].mnemonic, "jne");
    assert_eq!(&instrs[1].opcode[..2], &[0x0f, 0x85]);
    assert_eq!(get_branch_target(&instrs[1]), Some(0x4000));
}

#[test]
fn decodes_nothing_from_no_bytes() {
    assert!(decode(&[], 0x1000).unwrap().is_empty());
}

#[test]
fn decoding_stops_at_bytes_that_are_no_instruction() {
    let instrs = decode(&[0x90, 0x06, 0x90], 0).unwrap();
    assert_eq!(instrs.len(), 1);
    assert_eq!(instrs[0].mnemonic, "nop");
    let none: Result<Vec<Instruction>, CargoAsmError> = decode(&[0x06], 0);
    assert!(none.unwrap().is_empty());
}

#[test]
fn call_through_memory_to_a_known_symbol_is_listed_by_its_short_name() {
    let code = [0xff, 0x15, 0x00, 0x02, 0x00, 0x00, 0xc3];
    let instrs = decode(&code, 0x1000).unwrap();
    let mut symbols = vec![Symbol::new("caller", 0x1000, 0, 7), Symbol::new("callee", 0x1206, 0x206, 4)];
    symbols[1].demangled_name = "std::ops::drop".to_string();
    let mut jumps = InnerJumpTable::new();
    let mut patches = OperandPatches::new();
    analyze_instructions(&symbols, BinaryArch::AMD64, &instrs, &mut jumps, &mut patches);
    assert_eq!(jumps.len(), 0);
    assert_eq!(patches.get(0).map(|s| s.as_str()), Some("std::ops::drop"));
    let mut config = DisasmConfig::default();
    config.display_instr = true;
    config.display_patches = true;
    let (spans, _) = write_disasm_output(
        &symbols[0],
        &instrs,
        &config,
        &jumps,
        &patches,
        &vec![None; 2],
        &FileLineCache::new(),
    );
    let text: String = spans.iter().map(|s| s.text.as_str()).collect();
    assert_eq!(text, format!("caller:\n  call    std::ops::drop\n  ret     {}\n", " ".repeat(14)));
    assert!(!text.contains("rip"));
}

#[test]
fn error_of_the_decoder_is_printed_as_capstone_prints_it() {
    let error = WCapstoneError(capstone::Error::InvalidHandle);
    assert_eq!(error.message(), "Invalid handle");
    assert!(!error.message().is_empty());
    let other = WCapstoneError(capstone::Error::InvalidMode);
    assert_ne!(other.message(), error.message());
}
