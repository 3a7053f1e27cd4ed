use cargo_asm::binary::{BinaryArch, BinaryBits, BinaryEndian};
use goblin::elf::header as elf_header;
use goblin::mach::constants::cputype;
use goblin::pe::header as pe_header;

#[test]
fn elf_machines() {
    assert_eq!(BinaryArch::from_elf_machine(0), None);
    assert_eq!(BinaryArch::from_elf_machine(elf_header::EM_SPARC), Some(BinaryArch::SPARC));
    assert_eq!(BinaryArch::from_elf_machine(elf_header::EM_386), Some(BinaryArch::X86));
    assert_eq!(BinaryArch::from_elf_machine(elf_header::EM_MIPS), Some(BinaryArch::MIPS));
    assert_eq!(BinaryArch::from_elf_machine(elf_header::EM_PPC), Some(BinaryArch::PowerPC));
    assert_eq!(BinaryArch::from_elf_machine(elf_header::EM_PPC64), Some(BinaryArch::PowerPC64));
    assert_eq!(BinaryArch::from_elf_machine(elf_header::EM_ARM), Some(BinaryArch::ARM));
    assert_eq!(BinaryArch::from_elf_machine(elf_header::EM_X86_64), Some(BinaryArch::AMD64));
    assert_eq!(BinaryArch::from_elf_machine(elf_header::EM_AARCH64), Some(BinaryArch::AArch64));
    assert_eq!(BinaryArch::from_elf_machine(elf_header::EM_RISCV), Some(BinaryArch::RiscV));
    assert_eq!(BinaryArch::from_elf_machine(elf_header::EM_68K), Some(BinaryArch::M68K));
    assert_eq!(BinaryArch::from_elf_machine(elf_header::EM_IA_64), Some(BinaryArch::Unknown));
    assert_eq!(BinaryArch::from_elf_machine(0xffff), Some(BinaryArch::Unknown));
    assert_eq!(BinaryArch::from_elf_machine(62), Some(BinaryArch::AMD64));
}

#[test]
fn coff_machines() {
    let bits = BinaryBits::Bits64;
    assert_eq!(BinaryArch::from_coff_machine(pe_header::COFF_MACHINE_UNKNOWN, bits), None);
    assert_eq!(BinaryArch::from_coff_machine(pe_header::COFF_MACHINE_X86, bits), Some(BinaryArch::X86));
    assert_eq!(BinaryArch::from_coff_machine(pe_header::COFF_MACHINE_X86_64, bits), Some(BinaryArch::AMD64));
    for machine in [
        pe_header::COFF_MACHINE_MIPS16,
        pe_header::COFF_MACHINE_MIPSFPU,
        pe_header::COFF_MACHINE_MIPSFPU16,
        pe_header::COFF_MACHINE_R4000,
    ] {
        assert_eq!(BinaryArch::from_coff_machine(machine, bits), Some(BinaryArch::MIPS));
    }
    assert_eq!(BinaryArch::from_coff_machine(pe_header::COFF_MACHINE_ARM, bits), Some(BinaryArch::ARM));
    assert_eq!(BinaryArch::from_coff_machine(pe_header::COFF_MACHINE_THUMB, bits), Some(BinaryArch::ARM));
    assert_eq!(BinaryArch::from_coff_machine(pe_header::COFF_MACHINE_ARM64, bits), Some(BinaryArch::AArch64));
    for machine in [
        pe_header::COFF_MACHINE_RISCV32,
        pe_header::COFF_MACHINE_RISCV64,
        pe_header::COFF_MACHINE_RISCV128,
    ] {
        assert_eq!(BinaryArch::from_coff_machine(machine, bits), Some(BinaryArch::RiscV));
    }
    assert_eq!(BinaryArch::from_coff_machine(pe_header::COFF_MACHINE_IA64, bits), Some(BinaryArch::Unknown));
    assert_eq!(BinaryArch::from_coff_machine(0x8664, bits), Some(BinaryArch::AMD64));
}

#[test]
fn coff_power_pc_goes_by_the_width() {
    for machine in [pe_header::COFF_MACHINE_POWERPC, pe_header::COFF_MACHINE_POWERPCFP] {
        assert_eq!(BinaryArch::from_coff_machine(machine, BinaryBits::Bits32), Some(BinaryArch::PowerPC));
        assert_eq!(BinaryArch::from_coff_machine(machine, BinaryBits::Bits64), Some(BinaryArch::PowerPC64));
        assert_eq!(BinaryArch::from_coff_machine(machine, BinaryBits::Unknown), Some(BinaryArch::PowerPC64));
    }
}

#[test]
fn mach_cpu_types() {
    assert_eq!(BinaryArch::from_mach_cpu_types(cputype::CPU_TYPE_ARM, 0), Some(BinaryArch::ARM));
    assert_eq!(BinaryArch::from_mach_cpu_types(cputype::CPU_TYPE_ARM64, 0), Some(BinaryArch::AArch64));
    assert_eq!(BinaryArch::from_mach_cpu_types(cputype::CPU_TYPE_ARM64_32, 1), Some(BinaryArch::AArch64));
    assert_eq!(BinaryArch::from_mach_cpu_types(cputype::CPU_TYPE_MIPS, 0), Some(BinaryArch::MIPS));
    assert_eq!(BinaryArch::from_mach_cpu_types(cputype::CPU_TYPE_POWERPC, 0), Some(BinaryArch::PowerPC));
    assert_eq!(BinaryArch::from_mach_cpu_types(cputype::CPU_TYPE_POWERPC64, 0), Some(BinaryArch::PowerPC64));
    assert_eq!(BinaryArch::from_mach_cpu_types(cputype::CPU_TYPE_SPARC, 0), Some(BinaryArch::SPARC));
    assert_eq!(BinaryArch::from_mach_cpu_types(cputype::CPU_TYPE_X86, 0), Some(BinaryArch::X86));
    assert_eq!(BinaryArch::from_mach_cpu_types(cputype::CPU_TYPE_X86_64, 3), Some(BinaryArch::AMD64));
    assert_eq!(BinaryArch::from_mach_cpu_types(cputype::CPU_TYPE_VAX, 0), Some(BinaryArch::Unknown));
    assert_eq!(BinaryArch::from_mach_cpu_types(0, 0), Some(BinaryArch::Unknown));
}

#[test]
fn elf_classes() {
    assert_eq!(BinaryBits::from_elf_class(elf_header::ELFCLASS32), Some(BinaryBits::Bits32));
    assert_eq!(BinaryBits::from_elf_class(elf_header::ELFCLASS64), Some(BinaryBits::Bits64));
    assert_eq!(BinaryBits::from_elf_class(elf_header::ELFCLASSNONE), None);
    assert_eq!(BinaryBits::from_elf_class(3), None);
    assert_eq!(BinaryBits::or_unknown(None), BinaryBits::Unknown);
    assert_eq!(BinaryBits::or_unknown(Some(BinaryBits::Bits32)), BinaryBits::Bits32);
    assert_eq!(BinaryArch::or_unknown(None), BinaryArch::Unknown);
    assert_eq!(BinaryArch::or_unknown(Some(BinaryArch::M68K)), BinaryArch::M68K);
}

#[test]
fn byte_orders() {
    assert_eq!(BinaryEndian::from_little(true), BinaryEndian::Little);
    assert_eq!(BinaryEndian::from_little(false), BinaryEndian::Big);
}
