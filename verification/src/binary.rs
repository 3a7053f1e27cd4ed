use crate::symbol::Symbol;
use vstd::prelude::*;

verus! {

/// The byte order of a binary.
#[derive(Clone, Copy, PartialEq, Eq, Debug, Structural)]
pub enum BinaryEndian {
    Little,
    Big,
}

/// The architecture that a binary is made for.
#[derive(Clone, Copy, PartialEq, Eq, Debug, Structural)]
pub enum BinaryArch {
    SPARC,
    X86,
    MIPS,
    PowerPC,
    PowerPC64,
    ARM,
    AMD64,
    AArch64,
    RiscV,
    M68K,
    Unknown,
}

/// The width of an address of a binary.
#[derive(Clone, Copy, PartialEq, Eq, Debug, Structural)]
pub enum BinaryBits {
    Bits32,
    Bits64,
    Unknown,
}

/// Where the debug information of a PE binary is.
#[derive(Clone, Copy, PartialEq, Eq, Debug, Structural)]
pub enum PEDebug {
    /// In the binary itself, as DWARF.
    Dwarf,
    /// In a PDB file beside the binary.
    PDB,
}

/// What is kept of a PE binary besides its symbols.
#[derive(Clone, Copy, PartialEq, Eq, Debug, Structural)]
pub struct PEExt {
    pub image_base: u64,
    pub debug: PEDebug,
}

/// Where the debug information of a Mach-O binary is.
#[derive(Clone, Debug)]
pub enum MachDebug {
    /// DWARF debug information is in the Mach-O itself.
    Internal,
    /// DWARF debug information is in some separate binary (usually in [binary].dSYM
    /// somewhere).
    External(String),
}

/// What is kept of a Mach-O binary besides its symbols.
#[derive(Clone, Debug)]
pub struct MachExt {
    pub debug: MachDebug,
}

/// What is kept of a binary besides its symbols, by the kind of its container.
#[derive(Clone, Debug)]
pub enum ObjectExt {
    Elf,
    PE(PEExt),
    Mach(MachExt),
}

/// A loaded executable: what it is made for, and its functions.
#[derive(Clone, Debug)]
pub struct Binary {
    pub arch: BinaryArch,
    pub bits: BinaryBits,
    pub endian: BinaryEndian,
    pub symbols: Vec<Symbol>,
    pub object: ObjectExt,
}

/// What the lookup of a name in a table of strings gave.
#[derive(Clone, Debug)]
pub enum NameLookup {
    /// The table holds nothing at that place.
    Missing,
    /// The table holds no text at that place.
    Invalid,
    Found(String),
}

pub const EM_NONE: u16 = 0;

pub const EM_SPARC: u16 = 2;

pub const EM_386: u16 = 3;

pub const EM_68K: u16 = 4;

pub const EM_MIPS: u16 = 8;

pub const EM_PPC: u16 = 20;

pub const EM_PPC64: u16 = 21;

pub const EM_ARM: u16 = 40;

pub const EM_X86_64: u16 = 62;

pub const EM_AARCH64: u16 = 183;

pub const EM_RISCV: u16 = 243;

pub const ELFCLASS32: u8 = 1;

pub const ELFCLASS64: u8 = 2;

pub const COFF_MACHINE_UNKNOWN: u16 = 0x0;

pub const COFF_MACHINE_X86: u16 = 0x14c;

pub const COFF_MACHINE_X86_64: u16 = 0x8664;

pub const COFF_MACHINE_MIPS16: u16 = 0x266;

pub const COFF_MACHINE_MIPSFPU: u16 = 0x366;

pub const COFF_MACHINE_MIPSFPU16: u16 = 0x466;

pub const COFF_MACHINE_R4000: u16 = 0x166;

pub const COFF_MACHINE_POWERPC: u16 = 0x1f0;

pub const COFF_MACHINE_POWERPCFP: u16 = 0x1f1;

pub const COFF_MACHINE_ARM: u16 = 0x1c0;

pub const COFF_MACHINE_ARM64: u16 = 0xaa64;

pub const COFF_MACHINE_RISCV32: u16 = 0x5032;

pub const COFF_MACHINE_RISCV64: u16 = 0x5064;

pub const COFF_MACHINE_RISCV128: u16 = 0x5128;

pub const COFF_MACHINE_THUMB: u16 = 0x1c2;

pub const CPU_TYPE_X86: u32 = 7;

pub const CPU_TYPE_X86_64: u32 = 0x0100_0007;

pub const CPU_TYPE_MIPS: u32 = 8;

pub const CPU_TYPE_ARM: u32 = 12;

pub const CPU_TYPE_ARM64: u32 = 0x0100_000c;

pub const CPU_TYPE_ARM64_32: u32 = 0x0200_000c;

pub const CPU_TYPE_SPARC: u32 = 14;

pub const CPU_TYPE_POWERPC: u32 = 18;

pub const CPU_TYPE_POWERPC64: u32 = 0x0100_0012;

impl BinaryArch {
    /// The architecture that the `e_machine` field of an ELF header names; nothing for the
    /// value that stands for no machine.
    pub open spec fn elf_machine(machine: u16) -> Option<BinaryArch> {
        if machine == EM_NONE {
            None
        } else if machine == EM_SPARC {
            Some(BinaryArch::SPARC)
        } else if machine == EM_386 {
            Some(BinaryArch::X86)
        } else if machine == EM_MIPS {
            Some(BinaryArch::MIPS)
        } else if machine == EM_PPC {
            Some(BinaryArch::PowerPC)
        } else if machine == EM_PPC64 {
            Some(BinaryArch::PowerPC64)
        } else if machine == EM_ARM {
            Some(BinaryArch::ARM)
        } else if machine == EM_X86_64 {
            Some(BinaryArch::AMD64)
        } else if machine == EM_AARCH64 {
            Some(BinaryArch::AArch64)
        } else if machine == EM_RISCV {
            Some(BinaryArch::RiscV)
        } else if machine == EM_68K {
            Some(BinaryArch::M68K)
        } else {
            Some(BinaryArch::Unknown)
        }
    }

    /// The architecture that the machine field of a COFF header names, for a binary of the
    /// given width; nothing for the value that stands for any machine.
    pub open spec fn coff_machine(machine: u16, bits: BinaryBits) -> Option<BinaryArch> {
        if machine == COFF_MACHINE_UNKNOWN {
            None
        } else if machine == COFF_MACHINE_X86 {
            Some(BinaryArch::X86)
        } else if machine == COFF_MACHINE_X86_64 {
            Some(BinaryArch::AMD64)
        } else if machine == COFF_MACHINE_MIPS16 || machine == COFF_MACHINE_MIPSFPU || machine
            == COFF_MACHINE_MIPSFPU16 || machine == COFF_MACHINE_R4000 {
            Some(BinaryArch::MIPS)
        } else if machine == COFF_MACHINE_POWERPC || machine == COFF_MACHINE_POWERPCFP {
            if bits == BinaryBits::Bits32 {
                Some(BinaryArch::PowerPC)
            } else {
                Some(BinaryArch::PowerPC64)
            }
        } else if machine == COFF_MACHINE_ARM || machine == COFF_MACHINE_THUMB {
            Some(BinaryArch::ARM)
        } else if machine == COFF_MACHINE_ARM64 {
            Some(BinaryArch::AArch64)
        } else if machine == COFF_MACHINE_RISCV32 || machine == COFF_MACHINE_RISCV64 || machine
            == COFF_MACHINE_RISCV128 {
            Some(BinaryArch::RiscV)
        } else {
            Some(BinaryArch::Unknown)
        }
    }

    /// The architecture that the CPU type of a Mach-O header names.
    pub open spec fn mach_cpu_type(cpu_type: u32) -> BinaryArch {
        if cpu_type == CPU_TYPE_ARM {
            BinaryArch::ARM
        } else if cpu_type == CPU_TYPE_ARM64 || cpu_type == CPU_TYPE_ARM64_32 {
            BinaryArch::AArch64
        } else if cpu_type == CPU_TYPE_MIPS {
            BinaryArch::MIPS
        } else if cpu_type == CPU_TYPE_POWERPC {
            BinaryArch::PowerPC
        } else if cpu_type == CPU_TYPE_POWERPC64 {
            BinaryArch::PowerPC64
        } else if cpu_type == CPU_TYPE_SPARC {
            BinaryArch::SPARC
        } else if cpu_type == CPU_TYPE_X86 {
            BinaryArch::X86
        } else if cpu_type == CPU_TYPE_X86_64 {
            BinaryArch::AMD64
        } else {
            BinaryArch::Unknown
        }
    }

    /// Creates a binary arch using the value of `e_machine` found in an ELF header.
    pub fn from_elf_machine(machine: u16) -> (r: Option<BinaryArch>)
        ensures
            r == BinaryArch::elf_machine(machine),
    {
        if machine == EM_NONE {
            None
        } else if machine == EM_SPARC {
            Some(BinaryArch::SPARC)
        } else if machine == EM_386 {
            Some(BinaryArch::X86)
        } else if machine == EM_MIPS {
            Some(BinaryArch::MIPS)
        } else if machine == EM_PPC {
            Some(BinaryArch::PowerPC)
        } else if machine == EM_PPC64 {
            Some(BinaryArch::PowerPC64)
        } else if machine == EM_ARM {
            Some(BinaryArch::ARM)
        } else if machine == EM_X86_64 {
            Some(BinaryArch::AMD64)
        } else if machine == EM_AARCH64 {
            Some(BinaryArch::AArch64)
        } else if machine == EM_RISCV {
            Some(BinaryArch::RiscV)
        } else if machine == EM_68K {
            Some(BinaryArch::M68K)
        } else {
            Some(BinaryArch::Unknown)
        }
    }

    /// Creates a binary arch using the machine field of a COFF header.
    pub fn from_coff_machine(machine: u16, bits: BinaryBits) -> (r: Option<BinaryArch>)
        ensures
            r == BinaryArch::coff_machine(machine, bits),
    {
        if machine == COFF_MACHINE_UNKNOWN {
            None
        } else if machine == COFF_MACHINE_X86 {
            Some(BinaryArch::X86)
        } else if machine == COFF_MACHINE_X86_64 {
            Some(BinaryArch::AMD64)
        } else if machine == COFF_MACHINE_MIPS16 || machine == COFF_MACHINE_MIPSFPU || machine
            == COFF_MACHINE_MIPSFPU16 || machine == COFF_MACHINE_R4000 {
            Some(BinaryArch::MIPS)
        } else if machine == COFF_MACHINE_POWERPC || machine == COFF_MACHINE_POWERPCFP {
            if bits == BinaryBits::Bits32 {
                Some(BinaryArch::PowerPC)
            } else {
                Some(BinaryArch::PowerPC64)
            }
        } else if machine == COFF_MACHINE_ARM || machine == COFF_MACHINE_THUMB {
            Some(BinaryArch::ARM)
        } else if machine == COFF_MACHINE_ARM64 {
            Some(BinaryArch::AArch64)
        } else if machine == COFF_MACHINE_RISCV32 || machine == COFF_MACHINE_RISCV64 || machine
            == COFF_MACHINE_RISCV128 {
            Some(BinaryArch::RiscV)
        } else {
            Some(BinaryArch::Unknown)
        }
    }

    /// Creates a binary arch using the CPU type of a Mach-O header.
    pub fn from_mach_cpu_types(cpu_type: u32, _cpu_subtype: u32) -> (r: Option<BinaryArch>)
        ensures
            r == Some(BinaryArch::mach_cpu_type(cpu_type)),
    {
        if cpu_type == CPU_TYPE_ARM {
            Some(BinaryArch::ARM)
        } else if cpu_type == CPU_TYPE_ARM64 || cpu_type == CPU_TYPE_ARM64_32 {
            Some(BinaryArch::AArch64)
        } else if cpu_type == CPU_TYPE_MIPS {
            Some(BinaryArch::MIPS)
        } else if cpu_type == CPU_TYPE_POWERPC {
            Some(BinaryArch::PowerPC)
        } else if cpu_type == CPU_TYPE_POWERPC64 {
            Some(BinaryArch::PowerPC64)
        } else if cpu_type == CPU_TYPE_SPARC {
            Some(BinaryArch::SPARC)
        } else if cpu_type == CPU_TYPE_X86 {
            Some(BinaryArch::X86)
        } else if cpu_type == CPU_TYPE_X86_64 {
            Some(BinaryArch::AMD64)
        } else {
            Some(BinaryArch::Unknown)
        }
    }

    /// The architecture of a header, `Unknown` where the header names none.
    pub fn or_unknown(arch: Option<BinaryArch>) -> (r: BinaryArch)
        ensures
            r == match arch {
                Some(a) => a,
                None => BinaryArch::Unknown,
            },
    {
        match arch {
            Some(a) => a,
            None => BinaryArch::Unknown,
        }
    }
}

impl BinaryBits {
    /// The width that the class byte of an ELF header names.
    pub open spec fn elf_class(class: u8) -> Option<BinaryBits> {
        if class == ELFCLASS32 {
            Some(BinaryBits::Bits32)
        } else if class == ELFCLASS64 {
            Some(BinaryBits::Bits64)
        } else {
            None
        }
    }

    pub fn from_elf_class(class: u8) -> (r: Option<BinaryBits>)
        ensures
            r == BinaryBits::elf_class(class),
    {
        if class == ELFCLASS32 {
            Some(BinaryBits::Bits32)
        } else if class == ELFCLASS64 {
            Some(BinaryBits::Bits64)
        } else {
            None
        }
    }

    /// The width of a header, `Unknown` where the header names none.
    pub fn or_unknown(bits: Option<BinaryBits>) -> (r: BinaryBits)
        ensures
            r == match bits {
                Some(b) => b,
                None => BinaryBits::Unknown,
            },
    {
        match bits {
            Some(b) => b,
            None => BinaryBits::Unknown,
        }
    }
}

/// The byte order of a binary that is little endian or not.
pub open spec fn endian_of(little_endian: bool) -> BinaryEndian {
    if little_endian {
        BinaryEndian::Little
    } else {
        BinaryEndian::Big
    }
}

impl BinaryEndian {
    /// The byte order of a binary that is little endian or not.
    pub fn from_little(little_endian: bool) -> (r: BinaryEndian)
        ensures
            r == endian_of(little_endian),
    {
        if little_endian {
            BinaryEndian::Little
        } else {
            BinaryEndian::Big
        }
    }
}

} // verus!
