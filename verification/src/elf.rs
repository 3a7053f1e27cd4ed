use crate::binary::{
    Binary, BinaryArch, BinaryBits, BinaryEndian, NameLookup, ObjectExt, };
use crate::errors::CargoAsmError;
use crate::symbol::{all_demangled, symbol_models, Symbol, SymbolModel};
use vstd::prelude::*;

verus! {

/// The type of a symbol that names a function.
pub const STT_FUNC: u8 = 2;

/// The byte of a header that says that the file is little endian.
pub const ELFDATA2LSB: u8 = 1;

/// The byte of a header that says that the file is big endian.
pub const ELFDATA2MSB: u8 = 2;

/// One entry of the symbol table of an ELF file.
pub struct ElfSymbolEntry {
    /// What the string table holds at the place of the symbol's name.
    pub name: NameLookup,
    /// The byte `st_info`: the binding and the type of the symbol.
    pub info: u8,
    pub size: u64,
    pub value: u64,
    /// The number of the section that the symbol belongs to.
    pub section_index: usize,
}

/// One section of an ELF file: where it lies in the file and in memory.
#[derive(Clone, Copy, PartialEq, Eq, Debug, Structural)]
pub struct ElfSection {
    pub offset: u64,
    pub addr: u64,
    pub size: u64,
}

/// The symbol names a function.
pub open spec fn is_function(info: u8) -> bool {
    info & 0xf == STT_FUNC
}

/// What becomes of an entry of a symbol table.
pub enum Outcome {
    /// The entry gives no symbol.
    Skip,
    /// The entry cannot be read: the whole table is given up.
    Fail,
    Take(SymbolModel),
}

/// The place in the file of the code at address `value`, which lies in a section that is at
/// `addr` in memory and at `offset` in the file.
pub open spec fn file_offset(value: u64, section: ElfSection) -> int {
    section.offset + (value - section.addr)
}

/// What becomes of an entry: a function of a size other than 0 whose name can be read gives a
/// symbol at the place of its address in the file. An entry whose section is not in the file,
/// or whose address lies before its section or beyond what 64 bits hold, gives none.
pub open spec fn elf_outcome(e: ElfSymbolEntry, sections: Seq<ElfSection>) -> Outcome {
    if !is_function(e.info) || e.size == 0 {
        Outcome::Skip
    } else {
        match e.name {
            NameLookup::Missing => Outcome::Skip,
            NameLookup::Invalid => Outcome::Fail,
            NameLookup::Found(name) => {
                if e.section_index < sections.len() && sections[e.section_index as int].addr
                    <= e.value && file_offset(e.value, sections[e.section_index as int])
                    <= u64::MAX {
                    Outcome::Take(
                        SymbolModel {
                            name: name@,
                            addr: e.value,
                            offset: (file_offset(e.value, sections[e.section_index as int])
                                as u64) as usize,
                            size: e.size as usize,
                        },
                    )
                } else {
                    Outcome::Skip
                }
            },
        }
    }
}

/// The symbols of the first `n` entries, in order; nothing where one of them cannot be read.
pub open spec fn elf_symbols(entries: Seq<ElfSymbolEntry>, sections: Seq<ElfSection>, n: int) -> Option<
    Seq<SymbolModel>,
>
    decreases n,
{
    if n <= 0 {
        Some(Seq::empty())
    } else {
        match elf_symbols(entries, sections, n - 1) {
            None => None,
            Some(before) => match elf_outcome(entries[n - 1], sections) {
                Outcome::Skip => Some(before),
                Outcome::Fail => None,
                Outcome::Take(symbol) => Some(before.push(symbol)),
            },
        }
    }
}

/// Once an entry cannot be read, the table is given up whatever follows.
proof fn lemma_elf_symbols_fail_stays(
    entries: Seq<ElfSymbolEntry>,
    sections: Seq<ElfSection>,
    n: int,
    m: int,
)
    requires
        n <= m,
        elf_symbols(entries, sections, n) is None,
    ensures
        elf_symbols(entries, sections, m) is None,
    decreases m - n,
{
    if n < m {
        lemma_elf_symbols_fail_stays(entries, sections, n, m - 1);
    }
}

/// A symbol that lies in its section, in a section that lies in the file, lies in the file,
/// and is not empty.
pub proof fn lemma_elf_symbol_in_file(
    e: ElfSymbolEntry,
    sections: Seq<ElfSection>,
    file_len: int,
    symbol: SymbolModel,
)
    requires
        elf_outcome(e, sections) == Outcome::Take(symbol),
        file_len <= usize::MAX,
        sections[e.section_index as int].offset + sections[e.section_index as int].size
            <= file_len,
        e.value + e.size <= sections[e.section_index as int].addr
            + sections[e.section_index as int].size,
    ensures
        symbol.offset + symbol.size <= file_len,
        symbol.size > 0,
{
}

/// The function symbols of an ELF file.
pub fn elf_function_symbols(entries: &Vec<ElfSymbolEntry>, sections: &Vec<ElfSection>) -> (r:
    Result<Vec<Symbol>, CargoAsmError>)
    ensures
        match elf_symbols(entries@, sections@, entries@.len() as int) {
            Some(found) => r is Ok && symbol_models(r->Ok_0@) == found && all_demangled(r->Ok_0@),
            None => r is Err && r->Err_0 is Malformed,
        },
{
    let mut symbols: Vec<Symbol> = Vec::new();
    let mut i: usize = 0;
    proof {
        assert(symbol_models(symbols@) =~= Seq::<SymbolModel>::empty());
    }
    while i < entries.len()
        invariant
            i <= entries@.len(),
            elf_symbols(entries@, sections@, i as int) == Some(symbol_models(symbols@)),
            all_demangled(symbols@),
        decreases entries@.len() - i,
    {
        let sym = &entries[i];
        let ghost before = symbol_models(symbols@);
        i += 1;
        if sym.info & 0xf != STT_FUNC {
            continue ;
        }
        // Symbols with a size of 0, which are mostly external, are left out.
        if sym.size == 0 {
            continue ;
        }
        let sym_name = match &sym.name {
            NameLookup::Missing => {
                continue ;
            },
            NameLookup::Invalid => {
                proof {
                    lemma_elf_symbols_fail_stays(
                        entries@,
                        sections@,
                        i as int,
                        entries@.len() as int,
                    );
                }
                return Err(
                    CargoAsmError::Malformed("the name of a symbol cannot be read".to_owned()),
                );
            },
            NameLookup::Found(name) => name,
        };
        if sym.section_index >= sections.len() {
            continue ;
        }
        let section = sections[sym.section_index];
        if sym.value < section.addr {
            continue ;
        }
        let distance = sym.value - section.addr;
        if distance > u64::MAX - section.offset {
            continue ;
        }
        let sym_offset = distance + section.offset;
        let symbol = Symbol::new(
            sym_name.as_str(),
            sym.value,
            #[verifier::truncate]
            (sym_offset as usize),
            #[verifier::truncate]
            (sym.size as usize),
        );
        symbols.push(symbol);
        proof {
            assert(symbol_models(symbols@) =~= before.push(symbol.model()));
        }
    }
    Ok(symbols)
}

/// The byte order that the data byte of an ELF header names.
pub open spec fn elf_endian(data: u8) -> Option<BinaryEndian> {
    if data == ELFDATA2LSB {
        Some(BinaryEndian::Little)
    } else if data == ELFDATA2MSB {
        Some(BinaryEndian::Big)
    } else {
        None
    }
}

/// `binary` is what an ELF file holds whose header has the fields `class` and `machine`,
/// whose bytes are in the order `endian` and whose function symbols are `found`. A width or
/// an architecture that is not known is `Unknown`.
pub open spec fn is_elf_binary(
    binary: Binary,
    class: u8,
    endian: BinaryEndian,
    machine: u16,
    found: Seq<SymbolModel>,
) -> bool {
    &&& binary.endian == endian
    &&& binary.bits == match BinaryBits::elf_class(class) {
        Some(bits) => bits,
        None => BinaryBits::Unknown,
    }
    &&& binary.arch == match BinaryArch::elf_machine(machine) {
        Some(arch) => arch,
        None => BinaryArch::Unknown,
    }
    &&& binary.object is Elf
    &&& symbol_models(binary.symbols@) == found
    &&& all_demangled(binary.symbols@)
}

/// The binary that an ELF file holds. `class`, `data` and `machine` are the fields of its
/// header that name the width, the byte order and the architecture. A width or an
/// architecture that is not known is `Unknown`; a byte order that is not known is an error,
/// and so is a symbol whose name cannot be read.
pub fn analyze_elf(
    class: u8,
    data: u8,
    machine: u16,
    entries: &Vec<ElfSymbolEntry>,
    sections: &Vec<ElfSection>,
) -> (r: Result<Binary, CargoAsmError>)
    ensures
        match (elf_endian(data), elf_symbols(entries@, sections@, entries@.len() as int)) {
            (Some(endian), Some(found)) => r is Ok && is_elf_binary(
                r->Ok_0,
                class,
                endian,
                machine,
                found,
            ),
            _ => r is Err && r->Err_0 is Malformed,
        },
{
    let bits = BinaryBits::or_unknown(BinaryBits::from_elf_class(class));
    let endian = if data == ELFDATA2LSB {
        BinaryEndian::Little
    } else if data == ELFDATA2MSB {
        BinaryEndian::Big
    } else {
        return Err(CargoAsmError::Malformed("invalid endianness in header".to_owned()));
    };
    let arch = BinaryArch::or_unknown(BinaryArch::from_elf_machine(machine));
    let symbols = elf_function_symbols(entries, sections)?;
    Ok(Binary { bits, arch, endian, symbols, object: ObjectExt::Elf })
}

} // verus!
