use crate::binary::{Binary, BinaryArch, BinaryBits, BinaryEndian, ObjectExt, PEDebug, PEExt};
use crate::order::{is_stable_order, key_order, stable_order};
use crate::symbol::{all_demangled, symbol_models, Symbol, SymbolModel};
use crate::text::{chars_of, same_chars};
use vstd::prelude::*;

verus! {

pub const IMAGE_SYM_CLASS_EXTERNAL: u8 = 2;

pub const IMAGE_SYM_CLASS_STATIC: u8 = 3;

pub const IMAGE_SYM_CLASS_LABEL: u8 = 6;

/// The derived type of a symbol that is a function.
pub const IMAGE_SYM_DTYPE_FUNCTION: u16 = 2;

/// The type of a symbol that is a function and nothing more.
pub const COFF_TYPE_FUNCTION: u16 = 0x20;

/// One entry of the symbol table of a COFF file.
pub struct CoffSymbolEntry {
    /// The name of the symbol, where it could be read.
    pub name: Option<String>,
    pub typ: u16,
    pub value: u32,
    /// The number of the section of the symbol, counted from 1.
    pub section_number: i16,
    pub storage_class: u8,
}

/// One entry of the symbol table of a COFF file, before its name is looked up: the name
/// that stands in the entry, where it holds one, and the eight bytes of its name field.
pub struct RawCoffSymbol {
    pub inline_name: Option<String>,
    pub name_field: Vec<u8>,
    pub typ: u16,
    pub value: u32,
    pub section_number: i16,
    pub storage_class: u8,
}

/// The number that four bytes hold, the lowest first.
pub open spec fn le_u32(b0: u8, b1: u8, b2: u8, b3: u8) -> int {
    b0 + b1 * 0x100 + b2 * 0x1_0000 + b3 * 0x100_0000
}

/// The place of a name in the string table, by the name field of an entry: a field that
/// begins with 0 holds in its last four bytes the place of the name, counted from the
/// length that the table begins with, which takes four bytes. Other fields hold the name
/// itself.
pub open spec fn string_offset(name_field: Seq<u8>) -> Option<usize> {
    if name_field.len() == 8 && name_field[0] == 0 && le_u32(
        name_field[4],
        name_field[5],
        name_field[6],
        name_field[7],
    ) >= 4 {
        Some((le_u32(name_field[4], name_field[5], name_field[6], name_field[7]) - 4) as usize)
    } else {
        None
    }
}

/// The place of the name of each entry in the string table, for the entries that do not
/// hold their name.
pub open spec fn string_offsets(raw: Seq<RawCoffSymbol>) -> Seq<Option<usize>> {
    Seq::new(
        raw.len(),
        |i: int|
            if raw[i].inline_name is Some {
                None
            } else {
                string_offset(raw[i].name_field@)
            },
    )
}

/// The name of entry `i`: the one that stands in the entry, else the one that was found in
/// the string table.
pub open spec fn entry_name(raw: Seq<RawCoffSymbol>, strings: Seq<Option<String>>, i: int) -> Option<
    String,
> {
    match raw[i].inline_name {
        Some(name) => Some(name),
        None => if i < strings.len() {
            strings[i]
        } else {
            None
        },
    }
}

/// The entries with their names. `strings` holds what was found in the string table for
/// each entry.
pub open spec fn named_entries(raw: Seq<RawCoffSymbol>, strings: Seq<Option<String>>) -> Seq<
    CoffSymbolEntry,
> {
    Seq::new(
        raw.len(),
        |i: int|
            CoffSymbolEntry {
                name: entry_name(raw, strings, i),
                typ: raw[i].typ,
                value: raw[i].value,
                section_number: raw[i].section_number,
                storage_class: raw[i].storage_class,
            },
    )
}

/// The place of a name in the string table, by the name field of an entry.
pub fn coff_string_offset(name_field: &Vec<u8>) -> (r: Option<usize>)
    ensures
        r == string_offset(name_field@),
{
    if name_field.len() != 8 || name_field[0] != 0 {
        return None;
    }
    let raw: u64 = name_field[4] as u64 + name_field[5] as u64 * 0x100 + name_field[6] as u64
        * 0x1_0000 + name_field[7] as u64 * 0x100_0000;
    if raw >= 4 {
        Some((raw - 4) as usize)
    } else {
        None
    }
}

/// The place of the name of each entry in the string table, for the entries that do not
/// hold their name.
pub fn coff_string_offsets(raw: &Vec<RawCoffSymbol>) -> (r: Vec<Option<usize>>)
    ensures
        r@ == string_offsets(raw@),
{
    let mut offsets: Vec<Option<usize>> = Vec::new();
    let mut i: usize = 0;
    while i < raw.len()
        invariant
            i <= raw@.len(),
            offsets@ == string_offsets(raw@).take(i as int),
        decreases raw@.len() - i,
    {
        let offset = if raw[i].inline_name.is_some() {
            None
        } else {
            coff_string_offset(&raw[i].name_field)
        };
        offsets.push(offset);
        i += 1;
        proof {
            assert(offsets@ =~= string_offsets(raw@).take(i as int));
        }
    }
    proof {
        assert(offsets@ =~= string_offsets(raw@));
    }
    offsets
}

/// The entries with their names. `strings` holds what was found in the string table for
/// each entry.
pub fn coff_entries(raw: &Vec<RawCoffSymbol>, strings: &Vec<Option<String>>) -> (r: Vec<
    CoffSymbolEntry,
>)
    ensures
        r@ == named_entries(raw@, strings@),
{
    let mut entries: Vec<CoffSymbolEntry> = Vec::new();
    let mut i: usize = 0;
    while i < raw.len()
        invariant
            i <= raw@.len(),
            entries@ == named_entries(raw@, strings@).take(i as int),
        decreases raw@.len() - i,
    {
        let symbol = &raw[i];
        let name = match &symbol.inline_name {
            Some(name) => Some(name.clone()),
            None => if i < strings.len() {
                match &strings[i] {
                    Some(name) => Some(name.clone()),
                    None => None,
                }
            } else {
                None
            },
        };
        entries.push(
            CoffSymbolEntry {
                name,
                typ: symbol.typ,
                value: symbol.value,
                section_number: symbol.section_number,
                storage_class: symbol.storage_class,
            },
        );
        i += 1;
        proof {
            assert(entries@ =~= named_entries(raw@, strings@).take(i as int));
        }
    }
    proof {
        assert(entries@ =~= named_entries(raw@, strings@));
    }
    entries
}

/// One section of a PE file: where it lies in memory and in the file.
#[derive(Clone, Copy, PartialEq, Eq, Debug, Structural)]
pub struct PeSection {
    pub virtual_address: u32,
    pub pointer_to_raw_data: u32,
    pub virtual_size: u32,
}

/// The entry defines a function: an external symbol of a section, whose derived type is that
/// of a function.
pub open spec fn is_function_definition(e: CoffSymbolEntry) -> bool {
    e.storage_class == IMAGE_SYM_CLASS_EXTERNAL && e.typ >> 4 == IMAGE_SYM_DTYPE_FUNCTION
        && e.section_number > 0
}

/// The storage class is one of a symbol that stands for code: static, external or a label.
pub open spec fn is_code_class(storage_class: u8) -> bool {
    storage_class == IMAGE_SYM_CLASS_STATIC || storage_class == IMAGE_SYM_CLASS_EXTERNAL
        || storage_class == IMAGE_SYM_CLASS_LABEL
}

/// The symbol that an entry gives, its size not known yet: an entry that defines a function
/// or has the type of one, with a value other than 0, a name that is not empty, a section of
/// the file and the storage class of code. Its address is the sum of the image base, the
/// address of the section and the value; an entry whose address is beyond 64 bits gives none.
pub open spec fn coff_placement(e: CoffSymbolEntry, sections: Seq<PeSection>, image_base: u64) -> Option<
    SymbolModel,
> {
    if !is_function_definition(e) && e.typ != COFF_TYPE_FUNCTION {
        None
    } else if e.value == 0 {
        None
    } else {
        match e.name {
            None => None,
            Some(name) => {
                if name@.len() == 0 {
                    None
                } else if 1 <= e.section_number && e.section_number - 1 < sections.len()
                    && is_code_class(e.storage_class) && image_base + sections[e.section_number
                    - 1].virtual_address + e.value <= u64::MAX {
                    let section = sections[e.section_number - 1];
                    Some(
                        SymbolModel {
                            name: name@,
                            addr: (image_base + section.virtual_address + e.value) as u64,
                            offset: ((section.pointer_to_raw_data + e.value) as u64) as usize,
                            size: 0,
                        },
                    )
                } else {
                    None
                }
            },
        }
    }
}

/// The symbols of the first `n` entries, in the order of the table, their sizes not known
/// yet.
pub open spec fn coff_raw(
    entries: Seq<CoffSymbolEntry>,
    sections: Seq<PeSection>,
    image_base: u64,
    n: int,
) -> Seq<SymbolModel>
    decreases n,
{
    if n <= 0 {
        Seq::empty()
    } else {
        let before = coff_raw(entries, sections, image_base, n - 1);
        match coff_placement(entries[n - 1], sections, image_base) {
            Some(symbol) => before.push(symbol),
            None => before,
        }
    }
}

/// The address of each symbol.
pub open spec fn model_addrs(symbols: Seq<SymbolModel>) -> Seq<u64> {
    Seq::new(symbols.len(), |i: int| symbols[i].addr)
}

/// The symbols in the order `order`, each with the distance to the address of the next one
/// as its size; the last one keeps the size 0.
pub open spec fn sized_by_gap(symbols: Seq<SymbolModel>, order: Seq<int>) -> Seq<SymbolModel> {
    Seq::new(
        order.len(),
        |i: int|
            SymbolModel {
                name: symbols[order[i]].name,
                addr: symbols[order[i]].addr,
                offset: symbols[order[i]].offset,
                size: if i + 1 < order.len() {
                    ((symbols[order[i + 1]].addr - symbols[order[i]].addr) as u64) as usize
                } else {
                    0
                },
            },
    )
}

/// The function symbols of a COFF symbol table: in ascending order of address, symbols at the
/// same address in the order of the table, each as large as the distance to the next.
pub open spec fn coff_symbols(
    entries: Seq<CoffSymbolEntry>,
    sections: Seq<PeSection>,
    image_base: u64,
) -> Seq<SymbolModel> {
    let raw = coff_raw(entries, sections, image_base, entries.len() as int);
    sized_by_gap(raw, key_order(model_addrs(raw)))
}

/// The symbols of a COFF symbol table ascend in their addresses, and each but the last is as
/// large as the distance to the next: it is not empty where the next one lies at a higher
/// address and the distance fits the machine's word.
pub proof fn lemma_coff_symbols_ordered(
    entries: Seq<CoffSymbolEntry>,
    sections: Seq<PeSection>,
    image_base: u64,
)
    ensures
        forall|a: int, b: int|
            0 <= a < b < coff_symbols(entries, sections, image_base).len() ==> coff_symbols(
                entries,
                sections,
                image_base,
            )[a].addr <= coff_symbols(entries, sections, image_base)[b].addr,
        forall|a: int|
            0 <= a && a + 1 < coff_symbols(entries, sections, image_base).len() && coff_symbols(
                entries,
                sections,
                image_base,
            )[a].addr < coff_symbols(entries, sections, image_base)[a + 1].addr && coff_symbols(
                entries,
                sections,
                image_base,
            )[a + 1].addr - coff_symbols(entries, sections, image_base)[a].addr <= usize::MAX
                ==> (#[trigger] coff_symbols(entries, sections, image_base)[a]).size > 0,
{
    let raw = coff_raw(entries, sections, image_base, entries.len() as int);
    let addrs = model_addrs(raw);
    crate::order::lemma_sort_indices(addrs, addrs.len() as int);
    let order = key_order(addrs);
    let out = coff_symbols(entries, sections, image_base);
    assert forall|a: int, b: int| 0 <= a < b < out.len() implies out[a].addr <= out[b].addr by {
        assert(addrs[order[a]] <= addrs[order[b]]);
    }
}

/// A symbol of a COFF symbol table lies in the file where the next one in the order of
/// addresses is as far from it in the file as in memory, as it is in the same section, and
/// begins in the file. The last symbol, whose size is 0, lies in the file where it begins in
/// the file.
pub proof fn lemma_coff_symbol_in_file(
    entries: Seq<CoffSymbolEntry>,
    sections: Seq<PeSection>,
    image_base: u64,
    i: int,
    file_len: int,
)
    requires
        0 <= i < coff_symbols(entries, sections, image_base).len(),
        i + 1 < coff_symbols(entries, sections, image_base).len() ==> coff_symbols(
            entries,
            sections,
            image_base,
        )[i + 1].offset - coff_symbols(entries, sections, image_base)[i].offset == coff_symbols(
            entries,
            sections,
            image_base,
        )[i + 1].addr - coff_symbols(entries, sections, image_base)[i].addr && coff_symbols(
            entries,
            sections,
            image_base,
        )[i + 1].offset <= file_len,
        i + 1 == coff_symbols(entries, sections, image_base).len() ==> coff_symbols(
            entries,
            sections,
            image_base,
        )[i].offset <= file_len,
    ensures
        coff_symbols(entries, sections, image_base)[i].offset + coff_symbols(
            entries,
            sections,
            image_base,
        )[i].size <= file_len,
{
    lemma_coff_symbols_ordered(entries, sections, image_base);
    let found = coff_symbols(entries, sections, image_base);
    if i + 1 < found.len() {
        assert(found[i].addr <= found[i + 1].addr);
        assert(found[i].size == ((found[i + 1].addr - found[i].addr) as u64) as usize);
    }
}

/// The function symbols of a COFF symbol table.
pub fn get_coff_symbols(
    entries: &Vec<CoffSymbolEntry>,
    sections: &Vec<PeSection>,
    image_base: u64,
) -> (symbols: Vec<Symbol>)
    ensures
        symbol_models(symbols@) == coff_symbols(entries@, sections@, image_base),
        all_demangled(symbols@),
{
    let mut picked: Vec<usize> = Vec::new();
    let mut addrs: Vec<u64> = Vec::new();
    let mut offsets: Vec<usize> = Vec::new();
    let ghost mut raw: Seq<SymbolModel> = Seq::empty();
    let mut i: usize = 0;
    while i < entries.len()
        invariant
            i <= entries@.len(),
            raw == coff_raw(entries@, sections@, image_base, i as int),
            picked@.len() == raw.len(),
            addrs@.len() == raw.len(),
            offsets@.len() == raw.len(),
            forall|k: int|
                0 <= k < raw.len() ==> (#[trigger] picked@[k]) < entries@.len()
                    && entries@[picked@[k] as int].name is Some
                    && entries@[picked@[k] as int].name->0@ == raw[k].name,
            forall|k: int| 0 <= k < raw.len() ==> (#[trigger] addrs@[k]) == raw[k].addr,
            forall|k: int| 0 <= k < raw.len() ==> (#[trigger] offsets@[k]) == raw[k].offset,
            forall|k: int| 0 <= k < raw.len() ==> (#[trigger] raw[k]).size == 0,
        decreases entries@.len() - i,
    {
        let symbol = &entries[i];
        let index = i;
        i += 1;
        let defines = symbol.storage_class == IMAGE_SYM_CLASS_EXTERNAL && symbol.typ >> 4
            == IMAGE_SYM_DTYPE_FUNCTION && symbol.section_number > 0;
        if !defines && symbol.typ != COFF_TYPE_FUNCTION {
            continue ;
        }
        // Symbols that stand for a whole section are skipped, though such a section may
        // hold nothing but one function.
        if symbol.value == 0 {
            continue ;
        }
        let name_len = match &symbol.name {
            Some(name) => name.as_str().unicode_len(),
            None => {
                continue ;
            },
        };
        if name_len == 0 {
            continue ;
        }
        if symbol.section_number < 1 {
            continue ;
        }
        let section_index = (symbol.section_number - 1) as usize;
        if section_index >= sections.len() {
            continue ;
        }
        let section = sections[section_index];
        let is_code = symbol.storage_class == IMAGE_SYM_CLASS_STATIC || symbol.storage_class
            == IMAGE_SYM_CLASS_EXTERNAL || symbol.storage_class == IMAGE_SYM_CLASS_LABEL;
        if !is_code {
            continue ;
        }
        let relative = section.virtual_address as u64 + symbol.value as u64;
        if relative > u64::MAX - image_base {
            continue ;
        }
        let sym_addr = image_base + relative;
        let sym_offset = #[verifier::truncate]
        ((section.pointer_to_raw_data as u64 + symbol.value as u64) as usize);
        picked.push(index);
        addrs.push(sym_addr);
        offsets.push(sym_offset);
        proof {
            raw = raw.push(coff_placement(entries@[index as int], sections@, image_base)->0);
        }
    }
    // The sizes that the table gives are not reliable, so instead we just sort the functions
    // by address and guess that the size of the function is its start address subtracted from
    // the start address of the next function.
    proof {
        assert(addrs@ =~= model_addrs(raw));
        crate::order::lemma_sort_indices(addrs@, addrs@.len() as int);
    }
    let order = stable_order(&addrs);
    let n = order.len();
    let ghost wanted = sized_by_gap(raw, key_order(addrs@));
    let mut symbols: Vec<Symbol> = Vec::new();
    let mut k: usize = 0;
    while k < n
        invariant
            k <= n,
            n == raw.len(),
            order@.len() == n,
            picked@.len() == n,
            addrs@.len() == n,
            offsets@.len() == n,
            key_order(addrs@).len() == n,
            is_stable_order(addrs@, key_order(addrs@), n as int),
            forall|a: int| 0 <= a < n ==> #[trigger] order@[a] == key_order(addrs@)[a],
            forall|a: int| 0 <= a < n ==> #[trigger] order@[a] < n,
            forall|a: int|
                0 <= a < n ==> (#[trigger] picked@[a]) < entries@.len()
                    && entries@[picked@[a] as int].name is Some
                    && entries@[picked@[a] as int].name->0@ == raw[a].name,
            forall|a: int| 0 <= a < n ==> (#[trigger] addrs@[a]) == raw[a].addr,
            forall|a: int| 0 <= a < n ==> (#[trigger] offsets@[a]) == raw[a].offset,
            wanted == sized_by_gap(raw, key_order(addrs@)),
            symbols@.len() == k,
            forall|a: int| 0 <= a < k ==> (#[trigger] symbols@[a]).model() == wanted[a],
            all_demangled(symbols@),
        decreases n - k,
    {
        let here = order[k];
        let size: usize = if k + 1 < n {
            let next = order[k + 1];
            proof {
                let ord = key_order(addrs@);
                assert(addrs@[ord[k as int]] <= addrs@[ord[k + 1]]);
            }
            #[verifier::truncate]
            ((addrs[next] - addrs[here]) as usize)
        } else {
            0
        };
        let name = match &entries[picked[here]].name {
            Some(name) => name.as_str(),
            None => "",
        };
        symbols.push(Symbol::new(name, addrs[here], offsets[here], size));
        k += 1;
    }
    proof {
        assert(symbol_models(symbols@) =~= wanted);
    }
    symbols
}

/// One procedure that a PDB file describes.
pub struct PdbProcedure {
    pub name: String,
    /// The number of the section of the procedure, counted from 1; 0 names none.
    pub section: u16,
    /// The place of the procedure in its section.
    pub offset: u32,
    pub len: u32,
    /// The address of the procedure relative to the image base, where the PDB file gives one.
    pub rva: Option<u32>,
}

/// The symbol that a procedure gives: a procedure of a section of the file, at the place of
/// its offset in the section, as large as the PDB file says. Its address is the image base
/// plus its relative address, 0 where none is known; a procedure whose address is beyond 64
/// bits gives none.
pub open spec fn pdb_placement(p: PdbProcedure, sections: Seq<PeSection>, image_base: u64) -> Option<
    SymbolModel,
> {
    let rva: u32 = match p.rva {
        Some(value) => value,
        None => 0,
    };
    if p.section != 0 && p.section - 1 < sections.len() && rva + image_base <= u64::MAX {
        Some(
            SymbolModel {
                name: p.name@,
                addr: (rva + image_base) as u64,
                offset: ((sections[p.section - 1].pointer_to_raw_data + p.offset) as u64) as usize,
                size: p.len as usize,
            },
        )
    } else {
        None
    }
}

/// The symbols of the first `n` procedures, in order.
pub open spec fn pdb_symbols(
    procedures: Seq<PdbProcedure>,
    sections: Seq<PeSection>,
    image_base: u64,
    n: int,
) -> Seq<SymbolModel>
    decreases n,
{
    if n <= 0 {
        Seq::empty()
    } else {
        let before = pdb_symbols(procedures, sections, image_base, n - 1);
        match pdb_placement(procedures[n - 1], sections, image_base) {
            Some(symbol) => before.push(symbol),
            None => before,
        }
    }
}

/// Appends to `symbols` the symbols of the procedures of a PDB file.
pub fn get_pdb_symbols(
    image_base: u64,
    procedures: &Vec<PdbProcedure>,
    sections: &Vec<PeSection>,
    symbols: &mut Vec<Symbol>,
)
    ensures
        symbol_models(final(symbols)@) == symbol_models(old(symbols)@) + pdb_symbols(
            procedures@,
            sections@,
            image_base,
            procedures@.len() as int,
        ),
        all_demangled(old(symbols)@) ==> all_demangled(final(symbols)@),
{
    let ghost before = symbol_models(symbols@);
    let ghost start = symbols@;
    let mut i: usize = 0;
    proof {
        assert(symbol_models(symbols@) =~= before + pdb_symbols(
            procedures@,
            sections@,
            image_base,
            0,
        ));
    }
    while i < procedures.len()
        invariant
            i <= procedures@.len(),
            symbol_models(symbols@) == before + pdb_symbols(
                procedures@,
                sections@,
                image_base,
                i as int,
            ),
            all_demangled(start) ==> all_demangled(symbols@),
        decreases procedures@.len() - i,
    {
        let sym_data = &procedures[i];
        let ghost so_far = symbol_models(symbols@);
        i += 1;
        if sym_data.section == 0 {
            continue ;
        }
        let section_index = (sym_data.section - 1) as usize;
        if section_index >= sections.len() {
            continue ;
        }
        let sym_offset = #[verifier::truncate]
        ((sections[section_index].pointer_to_raw_data as u64 + sym_data.offset as u64) as usize);
        let rva: u32 = match sym_data.rva {
            Some(value) => value,
            None => 0,
        };
        if rva as u64 > u64::MAX - image_base {
            continue ;
        }
        let sym_address = rva as u64 + image_base;
        let symbol = Symbol::new(
            sym_data.name.as_str(),
            sym_address,
            sym_offset,
            sym_data.len as usize,
        );
        symbols.push(symbol);
        proof {
            assert(symbol_models(symbols@) =~= so_far.push(symbol.model()));
        }
    }
}

/// The PDB file of a PE binary, as far as the binary is concerned: its sections and its
/// procedures.
pub struct PdbContents {
    pub sections: Vec<PeSection>,
    pub procedures: Vec<PdbProcedure>,
}

/// The symbols of a PE binary: those of its COFF symbol table, followed by the procedures of
/// its PDB file where it has one.
pub open spec fn pe_symbols(
    entries: Seq<CoffSymbolEntry>,
    sections: Seq<PeSection>,
    image_base: u64,
    pdb: Option<PdbContents>,
) -> Seq<SymbolModel> {
    match pdb {
        Some(contents) => coff_symbols(entries, sections, image_base) + pdb_symbols(
            contents.procedures@,
            contents.sections@,
            image_base,
            contents.procedures@.len() as int,
        ),
        None => coff_symbols(entries, sections, image_base),
    }
}

/// `binary` is what a PE file holds whose headers have the fields `is_64`, `machine` and
/// `image_base`, and whose symbols are `found`. It is little endian; an architecture that is
/// not known is `Unknown`; its debug information is that of a PDB file where one is given,
/// else DWARF.
pub open spec fn is_pe_binary(
    binary: Binary,
    is_64: bool,
    machine: u16,
    image_base: u64,
    pdb_given: bool,
    found: Seq<SymbolModel>,
) -> bool {
    &&& binary.endian == BinaryEndian::Little
    &&& binary.bits == if is_64 {
        BinaryBits::Bits64
    } else {
        BinaryBits::Bits32
    }
    &&& binary.arch == match BinaryArch::coff_machine(machine, binary.bits) {
        Some(arch) => arch,
        None => BinaryArch::Unknown,
    }
    &&& binary.object == ObjectExt::PE(
        PEExt {
            image_base,
            debug: if pdb_given {
                PEDebug::PDB
            } else {
                PEDebug::Dwarf
            },
        },
    )
    &&& symbol_models(binary.symbols@) == found
    &&& all_demangled(binary.symbols@)
}

/// The binary that a PE file holds. It is little endian; its width is that of its optional
/// header; an architecture that is not known is `Unknown`.
pub fn analyze_pe(
    is_64: bool,
    machine: u16,
    image_base: u64,
    entries: &Vec<CoffSymbolEntry>,
    sections: &Vec<PeSection>,
    pdb: Option<&PdbContents>,
) -> (r: Binary)
    ensures
        is_pe_binary(
            r,
            is_64,
            machine,
            image_base,
            pdb is Some,
            pe_symbols(entries@, sections@, image_base, match pdb {
                Some(contents) => Some(*contents),
                None => None,
            }),
        ),
{
    let endian = BinaryEndian::Little;
    let bits = if is_64 {
        BinaryBits::Bits64
    } else {
        BinaryBits::Bits32
    };
    let arch = BinaryArch::or_unknown(BinaryArch::from_coff_machine(machine, bits));
    // We check a few places for symbols when analyzing PE files: the COFF symbol table and the
    // PDB debug information.
    let mut symbols = get_coff_symbols(entries, sections, image_base);
    let debug = match pdb {
        Some(contents) => {
            get_pdb_symbols(image_base, &contents.procedures, &contents.sections, &mut symbols);
            PEDebug::PDB
        },
        None => PEDebug::Dwarf,
    };
    Binary { bits, arch, endian, symbols, object: ObjectExt::PE(PEExt { image_base, debug }) }
}

/// The name of the PDB file of a binary whose name without extension is `stem`.
pub open spec fn pdb_file_name(stem: Seq<char>) -> Seq<char> {
    stem + seq!['.', 'p', 'd', 'b']
}

/// Whether a file of the directory of a binary is named as the PDB file of the binary: the
/// name of the binary without its extension, followed by `.pdb`.
pub fn is_pdb_file_name(file_name: &str, binary_stem: &str) -> (r: bool)
    ensures
        r == (binary_stem@.len() > 0 && file_name@ == pdb_file_name(binary_stem@)),
{
    let name = chars_of(file_name);
    let mut wanted = chars_of(binary_stem);
    if wanted.len() == 0 {
        return false;
    }
    wanted.push('.');
    wanted.push('p');
    wanted.push('d');
    wanted.push('b');
    proof {
        assert(wanted@ =~= pdb_file_name(binary_stem@));
    }
    same_chars(&name, &wanted)
}

/// The PDB file of a binary: the one that the binary refers to, where that is a file, else
/// the one that was found beside the binary.
pub fn choose_pdb_path(
    reference: Option<String>,
    reference_is_file: bool,
    sibling: Option<String>,
) -> (r: Option<String>)
    ensures
        r == if reference is Some && reference_is_file {
            reference
        } else {
            sibling
        },
{
    if reference.is_some() && reference_is_file {
        reference
    } else {
        sibling
    }
}

/// The bytes of the file that hold a section: from where its data lies, over the size that
/// it has in memory. Nothing where they are not all in a file of `file_len` bytes.
pub fn pe_section_range(section: PeSection, file_len: usize) -> (r: Option<(usize, usize)>)
    ensures
        match r {
            Some((start, end)) => start == section.pointer_to_raw_data && end
                == section.pointer_to_raw_data + section.virtual_size && end <= file_len,
            None => section.pointer_to_raw_data + section.virtual_size > file_len,
        },
{
    // The size in memory is taken, not the size of the raw data, which was found to be
    // off for sections of debug information.
    let start = section.pointer_to_raw_data as u64;
    let end = start + section.virtual_size as u64;
    if end <= file_len as u64 {
        Some((start as usize, end as usize))
    } else {
        None
    }
}

/// The address at which each section of a PE binary is loaded: the image base plus the
/// address of the section, in 64 bit arithmetic that wraps.
pub open spec fn loaded_at(image_base: u64, sections: Seq<PeSection>) -> Seq<u64> {
    Seq::new(
        sections.len(),
        |i: int|
            vstd::wrapping::u64_specs::wrapping_add(image_base, sections[i].virtual_address as u64),
    )
}

/// The address at which each section of a PE binary is loaded.
pub fn section_addresses(image_base: u64, sections: &Vec<PeSection>) -> (r: Vec<u64>)
    ensures
        r@ == loaded_at(image_base, sections@),
{
    let mut out: Vec<u64> = Vec::new();
    let mut i: usize = 0;
    while i < sections.len()
        invariant
            i <= sections@.len(),
            out@.len() == i,
            forall|k: int|
                0 <= k < i ==> #[trigger] out@[k] == vstd::wrapping::u64_specs::wrapping_add(
                    image_base,
                    sections@[k].virtual_address as u64,
                ),
        decreases sections@.len() - i,
    {
        out.push(image_base.wrapping_add(sections[i].virtual_address as u64));
        i += 1;
    }
    proof {
        assert(out@ =~= loaded_at(image_base, sections@));
    }
    out
}

} // verus!
