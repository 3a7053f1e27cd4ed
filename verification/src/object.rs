use crate::binary::{Binary, NameLookup};
use crate::debug_info::{table_view, NamedSection};
use crate::elf::{
    analyze_elf, elf_endian, elf_symbols, is_elf_binary, ElfSection, ElfSymbolEntry,
};
use crate::errors::CargoAsmError;
use crate::mach::{
    analyze_mach_object, is_mach_binary, readable_entries, readable_symbols, MachSection,
    MachSymbolEntry,
};
use crate::pe::{
    analyze_pe, coff_entries, coff_string_offsets, is_pe_binary, named_entries,
    pe_section_range, pe_symbols, string_offsets, PdbContents, PeSection, RawCoffSymbol,
};
use crate::text::text_of;
use vstd::prelude::*;

verus! {

/// The kind of file that holds a binary.
#[derive(Clone, Copy, PartialEq, Eq, Debug, Structural)]
pub enum Container {
    Elf,
    PE,
    /// A terse executable.
    TE,
    /// A COFF object.
    Coff,
    Mach,
    Archive,
    /// A file that begins like no container.
    Unknown,
    /// Another kind of container.
    Other,
}

/// The fields of the header of an ELF file that say what the binary is made for.
#[derive(Clone, Copy, PartialEq, Eq, Debug, Structural)]
pub struct ElfHeaderFields {
    pub class: u8,
    pub data: u8,
    pub machine: u16,
}

/// The fields of the headers of a PE file that say what the binary is made for, and where it
/// is loaded.
#[derive(Clone, Copy, PartialEq, Eq, Debug, Structural)]
pub struct PeHeaderFields {
    pub is_64: bool,
    pub machine: u16,
    pub image_base: u64,
}

/// The fields of the header of a Mach-O object that say what the binary is made for.
#[derive(Clone, Copy, PartialEq, Eq, Debug, Structural)]
pub struct MachHeaderFields {
    pub is_64: bool,
    pub little_endian: bool,
    pub cputype: u32,
    pub cpusubtype: u32,
}

/// The kind of container that `goblin::Object::parse` finds in the bytes of a file, or nothing
/// where it fails.
pub uninterp spec fn parsed_container(data: Seq<u8>) -> Option<Container>;

/// What `goblin::elf::Elf::parse` finds in the header of an ELF file, or nothing where it
/// fails.
pub uninterp spec fn parsed_elf_header(data: Seq<u8>) -> Option<ElfHeaderFields>;

/// The symbol table that `goblin::elf::Elf::parse` finds in an ELF file, each entry with what
/// the string table holds at the place of its name, or nothing where it fails.
pub uninterp spec fn parsed_elf_symbols(data: Seq<u8>) -> Option<Seq<ElfSymbolEntry>>;

/// The section headers that `goblin::elf::Elf::parse` finds in an ELF file, or nothing where
/// it fails.
pub uninterp spec fn parsed_elf_sections(data: Seq<u8>) -> Option<Seq<ElfSection>>;

/// What `goblin::pe::PE::parse` finds in the headers of a PE file, or nothing where it
/// fails.
pub uninterp spec fn parsed_pe_header(data: Seq<u8>) -> Option<PeHeaderFields>;

/// The section table that `goblin::pe::PE::parse` finds in a PE file, or nothing where it
/// fails.
pub uninterp spec fn parsed_pe_sections(data: Seq<u8>) -> Option<Seq<PeSection>>;

/// The COFF symbol table that goblin finds in a PE file, each entry with the name that
/// stands in it, where it holds one, and the bytes of its name field; an empty table where
/// goblin cannot read it. Nothing where goblin cannot parse the file.
pub uninterp spec fn parsed_coff_symbols(data: Seq<u8>) -> Option<Seq<RawCoffSymbol>>;

/// What the string table of the COFF header of a PE file holds at each of the places
/// `offsets`: nothing for no place, for a place outside the table, for text that is not
/// UTF-8, and where goblin cannot read the table. Nothing at all where goblin cannot parse
/// the file.
pub uninterp spec fn parsed_coff_strings(data: Seq<u8>, offsets: Seq<Option<usize>>) -> Option<
    Seq<Option<String>>,
>;

/// What `goblin::mach::Mach::parse` finds in the header of a Mach-O file: of the file itself
/// where it is one object, else of the object number `index` that `MultiArch::get` gives,
/// where that is no archive. Nothing at all where goblin fails.
pub uninterp spec fn parsed_mach_header(data: Seq<u8>, index: usize) -> Option<
    Option<MachHeaderFields>,
>;

/// What goblin finds for each symbol of a Mach-O file, or of its object number `index` where
/// it holds several and that one is no archive: the symbol, or nothing where it cannot read
/// it. Nothing at all where goblin fails.
pub uninterp spec fn parsed_mach_symbols(data: Seq<u8>, index: usize) -> Option<
    Option<Seq<Option<MachSymbolEntry>>>,
>;

/// The sections that goblin finds in the segments of a Mach-O file, or of its object number
/// `index` where it holds several and that one is no archive. Nothing at all where goblin
/// fails.
pub uninterp spec fn parsed_mach_sections(data: Seq<u8>, index: usize) -> Option<
    Option<Seq<MachSection>>,
>;

/// The error of goblin.
#[verifier::external_type_specification]
#[verifier::external_body]
pub struct ExGoblinError(goblin::error::Error);

/// Prints an error of goblin with its `Display`. Nothing is claimed of the text.
#[verifier::external_body]
pub(crate) fn goblin_error_message(error: &goblin::error::Error) -> String {
    error.to_string()
}

/// Calls `goblin::Object::parse` and tells the kinds of container apart. Claims only that the
/// result is the one named `parsed_container`.
#[verifier::external_body]
pub(crate) fn goblin_container(data: &[u8]) -> (r: Result<Container, goblin::error::Error>)
    ensures
        match r {
            Ok(kind) => parsed_container(data@) == Some(kind),
            Err(_) => parsed_container(data@) is None,
        },
{
    Ok(match goblin::Object::parse(data)? {
        goblin::Object::Elf(_) => Container::Elf,
        goblin::Object::PE(_) => Container::PE,
        goblin::Object::TE(_) => Container::TE,
        goblin::Object::COFF(_) => Container::Coff,
        goblin::Object::Mach(_) => Container::Mach,
        goblin::Object::Archive(_) => Container::Archive,
        goblin::Object::Unknown(_) => Container::Unknown,
        _ => Container::Other,
    })
}

/// Calls `goblin::elf::Elf::parse` and picks the class byte, the data byte and the machine
/// of the header. Claims only that the result is the one named `parsed_elf_header`.
#[verifier::external_body]
fn goblin_elf_header(data: &[u8]) -> (r: Result<ElfHeaderFields, goblin::error::Error>)
    ensures
        match r {
            Ok(fields) => parsed_elf_header(data@) == Some(fields),
            Err(_) => parsed_elf_header(data@) is None,
        },
{
    let header = goblin::elf::Elf::parse(data)?.header;
    Ok(
        ElfHeaderFields {
            class: header.e_ident[goblin::elf::header::EI_CLASS],
            data: header.e_ident[goblin::elf::header::EI_DATA],
            machine: header.e_machine,
        },
    )
}

/// Calls `goblin::elf::Elf::parse` and hands out each entry of the symbol table, with what
/// `Strtab::get` gives for its name. Claims only that the result is the one named
/// `parsed_elf_symbols`.
#[verifier::external_body]
#[allow(deprecated)]
fn goblin_elf_symbols(data: &[u8]) -> (r: Result<Vec<ElfSymbolEntry>, goblin::error::Error>)
    ensures
        match r {
            Ok(entries) => parsed_elf_symbols(data@) == Some(entries@),
            Err(_) => parsed_elf_symbols(data@) is None,
        },
{
    let elf = goblin::elf::Elf::parse(data)?;
    Ok(elf.syms.iter().map(|sym| ElfSymbolEntry {
        name: match elf.strtab.get(sym.st_name) {
            None => NameLookup::Missing,
            Some(Err(_)) => NameLookup::Invalid,
            Some(Ok(name)) => NameLookup::Found(name.to_string()),
        },
        info: sym.st_info,
        size: sym.st_size,
        value: sym.st_value,
        section_index: sym.st_shndx,
    }).collect())
}

/// Calls `goblin::elf::Elf::parse` and hands out where each section lies. Claims only that
/// the result is the one named `parsed_elf_sections`.
#[verifier::external_body]
fn goblin_elf_sections(data: &[u8]) -> (r: Result<Vec<ElfSection>, goblin::error::Error>)
    ensures
        match r {
            Ok(sections) => parsed_elf_sections(data@) == Some(sections@),
            Err(_) => parsed_elf_sections(data@) is None,
        },
{
    let elf = goblin::elf::Elf::parse(data)?;
    Ok(elf.section_headers.iter().map(|section| ElfSection {
        offset: section.sh_offset,
        addr: section.sh_addr,
        size: section.sh_size,
    }).collect())
}

/// Calls `goblin::pe::PE::parse` and picks the width, the machine and the image base.
/// Claims only that the result is the one named `parsed_pe_header`.
#[verifier::external_body]
fn goblin_pe_header(data: &[u8]) -> (r: Result<PeHeaderFields, goblin::error::Error>)
    ensures
        match r {
            Ok(fields) => parsed_pe_header(data@) == Some(fields),
            Err(_) => parsed_pe_header(data@) is None,
        },
{
    let pe = goblin::pe::PE::parse(data)?;
    Ok(
        PeHeaderFields {
            is_64: pe.is_64,
            machine: pe.header.coff_header.machine,
            image_base: pe.image_base,
        },
    )
}

/// Calls `goblin::pe::PE::parse` and hands out where each section lies. Claims only that the
/// result is the one named `parsed_pe_sections`.
#[verifier::external_body]
fn goblin_pe_sections(data: &[u8]) -> (r: Result<Vec<PeSection>, goblin::error::Error>)
    ensures
        match r {
            Ok(sections) => parsed_pe_sections(data@) == Some(sections@),
            Err(_) => parsed_pe_sections(data@) is None,
        },
{
    let pe = goblin::pe::PE::parse(data)?;
    Ok(pe.sections.iter().map(|section| PeSection {
        virtual_address: section.virtual_address,
        pointer_to_raw_data: section.pointer_to_raw_data,
        virtual_size: section.virtual_size,
    }).collect())
}

/// Calls `goblin::pe::PE::parse`, then `symbols` on the COFF header, and hands out each
/// symbol with the name that `SymbolTable::iter` finds in the entry itself and with the bytes
/// of its name field. A table that cannot be read counts as empty. Claims only that the
/// result is the one named `parsed_coff_symbols`.
#[verifier::external_body]
fn goblin_coff_symbols(data: &[u8]) -> (r: Result<Vec<RawCoffSymbol>, goblin::error::Error>)
    ensures
        match r {
            Ok(entries) => parsed_coff_symbols(data@) == Some(entries@),
            Err(_) => parsed_coff_symbols(data@) is None,
        },
{
    let header = goblin::pe::PE::parse(data)?.header.coff_header;
    Ok(header.symbols(data).ok().flatten().iter().flat_map(|table| table.iter()).map(|(_, inline, symbol)| RawCoffSymbol {
        inline_name: inline.map(str::to_string),
        name_field: symbol.name.to_vec(),
        typ: symbol.typ,
        value: symbol.value,
        section_number: symbol.section_number,
        storage_class: symbol.storage_class,
    }).collect())
}

/// Calls `goblin::pe::PE::parse`, then `strings` on the COFF header and `Strtab::get` for
/// each of the places. Claims only that the result is the one named `parsed_coff_strings`.
#[verifier::external_body]
#[allow(deprecated)]
fn goblin_coff_strings(data: &[u8], offsets: &Vec<Option<usize>>) -> (r: Result<
    Vec<Option<String>>,
    goblin::error::Error,
>)
    ensures
        match r {
            Ok(strings) => parsed_coff_strings(data@, offsets@) == Some(strings@),
            Err(_) => parsed_coff_strings(data@, offsets@) is None,
        },
{
    let header = goblin::pe::PE::parse(data)?.header.coff_header;
    let strtab = header.strings(data).ok().flatten();
    Ok(offsets.iter().map(|at| strtab.as_ref()?.get((*at)?)?.ok().map(str::to_string)).collect())
}

/// The name of the PDB file that a PE file refers to in its debug data, where it refers to
/// one and the name is UTF-8. Nothing where goblin cannot parse the file.
pub uninterp spec fn parsed_pdb_reference(data: Seq<u8>) -> Option<Option<String>>;

/// Calls `goblin::pe::PE::parse` and hands out the file name of the CodeView PDB 7.0 record
/// of the debug data, where there is one and it is UTF-8. Claims only that the result is the
/// one named `parsed_pdb_reference`.
#[verifier::external_body]
fn goblin_pdb_reference(data: &[u8]) -> (r: Result<Option<String>, goblin::error::Error>)
    ensures
        match r {
            Ok(name) => parsed_pdb_reference(data@) == Some(name),
            Err(_) => parsed_pdb_reference(data@) is None,
        },
{
    let pe = goblin::pe::PE::parse(data)?;
    Ok(pe.debug_data.as_ref()
        .and_then(|debug| debug.codeview_pdb70_debug_info.as_ref())
        .and_then(|codeview| std::str::from_utf8(codeview.filename).ok())
        .map(str::to_string))
}

/// Calls `goblin::mach::Mach::parse`, and `MultiArch::get` with `index` where the file holds
/// several objects, and picks the fields of the header of the object; nothing for an
/// archive. Claims only that the result is the one named `parsed_mach_header`.
#[verifier::external_body]
fn goblin_mach_header(data: &[u8], index: usize) -> (r: Result<
    Option<MachHeaderFields>,
    goblin::error::Error,
>)
    ensures
        match r {
            Ok(fields) => parsed_mach_header(data@, index) == Some(fields),
            Err(_) => parsed_mach_header(data@, index) is None,
        },
{
    let mach = match goblin::mach::Mach::parse(data)? {
        goblin::mach::Mach::Binary(object) => object,
        goblin::mach::Mach::Fat(multi) => match multi.get(index)? {
            goblin::mach::SingleArch::MachO(object) => object,
            goblin::mach::SingleArch::Archive(_) => return Ok(None),
        },
    };
    Ok(Some(MachHeaderFields {
        is_64: mach.is_64,
        little_endian: mach.little_endian,
        cputype: mach.header.cputype,
        cpusubtype: mach.header.cpusubtype,
    }))
}

/// Calls `goblin::mach::Mach::parse`, and `MultiArch::get` with `index` where the file holds
/// several objects, and hands out what `MachO::symbols` gives for each symbol of the object:
/// the symbol, or nothing for an error; nothing for an archive. Claims only that the result
/// is the one named `parsed_mach_symbols`.
#[verifier::external_body]
fn goblin_mach_symbols(data: &[u8], index: usize) -> (r: Result<
    Option<Vec<Option<MachSymbolEntry>>>,
    goblin::error::Error,
>)
    ensures
        match r {
            Ok(Some(entries)) => parsed_mach_symbols(data@, index) == Some(Some(entries@)),
            Ok(None) => parsed_mach_symbols(data@, index) == Some(
                None::<Seq<Option<MachSymbolEntry>>>,
            ),
            Err(_) => parsed_mach_symbols(data@, index) is None,
        },
{
    let mach = match goblin::mach::Mach::parse(data)? {
        goblin::mach::Mach::Binary(object) => object,
        goblin::mach::Mach::Fat(multi) => match multi.get(index)? {
            goblin::mach::SingleArch::MachO(object) => object,
            goblin::mach::SingleArch::Archive(_) => return Ok(None),
        },
    };
    Ok(Some(mach.symbols().map(|symbol| symbol.ok().map(|(name, nlist)| MachSymbolEntry {
        name: name.to_string(),
        n_type: nlist.n_type,
        n_sect: nlist.n_sect,
        n_value: nlist.n_value,
    })).collect()))
}

/// Calls `goblin::mach::Mach::parse`, and `MultiArch::get` with `index` where the file holds
/// several objects, and hands out where each section of each segment of the object lies;
/// nothing for an archive. Claims only that the result is the one named
/// `parsed_mach_sections`.
#[verifier::external_body]
fn goblin_mach_sections(data: &[u8], index: usize) -> (r: Result<
    Option<Vec<MachSection>>,
    goblin::error::Error,
>)
    ensures
        match r {
            Ok(Some(sections)) => parsed_mach_sections(data@, index) == Some(Some(sections@)),
            Ok(None) => parsed_mach_sections(data@, index) == Some(None::<Seq<MachSection>>),
            Err(_) => parsed_mach_sections(data@, index) is None,
        },
{
    let mach = match goblin::mach::Mach::parse(data)? {
        goblin::mach::Mach::Binary(object) => object,
        goblin::mach::Mach::Fat(multi) => match multi.get(index)? {
            goblin::mach::SingleArch::MachO(object) => object,
            goblin::mach::SingleArch::Archive(_) => return Ok(None),
        },
    };
    mach.segments.iter().flat_map(|segment| segment.into_iter()).map(|found| found.map(
        |(section, _)| MachSection { addr: section.addr, offset: section.offset as usize },
    )).collect::<Result<_, _>>().map(Some)
}

/// The name of a section of an ELF file as goblin finds it, and the bytes of the file that
/// hold the section, where it has any.
pub struct SectionPlace {
    pub name: NameLookup,
    pub range: Option<(usize, usize)>,
}

/// The name of a section of a Mach-O object, where goblin can read it, where the section
/// begins in the object, and how many bytes of the object goblin gives for it: none for a
/// section that is filled with zeros, or that does not lie in the object.
pub struct MachPlace {
    pub name: Option<String>,
    pub offset: u32,
    pub size: usize,
}

/// Where the object that is read of a Mach-O file lies in the file.
#[derive(Clone, Copy, PartialEq, Eq, Debug, Structural)]
pub enum MachSlice {
    /// The file is one object.
    Whole,
    /// The file holds several objects, and the one that is read begins at the first number
    /// and has as many bytes as the second.
    Part(u32, u32),
    /// The file holds several objects, and none with the number that was asked for.
    Missing,
}

/// Where goblin finds the object number `index` of a Mach-O file that holds several, or that
/// the file is one object. Nothing where goblin fails.
pub uninterp spec fn parsed_mach_slice(data: Seq<u8>, index: usize) -> Option<MachSlice>;

/// For each section of an ELF file, what `Strtab::get` gives for its name and what
/// `file_range` gives, or nothing where goblin fails.
pub uninterp spec fn parsed_elf_places(data: Seq<u8>) -> Option<Seq<SectionPlace>>;

/// For each section of a PE file, what `SectionTable::name` gives, or nothing where goblin
/// fails.
pub uninterp spec fn parsed_pe_names(data: Seq<u8>) -> Option<Seq<Option<String>>>;

/// For each section of a Mach-O file, or of its object number `index` where it holds several
/// and that one is no archive, what `Section::name` gives, its field `offset`, and the
/// number of the bytes that goblin gives for the section. Nothing at all where goblin fails.
pub uninterp spec fn parsed_mach_places(data: Seq<u8>, index: usize) -> Option<
    Option<Seq<MachPlace>>,
>;

/// Calls `goblin::elf::Elf::parse` and hands out, for each section, what `Strtab::get` gives
/// for its name and what `file_range` gives. Claims only that the result is the one named
/// `parsed_elf_places`.
#[verifier::external_body]
#[allow(deprecated)]
fn goblin_elf_places(data: &[u8]) -> (r: Result<Vec<SectionPlace>, goblin::error::Error>)
    ensures
        match r {
            Ok(places) => parsed_elf_places(data@) == Some(places@),
            Err(_) => parsed_elf_places(data@) is None,
        },
{
    let elf = goblin::elf::Elf::parse(data)?;
    Ok(elf.section_headers.iter().map(|section| SectionPlace {
        name: match elf.shdr_strtab.get(section.sh_name) {
            None => NameLookup::Missing,
            Some(Err(_)) => NameLookup::Invalid,
            Some(Ok(name)) => NameLookup::Found(name.to_string()),
        },
        range: section.file_range().map(|range| (range.start, range.end)),
    }).collect())
}

/// Calls `goblin::pe::PE::parse` and hands out what `SectionTable::name` gives for each
/// section. Claims only that the result is the one named `parsed_pe_names`.
#[verifier::external_body]
fn goblin_pe_names(data: &[u8]) -> (r: Result<Vec<Option<String>>, goblin::error::Error>)
    ensures
        match r {
            Ok(names) => parsed_pe_names(data@) == Some(names@),
            Err(_) => parsed_pe_names(data@) is None,
        },
{
    let pe = goblin::pe::PE::parse(data)?;
    Ok(pe.sections.iter().map(|section| section.name().ok().map(str::to_string)).collect())
}

/// Calls `goblin::mach::Mach::parse`, and `iter_arches` where the file holds several objects,
/// and hands out the fields `offset` and `size` of the entry number `index`. Claims only
/// that the result is the one named `parsed_mach_slice`.
#[verifier::external_body]
fn goblin_mach_slice(data: &[u8], index: usize) -> (r: Result<MachSlice, goblin::error::Error>)
    ensures
        match r {
            Ok(slice) => parsed_mach_slice(data@, index) == Some(slice),
            Err(_) => parsed_mach_slice(data@, index) is None,
        },
{
    Ok(match goblin::mach::Mach::parse(data)? {
        goblin::mach::Mach::Binary(_) => MachSlice::Whole,
        goblin::mach::Mach::Fat(multi) => match multi.iter_arches().nth(index).transpose()? {
            Some(arch) => MachSlice::Part(arch.offset, arch.size),
            None => MachSlice::Missing,
        },
    })
}

/// Calls `goblin::mach::Mach::parse`, and `MultiArch::get` with `index` where the file holds
/// several objects, and hands out, for each section of each segment of the object, what
/// `Section::name` gives, the field `offset`, and the length of the bytes that the iterator
/// gives for the section; nothing for an archive. Claims only that the result is the one
/// named `parsed_mach_places`.
#[verifier::external_body]
fn goblin_mach_places(data: &[u8], index: usize) -> (r: Result<
    Option<Vec<MachPlace>>,
    goblin::error::Error,
>)
    ensures
        match r {
            Ok(Some(places)) => parsed_mach_places(data@, index) == Some(Some(places@)),
            Ok(None) => parsed_mach_places(data@, index) == Some(None::<Seq<MachPlace>>),
            Err(_) => parsed_mach_places(data@, index) is None,
        },
{
    let mach = match goblin::mach::Mach::parse(data)? {
        goblin::mach::Mach::Binary(object) => object,
        goblin::mach::Mach::Fat(multi) => match multi.get(index)? {
            goblin::mach::SingleArch::MachO(object) => object,
            goblin::mach::SingleArch::Archive(_) => return Ok(None),
        },
    };
    mach.segments.iter().flat_map(|segment| segment.into_iter()).map(|found| found.map(|(section, bytes)| MachPlace {
        name: section.name().ok().map(str::to_string),
        offset: section.offset,
        size: bytes.len(),
    })).collect::<Result<_, _>>().map(Some)
}

/// The number of the object that is read of a Mach-O file that holds several: the first.
pub const FIRST_OBJECT: usize = 0;

/// What was found of the object that is read; nothing where goblin failed, and where an
/// archive stands in the place of the object.
pub open spec fn read_object<T>(found: Option<Option<T>>) -> Option<T> {
    match found {
        Some(Some(value)) => Some(value),
        _ => None,
    }
}

/// The header of a Mach-O file, of its first object where it holds several.
pub open spec fn mach_header_of(data: Seq<u8>) -> Option<MachHeaderFields> {
    read_object(parsed_mach_header(data, FIRST_OBJECT))
}

/// The symbols of a Mach-O file, of its first object where it holds several.
pub open spec fn mach_symbols_of(data: Seq<u8>) -> Option<Seq<Option<MachSymbolEntry>>> {
    read_object(parsed_mach_symbols(data, FIRST_OBJECT))
}

/// Where the sections of a Mach-O file lie in memory and in the file, of its first object
/// where it holds several.
pub open spec fn mach_sections_of(data: Seq<u8>) -> Option<Seq<MachSection>> {
    read_object(parsed_mach_sections(data, FIRST_OBJECT))
}

/// The names and the places of the sections of a Mach-O file, of its first object where it
/// holds several.
pub open spec fn mach_places_of(data: Seq<u8>) -> Option<Seq<MachPlace>> {
    read_object(parsed_mach_places(data, FIRST_OBJECT))
}

/// Where the object that is read lies in a file of `len` bytes: from the start of the file to
/// its end where the file is one object, else where the file says, which is nowhere where
/// that is not all in the file. Nothing where the file holds no such object.
pub open spec fn slice_range(slice: MachSlice, len: int) -> Option<(int, int)> {
    match slice {
        MachSlice::Whole => Some((0, len)),
        MachSlice::Part(offset, size) => if offset + size <= len {
            Some((offset as int, offset + size))
        } else {
            Some((0, 0))
        },
        MachSlice::Missing => None,
    }
}

/// Where the object that is read of a Mach-O file lies in the file: its first object where
/// it holds several. Nothing where goblin fails.
pub open spec fn mach_object_range(data: Seq<u8>) -> Option<(int, int)> {
    match parsed_mach_slice(data, FIRST_OBJECT) {
        Some(slice) => slice_range(slice, data.len() as int),
        None => None,
    }
}

/// The bytes of the object that is read of a Mach-O file.
pub open spec fn mach_object_bytes(data: Seq<u8>) -> Option<Seq<u8>> {
    match mach_object_range(data) {
        Some((start, end)) => Some(data.subrange(start, end)),
        None => None,
    }
}

/// Where the object that is read of a Mach-O file lies in the file: its first object where
/// it holds several. What goblin cannot parse is malformed, and so is a file that holds
/// several objects and none that is the first.
pub fn mach_object(data: &[u8]) -> (r: Result<(usize, usize), CargoAsmError>)
    ensures
        match r {
            Ok((start, end)) => mach_object_range(data@) == Some((start as int, end as int))
                && start <= end <= data@.len(),
            Err(error) => error is Malformed && mach_object_range(data@) is None,
        },
{
    let slice = match goblin_mach_slice(data, FIRST_OBJECT) {
        Ok(slice) => slice,
        Err(error) => {
            return Err(CargoAsmError::Malformed(goblin_error_message(&error)));
        },
    };
    match slice {
        MachSlice::Whole => Ok((0, data.len())),
        MachSlice::Part(offset, size) => {
            if offset as u64 + size as u64 <= data.len() as u64 {
                Ok((offset as usize, (offset as u64 + size as u64) as usize))
            } else {
                Ok((0, 0))
            }
        },
        MachSlice::Missing => Err(
            CargoAsmError::Malformed("the file holds no object".to_owned()),
        ),
    }
}

/// The sections with their places counted from the start of the file, where the object
/// that holds them begins at `start`. A place beyond the machine's word is the last one.
pub open spec fn sections_in_file(sections: Seq<MachSection>, start: int) -> Seq<MachSection> {
    Seq::new(
        sections.len(),
        |i: int|
            MachSection {
                addr: sections[i].addr,
                offset: if sections[i].offset + start <= usize::MAX {
                    (sections[i].offset + start) as usize
                } else {
                    usize::MAX
                },
            },
    )
}

/// The sections with their places counted from the start of the file.
pub fn shift_sections(sections: &Vec<MachSection>, start: usize) -> (r: Vec<MachSection>)
    ensures
        r@ == sections_in_file(sections@, start as int),
{
    let mut out: Vec<MachSection> = Vec::new();
    let mut i: usize = 0;
    while i < sections.len()
        invariant
            i <= sections@.len(),
            out@ == sections_in_file(sections@, start as int).take(i as int),
        decreases sections@.len() - i,
    {
        let section = sections[i];
        let offset = if section.offset <= usize::MAX - start {
            section.offset + start
        } else {
            usize::MAX
        };
        out.push(MachSection { addr: section.addr, offset });
        i += 1;
        proof {
            assert(out@ =~= sections_in_file(sections@, start as int).take(i as int));
        }
    }
    proof {
        assert(out@ =~= sections_in_file(sections@, start as int));
    }
    out
}

/// What was found of the object that is read. It is malformed that goblin failed, and that
/// an archive stands in the place of the object.
fn object_or_malformed<T>(found: Result<Option<T>, goblin::error::Error>) -> (r: Result<
    T,
    CargoAsmError,
>)
    ensures
        match found {
            Ok(Some(value)) => r == Ok::<T, CargoAsmError>(value),
            _ => r matches Err(error) && error is Malformed,
        },
{
    match found {
        Ok(Some(value)) => Ok(value),
        Ok(None) => Err(
            CargoAsmError::Malformed("an archive stands in the place of the object".to_owned()),
        ),
        Err(error) => Err(CargoAsmError::Malformed(goblin_error_message(&error))),
    }
}

/// The header of a Mach-O file, of its first object where it holds several. What goblin
/// cannot parse is malformed, and so is a file whose first object is an archive.
pub fn mach_header(data: &[u8]) -> (r: Result<MachHeaderFields, CargoAsmError>)
    ensures
        match r {
            Ok(header) => mach_header_of(data@) == Some(header),
            Err(error) => error is Malformed && mach_header_of(data@) is None,
        },
{
    object_or_malformed(goblin_mach_header(data, FIRST_OBJECT))
}

/// The kind of container that the bytes of a file hold. What goblin cannot parse is
/// malformed.
pub fn container_of(data: &[u8]) -> (r: Result<Container, CargoAsmError>)
    ensures
        match r {
            Ok(kind) => parsed_container(data@) == Some(kind),
            Err(error) => error is Malformed && parsed_container(data@) is None,
        },
{
    match goblin_container(data) {
        Ok(kind) => Ok(kind),
        Err(error) => Err(CargoAsmError::Malformed(goblin_error_message(&error))),
    }
}

/// The name of the PDB file that a PE file refers to in its debug data, where it refers to
/// one. What goblin cannot parse is malformed.
pub fn pdb_reference(data: &[u8]) -> (r: Result<Option<String>, CargoAsmError>)
    ensures
        match r {
            Ok(name) => parsed_pdb_reference(data@) == Some(name),
            Err(error) => error is Malformed && parsed_pdb_reference(data@) is None,
        },
{
    match goblin_pdb_reference(data) {
        Ok(name) => Ok(name),
        Err(error) => Err(CargoAsmError::Malformed(goblin_error_message(&error))),
    }
}

/// What is found beside a binary for its debug information.
pub struct DebugFiles {
    /// The PDB file of a PE binary, where there is one.
    pub pdb: Option<PdbContents>,
    /// The file that holds the DWARF of a Mach-O binary, where it is not the binary itself.
    pub external_dwarf: Option<String>,
}

/// What the binary of an ELF file is, where goblin can parse the file, the order of its
/// bytes is known and the names of its function symbols can be read.
pub open spec fn loads_elf(data: Seq<u8>, binary: Binary) -> Option<bool> {
    match (parsed_elf_header(data), parsed_elf_symbols(data), parsed_elf_sections(data)) {
        (Some(header), Some(entries), Some(sections)) => match (
            elf_endian(header.data),
            elf_symbols(entries, sections, entries.len() as int),
        ) {
            (Some(endian), Some(found)) => Some(
                is_elf_binary(binary, header.class, endian, header.machine, found),
            ),
            _ => None,
        },
        _ => None,
    }
}

/// What the binary of a PE file is, where goblin can parse the file. `pdb` is what its PDB
/// file holds, where it has one.
pub open spec fn loads_pe(data: Seq<u8>, pdb: Option<PdbContents>, binary: Binary) -> Option<bool> {
    match (parsed_pe_header(data), parsed_coff_symbols(data), parsed_pe_sections(data)) {
        (Some(header), Some(raw), Some(sections)) => match parsed_coff_strings(
            data,
            string_offsets(raw),
        ) {
            Some(strings) => Some(
                is_pe_binary(
                    binary,
                    header.is_64,
                    header.machine,
                    header.image_base,
                    pdb is Some,
                    pe_symbols(named_entries(raw, strings), sections, header.image_base, pdb),
                ),
            ),
            None => None,
        },
        _ => None,
    }
}

/// What the binary of a Mach-O file is, of its first object where it holds several, where
/// goblin can parse the file. The places of its symbols are counted from the start of the
/// file. `external_dwarf` is the file that holds its debug information,
/// where that is another file.
pub open spec fn loads_mach(data: Seq<u8>, external_dwarf: Option<Seq<char>>, binary: Binary) -> Option<
    bool,
> {
    match (
        mach_header_of(data),
        mach_symbols_of(data),
        mach_sections_of(data),
        mach_object_range(data),
    ) {
        (Some(header), Some(found), Some(sections), Some((start, _))) => Some(
            is_mach_binary(
                binary,
                header.is_64,
                header.little_endian,
                header.cputype,
                readable_entries(found),
                sections_in_file(sections, start),
                external_dwarf,
            ),
        ),
        _ => None,
    }
}

/// The binary that a Mach-O file holds: that of its first object where it holds several.
/// `external_dwarf` is the file that holds its debug information, where one was found beside
/// it. What goblin cannot parse is malformed.
pub fn analyze_mach(data: &[u8], external_dwarf: Option<String>) -> (r: Result<Binary, CargoAsmError>)
    ensures
        match r {
            Ok(binary) => loads_mach(data@, text_of(external_dwarf), binary) == Some(true),
            Err(error) => error is Malformed && forall|binary: Binary|
                #[trigger] loads_mach(data@, text_of(external_dwarf), binary) is None,
        },
{
    let header = mach_header(data)?;
    let found = object_or_malformed(goblin_mach_symbols(data, FIRST_OBJECT))?;
    let entries = readable_symbols(&found);
    let found_sections = object_or_malformed(goblin_mach_sections(data, FIRST_OBJECT))?;
    let (start, _) = mach_object(data)?;
    let sections = shift_sections(&found_sections, start);
    Ok(
        analyze_mach_object(
            header.is_64,
            header.little_endian,
            header.cputype,
            header.cpusubtype,
            &entries,
            &sections,
            external_dwarf,
        ),
    )
}

/// What the binary of a file is, by the kind of its container; nothing where goblin cannot
/// parse the file, and for an archive or a container of no known kind.
pub open spec fn loads(data: Seq<u8>, debug: DebugFiles, binary: Binary) -> Option<bool> {
    match parsed_container(data) {
        Some(Container::Elf) => loads_elf(data, binary),
        Some(Container::PE) => loads_pe(data, debug.pdb, binary),
        Some(Container::Mach) => loads_mach(data, text_of(debug.external_dwarf), binary),
        _ => None,
    }
}

/// The name by which a container that is not read is reported: an archive by its own name,
/// every other kind but an ELF, PE or Mach-O file as unknown. Nothing for those three.
pub open spec fn unsupported_name(data: Seq<u8>) -> Option<Seq<char>> {
    match parsed_container(data) {
        Some(Container::Archive) => Some("Archive"@),
        Some(Container::Elf) => None,
        Some(Container::PE) => None,
        Some(Container::Mach) => None,
        Some(_) => Some("<< UNKNOWN >>"@),
        None => None,
    }
}

impl Binary {
    /// The binary that the bytes of a file hold, by the kind of its container. `debug` is
    /// what was found beside the file for its debug information. An archive and a container
    /// of no known kind are not supported; what goblin cannot parse is malformed.
    pub fn load(data: &[u8], debug: DebugFiles) -> (r: Result<Binary, CargoAsmError>)
        ensures
            match r {
                Ok(binary) => loads(data@, debug, binary) == Some(true),
                Err(error) => match unsupported_name(data@) {
                    Some(name) => error matches CargoAsmError::UnsupportedBinaryFormat(format)
                        && format@ == name,
                    None => error is Malformed && forall|binary: Binary|
                        #[trigger] loads(data@, debug, binary) is None,
                },
            },
    {
        let kind = match goblin_container(data) {
            Ok(kind) => kind,
            Err(error) => {
                return Err(CargoAsmError::Malformed(goblin_error_message(&error)));
            },
        };
        match kind {
            Container::Elf => {
                let header = match goblin_elf_header(data) {
                    Ok(header) => header,
                    Err(error) => {
                        return Err(CargoAsmError::Malformed(goblin_error_message(&error)));
                    },
                };
                let entries = match goblin_elf_symbols(data) {
                    Ok(entries) => entries,
                    Err(error) => {
                        return Err(CargoAsmError::Malformed(goblin_error_message(&error)));
                    },
                };
                let sections = match goblin_elf_sections(data) {
                    Ok(sections) => sections,
                    Err(error) => {
                        return Err(CargoAsmError::Malformed(goblin_error_message(&error)));
                    },
                };
                analyze_elf(header.class, header.data, header.machine, &entries, &sections)
            },
            Container::PE => {
                let header = match goblin_pe_header(data) {
                    Ok(header) => header,
                    Err(error) => {
                        return Err(CargoAsmError::Malformed(goblin_error_message(&error)));
                    },
                };
                let raw = match goblin_coff_symbols(data) {
                    Ok(raw) => raw,
                    Err(error) => {
                        return Err(CargoAsmError::Malformed(goblin_error_message(&error)));
                    },
                };
                let offsets = coff_string_offsets(&raw);
                let strings = match goblin_coff_strings(data, &offsets) {
                    Ok(strings) => strings,
                    Err(error) => {
                        return Err(CargoAsmError::Malformed(goblin_error_message(&error)));
                    },
                };
                let entries = coff_entries(&raw, &strings);
                let sections = match goblin_pe_sections(data) {
                    Ok(sections) => sections,
                    Err(error) => {
                        return Err(CargoAsmError::Malformed(goblin_error_message(&error)));
                    },
                };
                Ok(
                    analyze_pe(
                        header.is_64,
                        header.machine,
                        header.image_base,
                        &entries,
                        &sections,
                        debug.pdb.as_ref(),
                    ),
                )
            },
            Container::Mach => analyze_mach(data, debug.external_dwarf),
            Container::Archive => Err(CargoAsmError::UnsupportedBinaryFormat("Archive")),
            // Only ELF, PE and Mach-O files are read: every other kind counts as unknown.
            Container::TE | Container::Coff | Container::Unknown | Container::Other => Err(
                CargoAsmError::UnsupportedBinaryFormat("<< UNKNOWN >>"),
            ),
        }
    }
}

/// The name and the place of section `i` of an ELF file, where it has both.
pub open spec fn elf_named(places: Seq<SectionPlace>, i: int) -> Option<(Seq<char>, usize, usize)> {
    match (places[i].name, places[i].range) {
        (NameLookup::Found(name), Some((start, end))) => Some((name@, start, end)),
        _ => None,
    }
}

/// The name and the place of section `i` of a PE file, where it has a name and lies in a
/// file of `file_len` bytes.
pub open spec fn pe_named(
    names: Seq<Option<String>>,
    sections: Seq<PeSection>,
    file_len: int,
    i: int,
) -> Option<(Seq<char>, usize, usize)> {
    match names[i] {
        Some(name) => if i < sections.len() && sections[i].pointer_to_raw_data
            + sections[i].virtual_size <= file_len {
            Some(
                (
                    name@,
                    sections[i].pointer_to_raw_data as usize,
                    (sections[i].pointer_to_raw_data + sections[i].virtual_size) as usize,
                ),
            )
        } else {
            None
        },
        None => None,
    }
}

/// The name of section `i` of a Mach-O object and the place in the object of the bytes that
/// goblin gives for it, where it has a name, and its place is within the machine's word.
pub open spec fn mach_named(places: Seq<MachPlace>, i: int) -> Option<(Seq<char>, usize, usize)> {
    match places[i].name {
        Some(name) => if places[i].offset + places[i].size <= usize::MAX {
            Some((name@, places[i].offset as usize, (places[i].offset + places[i].size) as usize))
        } else {
            None
        },
        None => None,
    }
}

/// The sections of a table of `count` candidates, of which `pick` gives the ones that
/// count, in order.
pub open spec fn picked(
    pick: spec_fn(int) -> Option<(Seq<char>, usize, usize)>,
    count: int,
) -> Seq<(Seq<char>, usize, usize)>
    decreases count,
{
    if count <= 0 {
        Seq::empty()
    } else {
        match pick(count - 1) {
            Some(entry) => picked(pick, count - 1).push(entry),
            None => picked(pick, count - 1),
        }
    }
}

/// The sections of an ELF file that have a name and a place in the file; nothing where
/// goblin cannot parse the file.
pub open spec fn elf_sections(data: Seq<u8>) -> Option<Seq<(Seq<char>, usize, usize)>> {
    match parsed_elf_places(data) {
        Some(places) => Some(picked(|i: int| elf_named(places, i), places.len() as int)),
        None => None,
    }
}

/// The sections of a PE file that have a name and lie in the file; nothing where goblin
/// cannot parse the file.
pub open spec fn pe_sections(data: Seq<u8>) -> Option<Seq<(Seq<char>, usize, usize)>> {
    match (parsed_pe_names(data), parsed_pe_sections(data)) {
        (Some(names), Some(sections)) => Some(
            picked(
                |i: int| pe_named(names, sections, data.len() as int, i),
                names.len() as int,
            ),
        ),
        _ => None,
    }
}

/// The sections of the first object of a Mach-O file that have a name; nothing where goblin
/// cannot parse the file.
pub open spec fn mach_sections(data: Seq<u8>) -> Option<Seq<(Seq<char>, usize, usize)>> {
    match mach_places_of(data) {
        Some(places) => Some(picked(|i: int| mach_named(places, i), places.len() as int)),
        None => None,
    }
}

/// The sections of an ELF file that have a name and a place in the file.
pub fn elf_section_table(data: &[u8]) -> (r: Result<Vec<NamedSection>, CargoAsmError>)
    ensures
        match elf_sections(data@) {
            Some(table) => r is Ok && table_view(r->Ok_0@) == table,
            None => r is Err && r->Err_0 is Malformed,
        },
{
    let places = match goblin_elf_places(data) {
        Ok(places) => places,
        Err(error) => {
            return Err(CargoAsmError::Malformed(goblin_error_message(&error)));
        },
    };
    let mut table: Vec<NamedSection> = Vec::new();
    let ghost pick = |i: int| elf_named(places@, i);
    let mut i: usize = 0;
    proof {
        assert(table_view(table@) =~= picked(pick, 0));
    }
    while i < places.len()
        invariant
            i <= places@.len(),
            pick == |i: int| elf_named(places@, i),
            table_view(table@) == picked(pick, i as int),
        decreases places@.len() - i,
    {
        let ghost before = table_view(table@);
        match (&places[i].name, places[i].range) {
            (NameLookup::Found(name), Some((start, end))) => {
                table.push(NamedSection { name: name.clone(), start, end });
                proof {
                    assert(table_view(table@) =~= before.push((name@, start, end)));
                }
            },
            _ => {},
        }
        i += 1;
    }
    Ok(table)
}

/// The sections of a PE file that have a name and lie in the file.
pub fn pe_section_table(data: &[u8]) -> (r: Result<Vec<NamedSection>, CargoAsmError>)
    ensures
        match pe_sections(data@) {
            Some(table) => r is Ok && table_view(r->Ok_0@) == table,
            None => r is Err && r->Err_0 is Malformed,
        },
{
    let names = match goblin_pe_names(data) {
        Ok(names) => names,
        Err(error) => {
            return Err(CargoAsmError::Malformed(goblin_error_message(&error)));
        },
    };
    let sections = match goblin_pe_sections(data) {
        Ok(sections) => sections,
        Err(error) => {
            return Err(CargoAsmError::Malformed(goblin_error_message(&error)));
        },
    };
    let file_len = data.len();
    let mut table: Vec<NamedSection> = Vec::new();
    let ghost pick = |i: int| pe_named(names@, sections@, data@.len() as int, i);
    let mut i: usize = 0;
    proof {
        assert(table_view(table@) =~= picked(pick, 0));
    }
    while i < names.len()
        invariant
            i <= names@.len(),
            file_len == data@.len(),
            pick == |i: int| pe_named(names@, sections@, data@.len() as int, i),
            table_view(table@) == picked(pick, i as int),
        decreases names@.len() - i,
    {
        let ghost before = table_view(table@);
        if let Some(name) = &names[i] {
            if i < sections.len() {
                if let Some((start, end)) = pe_section_range(sections[i], file_len) {
                    table.push(NamedSection { name: name.clone(), start, end });
                    proof {
                        assert(table_view(table@) =~= before.push((name@, start, end)));
                    }
                }
            }
        }
        i += 1;
    }
    Ok(table)
}

/// The sections of the first object of a Mach-O file that have a name.
pub fn mach_section_table(data: &[u8]) -> (r: Result<Vec<NamedSection>, CargoAsmError>)
    ensures
        match mach_sections(data@) {
            Some(table) => r is Ok && table_view(r->Ok_0@) == table,
            None => r is Err && r->Err_0 is Malformed,
        },
{
    let places = object_or_malformed(goblin_mach_places(data, FIRST_OBJECT))?;
    let mut table: Vec<NamedSection> = Vec::new();
    let ghost pick = |i: int| mach_named(places@, i);
    let mut i: usize = 0;
    proof {
        assert(table_view(table@) =~= picked(pick, 0));
    }
    while i < places.len()
        invariant
            i <= places@.len(),
            pick == |i: int| mach_named(places@, i),
            table_view(table@) == picked(pick, i as int),
        decreases places@.len() - i,
    {
        let ghost before = table_view(table@);
        let place = &places[i];
        if let Some(name) = &place.name {
            if place.size <= usize::MAX - place.offset as usize {
                let start = place.offset as usize;
                let end = start + place.size;
                table.push(NamedSection { name: name.clone(), start, end });
                proof {
                    assert(table_view(table@) =~= before.push((name@, start, end)));
                }
            }
        }
        i += 1;
    }
    Ok(table)
}

} // verus!
