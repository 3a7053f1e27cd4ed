use crate::amd64::{jump_is_sound, patch_text, Instruction};
use crate::arch::{added_jumps, analyze_instructions, OperandPatches};
use crate::binary::{
    endian_of, Binary, BinaryArch, BinaryEndian, MachDebug, MachExt, ObjectExt, PEDebug, PEExt,
};
use crate::debug_info::{table_view, DwarfData, DwarfView, NamedSection};
use crate::decoder::{decode, decoded};
use crate::errors::CargoAsmError;
use crate::format::OutputMeasure;
use crate::jumps::{
    is_max_lane, lanes_assigned, ordered_by_source, sort_by_source, unplaced, InnerJumpTable,
};
use crate::line_cache::FileLineCache;
use crate::listing::{
    listing_spans, span_texts, widths, write_disasm_output, DisasmConfig, SourceLine,
    Span,
};
use crate::mapper::{
    answers, headers_of, lemma_answers_are_kept, no_op_line_mapper, parsed_units, ranges_by_start,
    DwarfLineMapper, LineMapper, LineMappings,
};
use crate::object::{
    elf_section_table, elf_sections, goblin_container, goblin_error_message, mach_header,
    mach_header_of, mach_object, mach_object_bytes, mach_section_table, mach_sections,
    parsed_container, pe_section_table, pe_sections, Container,
};
use crate::pdb_lines::{module_sequences, pdb_models, PDBLineMapper, PdbModule};
use crate::pe::{loaded_at, section_addresses, PeSection};
use crate::platform::{converter_from, path_converter_from, Platform};
use crate::strategy::FileResolveStrategy;
use crate::symbol::Symbol;
use vstd::prelude::*;
use vstd::slice::slice_subrange;

verus! {

/// The bytes of a binary, and the bytes of the file that holds its debug information where
/// that is another file.
#[derive(Debug)]
pub struct BinaryData {
    data: Vec<u8>,
    debug: Option<Vec<u8>>,
}

impl BinaryData {
    /// The bytes of the binary.
    pub closed spec fn bytes(&self) -> Seq<u8> {
        self.data@
    }

    /// The bytes of the file of the debug information, once they are attached.
    pub closed spec fn debug_bytes(&self) -> Option<Seq<u8>> {
        match self.debug {
            Some(bytes) => Some(bytes@),
            None => None,
        }
    }

    pub fn load(data: Vec<u8>) -> (r: BinaryData)
        ensures
            r.bytes() == data@,
            r.debug_bytes() is None,
    {
        BinaryData { data, debug: None }
    }

    pub fn data(&self) -> (r: &[u8])
        ensures
            r@ == self.bytes(),
    {
        self.data.as_slice()
    }

    /// Attaches the bytes of the file that holds the debug information. They can be attached
    /// once.
    pub fn set_dwarf_data(&mut self, data: Vec<u8>)
        requires
            old(self).debug_bytes() is None,
        ensures
            final(self).bytes() == old(self).bytes(),
            final(self).debug_bytes() == Some(data@),
    {
        self.debug = Some(data);
    }

    /// The bytes of the file that holds the debug information, once they are attached.
    pub fn dwarf_data(&self) -> (r: Option<&[u8]>)
        ensures
            match r {
                Some(bytes) => self.debug_bytes() == Some(bytes@),
                None => self.debug_bytes() is None,
            },
    {
        match &self.debug {
            Some(bytes) => Some(bytes.as_slice()),
            None => None,
        }
    }
}

/// The line programs of the PDB file of a binary, with the sections of the file.
pub struct PdbLines {
    pub sections: Vec<PeSection>,
    pub modules: Vec<PdbModule>,
}

/// What a line mapper is made from.
pub enum DebugSource {
    /// The DWARF in the sections of a file.
    Dwarf(DwarfView),
    /// The line programs of a PDB file, for a binary that is loaded at an image base.
    Pdb(PdbLines, u64),
    /// Nothing: the file beside the binary is no Mach-O file.
    Nothing,
    /// The debug information is not at hand.
    Missing,
    /// Goblin cannot parse the file.
    Malformed,
}

/// The DWARF in the sections `table` of a file, where the file could be parsed.
pub open spec fn dwarf_source(
    bytes: Seq<u8>,
    table: Option<Seq<(Seq<char>, usize, usize)>>,
    endian: BinaryEndian,
    fix_names: bool,
) -> DebugSource {
    match table {
        Some(table) => DebugSource::Dwarf(
            DwarfView { bytes, table, little_endian: endian == BinaryEndian::Little, fix_names },
        ),
        None => DebugSource::Malformed,
    }
}

/// The DWARF in the sections of the object that is read of a Mach-O file: its first object
/// where it holds several. The places of the sections are counted in the bytes of the
/// object. The names of the sections are compared without what they begin with.
pub open spec fn mach_dwarf_source(data: Seq<u8>, endian: BinaryEndian) -> DebugSource {
    match mach_object_bytes(data) {
        Some(bytes) => dwarf_source(bytes, mach_sections(data), endian, true),
        None => DebugSource::Malformed,
    }
}

/// What the mapper of a PE binary is made from: the line programs of its PDB file where it
/// has one, which must be at hand, else the DWARF in its sections.
pub open spec fn pe_source(
    ext: PEExt,
    pdb: Option<PdbLines>,
    endian: BinaryEndian,
    data: Seq<u8>,
) -> DebugSource {
    match ext.debug {
        PEDebug::Dwarf => dwarf_source(data, pe_sections(data), endian, false),
        PEDebug::PDB => match pdb {
            Some(lines) => DebugSource::Pdb(lines, ext.image_base),
            None => DebugSource::Missing,
        },
    }
}

/// What the mapper of a Mach-O binary is made from, whose debug information lies in another
/// file: the DWARF in the sections of the first object of that file, whose bytes must be
/// attached; nothing where the file is no Mach-O file. The names of the sections are
/// compared without what they begin with.
pub open spec fn mach_external_source(debug_bytes: Option<Seq<u8>>) -> DebugSource {
    match debug_bytes {
        None => DebugSource::Missing,
        Some(bytes) => match parsed_container(bytes) {
            None => DebugSource::Malformed,
            Some(Container::Mach) => match mach_header_of(bytes) {
                Some(header) => mach_dwarf_source(bytes, endian_of(header.little_endian)),
                None => DebugSource::Malformed,
            },
            Some(_) => DebugSource::Nothing,
        },
    }
}

/// What the mapper of a Mach-O binary is made from: the DWARF in its own sections, or in
/// those of the file beside it.
pub open spec fn mach_source(ext: MachExt, endian: BinaryEndian, data: BinaryData) -> DebugSource {
    match ext.debug {
        MachDebug::Internal => mach_dwarf_source(data.bytes(), endian),
        MachDebug::External(_) => mach_external_source(data.debug_bytes()),
    }
}

/// What the mapper of a binary is made from, by the kind of its container.
pub open spec fn debug_source(binary: Binary, data: BinaryData, pdb: Option<PdbLines>) -> DebugSource {
    match binary.object {
        ObjectExt::Elf => dwarf_source(
            data.bytes(),
            elf_sections(data.bytes()),
            binary.endian,
            false,
        ),
        ObjectExt::PE(ext) => pe_source(ext, pdb, binary.endian, data.bytes()),
        ObjectExt::Mach(ext) => mach_source(ext, binary.endian, data),
    }
}

/// The kind of machine that writes the paths of a binary, by the kind of its container.
pub open spec fn platform_of(object: ObjectExt) -> Platform {
    match object {
        ObjectExt::PE(_) => Platform::Windows,
        _ => Platform::Unix,
    }
}

/// The mapper is the one that `DwarfLineMapper::new` makes of the debug information `view`,
/// for paths of sources that begin at `base_directory` and are made by `strategy`.
pub open spec fn is_dwarf_mapper_of(
    mapper: LineMapper,
    view: DwarfView,
    base_directory: Seq<char>,
    strategy: FileResolveStrategy,
) -> bool {
    match (mapper, parsed_units(view)) {
        (LineMapper::Dwarf(dwarf), Some(units)) => dwarf.well_formed() && dwarf.data()@ == view
            && dwarf.base() == base_directory && dwarf.strategy() == strategy && headers_of(
            dwarf.units(),
        ) == units.headers && dwarf.ranges() == ranges_by_start(
            units.ranges,
        ) && forall|u: int|
            0 <= u < dwarf.units().len() ==> (#[trigger] dwarf.units()[u]).loaded_lines() is None,
        _ => false,
    }
}

/// The mapper is the one that `PDBLineMapper::new` makes of the line programs of a PDB file
/// for a binary that is loaded at `image_base`.
pub open spec fn is_pdb_mapper_of(mapper: LineMapper, lines: PdbLines, image_base: u64) -> bool {
    match mapper {
        LineMapper::Pdb(pdb) => pdb.previous() == 0 && pdb.modules().len()
            == lines.modules@.len() && forall|i: int|
            0 <= i < lines.modules@.len() ==> pdb_models((#[trigger] pdb.modules()[i]).sequences())
                == module_sequences(
                lines.modules@[i].lines@,
                loaded_at(image_base, lines.sections@),
            ) && pdb.modules()[i].files() == lines.modules@[i].files@,
        _ => false,
    }
}

/// `r` is what making a mapper of `source` gives: a mapper of the DWARF, unless gimli cannot
/// read its units, a mapper of the PDB file, or one that knows no line; it is an error that
/// the debug information is not at hand, or that a file is malformed.
pub open spec fn makes(
    source: DebugSource,
    base_directory: Seq<char>,
    strategy: FileResolveStrategy,
    r: Result<LineMapper, CargoAsmError>,
) -> bool {
    match source {
        DebugSource::Dwarf(view) => match r {
            Ok(mapper) => is_dwarf_mapper_of(mapper, view, base_directory, strategy),
            Err(error) => error is Malformed && parsed_units(view) is None,
        },
        DebugSource::Pdb(lines, image_base) => match r {
            Ok(mapper) => is_pdb_mapper_of(mapper, lines, image_base),
            Err(_) => false,
        },
        DebugSource::Nothing => match r {
            Ok(mapper) => mapper is NoOp,
            Err(_) => false,
        },
        DebugSource::Missing => match r {
            Ok(_) => false,
            Err(error) => error is UnsupportedBinaryFormatOp,
        },
        DebugSource::Malformed => match r {
            Ok(_) => false,
            Err(error) => error is Malformed,
        },
    }
}

/// A mapper of the DWARF in the sections `table` of the file whose bytes are `bytes`.
fn dwarf_line_mapper<'a>(
    bytes: &'a [u8],
    table: Result<Vec<NamedSection>, CargoAsmError>,
    endian: BinaryEndian,
    fix_names: bool,
    base_directory: &str,
    resolve_strategy: FileResolveStrategy,
) -> (r: Result<LineMapper<'a>, CargoAsmError>)
    requires
        table matches Err(error) ==> error is Malformed,
    ensures
        makes(
            dwarf_source(
                bytes@,
                match table {
                    Ok(sections) => Some(table_view(sections@)),
                    Err(_) => None,
                },
                endian,
                fix_names,
            ),
            base_directory@,
            resolve_strategy,
            r,
        ),
{
    let table = table?;
    let little_endian = match endian {
        BinaryEndian::Little => true,
        BinaryEndian::Big => false,
    };
    let sections = DwarfData { bytes, table, little_endian, fix_names };
    let mapper = DwarfLineMapper::new(sections, base_directory, resolve_strategy)?;
    Ok(LineMapper::Dwarf(mapper))
}

/// A mapper of the DWARF in the sections of an ELF file.
pub fn elf_line_mapper<'a>(
    endian: BinaryEndian,
    data: &'a [u8],
    base_directory: &str,
    resolve_strategy: FileResolveStrategy,
) -> (r: Result<LineMapper<'a>, CargoAsmError>)
    ensures
        makes(
            dwarf_source(data@, elf_sections(data@), endian, false),
            base_directory@,
            resolve_strategy,
            r,
        ),
{
    dwarf_line_mapper(
        data,
        elf_section_table(data),
        endian,
        false,
        base_directory,
        resolve_strategy,
    )
}

/// A mapper of the line programs of the PDB file of a PE binary that is loaded at
/// `image_base`.
pub fn pe_pdb_line_mapper(
    image_base: u64,
    pdb: PdbLines,
    base_directory: &str,
    resolve_strategy: FileResolveStrategy,
) -> (r: LineMapper<'static>)
    ensures
        is_pdb_mapper_of(r, pdb, image_base),
{
    let section_addresses = section_addresses(image_base, &pdb.sections);
    LineMapper::Pdb(
        PDBLineMapper::new(section_addresses, pdb.modules, base_directory, resolve_strategy),
    )
}

/// A mapper of the DWARF in the sections of a PE file.
pub fn pe_dwarf_line_mapper<'a>(
    endian: BinaryEndian,
    data: &'a [u8],
    base_directory: &str,
    resolve_strategy: FileResolveStrategy,
) -> (r: Result<LineMapper<'a>, CargoAsmError>)
    ensures
        makes(
            dwarf_source(data@, pe_sections(data@), endian, false),
            base_directory@,
            resolve_strategy,
            r,
        ),
{
    dwarf_line_mapper(
        data,
        pe_section_table(data),
        endian,
        false,
        base_directory,
        resolve_strategy,
    )
}

/// A mapper for a PE binary: of the line programs of its PDB file where it has one, else of
/// the DWARF in its sections. A binary whose PDB file is not at hand cannot be mapped.
pub fn pe_line_mapper<'a>(
    ext: &PEExt,
    pdb: Option<PdbLines>,
    endian: BinaryEndian,
    data: &'a [u8],
    base_directory: &str,
    resolve_strategy: FileResolveStrategy,
) -> (r: Result<LineMapper<'a>, CargoAsmError>)
    ensures
        makes(
            pe_source(*ext, pdb, endian, data@),
            base_directory@,
            resolve_strategy,
            r,
        ),
{
    match ext.debug {
        PEDebug::PDB => match pdb {
            Some(lines) => Ok(
                pe_pdb_line_mapper(ext.image_base, lines, base_directory, resolve_strategy),
            ),
            None => Err(CargoAsmError::UnsupportedBinaryFormatOp("PE", "line mapping")),
        },
        PEDebug::Dwarf => pe_dwarf_line_mapper(endian, data, base_directory, resolve_strategy),
    }
}

/// A mapper of the DWARF in the sections of the first object of a Mach-O file.
pub fn mach_internal_line_mapper<'a>(
    endian: BinaryEndian,
    data: &'a [u8],
    base_directory: &str,
    resolve_strategy: FileResolveStrategy,
) -> (r: Result<LineMapper<'a>, CargoAsmError>)
    ensures
        makes(mach_dwarf_source(data@, endian), base_directory@, resolve_strategy, r),
{
    let (start, end) = mach_object(data)?;
    let bytes = slice_subrange(data, start, end);
    dwarf_line_mapper(
        bytes,
        mach_section_table(data),
        endian,
        true,
        base_directory,
        resolve_strategy,
    )
}

/// A mapper of the DWARF in the file beside a Mach-O binary, whose bytes are attached to
/// `binary_data`. A file that is no Mach-O file maps nothing; a binary without the bytes of
/// that file cannot be mapped.
pub fn mach_external_line_mapper<'a>(
    binary_data: &'a BinaryData,
    base_directory: &str,
    resolve_strategy: FileResolveStrategy,
) -> (r: Result<LineMapper<'a>, CargoAsmError>)
    ensures
        makes(
            mach_external_source(binary_data.debug_bytes()),
            base_directory@,
            resolve_strategy,
            r,
        ),
{
    let bytes = match binary_data.dwarf_data() {
        Some(bytes) => bytes,
        None => {
            return Err(CargoAsmError::UnsupportedBinaryFormatOp("Mach-O", "line mapping"));
        },
    };
    let kind = match goblin_container(bytes) {
        Ok(kind) => kind,
        Err(error) => {
            return Err(CargoAsmError::Malformed(goblin_error_message(&error)));
        },
    };
    if kind != Container::Mach {
        return Ok(LineMapper::NoOp);
    }
    let header = mach_header(bytes)?;
    let endian = BinaryEndian::from_little(header.little_endian);
    mach_internal_line_mapper(endian, bytes, base_directory, resolve_strategy)
}

/// A mapper for a Mach-O binary: of the DWARF in its own sections, or in those of the file
/// beside it.
pub fn mach_line_mapper<'a>(
    ext: &MachExt,
    endian: BinaryEndian,
    data: &'a BinaryData,
    base_directory: &str,
    resolve_strategy: FileResolveStrategy,
) -> (r: Result<LineMapper<'a>, CargoAsmError>)
    ensures
        makes(
            mach_source(*ext, endian, *data),
            base_directory@,
            resolve_strategy,
            r,
        ),
{
    match &ext.debug {
        MachDebug::Internal => mach_internal_line_mapper(
            endian,
            data.data(),
            base_directory,
            resolve_strategy,
        ),
        MachDebug::External(_) => mach_external_line_mapper(
            data,
            base_directory,
            resolve_strategy,
        ),
    }
}

impl Binary {
    /// What maps the addresses of the binary to source lines, with the converter for the
    /// paths that the binary holds: those of Windows for a PE binary, else those of Unix.
    /// `pdb` holds the line programs of the PDB file of a PE binary, where there is one;
    /// `host` is the kind of machine that the program runs on.
    pub fn line_mapper<'a>(
        &self,
        data: &'a BinaryData,
        pdb: Option<PdbLines>,
        base_directory: &str,
        resolve_strategy: FileResolveStrategy,
        host: Platform,
    ) -> (r: Result<LineMappings<'a>, CargoAsmError>)
        ensures
            match r {
                Ok(mappings) => mappings.well_formed() && mappings.converter() == converter_from(
                    platform_of(self.object),
                    host,
                ) && makes(
                    debug_source(*self, *data, pdb),
                    base_directory@,
                    resolve_strategy,
                    Ok::<LineMapper, CargoAsmError>(mappings.mapper()),
                ),
                Err(error) => makes(
                    debug_source(*self, *data, pdb),
                    base_directory@,
                    resolve_strategy,
                    Err::<LineMapper, CargoAsmError>(error),
                ),
            },
    {
        match &self.object {
            ObjectExt::Elf => {
                let mapper = elf_line_mapper(
                    self.endian,
                    data.data(),
                    base_directory,
                    resolve_strategy,
                )?;
                Ok(LineMappings::new(mapper, path_converter_from(Platform::Unix, host)))
            },
            ObjectExt::PE(ext) => {
                let mapper = pe_line_mapper(
                    ext,
                    pdb,
                    self.endian,
                    data.data(),
                    base_directory,
                    resolve_strategy,
                )?;
                Ok(LineMappings::new(mapper, path_converter_from(Platform::Windows, host)))
            },
            ObjectExt::Mach(ext) => {
                let mapper = mach_line_mapper(
                    ext,
                    self.endian,
                    data,
                    base_directory,
                    resolve_strategy,
                )?;
                Ok(LineMappings::new(mapper, path_converter_from(Platform::Unix, host)))
            },
        }
    }
}

/// What the mappings of a listing are made from: what those of the binary are made from
/// where source is shown, else nothing.
pub open spec fn context_source(
    config: DisasmConfig,
    binary: Binary,
    data: BinaryData,
    pdb: Option<PdbLines>,
) -> DebugSource {
    if config.display_source {
        debug_source(binary, data, pdb)
    } else {
        DebugSource::Nothing
    }
}

/// What one listing is made with: what to show, the source files that were read, the inner
/// jumps and the patched operands of the function, and what maps addresses to source lines.
pub struct DisasmContext<'a> {
    pub config: DisasmConfig,
    pub line_cache: FileLineCache,
    pub jumps: InnerJumpTable,
    pub op_patches: OperandPatches,
    pub line_mappings: LineMappings<'a>,
}

/// The instructions of a function, each with the source line that it comes from.
pub struct Disassembly {
    pub instrs: Vec<Instruction>,
    pub mappings: Vec<SourceLine>,
}

impl<'a> DisasmContext<'a> {
    /// A context that shows what `config` says, with no jumps, no patches and no source
    /// files yet.
    pub fn new(config: DisasmConfig, line_mappings: LineMappings<'a>) -> (r: DisasmContext<'a>)
        ensures
            r.config == config,
            r.line_mappings == line_mappings,
            r.jumps@.len() == 0,
            r.jumps.spec_max_display_offset() == 0,
            forall|i: int| r.op_patches.patch(i) is None,
            forall|path: Seq<char>| r.line_cache.lines_of(path) is None,
    {
        DisasmContext {
            config,
            line_cache: FileLineCache::new(),
            jumps: InnerJumpTable::new(),
            op_patches: OperandPatches::new(),
            line_mappings,
        }
    }

    /// A context for the listings of the functions of `binary`, with no jumps, no patches
    /// and no source files yet. Where source is shown, its line mappings are those of the
    /// binary, which begin the paths of the sources at the base directory of `config`; else
    /// they know no line.
    pub fn for_binary(
        config: DisasmConfig,
        binary: &Binary,
        data: &'a BinaryData,
        pdb: Option<PdbLines>,
        host: Platform,
    ) -> (r: Result<DisasmContext<'a>, CargoAsmError>)
        ensures
            match r {
                Ok(context) => context.config == config && context.line_mappings.well_formed()
                    && context.jumps@.len() == 0 && context.jumps.spec_max_display_offset() == 0
                    && (forall|i: int| context.op_patches.patch(i) is None) && (forall|
                    path: Seq<char>,
                | context.line_cache.lines_of(path) is None) && makes(
                    context_source(config, *binary, *data, pdb),
                    config.source_base_directory@,
                    config.source_file_resolve,
                    Ok::<LineMapper, CargoAsmError>(context.line_mappings.mapper()),
                ),
                Err(error) => makes(
                    context_source(config, *binary, *data, pdb),
                    config.source_base_directory@,
                    config.source_file_resolve,
                    Err::<LineMapper, CargoAsmError>(error),
                ),
            },
    {
        let line_mappings = if config.display_source {
            binary.line_mapper(
                data,
                pdb,
                config.source_base_directory.as_str(),
                config.source_file_resolve,
                host,
            )?
        } else {
            no_op_line_mapper()
        };
        Ok(DisasmContext::new(config, line_mappings))
    }

    /// Forgets the jumps and the patches of the function that was listed last.
    pub fn clear(&mut self)
        ensures
            final(self).jumps@.len() == 0,
            final(self).jumps.spec_max_display_offset() == 0,
            forall|i: int| final(self).op_patches.patch(i) is None,
            final(self).config == old(self).config,
            final(self).line_cache == old(self).line_cache,
            final(self).line_mappings == old(self).line_mappings,
    {
        self.jumps.clear();
        self.op_patches.clear();
    }
}

/// The listing can be written: there is a source line, or none, for each instruction; the
/// jumps lead from and to instructions, in lanes no greater than the greatest; and the
/// sizes fit the machine's word.
pub open spec fn listing_ready(
    instrs: Seq<Instruction>,
    jumps: InnerJumpTable,
    mappings: Seq<SourceLine>,
) -> bool {
    &&& jumps.spec_max_display_offset() < usize::MAX
    &&& (jumps.spec_max_display_offset() + 1) * instrs.len() <= usize::MAX
    &&& mappings.len() == instrs.len()
    &&& forall|i: int|
        0 <= i < instrs.len() ==> (#[trigger] instrs[i]).bytes@.len() * 3 + 4 <= usize::MAX
    &&& forall|i: int|
        0 <= i < jumps@.len() ==> (#[trigger] jumps@[i]).source < instrs.len() && jumps@[i].target
            < instrs.len() && jumps@[i].display_offset <= jumps.spec_max_display_offset()
}

/// Whether the listing can be written.
pub fn check_listing_ready(
    instrs: &Vec<Instruction>,
    jumps: &InnerJumpTable,
    mappings: &Vec<SourceLine>,
) -> (r: bool)
    ensures
        r == listing_ready(instrs@, *jumps, mappings@),
{
    let max = jumps.max_display_offset();
    let height = instrs.len();
    if max == usize::MAX {
        return false;
    }
    if height != 0 && max + 1 > usize::MAX / height {
        proof {
            assert((max + 1) * height > usize::MAX) by (nonlinear_arith)
                requires
                    max + 1 > usize::MAX / height,
                    height > 0,
            ;
        }
        return false;
    }
    proof {
        if height != 0 {
            assert((max + 1) * height <= usize::MAX) by (nonlinear_arith)
                requires
                    max + 1 <= usize::MAX / height,
                    height > 0,
            ;
        } else {
            assert((max + 1) * height == 0) by (nonlinear_arith)
                requires
                    height == 0,
            ;
        }
    }
    if mappings.len() != height {
        return false;
    }
    let mut i: usize = 0;
    while i < height
        invariant
            i <= height,
            height == instrs@.len(),
            forall|k: int| 0 <= k < i ==> (#[trigger] instrs@[k]).bytes@.len() * 3 + 4 <= usize::MAX,
        decreases height - i,
    {
        if instrs[i].bytes.len() > (usize::MAX - 4) / 3 {
            return false;
        }
        i += 1;
    }
    let all = jumps.iter();
    let mut k: usize = 0;
    while k < all.len()
        invariant
            k <= all@.len(),
            all@ == jumps@,
            height == instrs@.len(),
            max == jumps.spec_max_display_offset(),
            forall|j: int|
                0 <= j < k ==> (#[trigger] jumps@[j]).source < height && jumps@[j].target < height
                    && jumps@[j].display_offset <= max,
        decreases all@.len() - k,
    {
        let jump = all[k];
        if jump.source >= height || jump.target >= height || jump.display_offset > max {
            return false;
        }
        k += 1;
    }
    true
}

/// The bytes of the code of a symbol that lies in the file.
pub open spec fn code_of(symbol: Symbol, data: Seq<u8>) -> Seq<u8> {
    data.subrange(symbol.offset as int, symbol.offset + symbol.size)
}

/// The jumps and the patches are those that the analysis finds in the instructions of a
/// function of the binary: the inner jumps in the order of their sources, each in its lane,
/// and for each instruction that refers to a symbol the name of the symbol.
pub open spec fn is_analysis_of(
    jumps: InnerJumpTable,
    patches: OperandPatches,
    binary: Binary,
    instrs: Seq<Instruction>,
) -> bool {
    &&& unplaced(jumps@) == sort_by_source(unplaced(added_jumps(binary.arch, instrs)))
    &&& ordered_by_source(jumps@)
    &&& lanes_assigned(jumps@)
    &&& is_max_lane(jumps@, jumps.spec_max_display_offset() as int)
    &&& forall|k: int| 0 <= k < jumps@.len() ==> jump_is_sound(instrs, #[trigger] jumps@[k])
    &&& forall|i: int|
        #[trigger] patches.patch(i) == if binary.arch == BinaryArch::AMD64 {
            patch_text(binary.symbols@, instrs, i)
        } else {
            None
        }
}

/// Each source line is one that the mappings know for the address of its instruction.
pub open spec fn lines_are_known(
    mappings: Seq<SourceLine>,
    instrs: Seq<Instruction>,
    known: LineMappings,
) -> bool {
    forall|i: int|
        0 <= i < mappings.len() ==> match #[trigger] mappings[i] {
            Some((path, line)) => i < instrs.len() && known.knows(instrs[i].address, path@, line),
            None => true,
        }
}

/// The mappings were asked for the addresses of the first instructions in turn, and
/// `found` is what they answered: `states` holds the mappings as they were before each
/// question, and as they are after the last.
pub open spec fn is_asking(
    states: Seq<LineMappings>,
    instrs: Seq<Instruction>,
    found: Seq<SourceLine>,
) -> bool {
    &&& states.len() == found.len() + 1
    &&& found.len() <= instrs.len()
    &&& forall|i: int|
        0 <= i < found.len() ==> answers(
            #[trigger] states[i],
            states[i + 1],
            instrs[i].address,
            Ok::<SourceLine, CargoAsmError>(found[i]),
        )
}

/// The mappings that were `before` were asked for the address of each instruction in turn,
/// `found` is what they answered, and they are `after` it.
pub open spec fn asked_in_turn(
    before: LineMappings,
    after: LineMappings,
    instrs: Seq<Instruction>,
    found: Seq<SourceLine>,
) -> bool {
    found.len() == instrs.len() && exists|states: Seq<LineMappings>| #[trigger]
        is_asking(states, instrs, found) && states.first() == before && states.last() == after
}

/// The mappings that were `before` were asked for the addresses of the instructions in turn,
/// until they failed with `error` for one of them; they are `after` it.
pub open spec fn failed_asking(
    before: LineMappings,
    after: LineMappings,
    instrs: Seq<Instruction>,
    error: CargoAsmError,
) -> bool {
    exists|states: Seq<LineMappings>, found: Seq<SourceLine>| #[trigger]
        is_asking(states, instrs, found) && states.first() == before && found.len()
            < instrs.len() && answers(
            states.last(),
            after,
            instrs[found.len() as int].address,
            Err::<SourceLine, CargoAsmError>(error),
        )
}

/// None of the instructions has a source line.
pub open spec fn no_lines(mappings: Seq<SourceLine>) -> bool {
    forall|i: int| 0 <= i < mappings.len() ==> (#[trigger] mappings[i]) is None
}

/// Decodes the code of `symbol` in the bytes `data` of the binary, finds its inner jumps and
/// the operands that name other symbols, and asks the line mappings for the source line of
/// each instruction in turn, where source is shown; where it is not, the mappings are not
/// asked and no instruction has a source line. The code of a symbol that does not lie in the
/// file is malformed, and so is debug information that cannot be read; it is an error of
/// the decoder that it cannot read the code, or reads more instructions than can be numbered.
pub fn disassemble(
    symbol: &Symbol,
    binary: &Binary,
    data: &[u8],
    context: &mut DisasmContext,
) -> (r: Result<Disassembly, CargoAsmError>)
    requires
        old(context).line_mappings.well_formed(),
    ensures
        final(context).line_mappings.well_formed(),
        final(context).config == old(context).config,
        final(context).line_cache == old(context).line_cache,
        symbol.offset + symbol.size > data@.len() ==> r is Err,
        match r {
            Ok(listing) => symbol.offset + symbol.size <= data@.len() && decoded(
                code_of(*symbol, data@),
                symbol.addr,
                listing.instrs@,
            ) && is_analysis_of(
                final(context).jumps,
                final(context).op_patches,
                *binary,
                listing.instrs@,
            ) && listing.mappings@.len() == listing.instrs@.len() && lines_are_known(
                listing.mappings@,
                listing.instrs@,
                final(context).line_mappings,
            ) && if old(context).config.display_source {
                asked_in_turn(
                    old(context).line_mappings,
                    final(context).line_mappings,
                    listing.instrs@,
                    listing.mappings@,
                )
            } else {
                final(context).line_mappings == old(context).line_mappings && no_lines(
                    listing.mappings@,
                )
            },
            Err(error) => match error {
                CargoAsmError::Malformed(_) => symbol.offset + symbol.size > data@.len() || (old(
                    context,
                ).config.display_source && exists|instrs: Seq<Instruction>| #[trigger]
                    decoded(code_of(*symbol, data@), symbol.addr, instrs) && failed_asking(
                        old(context).line_mappings,
                        final(context).line_mappings,
                        instrs,
                        error,
                    )),
                CargoAsmError::Decoder(_) => symbol.offset + symbol.size <= data@.len() && (
                forall|instrs: Seq<Instruction>| #[trigger]
                    decoded(code_of(*symbol, data@), symbol.addr, instrs) ==> 2 * instrs.len()
                        > usize::MAX),
                _ => false,
            },
        },
{
    context.clear();
    let len = data.len();
    if symbol.offset > len || symbol.size > len - symbol.offset {
        return Err(CargoAsmError::Malformed("the symbol lies outside the file".to_owned()));
    }
    let symbol_code = slice_subrange(data, symbol.offset, symbol.offset + symbol.size);
    // Only the instructions of x86 with 64 bits are decoded.
    let instrs = match decode(symbol_code, symbol.addr) {
        Ok(instrs) => instrs,
        Err(error) => {
            return Err(error);
        },
    };
    if instrs.len() > usize::MAX / 2 {
        return Err(CargoAsmError::Decoder("too many instructions".to_owned()));
    }
    let ghost cleared = context.jumps@;
    analyze_instructions(
        binary.symbols.as_slice(),
        binary.arch,
        instrs.as_slice(),
        &mut context.jumps,
        &mut context.op_patches,
    );
    proof {
        assert(cleared + added_jumps(binary.arch, instrs@) =~= added_jumps(binary.arch, instrs@));
    }
    let mut mappings: Vec<SourceLine> = Vec::new();
    let ghost mut states: Seq<LineMappings> = seq![context.line_mappings];
    let mut i: usize = 0;
    while i < instrs.len()
        invariant
            i <= instrs@.len(),
            mappings@.len() == i,
            context.line_mappings.well_formed(),
            context.config == old(context).config,
            context.line_cache == old(context).line_cache,
            decoded(code_of(*symbol, data@), symbol.addr, instrs@),
            !context.config.display_source ==> context.line_mappings == old(context).line_mappings
                && no_lines(mappings@),
            context.config.display_source ==> is_asking(states, instrs@, mappings@)
                && states.first() == old(context).line_mappings && states.last()
                == context.line_mappings,
            is_analysis_of(context.jumps, context.op_patches, *binary, instrs@),
            lines_are_known(mappings@, instrs@, context.line_mappings),
        decreases instrs@.len() - i,
    {
        let ghost before = context.line_mappings;
        let ghost had = mappings@;
        let ghost asked = states;
        let line = if context.config.display_source {
            let found = context.line_mappings.get(instrs[i].address);
            proof {
                lemma_answers_are_kept(before, context.line_mappings, instrs@[i as int].address, found);
            }
            match found {
                Ok(line) => {
                    proof {
                        states = states.push(context.line_mappings);
                        assert forall|k: int| 0 <= k < i + 1 implies answers(
                            #[trigger] states[k],
                            states[k + 1],
                            instrs@[k].address,
                            Ok::<SourceLine, CargoAsmError>(had.push(line)[k]),
                        ) by {
                            if k < i {
                                assert(states[k] == asked[k]);
                                assert(states[k + 1] == asked[k + 1]);
                            }
                        }
                    }
                    line
                },
                Err(error) => {
                    proof {
                        assert(is_asking(asked, instrs@, had));
                        assert(failed_asking(
                            old(context).line_mappings,
                            context.line_mappings,
                            instrs@,
                            error,
                        ));
                    }
                    return Err(error);
                },
            }
        } else {
            None
        };
        mappings.push(line);
        proof {
            assert forall|k: int| 0 <= k < mappings@.len() implies match #[trigger] mappings@[k] {
                Some((path, line)) => k < instrs@.len() && context.line_mappings.knows(
                    instrs@[k].address,
                    path@,
                    line,
                ),
                None => true,
            } by {
                if k < i {
                    assert(mappings@[k] == had[k]);
                }
            }
        }
        i += 1;
    }
    Ok(Disassembly { instrs, mappings })
}

/// The source line is one of the file `path`.
pub open spec fn in_file(line: SourceLine, path: Seq<char>) -> bool {
    match line {
        Some((found, _)) => found@ == path,
        None => false,
    }
}

/// `paths` holds the file of `line`, where it has one.
pub open spec fn holds_file_of(paths: Seq<String>, line: SourceLine) -> bool {
    line is None || exists|k: int| 0 <= k < paths.len() && in_file(line, (#[trigger] paths[k])@)
}

/// `path` is the file of one of the source lines.
pub open spec fn is_file_of(mappings: Seq<SourceLine>, path: Seq<char>) -> bool {
    exists|i: int| 0 <= i < mappings.len() && in_file(#[trigger] mappings[i], path)
}

/// The paths of the source files that a listing shows lines of, each where it is first
/// needed.
pub fn source_paths(mappings: &Vec<SourceLine>) -> (r: Vec<String>)
    ensures
        forall|i: int| 0 <= i < mappings@.len() ==> holds_file_of(r@, #[trigger] mappings@[i]),
        forall|k: int| 0 <= k < r@.len() ==> is_file_of(mappings@, (#[trigger] r@[k])@),
{
    let mut paths: Vec<String> = Vec::new();
    let mut i: usize = 0;
    while i < mappings.len()
        invariant
            i <= mappings@.len(),
            forall|j: int| 0 <= j < i ==> holds_file_of(paths@, #[trigger] mappings@[j]),
            forall|k: int|
                0 <= k < paths@.len() ==> is_file_of(mappings@, (#[trigger] paths@[k])@),
        decreases mappings@.len() - i,
    {
        let ghost before = paths@;
        if let Some((path, _)) = &mappings[i] {
            let mut known = false;
            let mut k: usize = 0;
            while k < paths.len()
                invariant
                    k <= paths@.len(),
                    paths@ == before,
                    known ==> exists|w: int| 0 <= w < paths@.len() && (#[trigger] paths@[w])@ == path@,
                decreases paths@.len() - k,
            {
                if crate::text::same_text(paths[k].as_str(), path.as_str()) {
                    known = true;
                }
                k += 1;
            }
            if !known {
                paths.push(path.clone());
            }
            proof {
                let last = paths@.len() - 1;
                if known {
                    let w = choose|w: int| 0 <= w < before.len() && (#[trigger] before[w])@ == path@;
                    assert(in_file(mappings@[i as int], paths@[w]@));
                } else {
                    assert(in_file(mappings@[i as int], paths@[last]@));
                }
                assert(holds_file_of(paths@, mappings@[i as int]));
            }
        }
        proof {
            assert forall|j: int| 0 <= j < i + 1 implies holds_file_of(
                paths@,
                #[trigger] mappings@[j],
            ) by {
                if j < i && mappings@[j] is Some {
                    assert(holds_file_of(before, mappings@[j]));
                    let w = choose|w: int|
                        0 <= w < before.len() && in_file(mappings@[j], (#[trigger] before[w])@);
                    assert(in_file(mappings@[j], paths@[w]@));
                }
            }
            assert forall|w: int| 0 <= w < paths@.len() implies is_file_of(
                mappings@,
                (#[trigger] paths@[w])@,
            ) by {
                if w < before.len() {
                    assert(paths@[w] == before[w]);
                } else {
                    assert(in_file(mappings@[i as int], paths@[w]@));
                }
            }
        }
        i += 1;
    }
    paths
}

/// The listing of `symbol`, where it can be written: its demangled name, then a row for each
/// instruction, with the line of the source above it where it differs from that of the
/// instruction before. The source files are those that the context holds.
pub fn write_listing(symbol: &Symbol, listing: &Disassembly, context: &DisasmContext) -> (r:
    Option<(Vec<Span>, OutputMeasure)>)
    ensures
        match r {
            Some((spans, m)) => listing_ready(listing.instrs@, context.jumps, listing.mappings@)
                && m.jumps_width == (if context.config.display_jumps {
                context.jumps.spec_max_display_offset() + 1
            } else {
                0
            }) && (
                m.address_width as int,
                m.bytes_width as int,
                m.mnemonic_width as int,
                m.operands_width as int,
            ) == widths(
                listing.instrs@,
                context.op_patches,
                context.config,
                listing.instrs@.len() as int,
            ) && span_texts(spans@) == listing_spans(
                symbol.demangled_name@,
                context.config,
                m,
                listing.instrs@,
                context.jumps@,
                context.op_patches,
                listing.mappings@,
                context.line_cache,
            ),
            None => !listing_ready(listing.instrs@, context.jumps, listing.mappings@),
        },
{
    if !check_listing_ready(&listing.instrs, &context.jumps, &listing.mappings) {
        return None;
    }
    Some(
        write_disasm_output(
            symbol,
            listing.instrs.as_slice(),
            &context.config,
            &context.jumps,
            &context.op_patches,
            &listing.mappings,
            &context.line_cache,
        ),
    )
}

} // verus!
