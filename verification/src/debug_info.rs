use crate::dwarf::{Attribute, AttributeValue, Row};
use crate::errors::CargoAsmError;
use crate::mach::{fix_section_name, fixed_section_name};
use crate::text::same_text;
use gimli::RunTimeEndian::{Big, Little};
use gimli::{AttributeValue as Value, Dwarf, EndianSlice, Error, LineInstruction};
use std::iter::from_fn;
use vstd::prelude::*;
use vstd::slice::slice_subrange;

verus! {

/// The name of a section of a binary, and the bytes of the file that hold it.
pub struct NamedSection {
    pub name: String,
    pub start: usize,
    pub end: usize,
}

/// The sections of a binary, among which its debug information is looked for.
pub struct DwarfData<'a> {
    pub bytes: &'a [u8],
    pub table: Vec<NamedSection>,
    pub little_endian: bool,
    /// Names are compared without the `.` or the `__` that they begin with.
    pub fix_names: bool,
}

/// What the sections of a binary are: the bytes of the file, the name and the place of each
/// section, the order of the bytes of a number, and how names are compared.
pub struct DwarfView {
    pub bytes: Seq<u8>,
    pub table: Seq<(Seq<char>, usize, usize)>,
    pub little_endian: bool,
    pub fix_names: bool,
}

/// The name, the start and the end of each section.
pub open spec fn table_view(table: Seq<NamedSection>) -> Seq<(Seq<char>, usize, usize)> {
    Seq::new(table.len(), |i: int| (table[i].name@, table[i].start, table[i].end))
}

/// The name by which a section is compared.
pub open spec fn compared_name(name: Seq<char>, fix_names: bool) -> Seq<char> {
    if fix_names {
        fixed_section_name(name)
    } else {
        name
    }
}

/// The first of the sections that is named `name`.
pub open spec fn section_index(
    table: Seq<(Seq<char>, usize, usize)>,
    name: Seq<char>,
    fix_names: bool,
) -> Option<int>
    decreases table.len(),
{
    if table.len() == 0 {
        None
    } else {
        match section_index(table.drop_last(), name, fix_names) {
            Some(i) => Some(i),
            None => if compared_name(table.last().0, fix_names) == compared_name(
                name,
                fix_names,
            ) {
                Some(table.len() - 1)
            } else {
                None
            },
        }
    }
}

/// The bytes of the section named `name`: those of the first section of that name, where
/// they lie in the file; else none.
pub open spec fn section_bytes(view: DwarfView, name: Seq<char>) -> Seq<u8> {
    match section_index(view.table, name, view.fix_names) {
        Some(i) => if view.table[i].1 <= view.table[i].2 <= view.bytes.len() {
            view.bytes.subrange(view.table[i].1 as int, view.table[i].2 as int)
        } else {
            Seq::empty()
        },
        None => Seq::empty(),
    }
}

proof fn lemma_section_index(table: Seq<(Seq<char>, usize, usize)>, name: Seq<char>, fix_names: bool)
    ensures
        match section_index(table, name, fix_names) {
            Some(i) => 0 <= i < table.len() && compared_name(table[i].0, fix_names)
                == compared_name(name, fix_names) && forall|k: int|
                0 <= k < i ==> compared_name(table[k].0, fix_names) != compared_name(
                    name,
                    fix_names,
                ),
            None => forall|k: int|
                0 <= k < table.len() ==> compared_name(table[k].0, fix_names) != compared_name(
                    name,
                    fix_names,
                ),
        },
    decreases table.len(),
{
    if table.len() > 0 {
        let front = table.drop_last();
        lemma_section_index(front, name, fix_names);
        assert forall|k: int| 0 <= k < front.len() implies front[k] == table[k] by {}
    }
}

impl<'a> DwarfData<'a> {
    /// What the sections are.
    pub open spec fn view(&self) -> DwarfView {
        DwarfView {
            bytes: self.bytes@,
            table: table_view(self.table@),
            little_endian: self.little_endian,
            fix_names: self.fix_names,
        }
    }

    /// The bytes of the section named `name`; none where there is no such section.
    pub fn section(&self, name: &str) -> (r: &'a [u8])
        ensures
            r@ == section_bytes(self@, name@),
    {
        proof {
            lemma_section_index(table_view(self.table@), name@, self.fix_names);
        }
        let wanted = if self.fix_names {
            fix_section_name(name)
        } else {
            name.to_owned()
        };
        let len = self.bytes.len();
        let mut i: usize = 0;
        while i < self.table.len()
            invariant
                i <= self.table@.len(),
                len == self.bytes@.len(),
                wanted@ == compared_name(name@, self.fix_names),
                forall|k: int|
                    0 <= k < i ==> compared_name(
                        (#[trigger] table_view(self.table@)[k]).0,
                        self.fix_names,
                    ) != wanted@,
            decreases self.table@.len() - i,
        {
            let entry = &self.table[i];
            let found = if self.fix_names {
                let fixed = fix_section_name(entry.name.as_str());
                same_text(fixed.as_str(), wanted.as_str())
            } else {
                same_text(entry.name.as_str(), wanted.as_str())
            };
            if found {
                proof {
                    lemma_section_index(table_view(self.table@), name@, self.fix_names);
                    assert(table_view(self.table@)[i as int].0 == entry.name@);
                }
                if entry.start <= entry.end && entry.end <= len {
                    return slice_subrange(self.bytes, entry.start, entry.end);
                } else {
                    return slice_subrange(self.bytes, 0, 0);
                }
            }
            i += 1;
        }
        slice_subrange(self.bytes, 0, 0)
    }
}

/// The error of gimli.
#[verifier::external_type_specification]
#[verifier::external_body]
pub struct ExGimliError(gimli::Error);

/// Prints an error of gimli with its `Display`. Nothing is claimed of the text.
#[verifier::external_body]
fn gimli_error_message(error: &gimli::Error) -> String {
    error.to_string()
}

/// Debug information that gimli cannot read is malformed.
fn malformed(error: &Error) -> (r: CargoAsmError)
    ensures
        r is Malformed,
{
    CargoAsmError::Malformed(gimli_error_message(error))
}

/// For each unit that gimli finds in the debug information, the tag of its first entry;
/// nothing for a unit that gimli cannot read or that begins with no entry. Nothing at all
/// where gimli fails.
pub uninterp spec fn unit_tags(data: DwarfView) -> Option<Seq<Option<u16>>>;

/// The names of the attributes of the first entry of unit number `unit`. Nothing where
/// gimli fails or there is no such unit.
pub uninterp spec fn unit_attribute_names(data: DwarfView, unit: usize) -> Option<Seq<u16>>;

/// For each attribute of the first entry of unit number `unit`, the address that the
/// attribute holds, where it holds one. Nothing where gimli fails or there is no such unit.
pub uninterp spec fn unit_attribute_addresses(data: DwarfView, unit: usize) -> Option<
    Seq<Option<u64>>,
>;

/// For each attribute of the first entry of unit number `unit`, the number without sign
/// that the attribute holds, where it holds one. Nothing where gimli fails or there is no
/// such unit.
pub uninterp spec fn unit_attribute_numbers(data: DwarfView, unit: usize) -> Option<
    Seq<Option<u64>>,
>;

/// For each attribute of the first entry of unit number `unit`, the language that the
/// attribute holds, where it holds one. Nothing where gimli fails or there is no such unit.
pub uninterp spec fn unit_attribute_languages(data: DwarfView, unit: usize) -> Option<
    Seq<Option<u16>>,
>;

/// For each attribute of the first entry of unit number `unit`, what `attr_ranges_offset`
/// gives: the place of the list of ranges that the attribute refers to, where it refers to
/// one; nothing where gimli cannot tell the place. Nothing at all where gimli fails or there
/// is no such unit.
pub uninterp spec fn unit_attribute_ranges(data: DwarfView, unit: usize) -> Option<
    Seq<Option<Option<u64>>>,
>;

/// The ranges of the list at `offset`, read for unit number `unit`. Nothing where gimli
/// fails or there is no such unit.
pub uninterp spec fn unit_range_list(data: DwarfView, unit: usize, offset: u64) -> Option<
    Seq<(u64, u64)>,
>;

/// For each instruction of the line number program of unit number `unit`, the number by
/// which it advances the line, where it is an instruction that advances the line by a
/// number of its own; none for a unit without a program. Nothing where gimli fails or there
/// is no such unit.
pub uninterp spec fn unit_line_advances(data: DwarfView, unit: usize) -> Option<
    Seq<Option<i64>>,
>;

/// The rows of the line number program of unit number `unit`, each as its address, whether
/// it ends a sequence, its file index and its line; none for a unit without a program.
/// Nothing where gimli fails or there is no such unit.
pub uninterp spec fn unit_rows(data: DwarfView, unit: usize) -> Option<
    Seq<(u64, bool, u64, Option<u64>)>,
>;

/// The names of the files of the line number program of unit number `unit`; none for a unit
/// without a program. Nothing where gimli fails or there is no such unit.
pub uninterp spec fn unit_file_names(data: DwarfView, unit: usize) -> Option<Seq<String>>;

/// The directories of the files of the line number program of unit number `unit`, each
/// where the file has one. Nothing where gimli fails or there is no such unit.
pub uninterp spec fn unit_file_directories(data: DwarfView, unit: usize) -> Option<
    Seq<Option<String>>,
>;

/// The directory in which unit number `unit` was compiled, where the unit names one.
/// Nothing where gimli fails or there is no such unit.
pub uninterp spec fn unit_comp_dir(data: DwarfView, unit: usize) -> Option<Option<String>>;

/// One file of a line number program.
pub struct FileEntry {
    pub directory: Option<String>,
    pub path_name: String,
}

/// Calls `Dwarf::load`, `units`, `unit`, `entries_raw` and `read_abbreviation`, and hands
/// out the tag of each first entry. Claims only that the result is the one named
/// `unit_tags`.
#[verifier::external_body]
fn gimli_unit_tags(data: &DwarfData) -> (r: Result<Vec<Option<u16>>, Error>)
    ensures
        match r {
            Ok(tags) => unit_tags(data@) == Some(tags@),
            Err(_) => unit_tags(data@) is None,
        },
{
    let dwarf = Dwarf::load(|id| Ok::<_, Error>(EndianSlice::new(data.section(id.name()), if data.little_endian { Little } else { Big })))?;
    let mut headers = dwarf.units();
    from_fn(|| headers.next().transpose()).map(|header| match dwarf.unit(header?) {
        Ok(unit) => Ok(unit.entries_raw(None)?.read_abbreviation()?.map(|abbrev| abbrev.tag().0)),
        Err(_) => Ok(None),
    }).collect()
}

/// Calls `Dwarf::load`, `units`, `unit`, `entries_raw`, `read_abbreviation` and
/// `read_attribute`, and hands out the name of each attribute of the first entry of the
/// unit. Claims only that the result is the one named `unit_attribute_names`.
#[verifier::external_body]
fn gimli_attribute_names(data: &DwarfData, unit: usize) -> (r: Result<Vec<u16>, Error>)
    ensures
        match r {
            Ok(values) => unit_attribute_names(data@, unit) == Some(values@),
            Err(_) => unit_attribute_names(data@, unit) is None,
        },
{
    let dwarf = Dwarf::load(|id| Ok::<_, Error>(EndianSlice::new(data.section(id.name()), if data.little_endian { Little } else { Big })))?;
    let mut headers = dwarf.units();
    let header = from_fn(|| headers.next().transpose()).nth(unit).ok_or(Error::MissingUnitDie)??;
    let unit = dwarf.unit(header)?;
    let mut entries = unit.entries_raw(None)?;
    entries.read_abbreviation()?.iter().flat_map(|abbrev| abbrev.attributes()).map(|spec| Ok(entries.read_attribute(*spec)?.name().0)).collect()
}

/// Calls the same functions of gimli, and hands out the address of each attribute whose
/// value is `AttributeValue::Addr`. Claims only that the result is the one named
/// `unit_attribute_addresses`.
#[verifier::external_body]
fn gimli_attribute_addresses(data: &DwarfData, unit: usize) -> (r: Result<Vec<Option<u64>>, Error>)
    ensures
        match r {
            Ok(values) => unit_attribute_addresses(data@, unit) == Some(values@),
            Err(_) => unit_attribute_addresses(data@, unit) is None,
        },
{
    let dwarf = Dwarf::load(|id| Ok::<_, Error>(EndianSlice::new(data.section(id.name()), if data.little_endian { Little } else { Big })))?;
    let mut headers = dwarf.units();
    let header = from_fn(|| headers.next().transpose()).nth(unit).ok_or(Error::MissingUnitDie)??;
    let unit = dwarf.unit(header)?;
    let mut entries = unit.entries_raw(None)?;
    entries.read_abbreviation()?.iter().flat_map(|abbrev| abbrev.attributes()).map(|spec| Ok(match entries.read_attribute(*spec)?.value() {
        Value::Addr(address) => Some(address),
        _ => None,
    })).collect()
}

/// Calls the same functions of gimli, and hands out what `udata_value` gives for each
/// attribute. Claims only that the result is the one named `unit_attribute_numbers`.
#[verifier::external_body]
fn gimli_attribute_numbers(data: &DwarfData, unit: usize) -> (r: Result<Vec<Option<u64>>, Error>)
    ensures
        match r {
            Ok(values) => unit_attribute_numbers(data@, unit) == Some(values@),
            Err(_) => unit_attribute_numbers(data@, unit) is None,
        },
{
    let dwarf = Dwarf::load(|id| Ok::<_, Error>(EndianSlice::new(data.section(id.name()), if data.little_endian { Little } else { Big })))?;
    let mut headers = dwarf.units();
    let header = from_fn(|| headers.next().transpose()).nth(unit).ok_or(Error::MissingUnitDie)??;
    let unit = dwarf.unit(header)?;
    let mut entries = unit.entries_raw(None)?;
    entries.read_abbreviation()?.iter().flat_map(|abbrev| abbrev.attributes()).map(|spec| Ok(entries.read_attribute(*spec)?.udata_value())).collect()
}

/// Calls the same functions of gimli, and hands out the language of each attribute whose
/// value is `AttributeValue::Language`. Claims only that the result is the one named
/// `unit_attribute_languages`.
#[verifier::external_body]
fn gimli_attribute_languages(data: &DwarfData, unit: usize) -> (r: Result<Vec<Option<u16>>, Error>)
    ensures
        match r {
            Ok(values) => unit_attribute_languages(data@, unit) == Some(values@),
            Err(_) => unit_attribute_languages(data@, unit) is None,
        },
{
    let dwarf = Dwarf::load(|id| Ok::<_, Error>(EndianSlice::new(data.section(id.name()), if data.little_endian { Little } else { Big })))?;
    let mut headers = dwarf.units();
    let header = from_fn(|| headers.next().transpose()).nth(unit).ok_or(Error::MissingUnitDie)??;
    let unit = dwarf.unit(header)?;
    let mut entries = unit.entries_raw(None)?;
    entries.read_abbreviation()?.iter().flat_map(|abbrev| abbrev.attributes()).map(|spec| Ok(match entries.read_attribute(*spec)?.value() {
        Value::Language(language) => Some(language.0),
        _ => None,
    })).collect()
}

/// Calls the same functions of gimli, and hands out what `attr_ranges_offset` gives for
/// each attribute, nothing where it fails. Claims only that the result is the one named
/// `unit_attribute_ranges`.
#[verifier::external_body]
fn gimli_attribute_ranges(data: &DwarfData, unit: usize) -> (r: Result<Vec<Option<Option<u64>>>, Error>)
    ensures
        match r {
            Ok(values) => unit_attribute_ranges(data@, unit) == Some(values@),
            Err(_) => unit_attribute_ranges(data@, unit) is None,
        },
{
    let dwarf = Dwarf::load(|id| Ok::<_, Error>(EndianSlice::new(data.section(id.name()), if data.little_endian { Little } else { Big })))?;
    let mut headers = dwarf.units();
    let header = from_fn(|| headers.next().transpose()).nth(unit).ok_or(Error::MissingUnitDie)??;
    let unit = dwarf.unit(header)?;
    let mut entries = unit.entries_raw(None)?;
    entries.read_abbreviation()?.iter().flat_map(|abbrev| abbrev.attributes()).map(|spec| Ok(dwarf.attr_ranges_offset(&unit, entries.read_attribute(*spec)?.value()).ok().map(|found| found.map(|offset| offset.0 as u64)))).collect()
}

/// Calls `Dwarf::load`, `units`, `unit` and `ranges`, and hands out the ranges of the list.
/// Claims only that the result is the one named `unit_range_list`.
#[verifier::external_body]
fn gimli_range_list(data: &DwarfData, unit: usize, offset: u64) -> (r: Result<
    Vec<(u64, u64)>,
    Error,
>)
    ensures
        match r {
            Ok(ranges) => unit_range_list(data@, unit, offset) == Some(ranges@),
            Err(_) => unit_range_list(data@, unit, offset) is None,
        },
{
    let dwarf = Dwarf::load(|id| Ok::<_, Error>(EndianSlice::new(data.section(id.name()), if data.little_endian { Little } else { Big })))?;
    let mut headers = dwarf.units();
    let header = from_fn(|| headers.next().transpose()).nth(unit).ok_or(Error::MissingUnitDie)??;
    let mut ranges = dwarf.ranges(&dwarf.unit(header)?, gimli::RangeListsOffset(offset as usize))?;
    from_fn(|| ranges.next().transpose()).map(|range| range.map(|range| (range.begin, range.end))).collect()
}

/// Calls `Dwarf::load`, `units`, `unit`, `instructions` and `next_instruction`, and hands
/// out the number of each `LineInstruction::AdvanceLine`, nothing for the other
/// instructions. Claims only that the result is the one named `unit_line_advances`.
#[verifier::external_body]
fn gimli_line_advances(data: &DwarfData, unit: usize) -> (r: Result<Vec<Option<i64>>, Error>)
    ensures
        match r {
            Ok(advances) => unit_line_advances(data@, unit) == Some(advances@),
            Err(_) => unit_line_advances(data@, unit) is None,
        },
{
    let dwarf = Dwarf::load(|id| Ok::<_, Error>(EndianSlice::new(data.section(id.name()), if data.little_endian { Little } else { Big })))?;
    let mut headers = dwarf.units();
    let header = from_fn(|| headers.next().transpose()).nth(unit).ok_or(Error::MissingUnitDie)??;
    let program = dwarf.unit(header)?.line_program;
    let mut found = program.as_ref().map(|program| program.header().instructions());
    from_fn(|| found.as_mut()?.next_instruction(program.as_ref()?.header()).map(|next| next.map(|next| match next {
        LineInstruction::AdvanceLine(advance) => Some(advance),
        _ => None,
    })).transpose()).collect()
}

/// No instruction advances the line by the least number that 64 bits with a sign hold, of
/// which gimli cannot take the negative.
pub open spec fn advances_safe(advances: Seq<Option<i64>>) -> bool {
    forall|k: int| 0 <= k < advances.len() ==> #[trigger] advances[k] != Some(i64::MIN)
}

/// Whether no instruction advances the line by the least number that 64 bits with a sign
/// hold.
pub fn check_advances(advances: &Vec<Option<i64>>) -> (r: bool)
    ensures
        r == advances_safe(advances@),
{
    let mut k: usize = 0;
    while k < advances.len()
        invariant
            k <= advances@.len(),
            forall|i: int| 0 <= i < k ==> #[trigger] advances@[i] != Some(i64::MIN),
        decreases advances@.len() - k,
    {
        if let Some(advance) = advances[k] {
            if advance == i64::MIN {
                return false;
            }
        }
        k += 1;
    }
    true
}

/// The rows of the line number program of unit number `unit`, where gimli can read the
/// program and none of its instructions advances the line by a number that gimli cannot
/// take; else nothing.
pub open spec fn checked_rows(data: DwarfView, unit: usize) -> Option<
    Seq<(u64, bool, u64, Option<u64>)>,
> {
    match unit_line_advances(data, unit) {
        Some(advances) => if advances_safe(advances) {
            unit_rows(data, unit)
        } else {
            None
        },
        None => None,
    }
}

/// Calls `Dwarf::load`, `units`, `unit`, `rows` and `next_row`, and hands out the address,
/// the end of sequence flag, the file index and the line of each row. Gimli takes the
/// negative of a number by which the line is advanced, so the least number is left out.
/// Claims only that the result is the one named `unit_rows`.
#[verifier::external_body]
fn gimli_rows(data: &DwarfData, unit: usize) -> (r: Result<
    Vec<(u64, bool, u64, Option<u64>)>,
    Error,
>)
    requires
        unit_line_advances(data@, unit) matches Some(advances) && advances_safe(advances),
    ensures
        match r {
            Ok(rows) => unit_rows(data@, unit) == Some(rows@),
            Err(_) => unit_rows(data@, unit) is None,
        },
{
    let dwarf = Dwarf::load(|id| Ok::<_, Error>(EndianSlice::new(data.section(id.name()), if data.little_endian { Little } else { Big })))?;
    let mut headers = dwarf.units();
    let header = from_fn(|| headers.next().transpose()).nth(unit).ok_or(Error::MissingUnitDie)??;
    let mut rows = dwarf.unit(header)?.line_program.map(|program| program.rows());
    from_fn(|| rows.as_mut()?.next_row().map(|row| row.map(|(_, row)| (
        row.address(),
        row.end_sequence(),
        row.file_index(),
        row.line().map(|line| line.get()),
    ))).transpose()).collect()
}

/// Calls `Dwarf::load`, `units`, `unit`, `file`, `path_name` and `attr_string`, and hands
/// out the text of the name of each file entry. Claims only that the result is the one named
/// `unit_file_names`.
#[verifier::external_body]
fn gimli_file_names(data: &DwarfData, unit: usize) -> (r: Result<Vec<String>, Error>)
    ensures
        match r {
            Ok(names) => unit_file_names(data@, unit) == Some(names@),
            Err(_) => unit_file_names(data@, unit) is None,
        },
{
    let dwarf = Dwarf::load(|id| Ok::<_, Error>(EndianSlice::new(data.section(id.name()), if data.little_endian { Little } else { Big })))?;
    let mut headers = dwarf.units();
    let header = from_fn(|| headers.next().transpose()).nth(unit).ok_or(Error::MissingUnitDie)??;
    let unit = dwarf.unit(header)?;
    unit.line_program.iter().flat_map(|program| (0..).map_while(|index| program.header().file(index))).map(
        |file| Ok(dwarf.attr_string(&unit, file.path_name())?.to_string_lossy().into_owned()),
    ).collect()
}

/// Calls `Dwarf::load`, `units`, `unit`, `file`, `directory` and `attr_string`, and hands
/// out the text of the directory of each file entry, where it has one. Claims only that the
/// result is the one named `unit_file_directories`.
#[verifier::external_body]
fn gimli_file_directories(data: &DwarfData, unit: usize) -> (r: Result<
    Vec<Option<String>>,
    Error,
>)
    ensures
        match r {
            Ok(directories) => unit_file_directories(data@, unit) == Some(directories@),
            Err(_) => unit_file_directories(data@, unit) is None,
        },
{
    let dwarf = Dwarf::load(|id| Ok::<_, Error>(EndianSlice::new(data.section(id.name()), if data.little_endian { Little } else { Big })))?;
    let mut headers = dwarf.units();
    let header = from_fn(|| headers.next().transpose()).nth(unit).ok_or(Error::MissingUnitDie)??;
    let unit = dwarf.unit(header)?;
    unit.line_program.iter().flat_map(|program| (0..).map_while(|index| program.header().file(index)).map(|file| file.directory(program.header()))).map(
        |value| value.map(|value| Ok(dwarf.attr_string(&unit, value)?.to_string_lossy().into_owned())).transpose(),
    ).collect()
}

/// Calls `Dwarf::load`, `units` and `unit`, and hands out the text of the compilation
/// directory of the unit. Claims only that the result is the one named `unit_comp_dir`.
#[verifier::external_body]
fn gimli_comp_dir(data: &DwarfData, unit: usize) -> (r: Result<Option<String>, Error>)
    ensures
        match r {
            Ok(directory) => unit_comp_dir(data@, unit) == Some(directory),
            Err(_) => unit_comp_dir(data@, unit) is None,
        },
{
    let dwarf = Dwarf::load(|id| Ok::<_, Error>(EndianSlice::new(data.section(id.name()), if data.little_endian { Little } else { Big })))?;
    let mut headers = dwarf.units();
    let header = from_fn(|| headers.next().transpose()).nth(unit).ok_or(Error::MissingUnitDie)??;
    Ok(dwarf.unit(header)?.comp_dir.map(|text| text.to_string_lossy().into_owned()))
}

/// The tag of the first entry of each unit of the debug information; nothing for a unit that
/// gimli cannot read or that begins with no entry.
pub fn read_unit_tags(data: &DwarfData) -> (r: Result<Vec<Option<u16>>, CargoAsmError>)
    ensures
        match r {
            Ok(tags) => unit_tags(data@) == Some(tags@),
            Err(error) => error is Malformed && unit_tags(data@) is None,
        },
{
    match gimli_unit_tags(data) {
        Ok(tags) => Ok(tags),
        Err(error) => Err(malformed(&error)),
    }
}

/// What gimli finds in the first entry of a unit: for each of its attributes the name and
/// what it holds.
pub struct UnitEntries {
    pub names: Vec<u16>,
    pub addresses: Vec<Option<u64>>,
    pub numbers: Vec<Option<u64>>,
    pub languages: Vec<Option<u16>>,
    pub ranges: Vec<Option<Option<u64>>>,
}

/// What gimli finds in the first entry of a unit: for each of its attributes the name and
/// what it holds.
pub struct EntriesView {
    pub names: Seq<u16>,
    pub addresses: Seq<Option<u64>>,
    pub numbers: Seq<Option<u64>>,
    pub languages: Seq<Option<u16>>,
    pub ranges: Seq<Option<Option<u64>>>,
}

impl View for UnitEntries {
    type V = EntriesView;

    open spec fn view(&self) -> EntriesView {
        EntriesView {
            names: self.names@,
            addresses: self.addresses@,
            numbers: self.numbers@,
            languages: self.languages@,
            ranges: self.ranges@,
        }
    }
}

/// What gimli finds in the first entry of unit number `unit`; nothing where it fails.
pub open spec fn parsed_entries(data: DwarfView, unit: usize) -> Option<EntriesView> {
    match (
        unit_attribute_names(data, unit),
        unit_attribute_addresses(data, unit),
        unit_attribute_numbers(data, unit),
        unit_attribute_languages(data, unit),
        unit_attribute_ranges(data, unit),
    ) {
        (Some(names), Some(addresses), Some(numbers), Some(languages), Some(ranges)) => Some(
            EntriesView { names, addresses, numbers, languages, ranges },
        ),
        _ => None,
    }
}

/// What gimli finds in the first entry of unit number `unit`.
pub fn read_unit_entries(data: &DwarfData, unit: usize) -> (r: Result<UnitEntries, CargoAsmError>)
    ensures
        match r {
            Ok(entries) => parsed_entries(data@, unit) == Some(entries@),
            Err(error) => error is Malformed && parsed_entries(data@, unit) is None,
        },
{
    let names = match gimli_attribute_names(data, unit) {
        Ok(names) => names,
        Err(error) => {
            return Err(malformed(&error));
        },
    };
    let addresses = match gimli_attribute_addresses(data, unit) {
        Ok(addresses) => addresses,
        Err(error) => {
            return Err(malformed(&error));
        },
    };
    let numbers = match gimli_attribute_numbers(data, unit) {
        Ok(numbers) => numbers,
        Err(error) => {
            return Err(malformed(&error));
        },
    };
    let languages = match gimli_attribute_languages(data, unit) {
        Ok(languages) => languages,
        Err(error) => {
            return Err(malformed(&error));
        },
    };
    let ranges = match gimli_attribute_ranges(data, unit) {
        Ok(ranges) => ranges,
        Err(error) => {
            return Err(malformed(&error));
        },
    };
    Ok(UnitEntries { names, addresses, numbers, languages, ranges })
}

/// What attribute number `k` of a unit holds: the place of a list of ranges where it refers
/// to one, which may be a place that gimli cannot tell, else its address, its language or
/// its number.
pub open spec fn attribute_of(
    names: Seq<u16>,
    addresses: Seq<Option<u64>>,
    numbers: Seq<Option<u64>>,
    languages: Seq<Option<u16>>,
    ranges: Seq<Option<Option<u64>>>,
    k: int,
) -> Attribute {
    Attribute {
        name: names[k],
        value: if k < ranges.len() && ranges[k] is None {
            AttributeValue::RangeFailure
        } else if k < ranges.len() && ranges[k]->0 is Some {
            AttributeValue::RangeList(ranges[k]->0->0)
        } else if k < addresses.len() && addresses[k] is Some {
            AttributeValue::Addr(addresses[k]->0)
        } else if k < languages.len() && languages[k] is Some {
            AttributeValue::Language(languages[k]->0)
        } else if k < numbers.len() && numbers[k] is Some {
            AttributeValue::Udata(numbers[k]->0)
        } else {
            AttributeValue::Other
        },
    }
}

/// The attributes of the first entry of a unit, put together from what gimli gives for
/// each of them.
pub fn unit_attributes(
    names: &Vec<u16>,
    addresses: &Vec<Option<u64>>,
    numbers: &Vec<Option<u64>>,
    languages: &Vec<Option<u16>>,
    ranges: &Vec<Option<Option<u64>>>,
) -> (r: Vec<Attribute>)
    ensures
        r@.len() == names@.len(),
        forall|k: int|
            0 <= k < r@.len() ==> #[trigger] r@[k] == attribute_of(
                names@,
                addresses@,
                numbers@,
                languages@,
                ranges@,
                k,
            ),
{
    let mut out: Vec<Attribute> = Vec::new();
    let mut k: usize = 0;
    while k < names.len()
        invariant
            k <= names@.len(),
            out@.len() == k,
            forall|i: int|
                0 <= i < k ==> #[trigger] out@[i] == attribute_of(
                    names@,
                    addresses@,
                    numbers@,
                    languages@,
                    ranges@,
                    i,
                ),
        decreases names@.len() - k,
    {
        let mut value = AttributeValue::Other;
        let mut found = false;
        if k < ranges.len() {
            match ranges[k] {
                None => {
                    value = AttributeValue::RangeFailure;
                    found = true;
                },
                Some(Some(offset)) => {
                    value = AttributeValue::RangeList(offset);
                    found = true;
                },
                Some(None) => {},
            }
        }
        if !found && k < addresses.len() {
            if let Some(address) = addresses[k] {
                value = AttributeValue::Addr(address);
                found = true;
            }
        }
        if !found && k < languages.len() {
            if let Some(language) = languages[k] {
                value = AttributeValue::Language(language);
                found = true;
            }
        }
        if !found && k < numbers.len() {
            if let Some(number) = numbers[k] {
                value = AttributeValue::Udata(number);
            }
        }
        out.push(Attribute { name: names[k], value });
        k += 1;
    }
    out
}

/// The ranges of the list at `offset`, read for unit number `unit`.
pub fn read_range_list(data: &DwarfData, unit: usize, offset: u64) -> (r: Result<
    Vec<(u64, u64)>,
    CargoAsmError,
>)
    ensures
        match r {
            Ok(ranges) => unit_range_list(data@, unit, offset) == Some(ranges@),
            Err(error) => error is Malformed && unit_range_list(data@, unit, offset) is None,
        },
{
    match gimli_range_list(data, unit, offset) {
        Ok(ranges) => Ok(ranges),
        Err(error) => Err(malformed(&error)),
    }
}

/// The rows that the parts describe, one by one.
pub open spec fn rows_of(parts: Seq<(u64, bool, u64, Option<u64>)>) -> Seq<Row> {
    Seq::new(
        parts.len(),
        |i: int|
            Row {
                address: parts[i].0,
                end_sequence: parts[i].1,
                file_index: parts[i].2,
                line: parts[i].3,
            },
    )
}

/// The rows of the line number program of unit number `unit`. A program is malformed that
/// gimli cannot read, or that advances the line by the least number that 64 bits with a
/// sign hold.
pub fn read_rows(data: &DwarfData, unit: usize) -> (r: Result<Vec<Row>, CargoAsmError>)
    ensures
        match r {
            Ok(rows) => checked_rows(data@, unit) matches Some(parts) && rows@ == rows_of(parts),
            Err(error) => error is Malformed && checked_rows(data@, unit) is None,
        },
{
    let advances = match gimli_line_advances(data, unit) {
        Ok(advances) => advances,
        Err(error) => {
            return Err(malformed(&error));
        },
    };
    if !check_advances(&advances) {
        return Err(
            CargoAsmError::Malformed("the line is advanced by a number out of range".to_owned()),
        );
    }
    let parts = match gimli_rows(data, unit) {
        Ok(parts) => parts,
        Err(error) => {
            return Err(malformed(&error));
        },
    };
    let mut rows: Vec<Row> = Vec::new();
    let mut i: usize = 0;
    while i < parts.len()
        invariant
            i <= parts@.len(),
            rows@ == rows_of(parts@).take(i as int),
        decreases parts@.len() - i,
    {
        let part = parts[i];
        rows.push(
            Row { address: part.0, end_sequence: part.1, file_index: part.2, line: part.3 },
        );
        i += 1;
        proof {
            assert(rows@ =~= rows_of(parts@).take(i as int));
        }
    }
    proof {
        assert(rows@ =~= rows_of(parts@));
    }
    Ok(rows)
}

/// The files that the lists describe, one by one.
pub open spec fn are_files(
    files: Seq<FileEntry>,
    names: Seq<String>,
    directories: Seq<Option<String>>,
) -> bool {
    &&& files.len() == names.len()
    &&& forall|i: int|
        0 <= i < files.len() ==> (#[trigger] files[i]).path_name@ == names[i]@ && match files[i].directory {
            Some(text) => i < directories.len() && (directories[i] matches Some(found) && found@
                == text@),
            None => i >= directories.len() || directories[i] is None,
        }
}

/// The files of the line number program of unit number `unit`.
pub fn read_files(data: &DwarfData, unit: usize) -> (r: Result<Vec<FileEntry>, CargoAsmError>)
    ensures
        match r {
            Ok(files) => unit_file_names(data@, unit) matches Some(names) && (
            unit_file_directories(data@, unit) matches Some(directories) && are_files(
                files@,
                names,
                directories,
            )),
            Err(error) => error is Malformed && (unit_file_names(data@, unit) is None
                || unit_file_directories(data@, unit) is None),
        },
{
    let names = match gimli_file_names(data, unit) {
        Ok(names) => names,
        Err(error) => {
            return Err(malformed(&error));
        },
    };
    let directories = match gimli_file_directories(data, unit) {
        Ok(directories) => directories,
        Err(error) => {
            return Err(malformed(&error));
        },
    };
    let mut files: Vec<FileEntry> = Vec::new();
    let mut i: usize = 0;
    while i < names.len()
        invariant
            i <= names@.len(),
            files@.len() == i,
            forall|k: int|
                0 <= k < i ==> (#[trigger] files@[k]).path_name@ == names@[k]@ && match files@[k].directory {
                    Some(text) => k < directories@.len() && (directories@[k] matches Some(found)
                        && found@ == text@),
                    None => k >= directories@.len() || directories@[k] is None,
                },
        decreases names@.len() - i,
    {
        let directory = if i < directories.len() {
            match &directories[i] {
                Some(text) => Some(text.clone()),
                None => None,
            }
        } else {
            None
        };
        files.push(FileEntry { directory, path_name: names[i].clone() });
        i += 1;
    }
    Ok(files)
}

/// The directory in which unit number `unit` was compiled.
pub fn read_comp_dir(data: &DwarfData, unit: usize) -> (r: Result<Option<String>, CargoAsmError>)
    ensures
        match r {
            Ok(directory) => unit_comp_dir(data@, unit) == Some(directory),
            Err(error) => error is Malformed && unit_comp_dir(data@, unit) is None,
        },
{
    match gimli_comp_dir(data, unit) {
        Ok(directory) => Ok(directory),
        Err(error) => Err(malformed(&error)),
    }
}

} // verus!
