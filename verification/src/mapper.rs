use crate::debug_info::{
    are_files, attribute_of, checked_rows, parsed_entries, read_comp_dir, read_files,
    read_range_list, read_rows, read_unit_entries, read_unit_tags, rows_of, unit_attributes,
    unit_comp_dir, unit_file_directories, unit_file_names, unit_range_list, unit_tags, DwarfData,
    DwarfView, EntriesView,
};
use crate::dwarf::{
    add_compilation_unit, facts_of, has_unreadable_ranges, list_view, load_lines, models,
    order_unit_ranges, range_starts, ranges_in_order, ranges_unreadable, sequences_of,
    unit_facts, unit_index_for_address, unit_spans,
    Attribute, UnitRange, DW_TAG_COMPILE_UNIT,
};
use crate::errors::CargoAsmError;
use crate::lines::{covers, spans_ascend, Lines};
use crate::order::key_order;
use crate::pdb_lines::PDBLineMapper;
use crate::platform::{converted, relative_by, Converter, NativePathConverter, PathConverter};
use crate::strategy::FileResolveStrategy;
use crate::text::{text_of, texts};
use vstd::prelude::*;

verus! {

/// The path that `std::path::PathBuf::push` makes of the path `base` and `piece`, in the
/// program as it is built: the join is that of the kind of machine that the program is built
/// for.
pub uninterp spec fn pushed_path(base: Seq<char>, piece: Seq<char>) -> Seq<char>;

/// Calls `std::path::PathBuf::push` on the path `base` with `piece`, and prints the path
/// that comes out. Claims only that it is the one named `pushed_path`.
#[verifier::external_body]
fn push_path(base: &str, piece: &str) -> (r: String)
    ensures
        r@ == pushed_path(base@, piece@),
{
    let mut path = std::path::PathBuf::from(base);
    path.push(piece);
    path.to_string_lossy().into_owned()
}

/// Calls `std::path::Path::is_file`, which asks the file system. Nothing is claimed of the
/// answer.
#[verifier::external_body]
fn path_is_file(path: &str) -> bool {
    std::path::Path::new(path).is_file()
}

/// A piece of a path as a binary holds it: its text, made a path of the machine that reads
/// it, and whether it is relative.
pub struct PathPart {
    pub text: String,
    pub relative: bool,
}

/// What a piece of a path holds.
pub struct PartView {
    pub text: Seq<char>,
    pub relative: bool,
}

impl View for PathPart {
    type V = PartView;

    open spec fn view(&self) -> PartView {
        PartView { text: self.text@, relative: self.relative }
    }
}

/// What a piece holds, where there is one.
pub open spec fn part_view(part: Option<&PathPart>) -> Option<PartView> {
    match part {
        Some(p) => Some(p@),
        None => None,
    }
}

/// What the converter makes of a piece of a path: its text with the slashes of the machine
/// that reads it, and whether the converter takes it for relative.
pub open spec fn described(converter: Converter, text: Seq<char>) -> PartView {
    PartView { text: converted(converter, text), relative: relative_by(converter, text) }
}

/// What the converter makes of a piece of a path, where there is one.
pub open spec fn described_part(converter: Converter, text: Option<Seq<char>>) -> Option<PartView> {
    match text {
        Some(t) => Some(described(converter, t)),
        None => None,
    }
}

/// What the converter makes of a piece of a path.
pub fn describe_part(convert_path: &Converter, text: &str) -> (r: PathPart)
    ensures
        r@ == described(*convert_path, text@),
{
    let relative = convert_path.is_relative(text);
    PathPart { text: convert_path.convert(text), relative }
}

/// The piece counts for the path: always where absolute paths are preferred, else where it is
/// relative.
pub open spec fn part_counts(strategy: FileResolveStrategy, part: PartView) -> bool {
    strategy == FileResolveStrategy::PreferAbsolute || part.relative
}

/// The text of a piece, where there is one and it counts.
pub open spec fn counted(strategy: FileResolveStrategy, part: Option<PartView>) -> Seq<Seq<char>> {
    match part {
        Some(p) => if part_counts(strategy, p) {
            seq![p.text]
        } else {
            Seq::empty()
        },
        None => Seq::empty(),
    }
}

/// The pieces of the path of a source file, in order: the base directory where relative
/// paths are preferred, the directory of the compilation and the directory of the file, each
/// where it counts, and the name of the file.
pub open spec fn path_pieces(
    strategy: FileResolveStrategy,
    base_directory: Seq<char>,
    comp_dir: Option<PartView>,
    directory: Option<PartView>,
    path_name: Seq<char>,
) -> Seq<Seq<char>> {
    (if strategy == FileResolveStrategy::PreferRelative {
        seq![base_directory]
    } else {
        Seq::empty()
    }) + counted(strategy, comp_dir) + counted(strategy, directory) + seq![path_name]
}

/// The path that the pieces make: none for no piece, the piece itself for one, and for more
/// the last piece pushed on the path of those before it.
pub open spec fn joined_path(pieces: Seq<Seq<char>>) -> Seq<char>
    decreases pieces.len(),
{
    if pieces.len() == 0 {
        Seq::empty()
    } else if pieces.len() == 1 {
        pieces[0]
    } else {
        pushed_path(joined_path(pieces.drop_last()), pieces.last())
    }
}

/// The strategy whose path is taken: the preferred one where its path is a file, else the
/// other one.
pub open spec fn taken_strategy(strategy: FileResolveStrategy, preferred_is_file: bool) -> FileResolveStrategy {
    if preferred_is_file {
        strategy
    } else {
        strategy.spec_other()
    }
}

/// The path of a source file, once it is known whether the path that the preferred strategy
/// gives is a file.
pub open spec fn rendered_path(
    strategy: FileResolveStrategy,
    base_directory: Seq<char>,
    comp_dir: Option<PartView>,
    directory: Option<PartView>,
    path_name: Seq<char>,
    preferred_is_file: bool,
) -> Seq<char> {
    joined_path(
        path_pieces(
            taken_strategy(strategy, preferred_is_file),
            base_directory,
            comp_dir,
            directory,
            path_name,
        ),
    )
}

/// `path` is the path of a source file for one of the two answers that the disk can give:
/// the path of the preferred strategy, or that of the other one.
pub open spec fn is_rendered(
    path: Seq<char>,
    strategy: FileResolveStrategy,
    base_directory: Seq<char>,
    comp_dir: Option<PartView>,
    directory: Option<PartView>,
    path_name: Seq<char>,
) -> bool {
    path == rendered_path(strategy, base_directory, comp_dir, directory, path_name, true) || path
        == rendered_path(strategy, base_directory, comp_dir, directory, path_name, false)
}

/// The pieces of the path of a source file, in order.
pub fn subrender_pieces(
    strategy: FileResolveStrategy,
    base_directory: &str,
    comp_dir: Option<&PathPart>,
    directory: Option<&PathPart>,
    path_name: &str,
) -> (r: Vec<String>)
    ensures
        texts(r@) == path_pieces(
            strategy,
            base_directory@,
            part_view(comp_dir),
            part_view(directory),
            path_name@,
        ),
{
    let mut pieces: Vec<String> = Vec::new();
    if strategy == FileResolveStrategy::PreferRelative {
        pieces.push(base_directory.to_owned());
    }
    if let Some(part) = comp_dir {
        if strategy == FileResolveStrategy::PreferAbsolute || part.relative {
            pieces.push(part.text.clone());
        }
    }
    if let Some(part) = directory {
        if strategy == FileResolveStrategy::PreferAbsolute || part.relative {
            pieces.push(part.text.clone());
        }
    }
    pieces.push(path_name.to_owned());
    proof {
        assert(texts(pieces@) =~= path_pieces(
            strategy,
            base_directory@,
            part_view(comp_dir),
            part_view(directory),
            path_name@,
        ));
    }
    pieces
}

/// The path that the pieces make: the first piece, with each further piece pushed on the
/// path of those before it as the machine joins paths.
pub fn join_pieces(pieces: &Vec<String>) -> (r: String)
    ensures
        r@ == joined_path(texts(pieces@)),
{
    if pieces.len() == 0 {
        return String::new();
    }
    let mut path = pieces[0].clone();
    let mut i: usize = 1;
    proof {
        assert(texts(pieces@).take(1).len() == 1);
    }
    while i < pieces.len()
        invariant
            1 <= i <= pieces@.len(),
            path@ == joined_path(texts(pieces@).take(i as int)),
        decreases pieces@.len() - i,
    {
        proof {
            let upto = texts(pieces@).take(i + 1);
            assert(upto.drop_last() =~= texts(pieces@).take(i as int));
            assert(upto.last() == pieces@[i as int]@);
        }
        path = push_path(path.as_str(), pieces[i].as_str());
        i += 1;
    }
    proof {
        assert(texts(pieces@).take(pieces@.len() as int) =~= texts(pieces@));
    }
    path
}

/// The path of a source file, made of its pieces.
pub fn subrender_file(
    strategy: FileResolveStrategy,
    base_directory: &str,
    comp_dir: Option<&PathPart>,
    directory: Option<&PathPart>,
    path_name: &str,
) -> (r: String)
    ensures
        r@ == joined_path(
            path_pieces(
                strategy,
                base_directory@,
                part_view(comp_dir),
                part_view(directory),
                path_name@,
            ),
        ),
{
    let pieces = subrender_pieces(strategy, base_directory, comp_dir, directory, path_name);
    join_pieces(&pieces)
}

/// The pieces of the path of a source file, once it is known whether the path that the
/// preferred strategy gives is a file.
pub fn rendered_pieces(
    strategy: FileResolveStrategy,
    base_directory: &str,
    comp_dir: Option<&PathPart>,
    directory: Option<&PathPart>,
    path_name: &str,
    preferred_is_file: bool,
) -> (r: Vec<String>)
    ensures
        texts(r@) == path_pieces(
            taken_strategy(strategy, preferred_is_file),
            base_directory@,
            part_view(comp_dir),
            part_view(directory),
            path_name@,
        ),
{
    let taken = if preferred_is_file {
        strategy
    } else {
        strategy.other()
    };
    subrender_pieces(taken, base_directory, comp_dir, directory, path_name)
}

/// The path of a source file: the one that the preferred strategy gives where it is a file,
/// else the one that the other strategy gives.
pub fn render_file(
    strategy: FileResolveStrategy,
    base_directory: &str,
    comp_dir: Option<&PathPart>,
    directory: Option<&PathPart>,
    path_name: &str,
) -> (r: String)
    ensures
        is_rendered(
            r@,
            strategy,
            base_directory@,
            part_view(comp_dir),
            part_view(directory),
            path_name@,
        ),
{
    let preferred_path = subrender_file(strategy, base_directory, comp_dir, directory, path_name);
    let preferred_is_file = path_is_file(preferred_path.as_str());
    let pieces = rendered_pieces(
        strategy,
        base_directory,
        comp_dir,
        directory,
        path_name,
        preferred_is_file,
    );
    join_pieces(&pieces)
}

/// The first entry of unit `h` describes a compilation unit.
pub open spec fn is_compile_unit(tags: Seq<Option<u16>>, h: int) -> bool {
    0 <= h < tags.len() && tags[h] == Some(DW_TAG_COMPILE_UNIT)
}

/// The attributes of the first entry of a unit.
pub open spec fn entry_attributes(entries: EntriesView) -> Seq<Attribute> {
    Seq::new(
        entries.names.len(),
        |k: int|
            attribute_of(
                entries.names,
                entries.addresses,
                entries.numbers,
                entries.languages,
                entries.ranges,
                k,
            ),
    )
}

/// The compilation units of a binary: the number of each among the units of the debug
/// information, and their ranges of addresses, unit by unit.
pub struct UnitsModel {
    pub headers: Seq<usize>,
    pub ranges: Seq<UnitRange>,
}

/// The compilation units among the first `n` units of the debug information. The first
/// entry of a unit is read where its tag is that of a compilation unit. The ranges of the
/// unit are those of the list that the entry refers to, or else those that its low and high
/// addresses give. Nothing where gimli cannot read the entry of a compilation unit, cannot
/// tell the place of its list, or cannot read the list.
pub open spec fn units_upto(data: DwarfView, tags: Seq<Option<u16>>, n: int) -> Option<UnitsModel>
    decreases n,
{
    if n <= 0 {
        Some(UnitsModel { headers: Seq::empty(), ranges: Seq::empty() })
    } else {
        match units_upto(data, tags, n - 1) {
            None => None,
            Some(before) => if !is_compile_unit(tags, n - 1) {
                Some(before)
            } else {
                match parsed_entries(data, (n - 1) as usize) {
                    None => None,
                    Some(entries) => if ranges_unreadable(
                        entry_attributes(entries),
                        entry_attributes(entries).len() as int,
                    ) {
                        None
                    } else {
                        let facts = facts_of(entry_attributes(entries));
                        let unit = before.headers.len() as usize;
                        let headers = before.headers.push((n - 1) as usize);
                        match facts.ranges {
                            Some(offset) => match unit_range_list(
                                data,
                                (n - 1) as usize,
                                offset,
                            ) {
                                Some(list) => Some(
                                    UnitsModel {
                                        headers,
                                        ranges: before.ranges + unit_spans(
                                            facts,
                                            Some(list),
                                            unit,
                                        ),
                                    },
                                ),
                                None => None,
                            },
                            None => Some(
                                UnitsModel {
                                    headers,
                                    ranges: before.ranges + unit_spans(facts, None, unit),
                                },
                            ),
                        }
                    },
                }
            },
        }
    }
}

/// The compilation units of the debug information; nothing where gimli fails.
pub open spec fn parsed_units(data: DwarfView) -> Option<UnitsModel> {
    match unit_tags(data) {
        Some(tags) => units_upto(data, tags, tags.len() as int),
        None => None,
    }
}

/// The ranges in ascending order of start; ranges with the same start keep their order.
pub open spec fn ranges_by_start(ranges: Seq<UnitRange>) -> Seq<UnitRange> {
    ranges_in_order(ranges, key_order(range_starts(ranges)))
}

/// The directory of file `k`, where the list gives one.
pub open spec fn directory_text(directories: Seq<Option<String>>, k: int) -> Option<Seq<char>> {
    if 0 <= k < directories.len() {
        text_of(directories[k])
    } else {
        None
    }
}

/// `lines` is the line table of unit number `header`, read with `converter` for the paths
/// that the binary holds: it holds the sequences of the rows of the unit, and for each of
/// its files the path that is made of the base directory, the directory of the compilation,
/// the directory of the file and its name, by the strategy or by the other one.
pub open spec fn is_table_of(
    lines: Lines,
    data: DwarfView,
    header: usize,
    base_directory: Seq<char>,
    strategy: FileResolveStrategy,
    converter: Converter,
) -> bool {
    match (
        checked_rows(data, header),
        unit_file_names(data, header),
        unit_file_directories(data, header),
        unit_comp_dir(data, header),
    ) {
        (Some(parts), Some(names), Some(directories), Some(comp_dir)) => models(lines.sequences@)
            == sequences_of(rows_of(parts)) && lines.files@.len() == names.len() && forall|k: int|
            0 <= k < names.len() ==> is_rendered(
                (#[trigger] lines.files@[k])@,
                strategy,
                base_directory,
                described_part(converter, text_of(comp_dir)),
                described_part(converter, directory_text(directories, k)),
                names[k]@,
            ),
        _ => false,
    }
}

/// `lines` is the line table of unit number `header`, read with one of the converters.
pub open spec fn is_some_table_of(
    lines: Lines,
    data: DwarfView,
    header: usize,
    base_directory: Seq<char>,
    strategy: FileResolveStrategy,
) -> bool {
    exists|converter: Converter| #[trigger]
        is_table_of(lines, data, header, base_directory, strategy, converter)
}

/// Gimli can read the line table of unit number `header`: its rows, its files and the
/// directory of its compilation.
pub open spec fn unit_readable(data: DwarfView, header: usize) -> bool {
    &&& checked_rows(data, header) is Some
    &&& unit_file_names(data, header) is Some
    &&& unit_file_directories(data, header) is Some
    &&& unit_comp_dir(data, header) is Some
}

/// Once a list of ranges cannot be read, the units are not known.
proof fn lemma_units_stay_unknown(data: DwarfView, tags: Seq<Option<u16>>, n: int, m: int)
    requires
        n <= m,
        units_upto(data, tags, n) is None,
    ensures
        units_upto(data, tags, m) is None,
    decreases m - n,
{
    if n < m {
        lemma_units_stay_unknown(data, tags, n, m - 1);
    }
}

/// One compilation unit, with its line table once it is read.
pub struct LazyUnit {
    /// The number of the unit among those of the debug information.
    header: usize,
    lines: Option<Lines>,
}

impl LazyUnit {
    pub fn new(header: usize) -> (r: LazyUnit)
        ensures
            r.header_number() == header,
            r.loaded_lines() is None,
    {
        LazyUnit { header, lines: None }
    }

    /// The number of the unit among those of the debug information.
    pub closed spec fn header_number(&self) -> usize {
        self.header
    }

    /// The line table of the unit, once it is read.
    pub closed spec fn loaded_lines(&self) -> Option<Lines> {
        self.lines
    }
}

/// The number of each unit among those of the debug information.
pub open spec fn headers_of(units: Seq<LazyUnit>) -> Seq<usize> {
    Seq::new(units.len(), |i: int| units[i].header_number())
}

/// Maps addresses to source lines with the DWARF debug information of a binary.
pub struct DwarfLineMapper<'a> {
    data: DwarfData<'a>,
    /// Maps ranges of addresses to compilation units. Each range is associated with an index
    /// into the `units` vector.
    unit_ranges: Vec<UnitRange>,
    units: Vec<LazyUnit>,
    base_directory: String,
    resolve_strategy: FileResolveStrategy,
}

impl<'a> DwarfLineMapper<'a> {
    /// The debug information that the mapper reads.
    pub closed spec fn data(&self) -> DwarfData<'a> {
        self.data
    }

    /// The ranges of addresses of the units.
    pub closed spec fn ranges(&self) -> Seq<UnitRange> {
        self.unit_ranges@
    }

    /// The units.
    pub closed spec fn units(&self) -> Seq<LazyUnit> {
        self.units@
    }

    /// The directory that relative paths of sources begin at.
    pub closed spec fn base(&self) -> Seq<char> {
        self.base_directory@
    }

    /// The strategy by which the paths of sources are made.
    pub closed spec fn strategy(&self) -> FileResolveStrategy {
        self.resolve_strategy
    }

    /// The table is that of unit `u`, read with one of the converters.
    pub open spec fn is_table_of_unit(&self, lines: Lines, u: int) -> bool {
        is_some_table_of(
            lines,
            self.data()@,
            self.units()[u].header_number(),
            self.base(),
            self.strategy(),
        )
    }

    /// The mapper that was `before` read the tables that it had not read with `converter`.
    pub open spec fn read_with(&self, before: DwarfLineMapper, converter: Converter) -> bool {
        forall|u: int|
            0 <= u < before.units().len() && u < self.units().len() && (
            #[trigger] before.units()[u]).loaded_lines() is None ==> match self.units()[u].loaded_lines() {
                Some(lines) => is_table_of(
                    lines,
                    self.data()@,
                    self.units()[u].header_number(),
                    self.base(),
                    self.strategy(),
                    converter,
                ),
                None => true,
            }
    }

    /// The ranges ascend in their starts, each belongs to a unit, and the line table of each
    /// unit that is read holds the sequences of the rows of the unit and a path for each of
    /// its files.
    pub open spec fn well_formed(&self) -> bool {
        &&& forall|a: int, b: int|
            0 <= a < b < self.ranges().len() ==> self.ranges()[a].start <= self.ranges()[b].start
        &&& forall|k: int|
            0 <= k < self.ranges().len() ==> (#[trigger] self.ranges()[k]).unit
                < self.units().len()
        &&& forall|u: int|
            0 <= u < self.units().len() ==> match (#[trigger] self.units()[u]).loaded_lines() {
                Some(lines) => self.is_table_of_unit(lines, u),
                None => true,
            }
    }

    /// A range of unit `u` covers the address.
    pub open spec fn covered_by(&self, address: u64, u: int) -> bool {
        exists|k: int|
            0 <= k < self.ranges().len() && covers(#[trigger] self.ranges()[k], address)
                && self.ranges()[k].unit == u
    }

    /// No range covers the address.
    pub open spec fn uncovered(&self, address: u64) -> bool {
        forall|k: int| 0 <= k < self.ranges().len() ==> !covers(#[trigger] self.ranges()[k], address)
    }

    /// The line table of a unit that is read says that the code at `address` comes from line
    /// `line` of the file `path`.
    pub open spec fn maps(&self, address: u64, path: Seq<char>, line: u32) -> bool {
        exists|u: int| #[trigger] self.unit_maps(u, address, path, line)
    }

    /// A range of unit `u` covers the address; the line table of the unit is read, and says
    /// that the code at `address` comes from line `line` of the file `path`.
    pub open spec fn unit_maps(&self, u: int, address: u64, path: Seq<char>, line: u32) -> bool {
        &&& 0 <= u < self.units().len()
        &&& self.covered_by(address, u)
        &&& match self.units()[u].loaded_lines() {
            Some(lines) => lines.maps(address, path, line),
            None => false,
        }
    }

    /// A range of unit `u` covers the address; the line table of the unit is read, and where
    /// it is well ordered it knows no line for the address.
    pub open spec fn unit_maps_nothing(&self, u: int, address: u64) -> bool {
        &&& 0 <= u < self.units().len()
        &&& self.covered_by(address, u)
        &&& match self.units()[u].loaded_lines() {
            Some(lines) => lines.well_ordered() ==> forall|path: Seq<char>, line: u32|
                !lines.maps(address, path, line),
            None => false,
        }
    }

    /// A range of unit `u` covers the address, and the line table of the unit is not read
    /// and cannot be.
    pub open spec fn unit_fails(&self, u: int, address: u64) -> bool {
        &&& 0 <= u < self.units().len()
        &&& self.covered_by(address, u)
        &&& self.units()[u].loaded_lines() is None
        &&& !unit_readable(self.data()@, self.units()[u].header_number())
    }

    /// The compilation units among the units of the debug information, each with no line
    /// table yet, and their ranges in ascending order of start. The first entry of each unit
    /// is read: a unit counts where that entry describes a compilation unit, and its ranges
    /// are those of the list that the entry refers to, or else those that its low and high
    /// addresses give.
    fn find_compilation_units(data: &DwarfData) -> (r: Result<
        (Vec<LazyUnit>, Vec<UnitRange>),
        CargoAsmError,
    >)
        ensures
            match (r, parsed_units(data@)) {
                (Ok((units, ranges)), Some(found)) => headers_of(units@) == found.headers
                    && ranges@ == ranges_by_start(found.ranges) && (forall|a: int, b: int|
                    0 <= a < b < ranges@.len() ==> ranges@[a].start <= ranges@[b].start) && (forall|
                    k: int,
                | 0 <= k < ranges@.len() ==> (#[trigger] ranges@[k]).unit < units@.len())
                    && (forall|u: int|
                    0 <= u < units@.len() ==> (#[trigger] units@[u]).loaded_lines() is None),
                (Err(error), None) => error is Malformed,
                _ => false,
            },
    {
        let tags = match read_unit_tags(data) {
            Ok(tags) => tags,
            Err(error) => {
                return Err(error);
            },
        };
        let mut lazy_units: Vec<LazyUnit> = Vec::new();
        let mut unit_ranges: Vec<UnitRange> = Vec::new();
        let count = tags.len();
        let mut header: usize = 0;
        proof {
            assert(headers_of(lazy_units@) =~= Seq::empty());
        }
        while header < count
            invariant
                header <= count,
                count == tags@.len(),
                unit_tags(data@) == Some(tags@),
                units_upto(data@, tags@, header as int) == Some(
                    UnitsModel { headers: headers_of(lazy_units@), ranges: unit_ranges@ },
                ),
                forall|k: int|
                    0 <= k < unit_ranges@.len() ==> (#[trigger] unit_ranges@[k]).unit
                        < lazy_units@.len(),
                forall|u: int|
                    0 <= u < lazy_units@.len() ==> (#[trigger] lazy_units@[u]).loaded_lines()
                        is None,
            decreases count - header,
        {
            let is_unit = match tags[header] {
                Some(tag) => tag == DW_TAG_COMPILE_UNIT,
                None => false,
            };
            if is_unit {
                let entries = match read_unit_entries(data, header) {
                    Ok(entries) => entries,
                    Err(error) => {
                        proof {
                            assert(units_upto(data@, tags@, header + 1) is None);
                            lemma_units_stay_unknown(data@, tags@, header + 1, count as int);
                        }
                        return Err(error);
                    },
                };
                let attributes = unit_attributes(
                    &entries.names,
                    &entries.addresses,
                    &entries.numbers,
                    &entries.languages,
                    &entries.ranges,
                );
                proof {
                    assert(attributes@ =~= entry_attributes(entries@));
                }
                if has_unreadable_ranges(&attributes) {
                    proof {
                        assert(units_upto(data@, tags@, header + 1) is None);
                        lemma_units_stay_unknown(data@, tags@, header + 1, count as int);
                    }
                    return Err(
                        CargoAsmError::Malformed(
                            "the place of a list of ranges cannot be told".to_owned(),
                        ),
                    );
                }
                let facts = unit_facts(&attributes);
                let list = match facts.ranges {
                    Some(offset) => match read_range_list(data, header, offset) {
                        Ok(list) => Some(list),
                        Err(error) => {
                            proof {
                                assert(units_upto(data@, tags@, header + 1) is None);
                                lemma_units_stay_unknown(data@, tags@, header + 1, count as int);
                            }
                            return Err(error);
                        },
                    },
                    None => None,
                };
                let unit_index = lazy_units.len();
                let ghost headers = headers_of(lazy_units@);
                let ghost before = unit_ranges@;
                let list_ref = list.as_ref();
                add_compilation_unit(facts, list_ref, unit_index, &mut unit_ranges);
                lazy_units.push(LazyUnit::new(header));
                proof {
                    assert(headers_of(lazy_units@) =~= headers.push(header));
                    assert(list_view(list_ref) == match list {
                        Some(ranges) => Some(ranges@),
                        None => None,
                    });
                    assert forall|k: int| 0 <= k < unit_ranges@.len() implies (
                    #[trigger] unit_ranges@[k]).unit < lazy_units@.len() by {
                        if k >= before.len() {
                            assert(unit_ranges@[k] == unit_spans(
                                facts,
                                list_view(list_ref),
                                unit_index,
                            )[k - before.len()]);
                        }
                    }
                }
            }
            header += 1;
        }
        let ordered = order_unit_ranges(&unit_ranges);
        proof {
            let order = key_order(range_starts(unit_ranges@));
            assert forall|k: int| 0 <= k < ordered@.len() implies (#[trigger] ordered@[k]).unit
                < lazy_units@.len() by {
                assert(0 <= order[k] < unit_ranges@.len());
            }
        }
        Ok((lazy_units, ordered))
    }

    /// A mapper for the debug information in `data`, whose compilation units are found, and
    /// none of their line tables read yet.
    pub fn new(data: DwarfData<'a>, base_directory: &str, resolve_strategy: FileResolveStrategy) -> (r:
        Result<DwarfLineMapper<'a>, CargoAsmError>)
        ensures
            match (r, parsed_units(data@)) {
                (Ok(mapper), Some(units)) => mapper.well_formed() && mapper.data() == data
                    && mapper.base() == base_directory@ && mapper.strategy() == resolve_strategy
                    && headers_of(mapper.units()) == units.headers && mapper.ranges()
                    == ranges_by_start(units.ranges) && forall|u: int|
                    0 <= u < mapper.units().len() ==> (#[trigger] mapper.units()[u]).loaded_lines()
                        is None,
                (Err(error), None) => error is Malformed,
                _ => false,
            },
    {
        let (units, unit_ranges) = DwarfLineMapper::find_compilation_units(&data)?;
        Ok(
            DwarfLineMapper {
                data,
                unit_ranges,
                units,
                base_directory: base_directory.to_owned(),
                resolve_strategy,
            },
        )
    }

    /// The line table of a unit: the sequences of its rows, and the path of each of its
    /// files.
    fn load_unit(&self, header: usize, convert_path: &Converter) -> (r: Result<
        Lines,
        CargoAsmError,
    >)
        ensures
            match r {
                Ok(lines) => unit_readable(self.data()@, header) && is_table_of(
                    lines,
                    self.data()@,
                    header,
                    self.base(),
                    self.strategy(),
                    *convert_path,
                ),
                Err(error) => error is Malformed && !unit_readable(self.data()@, header),
            },
    {
        let rows = match read_rows(&self.data, header) {
            Ok(rows) => rows,
            Err(error) => {
                return Err(error);
            },
        };
        let sequences = load_lines(&rows);
        let entries = match read_files(&self.data, header) {
            Ok(entries) => entries,
            Err(error) => {
                return Err(error);
            },
        };
        let comp_dir = match read_comp_dir(&self.data, header) {
            Ok(Some(text)) => Some(describe_part(convert_path, text.as_str())),
            Ok(None) => None,
            Err(error) => {
                return Err(error);
            },
        };
        let comp_part = comp_dir.as_ref();
        let ghost names = unit_file_names(self.data()@, header)->0;
        let ghost directories = unit_file_directories(self.data()@, header)->0;
        let ghost comp_text = text_of(unit_comp_dir(self.data()@, header)->0);
        let mut files: Vec<String> = Vec::new();
        let mut i: usize = 0;
        while i < entries.len()
            invariant
                i <= entries@.len(),
                files@.len() == i,
                are_files(entries@, names, directories),
                part_view(comp_part) == described_part(*convert_path, comp_text),
                forall|k: int|
                    0 <= k < i ==> is_rendered(
                        (#[trigger] files@[k])@,
                        self.strategy(),
                        self.base(),
                        described_part(*convert_path, comp_text),
                        described_part(*convert_path, directory_text(directories, k)),
                        names[k]@,
                    ),
            decreases entries@.len() - i,
        {
            let entry = &entries[i];
            let directory = match &entry.directory {
                Some(text) => Some(describe_part(convert_path, text.as_str())),
                None => None,
            };
            let directory_part = directory.as_ref();
            proof {
                assert(entries@[i as int].path_name@ == names[i as int]@);
                assert(part_view(directory_part) == described_part(
                    *convert_path,
                    directory_text(directories, i as int),
                ));
            }
            let path = render_file(
                self.resolve_strategy,
                self.base_directory.as_str(),
                comp_part,
                directory_part,
                entry.path_name.as_str(),
            );
            let ghost had = files@;
            files.push(path);
            proof {
                assert forall|k: int| 0 <= k < i + 1 implies is_rendered(
                    (#[trigger] files@[k])@,
                    self.strategy(),
                    self.base(),
                    described_part(*convert_path, comp_text),
                    described_part(*convert_path, directory_text(directories, k)),
                    names[k]@,
                ) by {
                    if k < i {
                        assert(files@[k] == had[k]);
                    }
                }
            }
            i += 1;
        }
        Ok(Lines { sequences, files })
    }

    /// The file and the line that the code at `address` comes from, by the line table of the
    /// unit whose range covers the address. The table is read when it is first asked, and
    /// kept. Where the ranges ascend, a unit is found if a range covers the address; where
    /// the table is well ordered, the line is found if the table knows one.
    pub fn map_address_to_line(&mut self, address: u64, convert_path: &Converter) -> (r: Result<
        Option<(String, u32)>,
        CargoAsmError,
    >)
        requires
            old(self).well_formed(),
        ensures
            final(self).well_formed(),
            final(self).data() == old(self).data(),
            final(self).base() == old(self).base(),
            final(self).strategy() == old(self).strategy(),
            final(self).ranges() == old(self).ranges(),
            headers_of(final(self).units()) == headers_of(old(self).units()),
            forall|u: int|
                0 <= u < old(self).units().len() && (#[trigger] old(self).units()[u]).loaded_lines()
                    is Some ==> final(self).units()[u] == old(self).units()[u],
            final(self).read_with(*old(self), *convert_path),
            match r {
                Ok(Some((path, line))) => final(self).maps(address, path@, line),
                Ok(None) => (spans_ascend(old(self).ranges()) ==> old(self).uncovered(address))
                    || exists|u: int| #[trigger] final(self).unit_maps_nothing(u, address),
                Err(error) => error is Malformed && final(self).units() == old(self).units()
                    && exists|u: int| #[trigger] old(self).unit_fails(u, address),
            },
    {
        let unit_index = match unit_index_for_address(&self.unit_ranges, address) {
            Some(unit_index) => unit_index,
            None => {
                proof {
                    assert(headers_of(self.units()) =~= headers_of(old(self).units()));
                }
                return Ok(None);
            },
        };
        proof {
            let k = choose|k: int|
                0 <= k < self.unit_ranges@.len() && covers(#[trigger] self.unit_ranges@[k], address)
                    && self.unit_ranges@[k].unit == unit_index;
            assert(covers(self.ranges()[k], address) && self.ranges()[k].unit == unit_index);
        }
        if self.units[unit_index].lines.is_none() {
            let header = self.units[unit_index].header;
            let lines = match self.load_unit(header, convert_path) {
                Ok(lines) => lines,
                Err(error) => {
                    proof {
                        assert(old(self).unit_fails(unit_index as int, address));
                    }
                    return Err(error);
                },
            };
            let ghost before = self.units@;
            self.units.set(unit_index, LazyUnit { header, lines: Some(lines) });
            proof {
                assert forall|u: int| 0 <= u < self.units().len() implies match (
                #[trigger] self.units()[u]).loaded_lines() {
                    Some(lines) => self.is_table_of_unit(lines, u),
                    None => true,
                } by {
                    if u != unit_index {
                        assert(self.units()[u] == before[u]);
                        assert(old(self).units()[u] == before[u]);
                        match old(self).units()[u].loaded_lines() {
                            Some(lines) => {
                                assert(old(self).is_table_of_unit(lines, u));
                            },
                            None => {},
                        }
                    }
                }
                assert(self.ranges() == old(self).ranges());
                assert(self.well_formed());
            }
        }
        proof {
            assert(self.well_formed());
            assert(headers_of(self.units()) =~= headers_of(old(self).units()));
            assert(self.covered_by(address, unit_index as int));
        }
        match &self.units[unit_index].lines {
            Some(lines) => {
                match lines.lines_for_addr(address) {
                    Some((path, line)) => {
                        let found = path.to_owned();
                        proof {
                            assert(self.unit_maps(unit_index as int, address, found@, line));
                        }
                        Ok(Some((found, line)))
                    },
                    None => {
                        proof {
                            assert(self.unit_maps_nothing(unit_index as int, address));
                        }
                        Ok(None)
                    },
                }
            },
            None => Ok(None),
        }
    }
}

/// What maps addresses to source lines, by the kind of the debug information.
pub enum LineMapper<'a> {
    /// There is no debug information.
    NoOp,
    Dwarf(DwarfLineMapper<'a>),
    Pdb(PDBLineMapper),
}

/// What a DWARF mapper that was `before` says of an address, and what it is `after` it was
/// asked: its answer is a line that the table of a unit holds for the address; it has none
/// where no range covers the address or the table of the unit knows no line; it fails where
/// the table of the unit cannot be read. A table that is read is kept, and one that is
/// read now is read with `converter` for the paths that the binary holds.
pub open spec fn dwarf_answers(
    before: DwarfLineMapper,
    after: DwarfLineMapper,
    converter: Converter,
    address: u64,
    r: Result<Option<(String, u32)>, CargoAsmError>,
) -> bool {
    &&& after.well_formed()
    &&& after.data() == before.data()
    &&& after.base() == before.base()
    &&& after.strategy() == before.strategy()
    &&& after.read_with(before, converter)
    &&& after.ranges() == before.ranges()
    &&& headers_of(after.units()) == headers_of(before.units())
    &&& forall|u: int|
        0 <= u < before.units().len() && (#[trigger] before.units()[u]).loaded_lines() is Some
            ==> after.units()[u] == before.units()[u]
    &&& match r {
        Ok(Some((path, line))) => after.maps(address, path@, line),
        Ok(None) => (spans_ascend(before.ranges()) ==> before.uncovered(address)) || exists|u: int|
            #[trigger] after.unit_maps_nothing(u, address),
        Err(error) => error is Malformed && after.units() == before.units() && exists|u: int|
            #[trigger] before.unit_fails(u, address),
    }
}

/// What a PDB mapper that was `before` says of an address, and what it is `after` it was
/// asked: its answer is a line that the module it then remembers holds for the address; it
/// has none where no module knows one.
pub open spec fn pdb_answers(
    before: PDBLineMapper,
    after: PDBLineMapper,
    address: u64,
    r: Result<Option<(String, u32)>, CargoAsmError>,
) -> bool {
    &&& after.modules() == before.modules()
    &&& match r {
        Ok(Some((path, line))) => after.previous() < after.modules().len()
            && after.modules()[after.previous() as int].maps(address, path@, line),
        Ok(None) => after.previous() == 0 && after.none_maps(address),
        Err(_) => false,
    }
}

/// What line mappings that were `before` say of an address, and what they are `after` they
/// were asked: what their mapper says. Without debug information no line is known.
pub open spec fn answers(
    before: LineMappings,
    after: LineMappings,
    address: u64,
    r: Result<Option<(String, u32)>, CargoAsmError>,
) -> bool {
    &&& after.converter() == before.converter()
    &&& match (before.mapper(), after.mapper()) {
        (LineMapper::NoOp, LineMapper::NoOp) => r == Ok::<Option<(String, u32)>, CargoAsmError>(
            None,
        ),
        (LineMapper::Dwarf(b), LineMapper::Dwarf(a)) => dwarf_answers(
            b,
            a,
            before.converter(),
            address,
            r,
        ),
        (LineMapper::Pdb(b), LineMapper::Pdb(a)) => pdb_answers(b, a, address, r),
        _ => false,
    }
}

/// An answer is a line that the mappings know from then on, and what they knew before they
/// know after.
pub proof fn lemma_answers_are_kept(
    before: LineMappings,
    after: LineMappings,
    asked: u64,
    r: Result<Option<(String, u32)>, CargoAsmError>,
)
    requires
        answers(before, after, asked, r),
    ensures
        r matches Ok(Some((path, line))) ==> after.knows(asked, path@, line),
        forall|address: u64, path: Seq<char>, line: u32|
            before.knows(address, path, line) ==> after.knows(address, path, line),
{
    assert forall|address: u64, path: Seq<char>, line: u32|
        before.knows(address, path, line) implies after.knows(address, path, line) by {
        match (before.mapper(), after.mapper()) {
            (LineMapper::Dwarf(b), LineMapper::Dwarf(a)) => {
                let u = choose|u: int| #[trigger] b.unit_maps(u, address, path, line);
                assert(headers_of(a.units()).len() == headers_of(b.units()).len());
                assert(b.units()[u].loaded_lines() is Some);
                assert(a.units()[u] == b.units()[u]);
                assert(a.unit_maps(u, address, path, line));
            },
            (LineMapper::Pdb(b), LineMapper::Pdb(a)) => {},
            _ => {},
        }
    }
}

/// Maps addresses to source lines, with the converter for the paths of the binary.
pub struct LineMappings<'a> {
    mapper: LineMapper<'a>,
    convert_path: Converter,
}

/// Line mappings that know no line.
pub fn no_op_line_mapper() -> (r: LineMappings<'static>)
    ensures
        r.mapper() is NoOp,
        r.converter() is Native,
        r.well_formed(),
{
    LineMappings::new(LineMapper::NoOp, Converter::Native(NativePathConverter))
}

impl<'a> LineMappings<'a> {
    /// The mapper.
    pub closed spec fn mapper(&self) -> LineMapper<'a> {
        self.mapper
    }

    /// The converter for the paths of the binary.
    pub closed spec fn converter(&self) -> Converter {
        self.convert_path
    }

    /// The mapper is well formed.
    pub open spec fn well_formed(&self) -> bool {
        match self.mapper() {
            LineMapper::Dwarf(dwarf) => dwarf.well_formed(),
            _ => true,
        }
    }

    /// The debug information that is read says that the code at `address` comes from line
    /// `line` of the file `path`.
    pub open spec fn knows(&self, address: u64, path: Seq<char>, line: u32) -> bool {
        match self.mapper() {
            LineMapper::NoOp => false,
            LineMapper::Dwarf(dwarf) => dwarf.maps(address, path, line),
            LineMapper::Pdb(pdb) => exists|m: int|
                0 <= m < pdb.modules().len() && (#[trigger] pdb.modules()[m]).maps(
                    address,
                    path,
                    line,
                ),
        }
    }

    pub fn new(mapper: LineMapper<'a>, convert_path: Converter) -> (r: LineMappings<'a>)
        ensures
            r.mapper() == mapper,
            r.converter() == convert_path,
    {
        LineMappings { mapper, convert_path }
    }

    /// The file and the line that the code at `address` comes from, where the debug
    /// information knows: what the mapper says. Without debug information no line is known.
    pub fn get(&mut self, address: u64) -> (r: Result<Option<(String, u32)>, CargoAsmError>)
        requires
            old(self).well_formed(),
        ensures
            final(self).well_formed(),
            answers(*old(self), *final(self), address, r),
    {
        match &mut self.mapper {
            LineMapper::NoOp => Ok(None),
            LineMapper::Dwarf(dwarf) => dwarf.map_address_to_line(address, &self.convert_path),
            LineMapper::Pdb(pdb) => Ok(pdb.map_address_to_line(address)),
        }
    }
}

} // verus!
