use crate::binary::{Binary, BinaryArch, BinaryBits, BinaryEndian, MachDebug, MachExt, ObjectExt};
use crate::order::{find_value, is_sorted_set_of, sorted_distinct};
use crate::symbol::{all_demangled, symbol_models, Symbol, SymbolModel};
use crate::text::{chars_of, string_of, string_of_range, text_of, texts};
use vstd::prelude::*;

verus! {

/// The type of the debugging entry of a function.
pub const MACH_TYPE_FUNC: u8 = 0x24;

/// The bits of a type that mark a debugging entry.
pub const N_STAB: u8 = 0xe0;

/// The number that stands for no section.
pub const NO_SECT: usize = 0;

/// One entry of the symbol table of a Mach-O file.
pub struct MachSymbolEntry {
    pub name: String,
    pub n_type: u8,
    /// The number of the section of the symbol, counted from 1; 0 names none.
    pub n_sect: usize,
    pub n_value: u64,
}

/// The entries of a symbol table up to the first that could not be read.
pub open spec fn readable_entries(found: Seq<Option<MachSymbolEntry>>) -> Seq<MachSymbolEntry>
    decreases found.len(),
{
    if found.len() == 0 {
        Seq::empty()
    } else {
        match found[0] {
            Some(entry) => seq![entry] + readable_entries(found.skip(1)),
            None => Seq::empty(),
        }
    }
}

/// The entries from the `i`th on, up to the first that could not be read, are those from the
/// next one on behind the `i`th, where that one could be read.
proof fn lemma_readable_entries_from(found: Seq<Option<MachSymbolEntry>>, i: int)
    requires
        0 <= i < found.len(),
    ensures
        readable_entries(found.skip(i)) == match found[i] {
            Some(entry) => seq![entry] + readable_entries(found.skip(i + 1)),
            None => Seq::empty(),
        },
{
    assert(found.skip(i)[0] == found[i]);
    assert(found.skip(i).skip(1) =~= found.skip(i + 1));
}

/// The entries of a symbol table up to the first that could not be read.
pub fn readable_symbols(found: &Vec<Option<MachSymbolEntry>>) -> (r: Vec<MachSymbolEntry>)
    ensures
        r@ == readable_entries(found@),
{
    let mut entries: Vec<MachSymbolEntry> = Vec::new();
    let mut i: usize = 0;
    proof {
        assert(found@.skip(0) =~= found@);
    }
    while i < found.len()
        invariant
            i <= found@.len(),
            entries@ + readable_entries(found@.skip(i as int)) == readable_entries(found@),
        decreases found@.len() - i,
    {
        proof {
            lemma_readable_entries_from(found@, i as int);
        }
        match &found[i] {
            Some(entry) => {
                let copy = MachSymbolEntry {
                    name: entry.name.clone(),
                    n_type: entry.n_type,
                    n_sect: entry.n_sect,
                    n_value: entry.n_value,
                };
                proof {
                    assert(entries@.push(copy) + readable_entries(found@.skip(i + 1)) =~= entries@
                        + (seq![copy] + readable_entries(found@.skip(i + 1))));
                }
                entries.push(copy);
            },
            None => {
                proof {
                    assert(entries@ + Seq::<MachSymbolEntry>::empty() =~= entries@);
                }
                return entries;
            },
        }
        i += 1;
    }
    proof {
        assert(found@.skip(found@.len() as int) =~= Seq::<Option<MachSymbolEntry>>::empty());
        assert(entries@ + Seq::<MachSymbolEntry>::empty() =~= entries@);
    }
    entries
}

/// One section of a Mach-O file: where it lies in memory and in the file.
#[derive(Clone, Copy, PartialEq, Eq, Debug, Structural)]
pub struct MachSection {
    pub addr: u64,
    pub offset: usize,
}

/// The entry is a debugging entry.
pub open spec fn is_stab(n_type: u8) -> bool {
    n_type & N_STAB != 0
}

/// The entry is a debugging entry of a section: its address is one at which something
/// begins.
pub open spec fn marks_address(e: MachSymbolEntry) -> bool {
    e.n_sect != NO_SECT && is_stab(e.n_type)
}

/// The addresses of the first `n` entries that mark one, in order.
pub open spec fn marked_addresses(entries: Seq<MachSymbolEntry>, n: int) -> Seq<u64>
    decreases n,
{
    if n <= 0 {
        Seq::empty()
    } else {
        let before = marked_addresses(entries, n - 1);
        if marks_address(entries[n - 1]) {
            before.push(entries[n - 1].n_value)
        } else {
            before
        }
    }
}

/// The symbol that an entry gives, its size not known yet: a debugging entry of a function,
/// with a name, in a section of the file, at the place of its address in the file. An entry
/// whose address lies before its section, or whose place is beyond the machine's word, gives
/// none.
pub open spec fn mach_placement(e: MachSymbolEntry, sections: Seq<MachSection>) -> Option<
    SymbolModel,
> {
    if marks_address(e) && e.n_type == MACH_TYPE_FUNC && e.name@.len() >= 1 && e.n_sect - 1
        < sections.len() && sections[e.n_sect - 1].addr <= e.n_value && ((e.n_value
        - sections[e.n_sect - 1].addr) as u64) as usize + sections[e.n_sect - 1].offset
        <= usize::MAX {
        Some(
            SymbolModel {
                name: e.name@,
                addr: e.n_value,
                offset: (((e.n_value - sections[e.n_sect - 1].addr) as u64) as usize
                    + sections[e.n_sect - 1].offset) as usize,
                size: 0,
            },
        )
    } else {
        None
    }
}

/// The symbols of the first `n` entries, in order, their sizes not known yet.
pub open spec fn mach_raw(entries: Seq<MachSymbolEntry>, sections: Seq<MachSection>, n: int) -> Seq<
    SymbolModel,
>
    decreases n,
{
    if n <= 0 {
        Seq::empty()
    } else {
        let before = mach_raw(entries, sections, n - 1);
        match mach_placement(entries[n - 1], sections) {
            Some(symbol) => before.push(symbol),
            None => before,
        }
    }
}

/// `next` is the lowest of `marks` above `addr`.
pub open spec fn is_next_above(marks: Seq<u64>, addr: u64, next: u64) -> bool {
    &&& marks.contains(next)
    &&& addr < next
    &&& forall|other: u64| marks.contains(other) && addr < other ==> next <= other
}

/// None of `marks` lies above `addr`.
pub open spec fn none_above(marks: Seq<u64>, addr: u64) -> bool {
    forall|other: u64| marks.contains(other) ==> other <= addr
}

/// `sized` is `raw` with its size: the distance to the lowest marked address above it. Where
/// no marked address lies above it, its size stays 0 and its address becomes 0.
pub open spec fn is_sized(raw: SymbolModel, marks: Seq<u64>, sized: SymbolModel) -> bool {
    &&& sized.name == raw.name
    &&& sized.offset == raw.offset
    &&& if none_above(marks, raw.addr) {
        sized.addr == 0 && sized.size == 0
    } else {
        sized.addr == raw.addr && exists|next: u64|
            is_next_above(marks, raw.addr, next) && sized.size == ((next - raw.addr) as u64)
                as usize
    }
}

/// `sized` holds the symbols of `raw`, each with its size.
pub open spec fn all_sized(raw: Seq<SymbolModel>, marks: Seq<u64>, sized: Seq<SymbolModel>) -> bool {
    &&& sized.len() == raw.len()
    &&& forall|i: int| 0 <= i < raw.len() ==> is_sized(raw[i], marks, #[trigger] sized[i])
}

/// A symbol with its size is not empty unless its address is 0, where the distance to the
/// lowest marked address above it fits the machine's word, as every distance does on a
/// machine whose word holds 64 bits.
pub proof fn lemma_sized_not_empty(raw: SymbolModel, marks: Seq<u64>, sized: SymbolModel)
    requires
        is_sized(raw, marks, sized),
        forall|next: u64| is_next_above(marks, raw.addr, next) ==> next - raw.addr <= usize::MAX,
    ensures
        sized.size > 0 || (sized.size == 0 && sized.addr == 0),
{
    if !none_above(marks, raw.addr) {
        let next = choose|next: u64|
            is_next_above(marks, raw.addr, next) && sized.size == ((next - raw.addr) as u64)
                as usize;
        assert(next - raw.addr <= usize::MAX);
    }
}

/// A symbol with its size lies in the file where the lowest marked address above it, taken
/// as far from the symbol in the file as in memory, lies in the file. A symbol above which no
/// address is marked, whose size is 0, lies in the file where it begins in the file.
pub proof fn lemma_sized_in_file(raw: SymbolModel, marks: Seq<u64>, sized: SymbolModel, file_len: int)
    requires
        is_sized(raw, marks, sized),
        forall|next: u64|
            is_next_above(marks, raw.addr, next) ==> raw.offset + (next - raw.addr) <= file_len,
        none_above(marks, raw.addr) ==> raw.offset <= file_len,
        file_len <= usize::MAX,
    ensures
        sized.offset + sized.size <= file_len,
{
    if !none_above(marks, raw.addr) {
        let next = choose|next: u64|
            is_next_above(marks, raw.addr, next) && sized.size == ((next - raw.addr) as u64)
                as usize;
        assert(raw.offset + (next - raw.addr) <= file_len);
    }
}

/// The function symbols of the symbol table of a Mach-O file.
pub fn mach_function_symbols(entries: &Vec<MachSymbolEntry>, sections: &Vec<MachSection>) -> (symbols:
    Vec<Symbol>)
    ensures
        all_sized(
            mach_raw(entries@, sections@, entries@.len() as int),
            marked_addresses(entries@, entries@.len() as int),
            symbol_models(symbols@),
        ),
        all_demangled(symbols@),
{
    let mut picked: Vec<usize> = Vec::new();
    let mut offsets: Vec<usize> = Vec::new();
    let mut symbol_addresses: Vec<u64> = Vec::new();
    let ghost mut raw: Seq<SymbolModel> = Seq::empty();
    let mut i: usize = 0;
    while i < entries.len()
        invariant
            i <= entries@.len(),
            raw == mach_raw(entries@, sections@, i as int),
            symbol_addresses@ == marked_addresses(entries@, i as int),
            picked@.len() == raw.len(),
            offsets@.len() == raw.len(),
            forall|k: int|
                0 <= k < raw.len() ==> (#[trigger] picked@[k]) < entries@.len()
                    && entries@[picked@[k] as int].name@ == raw[k].name
                    && entries@[picked@[k] as int].n_value == raw[k].addr,
            forall|k: int| 0 <= k < raw.len() ==> symbol_addresses@.contains((#[trigger] raw[k]).addr),
            forall|k: int| 0 <= k < raw.len() ==> (#[trigger] offsets@[k]) == raw[k].offset,
        decreases entries@.len() - i,
    {
        let sym = &entries[i];
        let index = i;
        let ghost marks_before = symbol_addresses@;
        i += 1;
        if sym.n_sect == NO_SECT || sym.n_type & N_STAB == 0 {
            continue ;
        }
        let sym_addr = sym.n_value;
        symbol_addresses.push(sym_addr);
        proof {
            assert forall|k: int| 0 <= k < raw.len() implies symbol_addresses@.contains(
                (#[trigger] raw[k]).addr,
            ) by {
                assert(marks_before.contains(raw[k].addr));
                let w = choose|w: int| 0 <= w < marks_before.len() && marks_before[w] == raw[k].addr;
                assert(symbol_addresses@[w] == raw[k].addr);
            }
        }
        if sym.n_type != MACH_TYPE_FUNC || sym.name.as_str().unicode_len() < 1 {
            continue ;
        }
        if sym.n_sect - 1 >= sections.len() {
            continue ;
        }
        let section = sections[sym.n_sect - 1];
        if sym_addr < section.addr {
            continue ;
        }
        let distance = #[verifier::truncate]
        ((sym_addr - section.addr) as usize);
        if distance > usize::MAX - section.offset {
            continue ;
        }
        let sym_offset = distance + section.offset;
        picked.push(index);
        offsets.push(sym_offset);
        proof {
            raw = raw.push(mach_placement(entries@[index as int], sections@)->0);
            assert(symbol_addresses@[symbol_addresses@.len() - 1] == sym_addr);
        }
    }
    let ghost marks = symbol_addresses@;
    let addresses = sorted_distinct(&symbol_addresses);
    let n = picked.len();
    let mut symbols: Vec<Symbol> = Vec::new();
    let mut k: usize = 0;
    while k < n
        invariant
            k <= n,
            n == raw.len(),
            picked@.len() == n,
            offsets@.len() == n,
            is_sorted_set_of(addresses@, marks),
            forall|a: int|
                0 <= a < n ==> (#[trigger] picked@[a]) < entries@.len()
                    && entries@[picked@[a] as int].name@ == raw[a].name
                    && entries@[picked@[a] as int].n_value == raw[a].addr,
            forall|a: int| 0 <= a < n ==> marks.contains((#[trigger] raw[a]).addr),
            forall|a: int| 0 <= a < n ==> (#[trigger] offsets@[a]) == raw[a].offset,
            symbols@.len() == k,
            forall|a: int|
                0 <= a < k ==> is_sized(raw[a], marks, (#[trigger] symbols@[a]).model()),
            all_demangled(symbols@),
        decreases n - k,
    {
        let entry = &entries[picked[k]];
        let addr = entry.n_value;
        let ghost here = raw[k as int];
        let mut sized_addr: u64 = 0;
        let mut size: usize = 0;
        let marked = addresses.len();
        match find_value(&addresses, addr) {
            Some(idx) => {
                if idx < marked - 1 {
                    let next_addr = addresses[idx + 1];
                    proof {
                        assert(addresses@[idx as int] < addresses@[idx + 1]);
                        assert(addresses@.contains(next_addr));
                        assert forall|other: u64|
                            marks.contains(other) && addr < other implies next_addr <= other by {
                            assert(addresses@.contains(other));
                            let w = choose|w: int|
                                0 <= w < addresses@.len() && addresses@[w] == other;
                            if w <= idx {
                                if w < idx {
                                    assert(addresses@[w] < addresses@[idx as int]);
                                }
                            } else if w > idx + 1 {
                                assert(addresses@[idx + 1] < addresses@[w]);
                            }
                        }
                        assert(is_next_above(marks, addr, next_addr));
                        assert(!none_above(marks, addr));
                    }
                    sized_addr = addr;
                    size = #[verifier::truncate]
                    ((next_addr - addr) as usize);
                } else {
                    proof {
                        assert forall|other: u64| marks.contains(other) implies other <= addr by {
                            assert(addresses@.contains(other));
                            let w = choose|w: int|
                                0 <= w < addresses@.len() && addresses@[w] == other;
                            if w < idx {
                                assert(addresses@[w] < addresses@[idx as int]);
                            }
                        }
                    }
                }
            },
            None => {
                proof {
                    assert(marks.contains(here.addr));
                    assert(addresses@.contains(addr));
                }
            },
        }
        let symbol = Symbol::new(entry.name.as_str(), sized_addr, offsets[k], size);
        symbols.push(symbol);
        k += 1;
    }
    proof {
        assert(entries@.len() as int == entries@.len());
    }
    symbols
}

/// `binary` is what a Mach-O object holds whose header has the fields `is_64`,
/// `little_endian` and `cputype`, and whose symbol table and sections are `entries` and
/// `sections`. Its debug information lies in the file `external_dwarf`, where there is one,
/// else in the object itself.
pub open spec fn is_mach_binary(
    binary: Binary,
    is_64: bool,
    little_endian: bool,
    cputype: u32,
    entries: Seq<MachSymbolEntry>,
    sections: Seq<MachSection>,
    external_dwarf: Option<Seq<char>>,
) -> bool {
    &&& binary.bits == if is_64 {
        BinaryBits::Bits64
    } else {
        BinaryBits::Bits32
    }
    &&& binary.endian == if little_endian {
        BinaryEndian::Little
    } else {
        BinaryEndian::Big
    }
    &&& binary.arch == BinaryArch::mach_cpu_type(cputype)
    &&& match external_dwarf {
        Some(path) => binary.object matches ObjectExt::Mach(ext) && ext.debug
            matches MachDebug::External(found) && found@ == path,
        None => binary.object matches ObjectExt::Mach(ext) && ext.debug is Internal,
    }
    &&& all_sized(
        mach_raw(entries, sections, entries.len() as int),
        marked_addresses(entries, entries.len() as int),
        symbol_models(binary.symbols@),
    )
    &&& all_demangled(binary.symbols@)
}

/// The binary that a Mach-O object holds. `external_dwarf` is the file that holds its debug
/// information, where one was found beside it. An architecture that is not known is
/// `Unknown`.
pub fn analyze_mach_object(
    is_64: bool,
    little_endian: bool,
    cputype: u32,
    cpusubtype: u32,
    entries: &Vec<MachSymbolEntry>,
    sections: &Vec<MachSection>,
    external_dwarf: Option<String>,
) -> (r: Binary)
    ensures
        is_mach_binary(
            r,
            is_64,
            little_endian,
            cputype,
            entries@,
            sections@,
            text_of(external_dwarf),
        ),
{
    let bits = if is_64 {
        BinaryBits::Bits64
    } else {
        BinaryBits::Bits32
    };
    let endian = BinaryEndian::from_little(little_endian);
    let arch = BinaryArch::or_unknown(BinaryArch::from_mach_cpu_types(cputype, cpusubtype));
    let symbols = mach_function_symbols(entries, sections);
    let ext = match external_dwarf {
        Some(path) => MachExt { debug: MachDebug::External(path) },
        None => MachExt { debug: MachDebug::Internal },
    };
    Binary { bits, arch, endian, symbols, object: ObjectExt::Mach(ext) }
}

/// A section name without the `.` or the `__` that it begins with.
pub open spec fn fixed_section_name(name: Seq<char>) -> Seq<char> {
    if name.len() >= 1 && name[0] == '.' {
        name.skip(1)
    } else if name.len() >= 2 && name[0] == '_' && name[1] == '_' {
        name.skip(2)
    } else {
        name
    }
}

/// Mach-O section names use __ instead of ., so I just remove those from section names to
/// make things simpler.
pub fn fix_section_name(name: &str) -> (r: String)
    ensures
        r@ == fixed_section_name(name@),
{
    let chars = chars_of(name);
    let len = chars.len();
    if len >= 1 && chars[0] == '.' {
        string_of_range(&chars, 1, len)
    } else if len >= 2 && chars[0] == '_' && chars[1] == '_' {
        string_of_range(&chars, 2, len)
    } else {
        string_of(&chars)
    }
}

/// The first section whose name, without what it begins with, is that of `name`.
pub fn get_section_by_name(names: &Vec<String>, name: &str) -> (r: Option<usize>)
    ensures
        match r {
            Some(i) => i < names@.len() && fixed_section_name(names@[i as int]@)
                == fixed_section_name(name@) && forall|k: int|
                0 <= k < i ==> fixed_section_name(names@[k]@) != fixed_section_name(name@),
            None => forall|k: int|
                0 <= k < names@.len() ==> fixed_section_name(names@[k]@) != fixed_section_name(
                    name@,
                ),
        },
{
    let wanted = fix_section_name(name);
    let mut i: usize = 0;
    while i < names.len()
        invariant
            i <= names@.len(),
            wanted@ == fixed_section_name(name@),
            forall|k: int| 0 <= k < i ==> fixed_section_name(names@[k]@) != wanted@,
        decreases names@.len() - i,
    {
        let fixed = fix_section_name(names[i].as_str());
        if crate::text::same_text(fixed.as_str(), wanted.as_str()) {
            return Some(i);
        }
        i += 1;
    }
    None
}

/// The names of the directories and of the file that lead from the directory of a binary to
/// the file that holds its debug information: the bundle named after the binary without its
/// extension, and in it the file named as the binary.
pub open spec fn dsym_parts(stem: Seq<char>, file_name: Seq<char>) -> Seq<Seq<char>> {
    seq![
        stem + seq!['.', 'd', 'S', 'Y', 'M'],
        seq!['C', 'o', 'n', 't', 'e', 'n', 't', 's'],
        seq!['R', 'e', 's', 'o', 'u', 'r', 'c', 'e', 's'],
        seq!['D', 'W', 'A', 'R', 'F'],
        file_name,
    ]
}

/// The names of the directories and of the file that lead from the directory of a binary to
/// the file that holds its debug information.
pub fn find_external_dwarf(binary_stem: &str, binary_file_name: &str) -> (r: Vec<String>)
    ensures
        texts(r@) == dsym_parts(binary_stem@, binary_file_name@),
{
    let mut bundle = chars_of(binary_stem);
    bundle.push('.');
    bundle.push('d');
    bundle.push('S');
    bundle.push('Y');
    bundle.push('M');
    proof {
        reveal_strlit("Contents");
        reveal_strlit("Resources");
        reveal_strlit("DWARF");
    }
    let mut parts: Vec<String> = Vec::new();
    parts.push(string_of(&bundle));
    parts.push("Contents".to_owned());
    parts.push("Resources".to_owned());
    parts.push("DWARF".to_owned());
    parts.push(binary_file_name.to_owned());
    proof {
        assert(bundle@ =~= binary_stem@ + seq!['.', 'd', 'S', 'Y', 'M']);
        assert("Contents"@ =~= seq!['C', 'o', 'n', 't', 'e', 'n', 't', 's']);
        assert("Resources"@ =~= seq!['R', 'e', 's', 'o', 'u', 'r', 'c', 'e', 's']);
        assert("DWARF"@ =~= seq!['D', 'W', 'A', 'R', 'F']);
        assert(texts(parts@) =~= dsym_parts(binary_stem@, binary_file_name@));
    }
    parts
}

/// The file that holds the debug information of a binary: the one with the name of the
/// binary, where that is a file, else the first of the files of its directory.
pub fn choose_external_dwarf(exact: String, exact_is_file: bool, files: Vec<String>) -> (r: Option<
    String,
>)
    ensures
        r == if exact_is_file {
            Some(exact)
        } else if files@.len() > 0 {
            Some(files@[0])
        } else {
            None
        },
{
    if exact_is_file {
        return Some(exact);
    }
    let mut files = files;
    if files.len() > 0 {
        // The first file that is found is used: sometimes its name ends in a hash.
        Some(files.swap_remove(0))
    } else {
        None
    }
}

} // verus!
