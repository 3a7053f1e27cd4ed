use crate::lines::{covers, find_containing, spans_ascend, Spanned};
use crate::order::{key_order, stable_order};
use crate::strategy::FileResolveStrategy;
use std::ops::Range;
use vstd::prelude::*;

verus! {

/// One record of the line program of a module of a PDB file.
#[derive(Clone, Copy, PartialEq, Eq, Debug, Structural)]
pub struct PdbLineInfo {
    /// The number of the section of the code, counted from 1; 0 names none.
    pub section: u16,
    /// The place of the code in its section.
    pub offset: u32,
    /// The length of the code, where it is known.
    pub length: Option<u32>,
    pub line_start: u32,
    pub line_end: u32,
    /// The number of the file among those of the module.
    pub file_index: usize,
}

/// The code at the addresses `range` comes from the lines `line_start ..= line_end` of file
/// number `file`.
pub struct PdbSequence {
    pub range: Range<u64>,
    pub line_start: u32,
    pub line_end: u32,
    pub file: usize,
}

impl Spanned for PdbSequence {
    open spec fn span_start(&self) -> u64 {
        self.range.start
    }

    open spec fn span_end(&self) -> u64 {
        self.range.end
    }

    fn first_address(&self) -> (r: u64) {
        self.range.start
    }

    fn end_address(&self) -> (r: u64) {
        self.range.end
    }
}

/// What a sequence holds.
pub struct PdbSequenceModel {
    pub start: u64,
    pub end: u64,
    pub line_start: u32,
    pub line_end: u32,
    pub file: usize,
}

impl PdbSequence {
    /// What the sequence holds.
    pub open spec fn model(&self) -> PdbSequenceModel {
        PdbSequenceModel {
            start: self.range.start,
            end: self.range.end,
            line_start: self.line_start,
            line_end: self.line_end,
            file: self.file,
        }
    }
}

/// What each of the sequences holds.
pub open spec fn pdb_models(sequences: Seq<PdbSequence>) -> Seq<PdbSequenceModel> {
    Seq::new(sequences.len(), |i: int| sequences[i].model())
}

/// The length of the code of a record: at least 1, and 1 where it is not known.
pub open spec fn code_length(info: PdbLineInfo) -> int {
    match info.length {
        Some(length) => if length >= 1 {
            length as int
        } else {
            1
        },
        None => 1,
    }
}

/// The sequence that a record gives: for a record of a section whose address is known, the
/// addresses from that of the section plus the offset of the record, over the length of its
/// code. A record whose addresses are beyond 64 bits gives none.
pub open spec fn record_sequence(info: PdbLineInfo, section_addresses: Seq<u64>) -> Option<
    PdbSequenceModel,
> {
    if info.section > 0 && info.section - 1 < section_addresses.len()
        && section_addresses[info.section - 1] + info.offset + code_length(info) <= u64::MAX {
        Some(
            PdbSequenceModel {
                start: (section_addresses[info.section - 1] + info.offset) as u64,
                end: (section_addresses[info.section - 1] + info.offset + code_length(info))
                    as u64,
                line_start: info.line_start,
                line_end: info.line_end,
                file: info.file_index,
            },
        )
    } else {
        None
    }
}

/// The sequences of the first `n` records, in order.
pub open spec fn raw_sequences(records: Seq<PdbLineInfo>, section_addresses: Seq<u64>, n: int) -> Seq<
    PdbSequenceModel,
>
    decreases n,
{
    if n <= 0 {
        Seq::empty()
    } else {
        let before = raw_sequences(records, section_addresses, n - 1);
        match record_sequence(records[n - 1], section_addresses) {
            Some(sequence) => before.push(sequence),
            None => before,
        }
    }
}

/// The start of each sequence.
pub open spec fn pdb_starts(sequences: Seq<PdbSequenceModel>) -> Seq<u64> {
    Seq::new(sequences.len(), |i: int| sequences[i].start)
}

/// The sequences of a module: those of its records, in ascending order of start; sequences
/// with the same start keep their order.
pub open spec fn module_sequences(records: Seq<PdbLineInfo>, section_addresses: Seq<u64>) -> Seq<
    PdbSequenceModel,
> {
    let raw = raw_sequences(records, section_addresses, records.len() as int);
    let order = key_order(pdb_starts(raw));
    Seq::new(order.len(), |i: int| raw[order[i]])
}

/// The sequences of a module are in ascending order of start.
pub proof fn lemma_module_sequences_ordered(records: Seq<PdbLineInfo>, section_addresses: Seq<u64>)
    ensures
        forall|a: int, b: int|
            0 <= a < b < module_sequences(records, section_addresses).len() ==> module_sequences(
                records,
                section_addresses,
            )[a].start <= module_sequences(records, section_addresses)[b].start,
{
    let raw = raw_sequences(records, section_addresses, records.len() as int);
    let starts = pdb_starts(raw);
    crate::order::lemma_sort_indices(starts, starts.len() as int);
    let order = key_order(starts);
    let out = module_sequences(records, section_addresses);
    assert forall|a: int, b: int| 0 <= a < b < out.len() implies out[a].start <= out[b].start by {
        assert(starts[order[a]] <= starts[order[b]]);
    }
}

/// The code of the record lies at `address`.
pub open spec fn record_covers(info: PdbLineInfo, section_addresses: Seq<u64>, address: u64) -> bool {
    match record_sequence(info, section_addresses) {
        Some(sequence) => sequence.start <= address < sequence.end,
        None => false,
    }
}

/// The first record of a line program whose code lies at `address`, found by looking at the
/// records one by one.
pub fn find_address_in_line_program(
    address: u64,
    section_addresses: &[u64],
    records: &Vec<PdbLineInfo>,
) -> (r: Option<usize>)
    ensures
        match r {
            Some(i) => i < records@.len() && record_covers(
                records@[i as int],
                section_addresses@,
                address,
            ) && forall|k: int|
                0 <= k < i ==> !record_covers(#[trigger] records@[k], section_addresses@, address),
            None => forall|k: int|
                0 <= k < records@.len() ==> !record_covers(
                    #[trigger] records@[k],
                    section_addresses@,
                    address,
                ),
        },
{
    let mut i: usize = 0;
    while i < records.len()
        invariant
            i <= records@.len(),
            forall|k: int|
                0 <= k < i ==> !record_covers(#[trigger] records@[k], section_addresses@, address),
        decreases records@.len() - i,
    {
        let line_info = &records[i];
        if line_info.section != 0 && ((line_info.section - 1) as usize) < section_addresses.len() {
            let section_addr = section_addresses[(line_info.section - 1) as usize];
            let length: u64 = match line_info.length {
                Some(length) => if length >= 1 {
                    length as u64
                } else {
                    1
                },
                None => 1,
            };
            if let Some(line_start_address) = section_addr.checked_add(line_info.offset as u64) {
                if let Some(line_end_address) = line_start_address.checked_add(length) {
                    if line_start_address <= address && address < line_end_address {
                        return Some(i);
                    }
                }
            }
        }
        i += 1;
    }
    None
}

/// The sequences of the line program of a module, in ascending order of start.
pub fn load_lines(records: &Vec<PdbLineInfo>, section_addresses: &Vec<u64>) -> (out: Vec<
    PdbSequence,
>)
    ensures
        pdb_models(out@) == module_sequences(records@, section_addresses@),
        forall|a: int, b: int|
            0 <= a < b < out@.len() ==> out@[a].range.start <= out@[b].range.start,
{
    let mut raw: Vec<PdbLineInfo> = Vec::new();
    let mut starts: Vec<u64> = Vec::new();
    let mut ends: Vec<u64> = Vec::new();
    let ghost mut found: Seq<PdbSequenceModel> = Seq::empty();
    let mut i: usize = 0;
    while i < records.len()
        invariant
            i <= records@.len(),
            found == raw_sequences(records@, section_addresses@, i as int),
            raw@.len() == found.len(),
            starts@.len() == found.len(),
            ends@.len() == found.len(),
            forall|k: int|
                0 <= k < found.len() ==> (#[trigger] found[k]) == (PdbSequenceModel {
                    start: starts@[k],
                    end: ends@[k],
                    line_start: raw@[k].line_start,
                    line_end: raw@[k].line_end,
                    file: raw@[k].file_index,
                }),
        decreases records@.len() - i,
    {
        let line_info = records[i];
        i += 1;
        if line_info.section == 0 {
            continue ;
        }
        let section_index = (line_info.section - 1) as usize;
        if section_index >= section_addresses.len() {
            continue ;
        }
        let section_addr = section_addresses[section_index];
        let length: u64 = match line_info.length {
            Some(length) => if length >= 1 {
                length as u64
            } else {
                1
            },
            None => 1,
        };
        let relative = line_info.offset as u64 + length;
        if section_addr > u64::MAX - relative {
            continue ;
        }
        let address_start = section_addr + line_info.offset as u64;
        let address_end = address_start + length;
        raw.push(line_info);
        starts.push(address_start);
        ends.push(address_end);
        proof {
            found = found.push(record_sequence(line_info, section_addresses@)->0);
        }
    }
    proof {
        assert(starts@ =~= pdb_starts(found));
        crate::order::lemma_sort_indices(starts@, starts@.len() as int);
    }
    let order = stable_order(&starts);
    let n = order.len();
    let ghost wanted = module_sequences(records@, section_addresses@);
    let mut out: Vec<PdbSequence> = Vec::new();
    let mut k: usize = 0;
    while k < n
        invariant
            k <= n,
            n == found.len(),
            raw@.len() == n,
            starts@.len() == n,
            ends@.len() == n,
            order@.len() == n,
            key_order(starts@).len() == n,
            forall|a: int| 0 <= a < n ==> #[trigger] order@[a] == key_order(starts@)[a],
            forall|a: int| 0 <= a < n ==> #[trigger] order@[a] < n,
            forall|a: int|
                0 <= a < n ==> (#[trigger] found[a]) == (PdbSequenceModel {
                    start: starts@[a],
                    end: ends@[a],
                    line_start: raw@[a].line_start,
                    line_end: raw@[a].line_end,
                    file: raw@[a].file_index,
                }),
            wanted == Seq::new(n as nat, |i: int| found[key_order(starts@)[i]]),
            out@.len() == k,
            forall|a: int| 0 <= a < k ==> (#[trigger] out@[a]).model() == wanted[a],
        decreases n - k,
    {
        let here = order[k];
        proof {
            assert(found[here as int].start == starts@[here as int]);
        }
        out.push(
            PdbSequence {
                range: starts[here]..ends[here],
                line_start: raw[here].line_start,
                line_end: raw[here].line_end,
                file: raw[here].file_index,
            },
        );
        k += 1;
    }
    proof {
        assert(pdb_models(out@) =~= wanted);
        lemma_module_sequences_ordered(records@, section_addresses@);
        assert forall|a: int, b: int| 0 <= a < b < out@.len() implies out@[a].range.start
            <= out@[b].range.start by {
            assert(out@[a].model() == wanted[a]);
            assert(out@[b].model() == wanted[b]);
        }
    }
    out
}

/// One module of a PDB file: the records of its line program and the names of its files.
pub struct PdbModule {
    pub lines: Vec<PdbLineInfo>,
    pub files: Vec<String>,
}

/// A module with the sequences of its line program.
pub struct LazyModule {
    files: Vec<String>,
    sequences: Vec<PdbSequence>,
}

impl LazyModule {
    /// The sequences of the module.
    pub closed spec fn sequences(&self) -> Seq<PdbSequence> {
        self.sequences@
    }

    /// The names of the files of the module.
    pub closed spec fn files(&self) -> Seq<String> {
        self.files@
    }

    /// Sequence `k` of the module says that the code at `addr` comes from line `line` of the
    /// file `path`.
    pub open spec fn maps_at(&self, k: int, addr: u64, path: Seq<char>, line: u32) -> bool {
        &&& 0 <= k < self.sequences().len()
        &&& covers(self.sequences()[k], addr)
        &&& self.sequences()[k].file < self.files().len()
        &&& self.files()[self.sequences()[k].file as int]@ == path
        &&& self.sequences()[k].line_start == line
    }

    /// The module says that the code at `addr` comes from line `line` of the file `path`.
    pub open spec fn maps(&self, addr: u64, path: Seq<char>, line: u32) -> bool {
        exists|k: int| self.maps_at(k, addr, path, line)
    }

    /// Both the starts and the ends of the sequences ascend, and each names a file of the
    /// module.
    pub open spec fn well_ordered(&self) -> bool {
        &&& spans_ascend(self.sequences())
        &&& forall|k: int|
            0 <= k < self.sequences().len() ==> (#[trigger] self.sequences()[k]).file
                < self.files().len()
    }

    pub fn new(module: PdbModule, section_addresses: &Vec<u64>) -> (r: LazyModule)
        ensures
            pdb_models(r.sequences()) == module_sequences(module.lines@, section_addresses@),
            r.files() == module.files@,
    {
        let sequences = load_lines(&module.lines, section_addresses);
        LazyModule { files: module.files, sequences }
    }

    /// The file and the first line that the code at `addr` comes from: those of a sequence
    /// that covers the address, found by halving. Where the module is well ordered and
    /// nothing is found, no sequence covers the address.
    pub fn addr2line(&self, addr: u64) -> (r: Option<(String, u32)>)
        ensures
            match r {
                Some((path, line)) => self.maps(addr, path@, line),
                None => self.well_ordered() ==> forall|path: Seq<char>, line: u32|
                    !self.maps(addr, path, line),
            },
    {
        match find_containing(self.sequences.as_slice(), addr) {
            None => {
                proof {
                    if self.well_ordered() {
                        assert forall|path: Seq<char>, line: u32| !self.maps(addr, path, line) by {
                            if self.maps(addr, path, line) {
                                let k = choose|k: int| self.maps_at(k, addr, path, line);
                                assert(covers(self.sequences@[k], addr));
                            }
                        }
                    }
                }
                None
            },
            Some(k) => {
                let sequence = &self.sequences[k];
                if sequence.file < self.files.len() {
                    let path = self.files[sequence.file].clone();
                    proof {
                        assert(self.maps_at(k as int, addr, path@, sequence.line_start));
                    }
                    Some((path, sequence.line_start))
                } else {
                    None
                }
            },
        }
    }
}

/// Maps addresses to source lines with the line programs of the modules of a PDB file.
pub struct PDBLineMapper {
    modules: Vec<LazyModule>,
    base_directory: String,
    resolve_strategy: FileResolveStrategy,
    previous_module_index: usize,
}

impl PDBLineMapper {
    /// The modules of the mapper.
    pub closed spec fn modules(&self) -> Seq<LazyModule> {
        self.modules@
    }

    /// The module in which an address was last found.
    pub closed spec fn previous(&self) -> usize {
        self.previous_module_index
    }

    /// No module that is well ordered says where the code at `address` comes from.
    pub open spec fn none_maps(&self, address: u64) -> bool {
        forall|i: int|
            0 <= i < self.modules().len() && (#[trigger] self.modules()[i]).well_ordered()
                ==> forall|path: Seq<char>, line: u32| !self.modules()[i].maps(address, path, line)
    }

    /// A mapper for the modules of a PDB file, whose sections are loaded at
    /// `section_addresses`.
    pub fn new(
        section_addresses: Vec<u64>,
        modules: Vec<PdbModule>,
        base_directory: &str,
        resolve_strategy: FileResolveStrategy,
    ) -> (r: PDBLineMapper)
        ensures
            r.previous() == 0,
            r.modules().len() == modules@.len(),
            forall|i: int|
                0 <= i < modules@.len() ==> pdb_models((#[trigger] r.modules()[i]).sequences())
                    == module_sequences(modules@[i].lines@, section_addresses@)
                    && r.modules()[i].files() == modules@[i].files@,
    {
        let ghost all = modules@;
        let mut lazy: Vec<LazyModule> = Vec::new();
        let mut rest = modules;
        let mut taken: Vec<PdbModule> = Vec::new();
        // The modules are taken from the back, and put back in order afterwards.
        while rest.len() > 0
            invariant
                rest@.len() + taken@.len() == all.len(),
                forall|i: int| 0 <= i < rest@.len() ==> rest@[i] == all[i],
                forall|i: int|
                    0 <= i < taken@.len() ==> taken@[i] == all[all.len() - 1 - i],
            decreases rest@.len(),
        {
            let module = rest.pop().unwrap();
            taken.push(module);
        }
        while taken.len() > 0
            invariant
                lazy@.len() + taken@.len() == all.len(),
                forall|i: int|
                    0 <= i < taken@.len() ==> taken@[i] == all[all.len() - 1 - i],
                forall|i: int|
                    0 <= i < lazy@.len() ==> pdb_models((#[trigger] lazy@[i]).sequences())
                        == module_sequences(all[i].lines@, section_addresses@)
                        && lazy@[i].files() == all[i].files@,
            decreases taken@.len(),
        {
            let module = taken.pop().unwrap();
            lazy.push(LazyModule::new(module, &section_addresses));
        }
        PDBLineMapper {
            modules: lazy,
            base_directory: base_directory.to_owned(),
            resolve_strategy,
            previous_module_index: 0,
        }
    }

    /// The file and the line that the code at `address` comes from. The module in which an
    /// address was last found is asked first, then the modules in order; the module that
    /// answers is remembered.
    pub fn map_address_to_line(&mut self, address: u64) -> (r: Option<(String, u32)>)
        ensures
            final(self).modules() == old(self).modules(),
            match r {
                Some((path, line)) => final(self).previous() < final(self).modules().len()
                    && final(self).modules()[final(self).previous() as int].maps(
                    address,
                    path@,
                    line,
                ),
                None => final(self).previous() == 0 && final(self).none_maps(address),
            },
    {
        if self.previous_module_index != 0 && self.previous_module_index < self.modules.len() {
            if let Some(found) = self.modules[self.previous_module_index].addr2line(address) {
                return Some(found);
            }
        }
        let mut idx: usize = 0;
        while idx < self.modules.len()
            invariant
                idx <= self.modules@.len(),
                self.modules@ == old(self).modules@,
                forall|i: int|
                    0 <= i < idx && (#[trigger] self.modules@[i]).well_ordered() ==> forall|
                        path: Seq<char>,
                        line: u32,
                    | !self.modules@[i].maps(address, path, line),
            decreases self.modules@.len() - idx,
        {
            if let Some(found) = self.modules[idx].addr2line(address) {
                self.previous_module_index = idx;
                return Some(found);
            }
            idx += 1;
        }
        self.previous_module_index = 0;
        None
    }
}

} // verus!
