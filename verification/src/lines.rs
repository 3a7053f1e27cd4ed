use std::ops::Range;
use vstd::prelude::*;

verus! {

/// Something that covers the addresses from `span_start()` up to, not including,
/// `span_end()`.
pub trait Spanned {
    spec fn span_start(&self) -> u64;

    spec fn span_end(&self) -> u64;

    fn first_address(&self) -> (r: u64)
        ensures
            r == self.span_start(),
    ;

    fn end_address(&self) -> (r: u64)
        ensures
            r == self.span_end(),
    ;
}

/// `item` covers `addr`.
pub open spec fn covers<T: Spanned>(item: T, addr: u64) -> bool {
    item.span_start() <= addr < item.span_end()
}

/// Both the starts and the ends of the items ascend: what a search by halving needs.
pub open spec fn spans_ascend<T: Spanned>(items: Seq<T>) -> bool {
    forall|a: int, b: int|
        0 <= a < b < items.len() ==> items[a].span_start() <= items[b].span_start()
            && items[a].span_end() <= items[b].span_end()
}

/// The items are in ascending order and no two of them cover a common address.
pub open spec fn spans_apart<T: Spanned>(items: Seq<T>) -> bool {
    &&& forall|a: int| 0 <= a < items.len() ==> (#[trigger] items[a]).span_start() <= items[a].span_end()
    &&& forall|a: int, b: int|
        0 <= a < b < items.len() ==> items[a].span_end() <= items[b].span_start()
}

/// Items that are in order and apart ascend in both their starts and their ends, and at most
/// one of them covers an address.
pub proof fn lemma_spans_apart<T: Spanned>(items: Seq<T>)
    requires
        spans_apart(items),
    ensures
        spans_ascend(items),
        forall|a: int, b: int, addr: u64|
            0 <= a < items.len() && 0 <= b < items.len() && covers(items[a], addr) && covers(
                items[b],
                addr,
            ) ==> a == b,
{
    assert forall|a: int, b: int| 0 <= a < b < items.len() implies items[a].span_start()
        <= items[b].span_start() && items[a].span_end() <= items[b].span_end() by {
        assert(items[a].span_start() <= items[a].span_end());
        assert(items[b].span_start() <= items[b].span_end());
    }
}

/// An item that covers `addr`, found by halving. Where the starts and the ends of the items
/// ascend, one is found if there is one.
pub fn find_containing<T: Spanned>(items: &[T], addr: u64) -> (r: Option<usize>)
    ensures
        match r {
            Some(i) => i < items@.len() && covers(items@[i as int], addr),
            None => spans_ascend(items@) ==> forall|k: int|
                0 <= k < items@.len() ==> !covers(#[trigger] items@[k], addr),
        },
{
    let len = items.len();
    let mut low: usize = 0;
    let mut high: usize = len;
    while low < high
        invariant
            low <= high <= len,
            len == items@.len(),
            spans_ascend(items@) ==> forall|k: int|
                0 <= k < low ==> (#[trigger] items@[k]).span_end() <= addr,
            spans_ascend(items@) ==> forall|k: int|
                high <= k < len ==> (#[trigger] items@[k]).span_start() > addr,
        decreases high - low,
    {
        let mid = low + (high - low) / 2;
        if items[mid].first_address() > addr {
            proof {
                if spans_ascend(items@) {
                    assert forall|k: int| mid <= k < len implies (#[trigger] items@[k]).span_start()
                        > addr by {
                        if k > mid {
                            assert(items@[mid as int].span_start() <= items@[k].span_start());
                        }
                    }
                }
            }
            high = mid;
        } else if items[mid].end_address() <= addr {
            proof {
                if spans_ascend(items@) {
                    assert forall|k: int| 0 <= k < mid + 1 implies (#[trigger] items@[k]).span_end()
                        <= addr by {
                        if k < mid {
                            assert(items@[k].span_end() <= items@[mid as int].span_end());
                        }
                    }
                }
            }
            low = mid + 1;
        } else {
            return Some(mid);
        }
    }
    None
}

/// One row of a line table: the code at `addr` comes from line `line` of file number `file`.
#[derive(Clone, Copy, PartialEq, Eq, Debug, Structural)]
pub struct Line {
    pub addr: u64,
    pub file: usize,
    pub line: u32,
}

/// Contiguous sequence of bytes and their associated lines.
pub struct Sequence {
    pub range: Range<u64>,
    pub lines: Vec<Line>,
}

impl Spanned for Sequence {
    open spec fn span_start(&self) -> u64 {
        self.range.start
    }

    open spec fn span_end(&self) -> u64 {
        self.range.end
    }

    fn first_address(&self) -> (r: u64) {
        self.range.start
    }

    fn end_address(&self) -> (r: u64) {
        self.range.end
    }
}

/// The line table of one unit of a program.
pub struct Lines {
    pub sequences: Vec<Sequence>,
    pub files: Vec<String>,
}

/// The addresses of the rows ascend strictly.
pub open spec fn lines_ascend(lines: Seq<Line>) -> bool {
    forall|a: int, b: int| 0 <= a < b < lines.len() ==> lines[a].addr < lines[b].addr
}

/// The row of `lines` at the address `addr`, found by halving. Where the addresses ascend
/// strictly, it is found if there is one.
pub fn find_line(lines: &Vec<Line>, addr: u64) -> (r: Option<usize>)
    ensures
        match r {
            Some(i) => i < lines@.len() && lines@[i as int].addr == addr,
            None => lines_ascend(lines@) ==> forall|k: int|
                0 <= k < lines@.len() ==> (#[trigger] lines@[k]).addr != addr,
        },
{
    let len = lines.len();
    let mut low: usize = 0;
    let mut high: usize = len;
    while low < high
        invariant
            low <= high <= len,
            len == lines@.len(),
            lines_ascend(lines@) ==> forall|k: int| 0 <= k < low ==> (#[trigger] lines@[k]).addr < addr,
            lines_ascend(lines@) ==> forall|k: int|
                high <= k < len ==> (#[trigger] lines@[k]).addr > addr,
        decreases high - low,
    {
        let mid = low + (high - low) / 2;
        let here = lines[mid].addr;
        if here == addr {
            return Some(mid);
        } else if here < addr {
            proof {
                if lines_ascend(lines@) {
                    assert forall|k: int| 0 <= k < mid + 1 implies (#[trigger] lines@[k]).addr
                        < addr by {
                        if k < mid {
                            assert(lines@[k].addr < lines@[mid as int].addr);
                        }
                    }
                }
            }
            low = mid + 1;
        } else {
            proof {
                if lines_ascend(lines@) {
                    assert forall|k: int| mid <= k < len implies (#[trigger] lines@[k]).addr
                        > addr by {
                        if k > mid {
                            assert(lines@[mid as int].addr < lines@[k].addr);
                        }
                    }
                }
            }
            high = mid;
        }
    }
    None
}

impl Lines {
    /// Row `j` of sequence `i` says that the code at `addr` comes from line `line` of the
    /// file `path`.
    pub open spec fn maps_at(&self, i: int, j: int, addr: u64, path: Seq<char>, line: u32) -> bool {
        &&& 0 <= i < self.sequences@.len()
        &&& covers(self.sequences@[i], addr)
        &&& 0 <= j < self.sequences@[i].lines@.len()
        &&& self.sequences@[i].lines@[j].addr == addr
        &&& self.sequences@[i].lines@[j].file < self.files@.len()
        &&& self.files@[self.sequences@[i].lines@[j].file as int]@ == path
        &&& self.sequences@[i].lines@[j].line == line
    }

    /// The table says that the code at `addr` comes from line `line` of the file `path`.
    pub open spec fn maps(&self, addr: u64, path: Seq<char>, line: u32) -> bool {
        exists|i: int, j: int| self.maps_at(i, j, addr, path, line)
    }

    /// The sequences are in order and apart, the rows of each ascend strictly in their
    /// addresses, and each row names a file of the table.
    pub open spec fn well_ordered(&self) -> bool {
        &&& spans_apart(self.sequences@)
        &&& forall|i: int|
            0 <= i < self.sequences@.len() ==> lines_ascend((#[trigger] self.sequences@[i]).lines@)
        &&& forall|i: int, j: int|
            0 <= i < self.sequences@.len() && 0 <= j < self.sequences@[i].lines@.len()
                ==> (#[trigger] self.sequences@[i].lines@[j]).file < self.files@.len()
    }

    pub fn empty() -> (r: Lines)
        ensures
            r.sequences@.len() == 0,
            r.files@.len() == 0,
    {
        Lines { sequences: Vec::new(), files: Vec::new() }
    }

    /// The file and the line that the code at `addr` comes from: the row at that very address
    /// in the sequence that covers it. Both are searched by halving.
    pub fn lines_for_addr(&self, addr: u64) -> (r: Option<(&str, u32)>)
        ensures
            match r {
                Some((path, line)) => self.maps(addr, path@, line),
                None => self.well_ordered() ==> forall|path: Seq<char>, line: u32|
                    !self.maps(addr, path, line),
            },
    {
        let found = find_containing(self.sequences.as_slice(), addr);
        proof {
            if self.well_ordered() {
                lemma_spans_apart(self.sequences@);
            }
        }
        match found {
            None => {
                proof {
                    if self.well_ordered() {
                        assert forall|path: Seq<char>, line: u32| !self.maps(addr, path, line) by {
                            if self.maps(addr, path, line) {
                                let (i, j) = choose|i: int, j: int|
                                    self.maps_at(i, j, addr, path, line);
                                assert(covers(self.sequences@[i], addr));
                            }
                        }
                    }
                }
                None
            },
            Some(seq_idx) => {
                let sequence = &self.sequences[seq_idx];
                let row = find_line(&sequence.lines, addr);
                let ghost s = seq_idx as int;
                proof {
                    if self.well_ordered() && row is None {
                        assert forall|path: Seq<char>, line: u32| !self.maps(addr, path, line) by {
                            if self.maps(addr, path, line) {
                                let (i, j) = choose|i: int, j: int|
                                    self.maps_at(i, j, addr, path, line);
                                assert(i == s);
                                assert(lines_ascend(self.sequences@[s].lines@));
                                assert(self.sequences@[s].lines@[j].addr != addr);
                            }
                        }
                    }
                }
                match row {
                    None => None,
                    Some(line_idx) => {
                        let line = sequence.lines[line_idx];
                        if line.file < self.files.len() {
                            proof {
                                assert(self.maps_at(
                                    s,
                                    line_idx as int,
                                    addr,
                                    self.files@[line.file as int]@,
                                    line.line,
                                ));
                            }
                            Some((self.files[line.file].as_str(), line.line))
                        } else {
                            proof {
                                if self.well_ordered() {
                                    assert(self.sequences@[s].lines@[line_idx as int].file
                                        < self.files@.len());
                                }
                            }
                            None
                        }
                    },
                }
            },
        }
    }
}

/// In a table that is well ordered, an address comes from at most one file and line.
pub proof fn lemma_mapping_unique(
    lines: Lines,
    addr: u64,
    path: Seq<char>,
    line: u32,
    path2: Seq<char>,
    line2: u32,
)
    requires
        lines.well_ordered(),
        lines.maps(addr, path, line),
        lines.maps(addr, path2, line2),
    ensures
        path == path2,
        line == line2,
{
    let (i, j) = choose|i: int, j: int| lines.maps_at(i, j, addr, path, line);
    let (i2, j2) = choose|i: int, j: int| lines.maps_at(i, j, addr, path2, line2);
    lemma_spans_apart(lines.sequences@);
    assert(i == i2);
    assert(lines_ascend(lines.sequences@[i].lines@));
    if j < j2 {
        assert(lines.sequences@[i].lines@[j].addr < lines.sequences@[i].lines@[j2].addr);
    } else if j2 < j {
        assert(lines.sequences@[i].lines@[j2].addr < lines.sequences@[i].lines@[j].addr);
    }
}

} // verus!
