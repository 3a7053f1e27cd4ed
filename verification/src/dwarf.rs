use crate::lines::{covers, find_containing, spans_ascend, Line, Sequence, Spanned};
use crate::order::{is_stable_order, key_order, stable_order};
use vstd::prelude::*;
use vstd::wrapping::u64_specs;

verus! {

/// The tag of the entry that describes a compilation unit.
pub const DW_TAG_COMPILE_UNIT: u16 = 0x11;

pub const DW_AT_LOW_PC: u16 = 0x11;

pub const DW_AT_HIGH_PC: u16 = 0x12;

pub const DW_AT_LANGUAGE: u16 = 0x13;

pub const DW_AT_RANGES: u16 = 0x55;

/// The addresses `start .. end` belong to compilation unit number `unit`.
#[derive(Clone, Copy, PartialEq, Eq, Debug, Structural)]
pub struct UnitRange {
    pub start: u64,
    pub end: u64,
    pub unit: usize,
}

impl Spanned for UnitRange {
    open spec fn span_start(&self) -> u64 {
        self.start
    }

    open spec fn span_end(&self) -> u64 {
        self.end
    }

    fn first_address(&self) -> (r: u64) {
        self.start
    }

    fn end_address(&self) -> (r: u64) {
        self.end
    }
}

/// What an attribute of the first entry of a unit holds, as far as the ranges of the unit
/// depend on it.
#[derive(Clone, Copy, PartialEq, Eq, Debug, Structural)]
pub enum AttributeValue {
    /// An address.
    Addr(u64),
    /// A number without sign.
    Udata(u64),
    /// The place of a list of ranges.
    RangeList(u64),
    /// A list of ranges whose place cannot be told.
    RangeFailure,
    /// A source language.
    Language(u16),
    Other,
}

/// One attribute of an entry: its name and what it holds.
#[derive(Clone, Copy, PartialEq, Eq, Debug, Structural)]
pub struct Attribute {
    pub name: u16,
    pub value: AttributeValue,
}

/// What the attributes of the first entry of a unit say of its addresses.
#[derive(Clone, Copy, PartialEq, Eq, Debug, Structural)]
pub struct UnitFacts {
    pub start_addr: Option<u64>,
    pub end_addr: Option<u64>,
    pub size: Option<u64>,
    /// The place of the unit's list of ranges.
    pub ranges: Option<u64>,
    pub lang: Option<u16>,
}

/// The facts before any attribute is read.
pub open spec fn no_facts() -> UnitFacts {
    UnitFacts { start_addr: None, end_addr: None, size: None, ranges: None, lang: None }
}

/// The facts once one more attribute is read: the low address, the high address or else the
/// size, the place of the ranges, the language. An attribute of another name changes nothing.
pub open spec fn with_attribute(facts: UnitFacts, attr: Attribute) -> UnitFacts {
    if attr.name == DW_AT_LOW_PC {
        match attr.value {
            AttributeValue::Addr(value) => UnitFacts { start_addr: Some(value), ..facts },
            _ => facts,
        }
    } else if attr.name == DW_AT_HIGH_PC {
        match attr.value {
            AttributeValue::Addr(value) => UnitFacts { end_addr: Some(value), ..facts },
            AttributeValue::Udata(value) => UnitFacts { size: Some(value), ..facts },
            _ => facts,
        }
    } else if attr.name == DW_AT_RANGES {
        match attr.value {
            AttributeValue::RangeList(offset) => UnitFacts { ranges: Some(offset), ..facts },
            _ => UnitFacts { ranges: None, ..facts },
        }
    } else if attr.name == DW_AT_LANGUAGE {
        match attr.value {
            AttributeValue::Language(value) => UnitFacts { lang: Some(value), ..facts },
            _ => facts,
        }
    } else {
        facts
    }
}

/// One of the first `n` attributes names the ranges of the unit, and the place of the list
/// cannot be told.
pub open spec fn ranges_unreadable(attributes: Seq<Attribute>, n: int) -> bool {
    exists|k: int|
        0 <= k < n && (#[trigger] attributes[k]).name == DW_AT_RANGES && attributes[k].value
            == AttributeValue::RangeFailure
}

/// Whether an attribute names the ranges of the unit, and the place of the list cannot be
/// told.
pub fn has_unreadable_ranges(attributes: &Vec<Attribute>) -> (r: bool)
    ensures
        r == ranges_unreadable(attributes@, attributes@.len() as int),
{
    let mut k: usize = 0;
    while k < attributes.len()
        invariant
            k <= attributes@.len(),
            !ranges_unreadable(attributes@, k as int),
        decreases attributes@.len() - k,
    {
        let attr = attributes[k];
        if attr.name == DW_AT_RANGES && attr.value == AttributeValue::RangeFailure {
            return true;
        }
        k += 1;
    }
    false
}

/// The facts that the attributes give, read in order.
pub open spec fn facts_of(attributes: Seq<Attribute>) -> UnitFacts
    decreases attributes.len(),
{
    if attributes.len() == 0 {
        no_facts()
    } else {
        with_attribute(facts_of(attributes.drop_last()), attributes.last())
    }
}

/// What the attributes of the first entry of a unit say of its addresses.
pub fn unit_facts(attributes: &Vec<Attribute>) -> (facts: UnitFacts)
    ensures
        facts == facts_of(attributes@),
{
    let mut facts = UnitFacts {
        start_addr: None,
        end_addr: None,
        size: None,
        ranges: None,
        lang: None,
    };
    let mut i: usize = 0;
    while i < attributes.len()
        invariant
            i <= attributes@.len(),
            facts == facts_of(attributes@.take(i as int)),
        decreases attributes@.len() - i,
    {
        let attr = attributes[i];
        proof {
            assert(attributes@.take(i + 1).drop_last() =~= attributes@.take(i as int));
        }
        if attr.name == DW_AT_LOW_PC {
            if let AttributeValue::Addr(value) = attr.value {
                facts.start_addr = Some(value);
            }
        } else if attr.name == DW_AT_HIGH_PC {
            if let AttributeValue::Addr(value) = attr.value {
                facts.end_addr = Some(value);
            } else if let AttributeValue::Udata(value) = attr.value {
                facts.size = Some(value);
            }
        } else if attr.name == DW_AT_RANGES {
            if let AttributeValue::RangeList(offset) = attr.value {
                facts.ranges = Some(offset);
            } else {
                facts.ranges = None;
            }
        } else if attr.name == DW_AT_LANGUAGE {
            if let AttributeValue::Language(value) = attr.value {
                facts.lang = Some(value);
            }
        }
        i += 1;
    }
    proof {
        assert(attributes@.take(attributes@.len() as int) =~= attributes@);
    }
    facts
}

/// The ranges of `list`, each as a range of unit `unit`.
pub open spec fn listed_spans(list: Seq<(u64, u64)>, unit: usize) -> Seq<UnitRange> {
    Seq::new(list.len(), |i: int| UnitRange { start: list[i].0, end: list[i].1, unit })
}

/// The ranges of addresses of a unit: those of its list of ranges where it has one, else from
/// its low address to its high one, else from its low address over its size, in 64 bit
/// arithmetic that wraps.
pub open spec fn unit_spans(facts: UnitFacts, list: Option<Seq<(u64, u64)>>, unit: usize) -> Seq<
    UnitRange,
> {
    match list {
        Some(ranges) => listed_spans(ranges, unit),
        None => match (facts.start_addr, facts.end_addr, facts.size) {
            (Some(begin), Some(end), _) => seq![UnitRange { start: begin, end, unit }],
            (Some(begin), None, Some(size)) => seq![
                UnitRange { start: begin, end: u64_specs::wrapping_add(begin, size), unit },
            ],
            _ => Seq::empty(),
        },
    }
}

/// The text of each range list.
pub open spec fn list_view(list: Option<&Vec<(u64, u64)>>) -> Option<Seq<(u64, u64)>> {
    match list {
        Some(ranges) => Some(ranges@),
        None => None,
    }
}

/// Appends to `unit_ranges` the ranges of addresses of unit number `unit_index`. `list` is
/// the unit's list of ranges, where it has one.
pub fn add_compilation_unit(
    facts: UnitFacts,
    list: Option<&Vec<(u64, u64)>>,
    unit_index: usize,
    unit_ranges: &mut Vec<UnitRange>,
)
    ensures
        final(unit_ranges)@ == old(unit_ranges)@ + unit_spans(facts, list_view(list), unit_index),
{
    let ghost before = unit_ranges@;
    match list {
        Some(ranges) => {
            let mut i: usize = 0;
            while i < ranges.len()
                invariant
                    i <= ranges@.len(),
                    unit_ranges@ == before + listed_spans(ranges@, unit_index).take(i as int),
                decreases ranges@.len() - i,
            {
                let range = ranges[i];
                unit_ranges.push(UnitRange { start: range.0, end: range.1, unit: unit_index });
                i += 1;
                proof {
                    assert(unit_ranges@ =~= before + listed_spans(ranges@, unit_index).take(
                        i as int,
                    ));
                }
            }
            proof {
                assert(listed_spans(ranges@, unit_index).take(ranges@.len() as int)
                    =~= listed_spans(ranges@, unit_index));
            }
        },
        None => {
            match (facts.start_addr, facts.end_addr, facts.size) {
                (Some(begin), Some(end), _) => {
                    unit_ranges.push(UnitRange { start: begin, end, unit: unit_index });
                },
                (Some(begin), None, Some(size)) => {
                    unit_ranges.push(
                        UnitRange { start: begin, end: begin.wrapping_add(size), unit: unit_index },
                    );
                },
                _ => {
                    proof {
                        assert(unit_ranges@ =~= before + Seq::<UnitRange>::empty());
                    }
                },
            }
        },
    }
}

/// The start of each range.
pub open spec fn range_starts(ranges: Seq<UnitRange>) -> Seq<u64> {
    Seq::new(ranges.len(), |i: int| ranges[i].start)
}

/// `ranges` in the order `order`.
pub open spec fn ranges_in_order(ranges: Seq<UnitRange>, order: Seq<int>) -> Seq<UnitRange> {
    Seq::new(order.len(), |i: int| ranges[order[i]])
}

/// The ranges in ascending order of start; ranges with the same start keep their order.
pub fn order_unit_ranges(unit_ranges: &Vec<UnitRange>) -> (out: Vec<UnitRange>)
    ensures
        out@ == ranges_in_order(unit_ranges@, key_order(range_starts(unit_ranges@))),
        out@.len() == unit_ranges@.len(),
        forall|a: int, b: int| 0 <= a < b < out@.len() ==> out@[a].start <= out@[b].start,
        is_stable_order(
            range_starts(unit_ranges@),
            key_order(range_starts(unit_ranges@)),
            unit_ranges@.len() as int,
        ),
{
    let n = unit_ranges.len();
    let mut keys: Vec<u64> = Vec::new();
    let mut i: usize = 0;
    while i < n
        invariant
            i <= n,
            n == unit_ranges@.len(),
            keys@ == range_starts(unit_ranges@).take(i as int),
        decreases n - i,
    {
        keys.push(unit_ranges[i].start);
        i += 1;
        proof {
            assert(keys@ =~= range_starts(unit_ranges@).take(i as int));
        }
    }
    proof {
        assert(keys@ =~= range_starts(unit_ranges@));
    }
    let order = stable_order(&keys);
    let ghost wanted = ranges_in_order(unit_ranges@, key_order(keys@));
    let mut out: Vec<UnitRange> = Vec::new();
    let mut k: usize = 0;
    while k < n
        invariant
            k <= n,
            n == unit_ranges@.len(),
            order@.len() == n,
            forall|a: int| 0 <= a < n ==> #[trigger] order@[a] == key_order(keys@)[a],
            forall|a: int| 0 <= a < n ==> #[trigger] order@[a] < n,
            wanted == ranges_in_order(unit_ranges@, key_order(keys@)),
            key_order(keys@).len() == n,
            out@ == wanted.take(k as int),
        decreases n - k,
    {
        out.push(unit_ranges[order[k]]);
        k += 1;
        proof {
            assert(out@ =~= wanted.take(k as int));
        }
    }
    proof {
        assert(wanted.take(n as int) =~= wanted);
        let ord = key_order(keys@);
        assert forall|a: int, b: int| 0 <= a < b < out@.len() implies out@[a].start
            <= out@[b].start by {
            assert(keys@[ord[a]] <= keys@[ord[b]]);
        }
    }
    out
}

/// The unit that the address lies in: the unit of a range that covers it, found by halving.
/// Where the starts and the ends of the ranges ascend, one is found if there is one.
pub fn unit_index_for_address(unit_ranges: &Vec<UnitRange>, seek_addr: u64) -> (r: Option<usize>)
    ensures
        match r {
            Some(unit) => exists|k: int|
                0 <= k < unit_ranges@.len() && covers(#[trigger] unit_ranges@[k], seek_addr)
                    && unit_ranges@[k].unit == unit,
            None => spans_ascend(unit_ranges@) ==> forall|k: int|
                0 <= k < unit_ranges@.len() ==> !covers(#[trigger] unit_ranges@[k], seek_addr),
        },
{
    match find_containing(unit_ranges.as_slice(), seek_addr) {
        Some(range_index) => Some(unit_ranges[range_index].unit),
        None => None,
    }
}

/// One row of a line number program.
#[derive(Clone, Copy, PartialEq, Eq, Debug, Structural)]
pub struct Row {
    pub address: u64,
    /// The row closes a sequence: `address` is the first address behind it.
    pub end_sequence: bool,
    pub file_index: u64,
    /// The line, where the row names one.
    pub line: Option<u64>,
}

/// What a sequence holds.
pub struct SequenceModel {
    pub start: u64,
    pub end: u64,
    pub lines: Seq<Line>,
}

impl Sequence {
    /// What the sequence holds.
    pub open spec fn model(&self) -> SequenceModel {
        SequenceModel { start: self.range.start, end: self.range.end, lines: self.lines@ }
    }
}

/// What each of the sequences holds.
pub open spec fn models(sequences: Seq<Sequence>) -> Seq<SequenceModel> {
    Seq::new(sequences.len(), |i: int| sequences[i].model())
}

/// Where the reading of a line number program stands: the sequences that are closed, the
/// rows of the open one, the address at which it began and the address of its last row.
pub struct RowState {
    pub done: Seq<SequenceModel>,
    pub lines: Seq<Line>,
    pub seq_start: u64,
    pub seq_prev: u64,
}

/// The state before any row is read.
pub open spec fn start_state() -> RowState {
    RowState { done: Seq::empty(), lines: Seq::empty(), seq_start: 0, seq_prev: 0 }
}

/// The line that a row names, 0 where it names none.
pub open spec fn row_line_number(row: Row) -> u32 {
    match row.line {
        Some(line) => line as u32,
        None => 0,
    }
}

/// The state once a row that ends a sequence has closed the open one: the open sequence, from
/// its start to the address of the row, joins the closed ones, unless it began at address 0 or
/// has no rows. No sequence is open then, and the row itself joins none. A row that ends no
/// sequence closes nothing.
pub open spec fn close_sequence(state: RowState, row: Row) -> RowState {
    if row.end_sequence {
        if state.seq_start != 0 && state.lines.len() > 0 {
            RowState {
                done: state.done.push(
                    SequenceModel {
                        start: state.seq_start,
                        end: row.address,
                        lines: state.lines,
                    },
                ),
                lines: Seq::empty(),
                seq_start: state.seq_start,
                seq_prev: state.seq_prev,
            }
        } else {
            RowState {
                done: state.done,
                lines: Seq::empty(),
                seq_start: state.seq_start,
                seq_prev: state.seq_prev,
            }
        }
    } else {
        state
    }
}

/// The state once a row is read. A row that ends a sequence closes the open one. Any other
/// row joins the open sequence: as its first row, which sets the start of the sequence; in
/// place of the file and line of the last row where it stands at the same address; or as a
/// further row.
pub open spec fn take_row(state: RowState, row: Row) -> RowState {
    let file = row.file_index as usize;
    let line = row_line_number(row);
    if row.end_sequence {
        close_sequence(state, row)
    } else if state.lines.len() > 0 {
        if state.seq_prev == row.address {
            RowState {
                done: state.done,
                lines: state.lines.update(
                    state.lines.len() - 1,
                    Line { addr: state.lines.last().addr, file, line },
                ),
                seq_start: state.seq_start,
                seq_prev: state.seq_prev,
            }
        } else {
            RowState {
                done: state.done,
                lines: state.lines.push(Line { addr: row.address, file, line }),
                seq_start: state.seq_start,
                seq_prev: row.address,
            }
        }
    } else {
        RowState {
            done: state.done,
            lines: seq![Line { addr: row.address, file, line }],
            seq_start: row.address,
            seq_prev: row.address,
        }
    }
}

/// The state once all the rows are read, in order.
pub open spec fn rows_state(rows: Seq<Row>) -> RowState
    decreases rows.len(),
{
    if rows.len() == 0 {
        start_state()
    } else {
        take_row(rows_state(rows.drop_last()), rows.last())
    }
}

/// The start of each sequence.
pub open spec fn model_starts(sequences: Seq<SequenceModel>) -> Seq<u64> {
    Seq::new(sequences.len(), |i: int| sequences[i].start)
}

/// `sequences` in the order `order`.
pub open spec fn models_in_order(sequences: Seq<SequenceModel>, order: Seq<int>) -> Seq<
    SequenceModel,
> {
    Seq::new(order.len(), |i: int| sequences[order[i]])
}

/// The sequences of a line number program: those that its rows close, in ascending order of
/// start; sequences with the same start keep their order.
pub open spec fn sequences_of(rows: Seq<Row>) -> Seq<SequenceModel> {
    let done = rows_state(rows).done;
    models_in_order(done, key_order(model_starts(done)))
}

/// A copy of `lines`.
pub fn copy_lines(lines: &Vec<Line>) -> (out: Vec<Line>)
    ensures
        out@ == lines@,
{
    let mut out: Vec<Line> = Vec::new();
    let mut i: usize = 0;
    while i < lines.len()
        invariant
            i <= lines@.len(),
            out@ == lines@.take(i as int),
        decreases lines@.len() - i,
    {
        out.push(lines[i]);
        i += 1;
        proof {
            assert(out@ =~= lines@.take(i as int));
        }
    }
    proof {
        assert(lines@.take(lines@.len() as int) =~= lines@);
    }
    out
}

/// The sequences in ascending order of start; sequences with the same start keep their order.
pub fn order_sequences(sequences: &Vec<Sequence>) -> (out: Vec<Sequence>)
    ensures
        models(out@) == models_in_order(
            models(sequences@),
            key_order(model_starts(models(sequences@))),
        ),
        out@.len() == sequences@.len(),
        forall|a: int, b: int|
            0 <= a < b < out@.len() ==> out@[a].range.start <= out@[b].range.start,
{
    let n = sequences.len();
    let ghost all = models(sequences@);
    let mut keys: Vec<u64> = Vec::new();
    let mut i: usize = 0;
    while i < n
        invariant
            i <= n,
            n == sequences@.len(),
            all == models(sequences@),
            keys@ == model_starts(all).take(i as int),
        decreases n - i,
    {
        keys.push(sequences[i].range.start);
        i += 1;
        proof {
            assert(keys@ =~= model_starts(all).take(i as int));
        }
    }
    proof {
        assert(keys@ =~= model_starts(all));
    }
    let order = stable_order(&keys);
    let ghost wanted = models_in_order(all, key_order(keys@));
    let mut out: Vec<Sequence> = Vec::new();
    let mut k: usize = 0;
    while k < n
        invariant
            k <= n,
            n == sequences@.len(),
            all == models(sequences@),
            order@.len() == n,
            forall|a: int| 0 <= a < n ==> #[trigger] order@[a] == key_order(keys@)[a],
            forall|a: int| 0 <= a < n ==> #[trigger] order@[a] < n,
            wanted == models_in_order(all, key_order(keys@)),
            key_order(keys@).len() == n,
            out@.len() == k,
            forall|a: int| 0 <= a < k ==> (#[trigger] out@[a]).model() == wanted[a],
        decreases n - k,
    {
        let from = &sequences[order[k]];
        out.push(
            Sequence { range: from.range.start..from.range.end, lines: copy_lines(&from.lines) },
        );
        k += 1;
    }
    proof {
        assert(models(out@) =~= wanted);
        let ord = key_order(keys@);
        assert forall|a: int, b: int| 0 <= a < b < out@.len() implies out@[a].range.start
            <= out@[b].range.start by {
            assert(keys@[ord[a]] <= keys@[ord[b]]);
            assert(out@[a].model() == wanted[a]);
            assert(out@[b].model() == wanted[b]);
        }
    }
    out
}

/// The sequences of a line number program, in ascending order of start.
pub fn load_lines(rows: &Vec<Row>) -> (sequences: Vec<Sequence>)
    ensures
        models(sequences@) == sequences_of(rows@),
        forall|a: int, b: int|
            0 <= a < b < sequences@.len() ==> sequences@[a].range.start
                <= sequences@[b].range.start,
{
    let mut sequences: Vec<Sequence> = Vec::new();
    let mut lines: Vec<Line> = Vec::new();
    let mut seq_start_addr: u64 = 0;
    let mut seq_prev_addr: u64 = 0;
    let mut i: usize = 0;
    proof {
        assert(models(sequences@) =~= start_state().done);
    }
    while i < rows.len()
        invariant
            i <= rows@.len(),
            models(sequences@) == rows_state(rows@.take(i as int)).done,
            lines@ == rows_state(rows@.take(i as int)).lines,
            seq_start_addr == rows_state(rows@.take(i as int)).seq_start,
            seq_prev_addr == rows_state(rows@.take(i as int)).seq_prev,
        decreases rows@.len() - i,
    {
        let row = rows[i];
        let ghost before = rows_state(rows@.take(i as int));
        proof {
            assert(rows@.take(i + 1).drop_last() =~= rows@.take(i as int));
            assert(rows@.take(i + 1).last() == row);
        }
        let address = row.address;
        if row.end_sequence {
            if seq_start_addr != 0 && lines.len() != 0 {
                let ghost closed = models(sequences@);
                let mut taken: Vec<Line> = Vec::new();
                std::mem::swap(&mut lines, &mut taken);
                sequences.push(Sequence { range: seq_start_addr..address, lines: taken });
                proof {
                    assert(models(sequences@) =~= closed.push(
                        SequenceModel { start: seq_start_addr, end: address, lines: before.lines },
                    ));
                }
            } else {
                lines.clear();
            }
            i += 1;
            continue ;
        }
        let file = #[verifier::truncate]
        (row.file_index as usize);
        let line = match row.line {
            Some(number) => #[verifier::truncate]
            (number as u32),
            None => 0,
        };
        if lines.len() != 0 {
            if seq_prev_addr == address {
                let last = lines.len() - 1;
                let addr = lines[last].addr;
                lines.set(last, Line { addr, file, line });
            } else {
                seq_prev_addr = address;
                lines.push(Line { addr: address, file, line });
            }
        } else {
            seq_start_addr = address;
            seq_prev_addr = address;
            lines.push(Line { addr: address, file, line });
            proof {
                assert(lines@ =~= seq![Line { addr: address, file, line }]);
            }
        }
        i += 1;
    }
    proof {
        assert(rows@.take(rows@.len() as int) =~= rows@);
    }
    order_sequences(&sequences)
}

} // verus!
