use crate::amd64::Instruction;
use crate::arch::OperandPatches;
use crate::format::{
    addr_len, create_jump_arrows_buffer, glyphs, hex_digits, hex_len, hex_text, hex_width,
    paint_jumps, blank_grid, spaces, write_arrow_pieces_for_line, write_hex_string, ArrowPiece,
    OutputMeasure,
};
use crate::jumps::{InnerJump, InnerJumpTable};
use crate::line_cache::FileLineCache;
use crate::strategy::FileResolveStrategy;
use crate::symbol::Symbol;
use crate::text::{chars_of, push_chars, push_spaces, push_str, same_text};
use vstd::prelude::*;

verus! {

/// What a listing shows, and where the sources of the program are looked for.
pub struct DisasmConfig {
    pub display_address: bool,
    pub display_patches: bool,
    pub display_bytes: bool,
    pub display_jumps: bool,
    pub display_instr: bool,
    pub display_source: bool,
    pub source_file_resolve: FileResolveStrategy,
    pub source_base_directory: String,
    pub load_debug_info: bool,
    pub display_length: bool,
    pub display_instr_count: bool,
}

impl Default for DisasmConfig {
    fn default() -> (r: DisasmConfig)
        ensures
            !r.display_address && !r.display_patches && !r.display_bytes && !r.display_jumps
                && !r.display_instr && !r.display_source && !r.load_debug_info
                && !r.display_length && !r.display_instr_count,
            r.source_file_resolve == FileResolveStrategy::PreferRelative,
            r.source_base_directory@.len() == 0,
    {
        DisasmConfig {
            display_address: false,
            display_patches: false,
            display_bytes: false,
            display_jumps: false,
            display_instr: false,
            display_source: false,
            source_file_resolve: FileResolveStrategy::PreferRelative,
            source_base_directory: String::new(),
            load_debug_info: false,
            display_length: false,
            display_instr_count: false,
        }
    }
}

/// How a piece of a listing is shown.
#[derive(Clone, Copy, PartialEq, Eq, Debug, Structural)]
pub enum Style {
    /// In the colour of the terminal.
    Plain,
    /// In blue: the name of an instruction.
    Mnemonic,
    /// In bold green: a line of the source.
    Source,
}

/// A piece of a listing, to be shown in one style.
pub struct Span {
    pub text: String,
    pub style: Style,
}

/// The text and the style of each span.
pub open spec fn span_texts(spans: Seq<Span>) -> Seq<(Seq<char>, Style)> {
    Seq::new(spans.len(), |i: int| (spans[i].text@, spans[i].style))
}

proof fn lemma_span_texts_push(spans: Seq<Span>, span: Span)
    ensures
        span_texts(spans.push(span)) == span_texts(spans).push((span.text@, span.style)),
{
    assert(span_texts(spans.push(span)) =~= span_texts(spans).push((span.text@, span.style)));
}

/// The file and the line that an instruction comes from, where the debug information knows.
pub type SourceLine = Option<(String, u32)>;

/// The text of each source line.
pub open spec fn source_view(line: SourceLine) -> Option<(Seq<char>, u32)> {
    match line {
        Some((path, number)) => Some((path@, number)),
        None => None,
    }
}

/// The number of bytes of a text in UTF-8.
pub open spec fn byte_len(text: Seq<char>) -> usize {
    vstd::utf8::encode_utf8(text).len() as usize
}

/// The greater of two numbers.
pub open spec fn larger(a: int, b: int) -> int {
    if a >= b {
        a
    } else {
        b
    }
}

/// The text that stands for the operands of an instruction: its patch where patches are
/// shown and it has one, else what the decoder printed.
pub open spec fn operand_text(instr: Instruction, patch: Option<Seq<char>>, display_patches: bool) -> Seq<
    char,
> {
    match patch {
        Some(text) => if display_patches {
            text
        } else {
            instr.op_str@
        },
        None => instr.op_str@,
    }
}

/// The widths that the first `n` instructions need, for the columns that are shown: the
/// digits of the longest address, the text of the most bytes, the longest mnemonic and the
/// longest operands, both counted in bytes.
pub open spec fn widths(
    instrs: Seq<Instruction>,
    patches: OperandPatches,
    config: DisasmConfig,
    n: int,
) -> (int, int, int, int)
    decreases n,
{
    if n <= 0 {
        (0, 0, 0, 0)
    } else {
        let before = widths(instrs, patches, config, n - 1);
        let instr = instrs[n - 1];
        (
            if config.display_address {
                larger(before.0, hex_digits(instr.address as nat) as int)
            } else {
                before.0
            },
            if config.display_bytes {
                larger(before.1, hex_width(instr.bytes@.len() as int))
            } else {
                before.1
            },
            if config.display_instr {
                larger(before.2, byte_len(instr.mnemonic@) as int)
            } else {
                before.2
            },
            if config.display_instr {
                larger(
                    before.3,
                    byte_len(operand_text(instr, patches.patch(n - 1), config.display_patches))
                        as int,
                )
            } else {
                before.3
            },
        )
    }
}

/// The width of each column of the listing of `instrs`. The column of the arrows is one wider
/// than the greatest lane, where arrows are shown.
pub fn measure(
    instrs: &[Instruction],
    config: &DisasmConfig,
    jumps: &InnerJumpTable,
    op_patches: &OperandPatches,
) -> (m: OutputMeasure)
    requires
        jumps.spec_max_display_offset() < usize::MAX,
        forall|i: int|
            0 <= i < instrs@.len() ==> (#[trigger] instrs@[i]).bytes@.len() * 3 + 4 <= usize::MAX,
    ensures
        m.jumps_width == if config.display_jumps {
            jumps.spec_max_display_offset() + 1
        } else {
            0
        },
        (m.address_width as int, m.bytes_width as int, m.mnemonic_width as int, m.operands_width as int)
            == widths(instrs@, *op_patches, *config, instrs@.len() as int),
        m.bytes_width + 4 <= usize::MAX,
{
    let mut measure = OutputMeasure {
        address_width: 0,
        bytes_width: 0,
        jumps_width: 0,
        mnemonic_width: 0,
        operands_width: 0,
    };
    if config.display_jumps {
        measure.jumps_width = jumps.max_display_offset() + 1;
    }
    let mut idx: usize = 0;
    while idx < instrs.len()
        invariant
            idx <= instrs@.len(),
            forall|i: int|
                0 <= i < instrs@.len() ==> (#[trigger] instrs@[i]).bytes@.len() * 3 + 4
                    <= usize::MAX,
            measure.bytes_width + 4 <= usize::MAX,
            measure.jumps_width == if config.display_jumps {
                jumps.spec_max_display_offset() + 1
            } else {
                0
            },
            (
                measure.address_width as int,
                measure.bytes_width as int,
                measure.mnemonic_width as int,
                measure.operands_width as int,
            ) == widths(instrs@, *op_patches, *config, idx as int),
        decreases instrs@.len() - idx,
    {
        let instr = &instrs[idx];
        if config.display_address {
            let len = addr_len(instr.address);
            if len > measure.address_width {
                measure.address_width = len;
            }
        }
        if config.display_bytes {
            assert(instrs@[idx as int].bytes@.len() * 3 + 4 <= usize::MAX);
            let len = hex_len(instr.bytes.as_slice());
            if len > measure.bytes_width {
                measure.bytes_width = len;
            }
        }
        if config.display_instr {
            let len = instr.mnemonic.as_str().len();
            if len > measure.mnemonic_width {
                measure.mnemonic_width = len;
            }
            let patch = op_patches.get(idx);
            let ops_len = match patch {
                Some(text) => if config.display_patches {
                    text.as_str().len()
                } else {
                    instr.op_str.as_str().len()
                },
                None => instr.op_str.as_str().len(),
            };
            if ops_len > measure.operands_width {
                measure.operands_width = ops_len;
            }
        }
        idx += 1;
    }
    measure
}

/// The character of the hexadecimal digit `n`, in lower case.
pub open spec fn hex_digit_lower(n: int) -> char {
    if n == 0 {
        '0'
    } else if n == 1 {
        '1'
    } else if n == 2 {
        '2'
    } else if n == 3 {
        '3'
    } else if n == 4 {
        '4'
    } else if n == 5 {
        '5'
    } else if n == 6 {
        '6'
    } else if n == 7 {
        '7'
    } else if n == 8 {
        '8'
    } else if n == 9 {
        '9'
    } else if n == 10 {
        'a'
    } else if n == 11 {
        'b'
    } else if n == 12 {
        'c'
    } else if n == 13 {
        'd'
    } else if n == 14 {
        'e'
    } else {
        'f'
    }
}

/// The hexadecimal digits of `n`, in lower case; 0 has none.
pub open spec fn lower_hex(n: nat) -> Seq<char>
    decreases n,
{
    if n == 0 {
        Seq::empty()
    } else {
        lower_hex(n / 16).push(hex_digit_lower((n % 16) as int))
    }
}

/// `count` zeros.
pub open spec fn zeros(count: int) -> Seq<char> {
    Seq::new(
        if count > 0 {
            count as nat
        } else {
            0
        },
        |i: int| '0',
    )
}

/// An address as a listing shows it: in hexadecimal, lower case, at least one digit, with
/// zeros before it up to `width` digits.
pub open spec fn address_text(addr: u64, width: int) -> Seq<char> {
    let digits = if addr == 0 {
        seq!['0']
    } else {
        lower_hex(addr as nat)
    };
    zeros(width - digits.len()) + digits
}

/// `text`, with spaces behind it up to `width` characters.
pub open spec fn pad_right(text: Seq<char>, width: int) -> Seq<char> {
    text + spaces(width - text.len())
}

fn lower_digit(n: u8) -> (c: char)
    requires
        n < 16,
    ensures
        c == hex_digit_lower(n as int),
{
    if n == 0 {
        '0'
    } else if n == 1 {
        '1'
    } else if n == 2 {
        '2'
    } else if n == 3 {
        '3'
    } else if n == 4 {
        '4'
    } else if n == 5 {
        '5'
    } else if n == 6 {
        '6'
    } else if n == 7 {
        '7'
    } else if n == 8 {
        '8'
    } else if n == 9 {
        '9'
    } else if n == 10 {
        'a'
    } else if n == 11 {
        'b'
    } else if n == 12 {
        'c'
    } else if n == 13 {
        'd'
    } else if n == 14 {
        'e'
    } else {
        'f'
    }
}

/// The hexadecimal digits of `n`, in lower case, the last one first.
fn lower_hex_reversed(n: u64) -> (r: Vec<char>)
    ensures
        r@.reverse() == lower_hex(n as nat),
        r@.len() <= 16,
{
    let mut out: Vec<char> = Vec::new();
    let mut rest = n;
    proof {
        assert(out@.reverse() =~= Seq::<char>::empty());
        assert(lower_hex(rest as nat) + out@.reverse() =~= lower_hex(n as nat));
        assert(crate::format::power(16, 0) * rest == rest) by (nonlinear_arith)
            requires
                crate::format::power(16, 0) == 1,
        ;
    }
    while rest > 0
        invariant
            lower_hex(rest as nat) + out@.reverse() == lower_hex(n as nat),
            rest > 0 ==> out@.len() + 1 <= 16,
            out@.len() <= 16,
            crate::format::power(16, out@.len()) * rest <= n,
        decreases rest,
    {
        let digit = lower_digit((rest % 16) as u8);
        let ghost before = out@;
        proof {
            assert(lower_hex(rest as nat) == lower_hex((rest / 16) as nat).push(digit));
            let p = crate::format::power(16, before.len());
            assert(crate::format::power(16, (before.len() + 1) as nat) == 16 * p);
            assert(16 * p * (rest / 16) <= p * rest) by (nonlinear_arith)
                requires
                    0 <= p,
                    0 <= rest,
            ;
        }
        out.push(digit);
        rest = rest / 16;
        proof {
            assert(out@.reverse() =~= seq![digit] + before.reverse());
            assert(lower_hex(rest as nat) + out@.reverse() =~= lower_hex(rest as nat).push(digit)
                + before.reverse());
            if rest > 0 {
                let p = crate::format::power(16, out@.len());
                if out@.len() >= 16 {
                    lemma_power_sixteen_grows(out@.len());
                    assert(p * rest >= p) by (nonlinear_arith)
                        requires
                            rest >= 1,
                            p >= 0,
                    ;
                }
            }
        }
    }
    proof {
        assert(lower_hex(0) + out@.reverse() =~= out@.reverse());
    }
    out
}

proof fn lemma_power_sixteen_grows(exp: nat)
    requires
        exp >= 16,
    ensures
        crate::format::power(16, exp) >= 0x1_0000_0000_0000_0000,
    decreases exp,
{
    if exp > 16 {
        lemma_power_sixteen_grows((exp - 1) as nat);
    } else {
        assert(crate::format::power(16, 16) == 0x1_0000_0000_0000_0000nat) by {
            reveal_with_fuel(crate::format::power, 17);
        }
    }
}

/// Appends to `output` the address as a listing shows it.
pub fn write_address(output: &mut String, addr: u64, width: usize)
    ensures
        final(output)@ == old(output)@ + address_text(addr, width as int),
{
    let ghost before = output@;
    let mut reversed = lower_hex_reversed(addr);
    if addr == 0 {
        reversed.push('0');
        proof {
            assert(reversed@.reverse() =~= seq!['0']);
        }
    }
    let ghost digits = reversed@.reverse();
    let count = reversed.len();
    let mut written: usize = count;
    while written < width
        invariant
            count <= written,
            count == digits.len(),
            written <= width || written == count,
            output@ == before + zeros(written - count),
        decreases width - written,
    {
        output.push('0');
        written += 1;
        proof {
            assert(output@ =~= before + zeros(written - count));
        }
    }
    let ghost padded = output@;
    proof {
        assert(zeros(written - count) =~= zeros(width - count));
    }
    let mut i: usize = count;
    while i > 0
        invariant
            i <= count,
            count == reversed@.len(),
            digits == reversed@.reverse(),
            output@ == padded + digits.take(count - i),
        decreases i,
    {
        i -= 1;
        output.push(reversed[i]);
        proof {
            assert(digits[count - 1 - i] == reversed@[i as int]);
            assert(output@ =~= padded + digits.take(count - i));
        }
    }
    proof {
        assert(digits.take(count as int) =~= digits);
        assert(output@ =~= before + address_text(addr, width as int));
    }
}

/// Appends to `output` the text, with spaces behind it up to `width` characters.
pub fn write_padded(output: &mut String, text: &str, width: usize)
    ensures
        final(output)@ == old(output)@ + pad_right(text@, width as int),
{
    let ghost before = output@;
    let chars = chars_of(text);
    push_chars(output, &chars);
    let len = chars.len();
    if len < width {
        push_spaces(output, width - len);
        proof {
            assert(output@ =~= before + pad_right(text@, width as int));
        }
    } else {
        proof {
            assert(spaces(width - len) =~= Seq::<char>::empty());
            assert(output@ =~= before + pad_right(text@, width as int));
        }
    }
}

/// The source line to show above an instruction: that of `here`, unless it is the one that
/// was last looked at, `previous`.
pub open spec fn fresh_line(previous: Option<(Seq<char>, u32)>, here: Option<(Seq<char>, u32)>) -> Option<
    (Seq<char>, u32),
> {
    match here {
        Some((path, line)) => match previous {
            Some((last_path, last_line)) => if last_path != path || last_line != line {
                here
            } else {
                None
            },
            None => here,
        },
        None => None,
    }
}

/// The source line that was last looked at, once the one of an instruction is looked at.
pub open spec fn seen_line(previous: Option<(Seq<char>, u32)>, here: Option<(Seq<char>, u32)>) -> Option<
    (Seq<char>, u32),
> {
    match here {
        Some(_) => here,
        None => previous,
    }
}

/// The source line that was last looked at before instruction `n`.
pub open spec fn seen_before(mappings: Seq<SourceLine>, n: int) -> Option<(Seq<char>, u32)>
    decreases n,
{
    if n <= 0 {
        None
    } else {
        seen_line(seen_before(mappings, n - 1), source_view(mappings[n - 1]))
    }
}

/// The text of the source line to show above instruction `n`: where source is shown, the
/// line that the instruction comes from, unless the instruction before it comes from the
/// same line, or the line cannot be had.
pub open spec fn source_text(
    config: DisasmConfig,
    mappings: Seq<SourceLine>,
    cache: FileLineCache,
    n: int,
) -> Option<Seq<char>> {
    if config.display_source && 0 <= n < mappings.len() {
        match fresh_line(seen_before(mappings, n), source_view(mappings[n])) {
            Some((path, line)) => match cache.lines_of(path) {
                Some(lines) => if 1 <= line <= lines.len() {
                    Some(lines[line - 1])
                } else {
                    None
                },
                None => None,
            },
            None => None,
        }
    } else {
        None
    }
}

/// What stands before the mnemonic in the row of instruction `n`: two spaces, then, each
/// where it is shown, the address with a colon and four spaces, the bytes with four spaces
/// and more up to the width of the column, and the arrows of the row.
pub open spec fn row_head(
    config: DisasmConfig,
    m: OutputMeasure,
    instr: Instruction,
    pieces: Seq<ArrowPiece>,
    n: int,
) -> Seq<char> {
    seq![' ', ' '] + (if config.display_address {
        address_text(instr.address, m.address_width as int) + seq![':', ' ', ' ', ' ', ' ']
    } else {
        Seq::empty()
    }) + (if config.display_bytes {
        hex_text(instr.bytes@) + spaces(
            m.bytes_width + 4 - hex_width(instr.bytes@.len() as int),
        )
    } else {
        Seq::empty()
    }) + (if config.display_jumps {
        glyphs(pieces, n * m.jumps_width, m.jumps_width as int)
    } else {
        Seq::empty()
    })
}

/// The spans of the row of instruction `n`: the head; where instructions are shown, the
/// mnemonic with spaces up to its column and four more, then the operands with spaces up to
/// their column; and the end of the line.
pub open spec fn row_spans(
    config: DisasmConfig,
    m: OutputMeasure,
    instr: Instruction,
    patch: Option<Seq<char>>,
    pieces: Seq<ArrowPiece>,
    n: int,
) -> Seq<(Seq<char>, Style)> {
    if config.display_instr {
        seq![
            (row_head(config, m, instr, pieces, n), Style::Plain),
            (
                pad_right(instr.mnemonic@, m.mnemonic_width as int) + seq![' ', ' ', ' ', ' '],
                Style::Mnemonic,
            ),
            (
                pad_right(
                    operand_text(instr, patch, config.display_patches),
                    m.operands_width as int,
                ) + seq!['\n'],
                Style::Plain,
            ),
        ]
    } else {
        seq![(row_head(config, m, instr, pieces, n) + seq!['\n'], Style::Plain)]
    }
}

/// The spans of the source line above a row, if any.
pub open spec fn source_spans(text: Option<Seq<char>>) -> Seq<(Seq<char>, Style)> {
    match text {
        Some(line) => seq![(line + seq!['\n'], Style::Source)],
        None => Seq::empty(),
    }
}

/// The spans of the first `n` rows of a listing, each with the source line above it.
pub open spec fn rows_spans(
    config: DisasmConfig,
    m: OutputMeasure,
    instrs: Seq<Instruction>,
    patches: OperandPatches,
    pieces: Seq<ArrowPiece>,
    mappings: Seq<SourceLine>,
    cache: FileLineCache,
    n: int,
) -> Seq<(Seq<char>, Style)>
    decreases n,
{
    if n <= 0 {
        Seq::empty()
    } else {
        rows_spans(config, m, instrs, patches, pieces, mappings, cache, n - 1) + source_spans(
            source_text(config, mappings, cache, n - 1),
        ) + row_spans(config, m, instrs[n - 1], patches.patch(n - 1), pieces, n - 1)
    }
}

/// The grid of the arrows of a listing: empty where arrows are not shown.
pub open spec fn arrow_grid(config: DisasmConfig, m: OutputMeasure, height: int, jumps: Seq<InnerJump>) -> Seq<
    ArrowPiece,
> {
    if config.display_jumps {
        paint_jumps(blank_grid(m.jumps_width * height), m.jumps_width as int, jumps)
    } else {
        Seq::empty()
    }
}

/// The listing of a symbol: its demangled name with a colon, then the rows of its
/// instructions.
pub open spec fn listing_spans(
    name: Seq<char>,
    config: DisasmConfig,
    m: OutputMeasure,
    instrs: Seq<Instruction>,
    jumps: Seq<InnerJump>,
    patches: OperandPatches,
    mappings: Seq<SourceLine>,
    cache: FileLineCache,
) -> Seq<(Seq<char>, Style)> {
    seq![(name + seq![':', '\n'], Style::Plain)] + rows_spans(
        config,
        m,
        instrs,
        patches,
        arrow_grid(config, m, instrs.len() as int, jumps),
        mappings,
        cache,
        instrs.len() as int,
    )
}

/// A path with a line, where both are known.
pub open spec fn pair_of(path: Option<String>, line: Option<u32>) -> SourceLine {
    match (path, line) {
        (Some(p), Some(l)) => Some((p, l)),
        _ => None,
    }
}

/// The source line to show above the next instruction, and the line that was last looked at
/// from then on.
fn next_source_line(
    previous_path: &mut Option<String>,
    previous_line: &mut Option<u32>,
    here: &SourceLine,
) -> (r: Option<(String, u32)>)
    requires
        *old(previous_path) is Some <==> *old(previous_line) is Some,
    ensures
        *final(previous_path) is Some <==> *final(previous_line) is Some,
        source_view(pair_of(*final(previous_path), *final(previous_line))) == seen_line(
            source_view(pair_of(*old(previous_path), *old(previous_line))),
            source_view(*here),
        ),
        source_view(r) == fresh_line(
            source_view(pair_of(*old(previous_path), *old(previous_line))),
            source_view(*here),
        ),
{
    match here {
        None => None,
        Some((path, line)) => {
            let changed = match (&*previous_path, &*previous_line) {
                (Some(last_path), Some(last_line)) => !same_text(last_path.as_str(), path.as_str())
                    || *last_line != *line,
                _ => true,
            };
            *previous_path = Some(path.clone());
            *previous_line = Some(*line);
            if changed {
                Some((path.clone(), *line))
            } else {
                None
            }
        },
    }
}

/// Appends to `output` the source line above instruction `n`, if any.
fn push_source(
    output: &mut Vec<Span>,
    config: &DisasmConfig,
    mappings: &Vec<SourceLine>,
    line_cache: &FileLineCache,
    n: usize,
    previous_path: &mut Option<String>,
    previous_line: &mut Option<u32>,
)
    requires
        n < mappings@.len(),
        *old(previous_path) is Some <==> *old(previous_line) is Some,
        source_view(pair_of(*old(previous_path), *old(previous_line))) == seen_before(
            mappings@,
            n as int,
        ),
    ensures
        *final(previous_path) is Some <==> *final(previous_line) is Some,
        source_view(pair_of(*final(previous_path), *final(previous_line))) == seen_before(
            mappings@,
            n + 1,
        ),
        span_texts(final(output)@) == span_texts(old(output)@) + source_spans(
            source_text(*config, mappings@, *line_cache, n as int),
        ),
{
    let ghost done = span_texts(output@);
    let fresh = next_source_line(previous_path, previous_line, &mappings[n]);
    if config.display_source {
        if let Some((path, line)) = fresh {
            if let Some(text) = line_cache.get_line(path.as_str(), line) {
                let mut shown = text;
                shown.push('\n');
                let span = Span { text: shown, style: Style::Source };
                proof {
                    lemma_span_texts_push(output@, span);
                    assert(shown@ =~= text@ + seq!['\n']);
                }
                output.push(span);
            }
        }
    }
    proof {
        assert(span_texts(output@) =~= done + source_spans(
            source_text(*config, mappings@, *line_cache, n as int),
        ));
    }
}

/// What stands before the mnemonic in the row of instruction `n`.
fn row_head_text(
    config: &DisasmConfig,
    m: &OutputMeasure,
    instr: &Instruction,
    pieces: &[ArrowPiece],
    n: usize,
) -> (row: String)
    requires
        m.bytes_width + 4 <= usize::MAX,
        instr.bytes@.len() * 3 <= usize::MAX,
        config.display_jumps ==> (n + 1) * m.jumps_width <= pieces@.len(),
    ensures
        row@ == row_head(*config, *m, *instr, pieces@, n as int),
{
    // Left padding
    let mut row = String::new();
    row.push(' ');
    row.push(' ');
    if config.display_address {
        write_address(&mut row, instr.address, m.address_width);
        row.push(':');
        row.push(' ');
        row.push(' ');
        row.push(' ');
        row.push(' ');
    }
    let ghost with_address = row@;
    proof {
        assert(with_address =~= seq![' ', ' '] + (if config.display_address {
            address_text(instr.address, m.address_width as int) + seq![':', ' ', ' ', ' ', ' ']
        } else {
            Seq::empty()
        }));
    }
    if config.display_bytes {
        write_hex_string(instr.bytes.as_slice(), m.bytes_width + 4, &mut row);
    }
    let ghost with_bytes = row@;
    if config.display_jumps {
        write_arrow_pieces_for_line(&mut row, pieces, m.jumps_width, n);
    }
    proof {
        assert(row@ =~= row_head(*config, *m, *instr, pieces@, n as int));
    }
    row
}

/// Appends to `output` the row of instruction `n`.
fn push_row(
    output: &mut Vec<Span>,
    config: &DisasmConfig,
    m: &OutputMeasure,
    instr: &Instruction,
    patch: Option<&String>,
    pieces: &[ArrowPiece],
    n: usize,
)
    requires
        m.bytes_width + 4 <= usize::MAX,
        instr.bytes@.len() * 3 <= usize::MAX,
        config.display_jumps ==> (n + 1) * m.jumps_width <= pieces@.len(),
    ensures
        span_texts(final(output)@) == span_texts(old(output)@) + row_spans(
            *config,
            *m,
            *instr,
            match patch {
                Some(text) => Some(text@),
                None => None,
            },
            pieces@,
            n as int,
        ),
{
    let ghost done = span_texts(output@);
    let ghost patch_text: Option<Seq<char>> = match patch {
        Some(text) => Some(text@),
        None => None,
    };
    let mut row = row_head_text(config, m, instr, pieces, n);
    if config.display_instr {
        let first = Span { text: row, style: Style::Plain };
        proof {
            lemma_span_texts_push(output@, first);
        }
        output.push(first);
        let mut name = String::new();
        write_padded(&mut name, instr.mnemonic.as_str(), m.mnemonic_width);
        name.push(' ');
        name.push(' ');
        name.push(' ');
        name.push(' ');
        let second = Span { text: name, style: Style::Mnemonic };
        proof {
            lemma_span_texts_push(output@, second);
        }
        output.push(second);
        let mut operands = String::new();
        let shown: &str = match patch {
            Some(text) => if config.display_patches {
                text.as_str()
            } else {
                instr.op_str.as_str()
            },
            None => instr.op_str.as_str(),
        };
        write_padded(&mut operands, shown, m.operands_width);
        operands.push('\n');
        let third = Span { text: operands, style: Style::Plain };
        proof {
            lemma_span_texts_push(output@, third);
        }
        output.push(third);
        proof {
            assert(name@ =~= pad_right(instr.mnemonic@, m.mnemonic_width as int)
                + seq![' ', ' ', ' ', ' ']);
            assert(operands@ =~= pad_right(
                operand_text(*instr, patch_text, config.display_patches),
                m.operands_width as int,
            ) + seq!['\n']);
            assert(span_texts(output@) =~= done + row_spans(
                *config,
                *m,
                *instr,
                patch_text,
                pieces@,
                n as int,
            ));
        }
    } else {
        let ghost head_text = row@;
        row.push('\n');
        let only = Span { text: row, style: Style::Plain };
        proof {
            lemma_span_texts_push(output@, only);
            assert(only.text@ =~= head_text + seq!['\n']);
        }
        output.push(only);
        proof {
            assert(span_texts(output@) =~= done + row_spans(
                *config,
                *m,
                *instr,
                patch_text,
                pieces@,
                n as int,
            ));
        }
    }
}

/// The listing of the function `symbol`, whose instructions are `instrs`: its name, then for
/// each instruction a row, with the line of the source above it where it differs from that
/// of the instruction before. `mappings` holds, for each instruction, the file and line that
/// it comes from; `line_cache` holds the source files.
pub fn write_disasm_output(
    symbol: &Symbol,
    instrs: &[Instruction],
    config: &DisasmConfig,
    jumps: &InnerJumpTable,
    op_patches: &OperandPatches,
    mappings: &Vec<SourceLine>,
    line_cache: &FileLineCache,
) -> (output: (Vec<Span>, OutputMeasure))
    requires
        jumps.spec_max_display_offset() < usize::MAX,
        (jumps.spec_max_display_offset() + 1) * instrs@.len() <= usize::MAX,
        mappings@.len() == instrs@.len(),
        forall|i: int|
            0 <= i < instrs@.len() ==> (#[trigger] instrs@[i]).bytes@.len() * 3 + 4 <= usize::MAX,
        forall|i: int|
            0 <= i < jumps@.len() ==> (#[trigger] jumps@[i]).source < instrs@.len()
                && jumps@[i].target < instrs@.len() && jumps@[i].display_offset
                <= jumps.spec_max_display_offset(),
    ensures
        output.1.jumps_width == (if config.display_jumps {
            jumps.spec_max_display_offset() + 1
        } else {
            0
        }),
        (
            output.1.address_width as int,
            output.1.bytes_width as int,
            output.1.mnemonic_width as int,
            output.1.operands_width as int,
        ) == widths(instrs@, *op_patches, *config, instrs@.len() as int),
        span_texts(output.0@) == listing_spans(
            symbol.demangled_name@,
            *config,
            output.1,
            instrs@,
            jumps@,
            *op_patches,
            mappings@,
            *line_cache,
        ),
{
    let m = measure(instrs, config, jumps, op_patches);
    let mut output: Vec<Span> = Vec::new();
    let mut header = String::new();
    push_str(&mut header, symbol.demangled_name.as_str());
    header.push(':');
    header.push('\n');
    proof {
        assert(header@ =~= symbol.demangled_name@ + seq![':', '\n']);
    }
    output.push(Span { text: header, style: Style::Plain });
    let height = instrs.len();
    let jump_arrow_pieces = if config.display_jumps {
        create_jump_arrows_buffer(m.jumps_width, height, jumps)
    } else {
        Vec::new()
    };
    let ghost pieces = jump_arrow_pieces@;
    let ghost head = seq![(symbol.demangled_name@ + seq![':', '\n'], Style::Plain)];
    proof {
        assert(pieces =~= arrow_grid(*config, m, height as int, jumps@));
        assert(span_texts(output@) =~= head + rows_spans(
            *config,
            m,
            instrs@,
            *op_patches,
            pieces,
            mappings@,
            *line_cache,
            0,
        ));
    }
    let mut previous_source_path: Option<String> = None;
    let mut previous_source_line: Option<u32> = None;
    let mut instr_idx: usize = 0;
    while instr_idx < height
        invariant
            instr_idx <= height,
            height == instrs@.len(),
            mappings@.len() == height,
            config.display_jumps ==> pieces.len() == m.jumps_width * height,
            pieces == jump_arrow_pieces@,
            m.bytes_width + 4 <= usize::MAX,
            forall|i: int|
                0 <= i < instrs@.len() ==> (#[trigger] instrs@[i]).bytes@.len() * 3 + 4
                    <= usize::MAX,
            previous_source_path is Some <==> previous_source_line is Some,
            source_view(pair_of(previous_source_path, previous_source_line)) == seen_before(
                mappings@,
                instr_idx as int,
            ),
            span_texts(output@) == head + rows_spans(
                *config,
                m,
                instrs@,
                *op_patches,
                pieces,
                mappings@,
                *line_cache,
                instr_idx as int,
            ),
        decreases height - instr_idx,
    {
        let ghost n = instr_idx as int;
        let ghost done = rows_spans(
            *config,
            m,
            instrs@,
            *op_patches,
            pieces,
            mappings@,
            *line_cache,
            n,
        );
        push_source(
            &mut output,
            config,
            mappings,
            line_cache,
            instr_idx,
            &mut previous_source_path,
            &mut previous_source_line,
        );
        proof {
            assert(instrs@[n].bytes@.len() * 3 + 4 <= usize::MAX);
            if config.display_jumps {
                assert((n + 1) * m.jumps_width <= m.jumps_width * height) by (nonlinear_arith)
                    requires
                        0 <= n < height,
                        0 <= m.jumps_width,
                ;
            }
        }
        push_row(
            &mut output,
            config,
            &m,
            &instrs[instr_idx],
            op_patches.get(instr_idx),
            jump_arrow_pieces.as_slice(),
            instr_idx,
        );
        proof {
            let source = source_spans(source_text(*config, mappings@, *line_cache, n));
            let row = row_spans(*config, m, instrs@[n], op_patches.patch(n), pieces, n);
            assert(span_texts(output@) =~= head + (done + source + row));
        }
        instr_idx += 1;
    }
    (output, m)
}

} // verus!
