use crate::jumps::{InnerJump, InnerJumpTable};
use vstd::prelude::*;

verus! {

/*
 * The four sides of a cell that a line can leave through:
 *
 *           ARROW_TOP
 *  ARROW_LEFT      ARROW_RIGHT
 *           ARROW_BOT
 */

pub const ARROW_NONE: u8 = 0b0000;

pub const ARROW_TOP: u8 = 0b0001;

pub const ARROW_RIGHT: u8 = 0b0010;

pub const ARROW_BOT: u8 = 0b0100;

pub const ARROW_LEFT: u8 = 0b1000;

/// What one cell of the arrow column shows: nothing, the head of an arrow, or a piece of line
/// that leaves the cell through the given sides.
#[derive(Clone, Copy, PartialEq, Eq, Debug, Structural)]
pub enum ArrowPiece {
    Empty,
    End(u8),
    Dir(u8),
}

/// One piece put on the cell in column `1` and row `2`.
pub type Stroke = (ArrowPiece, int, int);

/// The piece that a cell shows once `new_piece` is put on `old_piece`: lines join, heads join,
/// and a head covers a line.
pub open spec fn merge_piece(old_piece: ArrowPiece, new_piece: ArrowPiece) -> ArrowPiece {
    match old_piece {
        ArrowPiece::End(bits) => match new_piece {
            ArrowPiece::End(new_bits) => ArrowPiece::End(bits | new_bits),
            _ => old_piece,
        },
        ArrowPiece::Dir(bits) => match new_piece {
            ArrowPiece::End(new_bits) => ArrowPiece::End(new_bits),
            ArrowPiece::Dir(new_bits) => ArrowPiece::Dir(bits | new_bits),
            ArrowPiece::Empty => old_piece,
        },
        ArrowPiece::Empty => new_piece,
    }
}

/// The place in the grid of the cell in column `x` and row `y`.
pub open spec fn cell(width: int, x: int, y: int) -> int {
    y * width + x
}

/// The grid of `width` columns after the strokes are put on it one after the other.
pub open spec fn paint(grid: Seq<ArrowPiece>, width: int, strokes: Seq<Stroke>) -> Seq<ArrowPiece>
    decreases strokes.len(),
{
    if strokes.len() == 0 {
        grid
    } else {
        let g = paint(grid, width, strokes.drop_last());
        let s = strokes.last();
        let off = cell(width, s.1, s.2);
        g.update(off, merge_piece(g[off], s.0))
    }
}

/// The line from the right edge of row `from_y` leftward to the column next to `col`.
pub open spec fn strokes_out(width: int, col: int, from_y: int) -> Seq<Stroke> {
    Seq::new(
        (width - 1 - col) as nat,
        |i: int| (ArrowPiece::Dir(ARROW_LEFT | ARROW_RIGHT), width - 1 - i, from_y),
    )
}

/// The line in column `col` from row `from_y` to row `to_y`, with its two corners.
pub open spec fn strokes_down(col: int, from_y: int, to_y: int) -> Seq<Stroke> {
    if from_y > to_y {
        seq![(ArrowPiece::Dir(ARROW_RIGHT | ARROW_TOP), col, from_y)] + Seq::new(
            (from_y - to_y - 1) as nat,
            |i: int| (ArrowPiece::Dir(ARROW_TOP | ARROW_BOT), col, from_y - 1 - i),
        ) + seq![(ArrowPiece::Dir(ARROW_BOT | ARROW_RIGHT), col, to_y)]
    } else {
        seq![(ArrowPiece::Dir(ARROW_RIGHT | ARROW_BOT), col, from_y)] + Seq::new(
            (to_y - from_y - 1) as nat,
            |i: int| (ArrowPiece::Dir(ARROW_TOP | ARROW_BOT), col, from_y + 1 + i),
        ) + seq![(ArrowPiece::Dir(ARROW_TOP | ARROW_RIGHT), col, to_y)]
    }
}

/// The line in row `to_y` from the column next to `col` rightward, up to the last column but
/// one.
pub open spec fn strokes_back(width: int, col: int, to_y: int) -> Seq<Stroke> {
    Seq::new(
        if width - 2 - col > 0 {
            (width - 2 - col) as nat
        } else {
            0
        },
        |i: int| (ArrowPiece::Dir(ARROW_LEFT | ARROW_RIGHT), col + 1 + i, to_y),
    )
}

/// The strokes of the arrow from row `from_y` to row `to_y` whose upright line stands in
/// column `col`: a head at the right edge of the source row, the line to `col`, along `col` to
/// the target row and back, and a head at the right edge of the target row.
pub open spec fn arrow_strokes(width: int, col: int, from_y: int, to_y: int) -> Seq<Stroke> {
    seq![(ArrowPiece::End(ARROW_LEFT), width - 1, from_y)] + strokes_out(width, col, from_y)
        + strokes_down(col, from_y, to_y) + strokes_back(width, col, to_y)
        + seq![(ArrowPiece::End(ARROW_RIGHT), width - 1, to_y)]
}

/// The column in which the arrow of a jump in lane `display_offset` runs.
pub open spec fn lane_column(width: int, display_offset: int) -> int {
    width - 1 - display_offset
}

/// The grid after the arrows of `js` are drawn on it in order; a jump to its own row has no
/// arrow.
pub open spec fn paint_jumps(grid: Seq<ArrowPiece>, width: int, js: Seq<InnerJump>) -> Seq<
    ArrowPiece,
>
    decreases js.len(),
{
    if js.len() == 0 {
        grid
    } else {
        let g = paint_jumps(grid, width, js.drop_last());
        let j = js.last();
        if j.source == j.target {
            g
        } else {
            paint(
                g,
                width,
                arrow_strokes(
                    width,
                    lane_column(width, j.display_offset as int),
                    j.source as int,
                    j.target as int,
                ),
            )
        }
    }
}

/// A grid of `cells` empty cells.
pub open spec fn blank_grid(cells: int) -> Seq<ArrowPiece> {
    Seq::new(cells as nat, |i: int| ArrowPiece::Empty)
}

/// The character that shows `piece`.
pub open spec fn arrow_glyph(piece: ArrowPiece) -> char {
    match piece {
        ArrowPiece::Empty => ' ',
        ArrowPiece::End(bits) => if bits == ARROW_LEFT {
            '\u{25C0}'
        } else if bits == ARROW_RIGHT {
            '\u{25B6}'
        } else if bits == ARROW_LEFT | ARROW_RIGHT {
            '\u{25C6}'
        } else {
            '?'
        },
        ArrowPiece::Dir(bits) => if bits == 0b0001 {
            '\u{2502}'
        } else if bits == 0b0010 {
            '\u{2500}'
        } else if bits == 0b0011 {
            '\u{2514}'
        } else if bits == 0b0100 {
            '\u{2502}'
        } else if bits == 0b0101 {
            '\u{2502}'
        } else if bits == 0b0110 {
            '\u{250C}'
        } else if bits == 0b0111 {
            '\u{251C}'
        } else if bits == 0b1000 {
            '\u{2500}'
        } else if bits == 0b1001 {
            '\u{2518}'
        } else if bits == 0b1010 {
            '\u{2500}'
        } else if bits == 0b1011 {
            '\u{2534}'
        } else if bits == 0b1100 {
            '\u{2510}'
        } else if bits == 0b1101 {
            '\u{2524}'
        } else if bits == 0b1110 {
            '\u{252C}'
        } else if bits == 0b1111 {
            '\u{253C}'
        } else {
            '?'
        },
    }
}

/// The characters of the cells `first .. first + count` of `pieces`.
pub open spec fn glyphs(pieces: Seq<ArrowPiece>, first: int, count: int) -> Seq<char> {
    Seq::new(count as nat, |i: int| arrow_glyph(pieces[first + i]))
}

/// The character that shows `piece`.
pub fn glyph_of(piece: ArrowPiece) -> (c: char)
    ensures
        c == arrow_glyph(piece),
{
    match piece {
        ArrowPiece::Empty => ' ',
        ArrowPiece::End(bits) => {
            if bits == ARROW_LEFT {
                '\u{25C0}'
            } else if bits == ARROW_RIGHT {
                '\u{25B6}'
            } else if bits == ARROW_LEFT | ARROW_RIGHT {
                '\u{25C6}'
            } else {
                '?'
            }
        },
        ArrowPiece::Dir(bits) => {
            if bits == 0b0001 {
                '\u{2502}'
            } else if bits == 0b0010 {
                '\u{2500}'
            } else if bits == 0b0011 {
                '\u{2514}'
            } else if bits == 0b0100 {
                '\u{2502}'
            } else if bits == 0b0101 {
                '\u{2502}'
            } else if bits == 0b0110 {
                '\u{250C}'
            } else if bits == 0b0111 {
                '\u{251C}'
            } else if bits == 0b1000 {
                '\u{2500}'
            } else if bits == 0b1001 {
                '\u{2518}'
            } else if bits == 0b1010 {
                '\u{2500}'
            } else if bits == 0b1011 {
                '\u{2534}'
            } else if bits == 0b1100 {
                '\u{2510}'
            } else if bits == 0b1101 {
                '\u{2524}'
            } else if bits == 0b1110 {
                '\u{252C}'
            } else if bits == 0b1111 {
                '\u{253C}'
            } else {
                '?'
            }
        },
    }
}

/// Appends to `output` the characters of row `line` of a grid of `width` columns.
pub fn write_arrow_pieces_for_line(
    output: &mut String,
    pieces: &[ArrowPiece],
    width: usize,
    line: usize,
)
    requires
        (line + 1) * width <= pieces@.len(),
    ensures
        final(output)@ == old(output)@ + glyphs(pieces@, line * width, width as int),
{
    let cells = pieces.len();
    assert(0 <= line * width && line * width + width == (line + 1) * width) by (nonlinear_arith);
    let off = line * width;
    let ghost before = output@;
    let mut i: usize = 0;
    while i < width
        invariant
            i <= width,
            cells == pieces@.len(),
            off + width <= cells,
            output@ == before + glyphs(pieces@, off as int, i as int),
        decreases width - i,
    {
        let c = glyph_of(pieces[off + i]);
        output.push(c);
        proof {
            assert(glyphs(pieces@, off as int, i + 1) =~= glyphs(pieces@, off as int, i as int).push(
                c,
            ));
            assert(output@ =~= before + glyphs(pieces@, off as int, i + 1));
        }
        i += 1;
    }
}

/// Putting two runs of strokes on a grid one after the other is putting their concatenation.
pub proof fn lemma_paint_concat(
    grid: Seq<ArrowPiece>,
    width: int,
    first: Seq<Stroke>,
    second: Seq<Stroke>,
)
    ensures
        paint(grid, width, first + second) == paint(paint(grid, width, first), width, second),
    decreases second.len(),
{
    if second.len() == 0 {
        assert(first + second =~= first);
    } else {
        lemma_paint_concat(grid, width, first, second.drop_last());
        assert((first + second).drop_last() =~= first + second.drop_last());
        assert((first + second).last() == second.last());
    }
}

/// Puts `piece` on the cell in column `x` and row `y`.
fn push_piece(pieces: &mut Vec<ArrowPiece>, width: usize, piece: ArrowPiece, x: usize, y: usize)
    requires
        0 <= cell(width as int, x as int, y as int) < old(pieces)@.len(),
    ensures
        final(pieces)@ == paint(old(pieces)@, width as int, seq![(piece, x as int, y as int)]),
        final(pieces)@.len() == old(pieces)@.len(),
{
    let cells = pieces.len();
    assert(0 <= y * width) by (nonlinear_arith);
    let off = y * width + x;
    let merged = match pieces[off] {
        ArrowPiece::End(bits) => match piece {
            ArrowPiece::End(new_bits) => ArrowPiece::End(bits | new_bits),
            _ => ArrowPiece::End(bits),
        },
        ArrowPiece::Dir(bits) => match piece {
            ArrowPiece::End(new_bits) => ArrowPiece::End(new_bits),
            ArrowPiece::Dir(new_bits) => ArrowPiece::Dir(bits | new_bits),
            ArrowPiece::Empty => ArrowPiece::Dir(bits),
        },
        ArrowPiece::Empty => piece,
    };
    proof {
        let strokes = seq![(piece, x as int, y as int)];
        assert(strokes.drop_last() =~= Seq::<Stroke>::empty());
        assert(paint(pieces@, width as int, strokes.drop_last()) == pieces@);
    }
    pieces.set(off, merged);
}

/// Draws on the grid the arrow from row `from_y` to row `to_y` whose upright line stands in
/// column `extend_x`.
pub fn draw_arrow_to(
    pieces: &mut Vec<ArrowPiece>,
    width: usize,
    extend_x: usize,
    from_y: usize,
    to_y: usize,
)
    requires
        extend_x < width,
        from_y != to_y,
        (from_y + 1) * width <= old(pieces)@.len(),
        (to_y + 1) * width <= old(pieces)@.len(),
    ensures
        final(pieces)@ == paint(
            old(pieces)@,
            width as int,
            arrow_strokes(width as int, extend_x as int, from_y as int, to_y as int),
        ),
        final(pieces)@.len() == old(pieces)@.len(),
{
    let ghost g0 = pieces@;
    let ghost w = width as int;
    let ghost size = pieces@.len() as int;
    proof {
        lemma_rows_fit(w, size, from_y as int, to_y as int);
    }
    push_piece(pieces, width, ArrowPiece::End(ARROW_LEFT), width - 1, from_y);
    let ghost head = seq![(ArrowPiece::End(ARROW_LEFT), w - 1, from_y as int)];

    let mut cur_x: usize = width - 1;
    let mut cur_y: usize = from_y;
    let ghost out = strokes_out(w, extend_x as int, from_y as int);
    while cur_x > extend_x
        invariant
            extend_x <= cur_x < width,
            w == width,
            size == pieces@.len(),
            forall|y: int, x: int|
                (from_y <= y <= to_y || to_y <= y <= from_y) && 0 <= x < w ==> 0 <= #[trigger] cell(w, x, y) < size,
            out == strokes_out(w, extend_x as int, from_y as int),
            pieces@ == paint(g0, w, head + out.take(w - 1 - cur_x)),
        decreases cur_x,
    {
        let ghost prev = pieces@;
        assert(0 <= cell(w, cur_x as int, from_y as int) < size);
        push_piece(pieces, width, ArrowPiece::Dir(ARROW_LEFT | ARROW_RIGHT), cur_x, from_y);
        proof {
            let n = w - 1 - cur_x;
            let one = seq![(ArrowPiece::Dir(ARROW_LEFT | ARROW_RIGHT), cur_x as int, from_y as int)];
            assert(out.take(n + 1) =~= out.take(n) + one);
            lemma_paint_concat(g0, w, head + out.take(n), one);
            assert(head + out.take(n + 1) =~= (head + out.take(n)) + one);
        }
        cur_x -= 1;
    }
    proof {
        assert(out.take(w - 1 - cur_x) =~= out);
    }
    let ghost g1 = pieces@;
    let ghost col = extend_x as int;
    let ghost down = strokes_down(col, from_y as int, to_y as int);

    if cur_y > to_y {
        assert(0 <= cell(w, cur_x as int, cur_y as int) < size);
        push_piece(pieces, width, ArrowPiece::Dir(ARROW_RIGHT | ARROW_TOP), cur_x, cur_y);
        cur_y -= 1;
        let ghost first = seq![(ArrowPiece::Dir(ARROW_RIGHT | ARROW_TOP), col, from_y as int)];
        let ghost mid = Seq::new(
            (from_y - to_y - 1) as nat,
            |i: int| (ArrowPiece::Dir(ARROW_TOP | ARROW_BOT), col, from_y - 1 - i),
        );
        while cur_y > to_y
            invariant
                to_y <= cur_y < from_y,
                cur_x == extend_x,
                extend_x < width,
                w == width,
                col == extend_x,
                size == pieces@.len(),
                forall|y: int, x: int|
                (from_y <= y <= to_y || to_y <= y <= from_y) && 0 <= x < w ==> 0 <= #[trigger] cell(w, x, y) < size,
                mid == Seq::new(
                    (from_y - to_y - 1) as nat,
                    |i: int| (ArrowPiece::Dir(ARROW_TOP | ARROW_BOT), col, from_y - 1 - i),
                ),
                pieces@ == paint(g1, w, first + mid.take(from_y - 1 - cur_y)),
            decreases cur_y,
        {
            assert(0 <= cell(w, cur_x as int, cur_y as int) < size);
            push_piece(pieces, width, ArrowPiece::Dir(ARROW_TOP | ARROW_BOT), cur_x, cur_y);
            proof {
                let n = from_y - 1 - cur_y;
                let one = seq![(ArrowPiece::Dir(ARROW_TOP | ARROW_BOT), col, cur_y as int)];
                assert(mid.take(n + 1) =~= mid.take(n) + one);
                lemma_paint_concat(g1, w, first + mid.take(n), one);
                assert(first + mid.take(n + 1) =~= (first + mid.take(n)) + one);
            }
            cur_y -= 1;
        }
        assert(0 <= cell(w, cur_x as int, cur_y as int) < size);
        push_piece(pieces, width, ArrowPiece::Dir(ARROW_BOT | ARROW_RIGHT), cur_x, cur_y);
        proof {
            let last = seq![(ArrowPiece::Dir(ARROW_BOT | ARROW_RIGHT), col, to_y as int)];
            assert(mid.take(from_y - 1 - cur_y) =~= mid);
            lemma_paint_concat(g1, w, first + mid, last);
            assert(down =~= first + mid + last);
        }
    } else {
        assert(0 <= cell(w, cur_x as int, cur_y as int) < size);
        push_piece(pieces, width, ArrowPiece::Dir(ARROW_RIGHT | ARROW_BOT), cur_x, cur_y);
        cur_y += 1;
        let ghost first = seq![(ArrowPiece::Dir(ARROW_RIGHT | ARROW_BOT), col, from_y as int)];
        let ghost mid = Seq::new(
            (to_y - from_y - 1) as nat,
            |i: int| (ArrowPiece::Dir(ARROW_TOP | ARROW_BOT), col, from_y + 1 + i),
        );
        while cur_y < to_y
            invariant
                from_y < cur_y <= to_y,
                cur_x == extend_x,
                extend_x < width,
                w == width,
                col == extend_x,
                size == pieces@.len(),
                forall|y: int, x: int|
                (from_y <= y <= to_y || to_y <= y <= from_y) && 0 <= x < w ==> 0 <= #[trigger] cell(w, x, y) < size,
                mid == Seq::new(
                    (to_y - from_y - 1) as nat,
                    |i: int| (ArrowPiece::Dir(ARROW_TOP | ARROW_BOT), col, from_y + 1 + i),
                ),
                pieces@ == paint(g1, w, first + mid.take(cur_y - from_y - 1)),
            decreases to_y - cur_y,
        {
            assert(0 <= cell(w, cur_x as int, cur_y as int) < size);
            push_piece(pieces, width, ArrowPiece::Dir(ARROW_TOP | ARROW_BOT), cur_x, cur_y);
            proof {
                let n = cur_y - from_y - 1;
                let one = seq![(ArrowPiece::Dir(ARROW_TOP | ARROW_BOT), col, cur_y as int)];
                assert(mid.take(n + 1) =~= mid.take(n) + one);
                lemma_paint_concat(g1, w, first + mid.take(n), one);
                assert(first + mid.take(n + 1) =~= (first + mid.take(n)) + one);
            }
            cur_y += 1;
        }
        assert(0 <= cell(w, cur_x as int, cur_y as int) < size);
        push_piece(pieces, width, ArrowPiece::Dir(ARROW_TOP | ARROW_RIGHT), cur_x, cur_y);
        proof {
            let last = seq![(ArrowPiece::Dir(ARROW_TOP | ARROW_RIGHT), col, to_y as int)];
            assert(mid.take(cur_y - from_y - 1) =~= mid);
            lemma_paint_concat(g1, w, first + mid, last);
            assert(down =~= first + mid + last);
        }
    }
    let ghost g2 = pieces@;
    assert(g2 == paint(g1, w, down));
    let ghost back = strokes_back(w, col, to_y as int);

    while width >= 2 && cur_x < width - 2
        invariant
            extend_x <= cur_x < width,
            cur_x == extend_x || cur_x + 2 <= width,
            cur_y == to_y,
            w == width,
            col == extend_x,
            size == pieces@.len(),
            forall|y: int, x: int|
                (from_y <= y <= to_y || to_y <= y <= from_y) && 0 <= x < w ==> 0 <= #[trigger] cell(w, x, y) < size,
            back == strokes_back(w, col, to_y as int),
            pieces@ == paint(g2, w, back.take(cur_x - extend_x)),
        decreases width - cur_x,
    {
        cur_x += 1;
        assert(0 <= cell(w, cur_x as int, cur_y as int) < size);
        push_piece(pieces, width, ArrowPiece::Dir(ARROW_LEFT | ARROW_RIGHT), cur_x, cur_y);
        proof {
            let n = cur_x - 1 - extend_x;
            let one = seq![(ArrowPiece::Dir(ARROW_LEFT | ARROW_RIGHT), cur_x as int, to_y as int)];
            assert(back.take(n + 1) =~= back.take(n) + one);
            lemma_paint_concat(g2, w, back.take(n), one);
        }
    }
    proof {
        assert(back.take(cur_x - extend_x) =~= back);
    }
    let ghost g3 = pieces@;
    assert(0 <= cell(w, (width - 1) as int, cur_y as int) < size);
    push_piece(pieces, width, ArrowPiece::End(ARROW_RIGHT), width - 1, cur_y);
    proof {
        let tail = seq![(ArrowPiece::End(ARROW_RIGHT), w - 1, to_y as int)];
        lemma_paint_concat(g0, w, head, out);
        lemma_paint_concat(g0, w, head + out, down);
        lemma_paint_concat(g0, w, head + out + down, back);
        lemma_paint_concat(g0, w, head + out + down + back, tail);
    }
}

/// Every cell of the rows between two rows that fit in the grid lies in the grid.
proof fn lemma_rows_fit(w: int, size: int, from_y: int, to_y: int)
    requires
        0 < w,
        0 <= from_y,
        0 <= to_y,
        (from_y + 1) * w <= size,
        (to_y + 1) * w <= size,
    ensures
        forall|y: int, x: int|
                (from_y <= y <= to_y || to_y <= y <= from_y) && 0 <= x < w ==> 0 <= #[trigger] cell(w, x, y) < size,
{
    assert forall|y: int, x: int|
                (from_y <= y <= to_y || to_y <= y <= from_y) && 0 <= x < w implies 0 <= #[trigger] cell(w, x, y) < size by {
        let top = if from_y <= to_y {
            to_y
        } else {
            from_y
        };
        assert(0 <= y * w && (y + 1) * w <= (top + 1) * w && (y + 1) * w == y * w + w)
            by (nonlinear_arith)
            requires
                0 <= y <= top,
                0 < w,
        ;
    }
}

/// A grid of `width` columns and `height` rows with the arrows of `jumps`.
pub fn create_jump_arrows_buffer(width: usize, height: usize, jumps: &InnerJumpTable) -> (pieces:
    Vec<ArrowPiece>)
    requires
        width * height <= usize::MAX,
        forall|i: int|
            0 <= i < jumps@.len() ==> (#[trigger] jumps@[i]).source < height && jumps@[i].target
                < height && jumps@[i].display_offset < width,
    ensures
        pieces@ == paint_jumps(blank_grid(width * height), width as int, jumps@),
        pieces@.len() == width * height,
{
    let cells = width * height;
    let mut pieces: Vec<ArrowPiece> = Vec::new();
    while pieces.len() < cells
        invariant
            pieces@.len() <= cells,
            pieces@ =~= blank_grid(pieces@.len() as int),
        decreases cells - pieces@.len(),
    {
        pieces.push(ArrowPiece::Empty);
    }
    let ghost blank = pieces@;
    let all = jumps.iter();
    let mut i: usize = 0;
    while i < all.len()
        invariant
            i <= all@.len(),
            all@ == jumps@,
            cells == width * height,
            pieces@.len() == cells,
            forall|k: int|
                0 <= k < jumps@.len() ==> (#[trigger] jumps@[k]).source < height
                    && jumps@[k].target < height && jumps@[k].display_offset < width,
            pieces@ == paint_jumps(blank, width as int, jumps@.take(i as int)),
        decreases all@.len() - i,
    {
        let jump = all[i];
        proof {
            assert(jumps@.take(i + 1).drop_last() =~= jumps@.take(i as int));
            assert(jumps@.take(i + 1).last() == jump);
            assert(jump == jumps@[i as int]);
        }
        if jump.source != jump.target {
            proof {
                let w = width as int;
                let h = height as int;
                let s = jump.source as int;
                let t = jump.target as int;
                assert((s + 1) * w <= w * h && (t + 1) * w <= w * h) by (nonlinear_arith)
                    requires
                        0 <= s < h,
                        0 <= t < h,
                        0 <= w,
                ;
            }
            draw_arrow_to(
                &mut pieces,
                width,
                width - jump.display_offset - 1,
                jump.source,
                jump.target,
            );
        }
        i += 1;
    }
    proof {
        assert(jumps@.take(all@.len() as int) =~= jumps@);
    }
    pieces
}

/// The character of the hexadecimal digit `n`, in upper case.
pub open spec fn hex_digit_upper(n: int) -> char {
    if n == 0 {
        '0'
    } else if n == 1 {
        '1'
    } else if n == 2 {
        '2'
    } else if n == 3 {
        '3'
    } else if n == 4 {
        '4'
    } else if n == 5 {
        '5'
    } else if n == 6 {
        '6'
    } else if n == 7 {
        '7'
    } else if n == 8 {
        '8'
    } else if n == 9 {
        '9'
    } else if n == 10 {
        'A'
    } else if n == 11 {
        'B'
    } else if n == 12 {
        'C'
    } else if n == 13 {
        'D'
    } else if n == 14 {
        'E'
    } else {
        'F'
    }
}

/// The two hexadecimal digits of each byte, a space between one byte and the next.
pub open spec fn hex_text(bytes: Seq<u8>) -> Seq<char>
    decreases bytes.len(),
{
    if bytes.len() == 0 {
        Seq::empty()
    } else {
        let b = bytes.last();
        let pair = seq![hex_digit_upper(b as int / 16), hex_digit_upper(b as int % 16)];
        if bytes.len() == 1 {
            pair
        } else {
            hex_text(bytes.drop_last()) + seq![' '] + pair
        }
    }
}

/// `count` spaces.
pub open spec fn spaces(count: int) -> Seq<char> {
    Seq::new(
        if count > 0 {
            count as nat
        } else {
            0
        },
        |i: int| ' ',
    )
}

/// The number of characters of `hex_text` for `count` bytes.
pub open spec fn hex_width(count: int) -> int {
    if count <= 0 {
        0
    } else {
        count * 3 - 1
    }
}

/// The text of the bytes in hexadecimal has two digits for each byte and a space between one
/// byte and the next.
pub proof fn lemma_hex_text_len(bytes: Seq<u8>)
    ensures
        hex_text(bytes).len() == hex_width(bytes.len() as int),
    decreases bytes.len(),
{
    if bytes.len() > 1 {
        lemma_hex_text_len(bytes.drop_last());
    }
}

/// The character of the hexadecimal digit `n`, in upper case.
fn upper_digit(n: u8) -> (c: char)
    requires
        n < 16,
    ensures
        c == hex_digit_upper(n as int),
{
    if n == 0 {
        '0'
    } else if n == 1 {
        '1'
    } else if n == 2 {
        '2'
    } else if n == 3 {
        '3'
    } else if n == 4 {
        '4'
    } else if n == 5 {
        '5'
    } else if n == 6 {
        '6'
    } else if n == 7 {
        '7'
    } else if n == 8 {
        '8'
    } else if n == 9 {
        '9'
    } else if n == 10 {
        'A'
    } else if n == 11 {
        'B'
    } else if n == 12 {
        'C'
    } else if n == 13 {
        'D'
    } else if n == 14 {
        'E'
    } else {
        'F'
    }
}

/// Appends to `output` the bytes in hexadecimal, and spaces until at least `min_size`
/// characters are written.
pub fn write_hex_string(bytes: &[u8], min_size: usize, output: &mut String)
    requires
        bytes@.len() * 3 <= usize::MAX,
    ensures
        final(output)@ == old(output)@ + hex_text(bytes@) + spaces(
            min_size - hex_width(bytes@.len() as int),
        ),
{
    let ghost before = output@;
    let mut chars_written: usize = 0;
    let mut i: usize = 0;
    while i < bytes.len()
        invariant
            i <= bytes@.len(),
            bytes@.len() * 3 <= usize::MAX,
            chars_written == hex_width(i as int),
            output@ == before + hex_text(bytes@.take(i as int)),
        decreases bytes@.len() - i,
    {
        let b = bytes[i];
        let lo = b % 16;
        let hi = b / 16;
        let ghost so_far = output@;
        if chars_written > 0 {
            output.push(' ');
            output.push(upper_digit(hi));
            output.push(upper_digit(lo));
            chars_written += 3;
        } else {
            output.push(upper_digit(hi));
            output.push(upper_digit(lo));
            chars_written += 2;
        }
        proof {
            let next = bytes@.take(i + 1);
            assert(next.drop_last() =~= bytes@.take(i as int));
            assert(next.last() == b);
            let pair = seq![hex_digit_upper(b as int / 16), hex_digit_upper(b as int % 16)];
            if i == 0 {
                assert(hex_text(bytes@.take(0)) =~= Seq::<char>::empty());
                assert(output@ =~= before + pair);
            } else {
                assert(output@ =~= so_far + seq![' '] + pair);
                assert(output@ =~= before + (hex_text(bytes@.take(i as int)) + seq![' '] + pair));
            }
        }
        i += 1;
    }
    proof {
        assert(bytes@.take(i as int) =~= bytes@);
    }
    let ghost text = output@;
    let ghost start = chars_written;
    while chars_written < min_size
        invariant
            start <= chars_written,
            min_size <= start || chars_written <= min_size,
            min_size <= start ==> chars_written == start,
            output@ == text + spaces(chars_written - start),
        decreases min_size - chars_written,
    {
        output.push(' ');
        chars_written += 1;
        proof {
            assert(output@ =~= text + spaces(chars_written - start));
        }
    }
    proof {
        assert(spaces(chars_written - start) =~= spaces(min_size - start));
        assert(output@ =~= before + hex_text(bytes@) + spaces(min_size - start));
    }
}

/// The number of decimal digits of `n`; 0 has none.
pub open spec fn decimal_digits(n: nat) -> nat
    decreases n,
{
    if n == 0 {
        0
    } else {
        1 + decimal_digits(n / 10)
    }
}

/// The number of hexadecimal digits of `n`; 0 has none.
pub open spec fn hex_digits(n: nat) -> nat
    decreases n,
{
    if n == 0 {
        0
    } else {
        1 + hex_digits(n / 16)
    }
}

/// `base` to the power `exp`.
pub open spec fn power(base: nat, exp: nat) -> nat
    decreases exp,
{
    if exp == 0 {
        1
    } else {
        base * power(base, (exp - 1) as nat)
    }
}

/// A number is below ten to the power of its number of decimal digits, and reaches the power
/// before.
pub proof fn lemma_decimal_digits_bounds(n: nat)
    ensures
        n < power(10, decimal_digits(n)),
        n > 0 ==> power(10, (decimal_digits(n) - 1) as nat) <= n,
    decreases n,
{
    if n > 0 {
        lemma_decimal_digits_bounds(n / 10);
        let d = decimal_digits(n / 10);
        assert(power(10, d + 1) == 10 * power(10, d));
        if n / 10 > 0 {
            assert(power(10, d) == 10 * power(10, (d - 1) as nat));
        }
    }
}

/// A number is below sixteen to the power of its number of hexadecimal digits, and reaches the
/// power before.
pub proof fn lemma_hex_digits_bounds(n: nat)
    ensures
        n < power(16, hex_digits(n)),
        n > 0 ==> power(16, (hex_digits(n) - 1) as nat) <= n,
    decreases n,
{
    if n > 0 {
        lemma_hex_digits_bounds(n / 16);
        let d = hex_digits(n / 16);
        assert(power(16, d + 1) == 16 * power(16, d));
        if n / 16 > 0 {
            assert(power(16, d) == 16 * power(16, (d - 1) as nat));
        }
    }
}

/// Returns the number of digits required to display an offset in decimal.
/// This assumes that all of the digits are packed together with no spaces or punctuation.
pub fn off_len(off: usize) -> (len: usize)
    ensures
        len == decimal_digits(off as nat),
{
    let mut off = off;
    let mut len: usize = 0;
    let ghost start = off;
    assert(power(10, 0) * off == off) by (nonlinear_arith)
        requires
            power(10, 0) == 1,
    ;
    while off > 0
        invariant
            len + decimal_digits(off as nat) == decimal_digits(start as nat),
            len <= 64,
            power(10, len as nat) * off <= start,
        decreases off,
    {
        proof {
            let o = off as nat;
            let p = power(10, len as nat);
            assert(power(10, (len + 1) as nat) == 10 * p);
            assert(10 * p * (o / 10) <= p * o) by (nonlinear_arith)
                requires
                    0 <= p,
                    0 <= o,
            ;
            assert(p <= p * o) by (nonlinear_arith)
                requires
                    0 <= p,
                    1 <= o,
            ;
            lemma_power_ten_fits(len as nat, start as nat);
        }
        len += 1;
        off /= 10;
    }
    len
}

/// From the exponent 20 on, a power of ten is beyond every 64 bit number.
proof fn lemma_power_ten_fits(exp: nat, bound: nat)
    requires
        power(10, exp) <= bound,
        bound <= u64::MAX,
    ensures
        exp < 20,
    decreases exp,
{
    if exp >= 20 {
        lemma_power_ten_grows(exp);
        lemma_power_ten_twenty();
    }
}

proof fn lemma_power_ten_grows(exp: nat)
    requires
        exp >= 20,
    ensures
        power(10, exp) >= power(10, 20),
    decreases exp,
{
    if exp > 20 {
        lemma_power_ten_grows((exp - 1) as nat);
    }
}

proof fn lemma_power_ten_twenty()
    ensures
        power(10, 20) == 100000000000000000000nat,
{
    reveal_with_fuel(power, 21);
}

proof fn lemma_power_sixteen_sixteen()
    ensures
        power(16, 16) == 0x1_0000_0000_0000_0000nat,
{
    reveal_with_fuel(power, 17);
}

/// Returns the number of characters required to display an address in hexadecimal.
/// This assumes that all of the digits will be packed together.
pub fn addr_len(addr: u64) -> (len: usize)
    ensures
        len == hex_digits(addr as nat),
{
    let mut addr = addr;
    let mut len: usize = 0;
    let ghost start = addr;
    assert(power(16, 0) * addr == addr) by (nonlinear_arith)
        requires
            power(16, 0) == 1,
    ;
    while addr > 0
        invariant
            len + hex_digits(addr as nat) == hex_digits(start as nat),
            len <= 16,
            power(16, len as nat) * addr <= start,
        decreases addr,
    {
        proof {
            let a = addr as nat;
            let p = power(16, len as nat);
            assert(power(16, (len + 1) as nat) == 16 * p);
            assert(16 * p * (a / 16) <= p * a) by (nonlinear_arith)
                requires
                    0 <= p,
                    0 <= a,
            ;
            assert(addr >> 4 == addr / 16) by (bit_vector);
            if len == 16 {
                lemma_power_sixteen_sixteen();
                assert(false) by (nonlinear_arith)
                    requires
                        p == 0x1_0000_0000_0000_0000nat,
                        p * a <= start,
                        a >= 1,
                        start <= u64::MAX,
                ;
            }
        }
        len += 1;
        addr = addr >> 4;
    }
    len
}

/// Returns the number of characters required to display an array of bytes in hexadecimal.
/// This assumes that there will be a space separating each byte.
pub fn hex_len(bytes: &[u8]) -> (len: usize)
    requires
        bytes@.len() * 3 <= usize::MAX,
    ensures
        len == hex_width(bytes@.len() as int),
{
    if bytes.len() == 0 {
        0
    } else {
        bytes.len() * 3 - 1
    }
}

/// The width of each column of a listing.
#[derive(Default)]
pub struct OutputMeasure {
    pub address_width: usize,
    pub bytes_width: usize,
    pub jumps_width: usize,
    pub mnemonic_width: usize,
    pub operands_width: usize,
}

/// What a listing shows.
#[derive(Default)]
pub struct OutputConfig {
    pub display_address: bool,
    pub display_patches: bool,
    pub display_bytes: bool,
    pub display_jumps: bool,
    pub display_instr: bool,
    pub display_source: bool,
}

} // verus!
