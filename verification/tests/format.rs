use cargo_asm::format::{
    addr_len, create_jump_arrows_buffer, draw_arrow_to, glyph_of, hex_len, off_len,
    write_arrow_pieces_for_line, write_hex_string, ArrowPiece, ARROW_BOT, ARROW_LEFT, ARROW_NONE,
    ARROW_RIGHT, ARROW_TOP,
};
use cargo_asm::jumps::InnerJumpTable;

fn rows_of(pieces: &[ArrowPiece], width: usize, height: usize) -> Vec<String> {
    let mut rows = Vec::new();
    for line in 0..height {
        let mut row = String::new();
        write_arrow_pieces_for_line(&mut row, pieces, width, line);
        rows.push(row);
    }
    rows
}

#[test]
fn address_length_counts_hex_digits() {
    assert_eq!(addr_len(0), 0);
    assert_eq!(addr_len(0xf), 1);
    assert_eq!(addr_len(0x10), 2);
    assert_eq!(addr_len(0x1140), 4);
    assert_eq!(addr_len(0x1_0000_0000), 9);
    assert_eq!(addr_len(u64::MAX), 16);
}

#[test]
fn offset_length_counts_decimal_digits() {
    assert_eq!(off_len(0), 0);
    assert_eq!(off_len(9), 1);
    assert_eq!(off_len(10), 2);
    assert_eq!(off_len(32), 2);
    assert_eq!(off_len(999), 3);
    assert_eq!(off_len(1000), 4);
}

#[test]
fn hex_length_counts_digits_and_spaces() {
    assert_eq!(hex_len(&[]), 0);
    assert_eq!(hex_len(&[0x90]), 2);
    assert_eq!(hex_len(&[1, 2, 3]), 8);
}

#[test]
fn hex_string_is_upper_case_with_spaces() {
    let mut out = String::from("> ");
    write_hex_string(&[0xb8, 0x01, 0x00, 0xff], 0, &mut out);
    assert_eq!(out, "> B8 01 00 FF");
}

#[test]
fn hex_string_is_padded_to_min_size() {
    let mut out = String::new();
    write_hex_string(&[0x0f, 0xaf], 9, &mut out);
    assert_eq!(out, "0F AF    ");
    let mut empty = String::new();
    write_hex_string(&[], 3, &mut empty);
    assert_eq!(empty, "   ");
    let mut long = String::new();
    write_hex_string(&[1, 2, 3], 4, &mut long);
    assert_eq!(long, "01 02 03");
}

#[test]
fn glyphs_of_heads_and_lines() {
    assert_eq!(glyph_of(ArrowPiece::Empty), ' ');
    assert_eq!(glyph_of(ArrowPiece::End(ARROW_LEFT)), '◀');
    assert_eq!(glyph_of(ArrowPiece::End(ARROW_RIGHT)), '▶');
    assert_eq!(glyph_of(ArrowPiece::End(ARROW_LEFT | ARROW_RIGHT)), '◆');
    assert_eq!(glyph_of(ArrowPiece::End(ARROW_TOP)), '?');
    assert_eq!(glyph_of(ArrowPiece::Dir(ARROW_NONE)), '?');
    let table = [
        '?', '│', '─', '└', '│', '│', '┌', '├', '─', '┘', '─', '┴', '┐', '┤', '┬', '┼',
    ];
    for bits in 1u8..16 {
        assert_eq!(glyph_of(ArrowPiece::Dir(bits)), table[bits as usize]);
    }
    assert_eq!(glyph_of(ArrowPiece::Dir(16)), '?');
    assert_eq!(glyph_of(ArrowPiece::Dir(ARROW_TOP | ARROW_BOT)), '│');
}

#[test]
fn forward_jump_in_one_column() {
    let mut jumps = InnerJumpTable::new();
    jumps.insert(0, 3);
    jumps.sort_and_calc_overlaps();
    let pieces = create_jump_arrows_buffer(1, 4, &jumps);
    assert_eq!(
        pieces,
        vec![
            ArrowPiece::End(ARROW_LEFT),
            ArrowPiece::Dir(ARROW_TOP | ARROW_BOT),
            ArrowPiece::Dir(ARROW_TOP | ARROW_BOT),
            ArrowPiece::End(ARROW_RIGHT),
        ]
    );
    assert_eq!(rows_of(&pieces, 1, 4), vec!["◀", "│", "│", "▶"]);
}

#[test]
fn two_overlapping_loops_in_three_columns() {
    let mut jumps = InnerJumpTable::new();
    jumps.insert(5, 1);
    jumps.insert(7, 3);
    jumps.sort_and_calc_overlaps();
    assert_eq!(jumps.max_display_offset(), 2);
    let width = jumps.max_display_offset() + 1;
    assert_eq!(width, 3);
    let pieces = create_jump_arrows_buffer(width, 8, &jumps);
    assert_eq!(
        rows_of(&pieces, width, 8),
        vec!["   ", "  ▶", "  │", "┌─▶", "│ │", "│ ◀", "│  ", "└─◀"]
    );
}

#[test]
fn jump_to_its_own_row_draws_nothing() {
    let mut jumps = InnerJumpTable::new();
    jumps.insert(1, 1);
    jumps.sort_and_calc_overlaps();
    let pieces = create_jump_arrows_buffer(1, 3, &jumps);
    assert_eq!(pieces, vec![ArrowPiece::Empty; 3]);
}

#[test]
fn empty_table_gives_blank_grid() {
    let jumps = InnerJumpTable::new();
    assert_eq!(create_jump_arrows_buffer(2, 2, &jumps), vec![ArrowPiece::Empty; 4]);
    assert_eq!(create_jump_arrows_buffer(1, 0, &jumps), Vec::<ArrowPiece>::new());
}

#[test]
fn arrow_in_outer_lane_runs_through_inner_columns() {
    let mut pieces = vec![ArrowPiece::Empty; 12];
    draw_arrow_to(&mut pieces, 4, 1, 0, 2);
    assert_eq!(rows_of(&pieces, 4, 3), vec![" ┌─◀", " │  ", " └─▶"]);
}

#[test]
fn heads_join_and_lines_cross() {
    let mut pieces = vec![ArrowPiece::Empty; 9];
    draw_arrow_to(&mut pieces, 3, 2, 0, 2);
    draw_arrow_to(&mut pieces, 3, 0, 2, 0);
    assert_eq!(pieces[2], ArrowPiece::End(ARROW_LEFT | ARROW_RIGHT));
    assert_eq!(pieces[8], ArrowPiece::End(ARROW_LEFT | ARROW_RIGHT));
    assert_eq!(rows_of(&pieces, 3, 3), vec!["┌─◆", "│ │", "└─◆"]);
    let mut crossing = vec![ArrowPiece::Empty; 12];
    draw_arrow_to(&mut crossing, 3, 1, 0, 3);
    draw_arrow_to(&mut crossing, 3, 0, 1, 2);
    assert_eq!(rows_of(&crossing, 3, 4), vec![" ┌◀", "┌┼◀", "└┼▶", " └▶"]);
}

#[test]
fn arrow_leaves_other_rows_alone() {
    let mut pieces = vec![ArrowPiece::Dir(ARROW_TOP); 8];
    draw_arrow_to(&mut pieces, 2, 1, 1, 2);
    assert_eq!(pieces[0], ArrowPiece::Dir(ARROW_TOP));
    assert_eq!(pieces[1], ArrowPiece::Dir(ARROW_TOP));
    assert_eq!(pieces[6], ArrowPiece::Dir(ARROW_TOP));
    assert_eq!(pieces[7], ArrowPiece::Dir(ARROW_TOP));
    assert_eq!(pieces[3], ArrowPiece::End(ARROW_LEFT));
    assert_eq!(pieces[5], ArrowPiece::End(ARROW_RIGHT));
}

#[test]
fn line_of_grid_is_appended_to_output() {
    let pieces = vec![
        ArrowPiece::Empty,
        ArrowPiece::Dir(ARROW_RIGHT | ARROW_BOT),
        ArrowPiece::End(ARROW_LEFT),
        ArrowPiece::End(ARROW_RIGHT),
    ];
    let mut out = String::from("x");
    write_arrow_pieces_for_line(&mut out, &pieces, 2, 1);
    assert_eq!(out, "x◀▶");
    write_arrow_pieces_for_line(&mut out, &pieces, 2, 0);
    assert_eq!(out, "x◀▶ ┌");
    write_arrow_pieces_for_line(&mut out, &pieces, 0, 5);
    assert_eq!(out, "x◀▶ ┌");
}
