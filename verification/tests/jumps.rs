use cargo_asm::jumps::{do_ranges_overlap, InnerJump, InnerJumpTable};

fn lanes_of(table: &InnerJumpTable) -> Vec<(usize, usize, usize)> {
    table.iter().iter().map(|j| (j.source, j.target, j.display_offset)).collect()
}

#[test]
fn new_table_is_empty() {
    let table = InnerJumpTable::new();
    assert_eq!(table.len(), 0);
    assert_eq!(table.max_display_offset(), 0);
    assert!(table.iter().is_empty());
}

#[test]
fn insert_appends_unplaced_jump() {
    let mut table = InnerJumpTable::new();
    table.insert(4, 1);
    table.insert(2, 9);
    assert_eq!(
        table.iter().to_vec(),
        vec![
            InnerJump { source: 4, target: 1, display_offset: 0 },
            InnerJump { source: 2, target: 9, display_offset: 0 },
        ]
    );
}

#[test]
fn clear_forgets_jumps_and_width() {
    let mut table = InnerJumpTable::new();
    table.insert(5, 1);
    table.insert(7, 3);
    table.sort_and_calc_overlaps();
    assert_eq!(table.max_display_offset(), 2);
    table.clear();
    assert_eq!(table.len(), 0);
    assert_eq!(table.max_display_offset(), 0);
}

#[test]
fn forward_short_jump_takes_lane_zero() {
    let mut table = InnerJumpTable::new();
    table.insert(0, 3);
    table.sort_and_calc_overlaps();
    assert_eq!(lanes_of(&table), vec![(0, 3, 0)]);
    assert_eq!(table.max_display_offset(), 0);
}

#[test]
fn two_overlapping_loops_take_lanes_zero_and_two() {
    let mut table = InnerJumpTable::new();
    table.insert(7, 3);
    table.insert(5, 1);
    table.sort_and_calc_overlaps();
    assert_eq!(lanes_of(&table), vec![(5, 1, 0), (7, 3, 2)]);
    assert_eq!(table.max_display_offset(), 2);
}

#[test]
fn jumps_apart_share_lane_zero() {
    let mut table = InnerJumpTable::new();
    table.insert(0, 1);
    table.insert(3, 4);
    table.insert(9, 6);
    table.sort_and_calc_overlaps();
    assert_eq!(lanes_of(&table), vec![(0, 1, 0), (3, 4, 0), (9, 6, 0)]);
    assert_eq!(table.max_display_offset(), 0);
}

#[test]
fn jumps_that_meet_in_one_row_take_different_lanes() {
    let mut table = InnerJumpTable::new();
    table.insert(1, 3);
    table.insert(3, 5);
    table.sort_and_calc_overlaps();
    assert_eq!(lanes_of(&table), vec![(1, 3, 0), (3, 5, 2)]);
}

#[test]
fn three_nested_jumps_take_three_lanes() {
    let mut table = InnerJumpTable::new();
    table.insert(0, 9);
    table.insert(1, 8);
    table.insert(2, 7);
    table.sort_and_calc_overlaps();
    assert_eq!(lanes_of(&table), vec![(0, 9, 0), (1, 8, 4), (2, 7, 2)]);
    assert_eq!(table.max_display_offset(), 4);
}

#[test]
fn overlapping_jumps_are_at_least_two_lanes_apart() {
    let mut table = InnerJumpTable::new();
    let pairs = [(0, 6), (2, 4), (5, 1), (8, 7), (3, 9), (9, 0), (4, 4), (6, 6)];
    for (source, target) in pairs {
        table.insert(source, target);
    }
    table.sort_and_calc_overlaps();
    let jumps = table.iter().to_vec();
    assert_eq!(jumps.len(), pairs.len());
    for (a, x) in jumps.iter().enumerate() {
        assert_eq!(x.display_offset % 2, 0);
        assert!(x.display_offset <= table.max_display_offset());
        for (b, y) in jumps.iter().enumerate() {
            if a != b && do_ranges_overlap(x.source, x.target, y.source, y.target) {
                let apart = if x.display_offset > y.display_offset {
                    x.display_offset - y.display_offset
                } else {
                    y.display_offset - x.display_offset
                };
                assert!(apart >= 2);
            }
        }
    }
    assert!(jumps.iter().any(|j| j.display_offset == table.max_display_offset()));
}

#[test]
fn sorting_orders_by_source_and_keeps_ties_in_order() {
    let mut table = InnerJumpTable::new();
    table.insert(5, 50);
    table.insert(1, 10);
    table.insert(5, 51);
    table.insert(0, 52);
    table.insert(1, 11);
    table.sort_and_calc_overlaps();
    let order: Vec<(usize, usize)> = table.iter().iter().map(|j| (j.source, j.target)).collect();
    assert_eq!(order, vec![(0, 52), (1, 10), (1, 11), (5, 50), (5, 51)]);
}

#[test]
fn placing_again_gives_the_same_lanes() {
    let mut table = InnerJumpTable::new();
    table.insert(7, 3);
    table.insert(5, 1);
    table.sort_and_calc_overlaps();
    let first = lanes_of(&table);
    table.sort_and_calc_overlaps();
    assert_eq!(lanes_of(&table), first);
}

#[test]
fn ranges_overlap_when_they_share_a_row() {
    assert!(do_ranges_overlap(1, 5, 3, 7));
    assert!(do_ranges_overlap(5, 1, 7, 3));
    assert!(do_ranges_overlap(1, 3, 3, 5));
    assert!(do_ranges_overlap(2, 2, 0, 4));
    assert!(do_ranges_overlap(4, 4, 4, 4));
    assert!(!do_ranges_overlap(0, 1, 2, 3));
    assert!(!do_ranges_overlap(9, 6, 5, 0));
}
