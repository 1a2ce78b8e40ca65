use std::cmp::Ordering;
use uttt::template::tic_tac_toe::{Grid3x3, GridSlot, PieceType, LINE_CELLS};

#[test]
fn slot_from_row_and_column() {
    for row in 0..3u8 {
        for col in 0..3u8 {
            assert_eq!(GridSlot::from((row, col)), GridSlot(row * 3 + col));
        }
    }
    assert_eq!(GridSlot::from((3, 0)), GridSlot::any_slot());
}

#[test]
fn slot_into_row_and_column() {
    let pair: (u8, u8) = GridSlot(5).into();
    assert_eq!(pair, (1, 2));
    let pair: (u8, u8) = GridSlot::any_slot().into();
    assert_eq!(pair, (3, 0));
    let pair: (u8, u8) = GridSlot(255).into();
    assert_eq!(pair, (85, 0));
}

#[test]
fn any_slot_is_nine() {
    assert_eq!(GridSlot::any_slot(), GridSlot(9));
}

#[test]
fn all_slots_in_canonical_order() {
    let slots = GridSlot::all_slots();
    for k in 0..9 {
        assert_eq!(slots[k], GridSlot(k as u8));
    }
}

#[test]
fn all_lines_in_canonical_order() {
    let expected: [[u8; 3]; 8] = [
        [0, 1, 2],
        [3, 4, 5],
        [6, 7, 8],
        [0, 3, 6],
        [1, 4, 7],
        [2, 5, 8],
        [0, 4, 8],
        [2, 4, 6],
    ];
    assert_eq!(LINE_CELLS, expected);
    let lines = GridSlot::all_lines();
    for l in 0..8 {
        for k in 0..3 {
            assert_eq!(lines[l][k], GridSlot(expected[l][k]));
        }
    }
}

#[test]
fn get_reads_row_major() {
    let g = Grid3x3 { grid: [[0u32, 1, 2], [3, 4, 5], [6, 7, 8]] };
    for k in 0..9u8 {
        assert_eq!(*g.get(GridSlot(k)), k as u32);
    }
}

#[test]
fn get_mut_changes_one_cell() {
    let mut g = Grid3x3 { grid: [[0u32, 1, 2], [3, 4, 5], [6, 7, 8]] };
    *g.get_mut(GridSlot(5)) = 50;
    assert_eq!(g, Grid3x3 { grid: [[0u32, 1, 2], [3, 4, 50], [6, 7, 8]] });
}

#[test]
fn default_grid_is_empty() {
    let g: Grid3x3<PieceType> = Grid3x3::default();
    assert_eq!(g, Grid3x3 { grid: [[PieceType::Empty; 3]; 3] });
    assert_eq!(PieceType::default(), PieceType::Empty);
}

#[test]
fn marks_are_ordered_o_empty_x() {
    assert!(PieceType::O < PieceType::Empty);
    assert!(PieceType::Empty < PieceType::X);
}

#[test]
fn grids_compare_cell_by_cell_in_row_major_order() {
    let a = Grid3x3 { grid: [[1u8, 2, 3], [4, 5, 6], [7, 8, 9]] };
    let b = Grid3x3 { grid: [[1u8, 2, 3], [4, 6, 0], [0, 0, 0]] };
    let c = Grid3x3 { grid: [[1u8, 2, 3], [4, 5, 6], [7, 8, 8]] };
    assert_eq!(a.cmp(&b), Ordering::Less);
    assert_eq!(b.cmp(&a), Ordering::Greater);
    assert_eq!(a.cmp(&a), Ordering::Equal);
    assert_eq!(a.cmp(&c), Ordering::Greater);
    assert_eq!(c.cmp(&b), Ordering::Less);
}

#[test]
fn derived_order_agrees_with_cmp() {
    let grids = [
        Grid3x3 { grid: [[1u8, 2, 3], [4, 5, 6], [7, 8, 9]] },
        Grid3x3 { grid: [[1u8, 2, 3], [4, 6, 0], [0, 0, 0]] },
        Grid3x3 { grid: [[1u8, 2, 3], [4, 5, 6], [7, 8, 8]] },
        Grid3x3 { grid: [[0u8, 9, 9], [9, 9, 9], [9, 9, 9]] },
    ];
    for a in grids.iter() {
        for b in grids.iter() {
            assert_eq!(a.cmp(b), Ord::cmp(a, b));
            assert_eq!(Some(a.cmp(b)), a.partial_cmp(b));
            assert_eq!(a < b, a.cmp(b) == Ordering::Less);
        }
    }
    let marks = [PieceType::O, PieceType::Empty, PieceType::X];
    for (i, p) in marks.iter().enumerate() {
        for (j, q) in marks.iter().enumerate() {
            let a = Grid3x3 { grid: [[*p; 3]; 3] };
            let b = Grid3x3 { grid: [[*q; 3]; 3] };
            assert_eq!(a.cmp(&b), i.cmp(&j));
        }
    }
}
