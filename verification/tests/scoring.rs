use uttt::game::game_uttt::{BoardScore, GridScore, SCORE_UNIT};
use uttt::game::playable::Playable;
use uttt::template::tic_tac_toe::{Grid3x3, GridSlot, PieceType};

const E: PieceType = PieceType::Empty;
const X: PieceType = PieceType::X;
const O: PieceType = PieceType::O;

fn sub(cells: [PieceType; 9]) -> Grid3x3<PieceType> {
    Grid3x3 {
        grid: [
            [cells[0], cells[1], cells[2]],
            [cells[3], cells[4], cells[5]],
            [cells[6], cells[7], cells[8]],
        ],
    }
}

fn swap(piece: PieceType) -> PieceType {
    match piece {
        PieceType::X => PieceType::O,
        PieceType::O => PieceType::X,
        PieceType::Empty => PieceType::Empty,
    }
}

fn swap_sub(board: &Grid3x3<PieceType>) -> Grid3x3<PieceType> {
    let mut out = *board;
    for k in 0..9u8 {
        *out.get_mut(GridSlot(k)) = swap(*board.get(GridSlot(k)));
    }
    out
}

fn swap_score(score: BoardScore) -> BoardScore {
    match score {
        BoardScore::WinnerX => BoardScore::WinnerO,
        BoardScore::WinnerO => BoardScore::WinnerX,
        BoardScore::Draw => BoardScore::Draw,
        BoardScore::InProgress(v) => BoardScore::InProgress(-v),
    }
}

#[test]
fn cell_scores() {
    assert_eq!(X.score(), BoardScore::WinnerX);
    assert_eq!(O.score(), BoardScore::WinnerO);
    assert_eq!(E.score(), BoardScore::InProgress(0));
}

#[test]
fn cell_playability() {
    assert!(E.is_playable());
    assert!(!X.is_playable());
    assert!(!O.is_playable());
}

#[test]
fn score_unit_is_576() {
    assert_eq!(SCORE_UNIT, 576);
}

#[test]
fn empty_sub_board_is_open_at_zero() {
    let b = sub([E; 9]);
    assert_eq!(b.score(), BoardScore::InProgress(0));
    assert!(b.is_playable());
}

#[test]
fn single_centre_mark_is_worth_a_sixth() {
    // Four lines pass through the centre; each is worth a third, the grid an
    // eighth of their sum: 4 * (1/3) / 8 = 1/6 of a unit.
    let b = sub([E, E, E, E, X, E, E, E, E]);
    assert_eq!(b.score(), BoardScore::InProgress(96));
    let b = sub([E, E, E, E, O, E, E, E, E]);
    assert_eq!(b.score(), BoardScore::InProgress(-96));
}

#[test]
fn single_corner_mark_is_worth_an_eighth() {
    // Three lines pass through a corner: 3 * (1/3) / 8 = 1/8 of a unit.
    let b = sub([X, E, E, E, E, E, E, E, E]);
    assert_eq!(b.score(), BoardScore::InProgress(72));
}

#[test]
fn single_edge_mark_is_worth_a_twelfth() {
    // Two lines pass through an edge: 2 * (1/3) / 8 = 1/12 of a unit.
    let b = sub([E, X, E, E, E, E, E, E, E]);
    assert_eq!(b.score(), BoardScore::InProgress(48));
}

#[test]
fn blocked_lines_add_nothing() {
    // X in the centre, O in a corner. The diagonal through both is blocked.
    // X keeps row 1, column 1 and the anti-diagonal: 3 * 192.
    // O keeps row 0 and column 0: 2 * -192. Sum 192, an eighth is 24.
    let b = sub([O, E, E, E, X, E, E, E, E]);
    assert_eq!(b.score(), BoardScore::InProgress(24));
}

#[test]
fn top_row_of_x_wins_the_sub_board() {
    let b = sub([X, X, X, E, E, E, E, E, E]);
    assert_eq!(b.score(), BoardScore::WinnerX);
    assert!(!b.is_playable());
}

#[test]
fn every_line_wins() {
    let lines = GridSlot::all_lines();
    for line in lines.iter() {
        for (mark, won) in [(X, BoardScore::WinnerX), (O, BoardScore::WinnerO)] {
            let mut b = sub([E; 9]);
            for slot in line.iter() {
                *b.get_mut(*slot) = mark;
            }
            assert_eq!(b.score(), won);
            assert!(!b.is_playable());
        }
    }
}

#[test]
fn first_decisive_line_in_canonical_order_wins() {
    // Row 0 belongs to O and row 1 to X: row 0 comes first.
    let b = sub([O, O, O, X, X, X, E, E, E]);
    assert_eq!(b.score(), BoardScore::WinnerO);
    // Row 2 belongs to O and column 0 cannot be complete; rows come before columns.
    let b = sub([X, X, X, E, E, E, O, O, O]);
    assert_eq!(b.score(), BoardScore::WinnerX);
}

#[test]
fn full_sub_board_without_line_is_drawn_and_closed() {
    let b = sub([X, O, X, X, X, O, O, X, O]);
    assert_eq!(b.score(), BoardScore::Draw);
    assert!(!b.is_playable());
    let b = sub([X, O, X, X, O, O, O, X, X]);
    assert_eq!(b.score(), BoardScore::Draw);
    assert!(!b.is_playable());
}

#[test]
fn blocked_sub_board_with_an_empty_cell_is_drawn_yet_playable() {
    // Every line holds both marks, so no line can be completed; the one
    // empty cell still accepts a move.
    let b = sub([X, O, X, O, X, E, O, X, O]);
    assert_eq!(b.score(), BoardScore::Draw);
    assert!(b.is_playable());
}

#[test]
fn scoring_is_antisymmetric_under_mark_swap() {
    let boards = [
        sub([E; 9]),
        sub([E, E, E, E, X, E, E, E, E]),
        sub([O, E, E, E, X, E, E, E, E]),
        sub([X, X, X, E, E, E, E, E, E]),
        sub([O, E, E, O, X, X, O, E, X]),
        sub([X, O, X, X, X, O, O, X, O]),
        sub([X, O, E, E, O, X, E, E, E]),
        sub([X, E, O, E, E, E, O, E, X]),
    ];
    for b in boards.iter() {
        assert_eq!(swap_sub(b).score(), swap_score(b.score()));
    }
}

#[test]
fn super_board_scores_from_its_sub_boards() {
    let empty = sub([E; 9]);
    let centre = sub([E, E, E, E, X, E, E, E, E]);
    // One sub-board worth 96 in the centre of the super-board: four lines of
    // 96 / 3 = 32 each, an eighth of 128 is 16.
    let board = Grid3x3 { grid: [[empty, empty, empty], [empty, centre, empty], [empty, empty, empty]] };
    assert_eq!(board.score(), BoardScore::InProgress(16));
    assert!(board.is_playable());
}

#[test]
fn super_board_is_won_by_three_sub_boards_in_line() {
    let empty = sub([E; 9]);
    let won = sub([X, X, X, E, E, E, E, E, E]);
    let board = Grid3x3 { grid: [[won, empty, empty], [empty, won, empty], [empty, empty, won]] };
    assert_eq!(board.score(), BoardScore::WinnerX);
    assert!(!board.is_playable());
}

#[test]
fn drawn_sub_board_blocks_its_lines() {
    let empty = sub([E; 9]);
    let won = sub([X, X, X, E, E, E, E, E, E]);
    let drawn = sub([X, O, X, X, X, O, O, X, O]);
    // Row 0 holds two X wins and a drawn board: it can never be completed.
    let board = Grid3x3 { grid: [[won, won, drawn], [empty, empty, empty], [empty, empty, empty]] };
    // Open lines: row 1 (0), row 2 (0), column 0 (576 / 3 = 192),
    // column 1 (192), anti-diagonal blocked by the drawn board, column 2
    // blocked, diagonal (192). Sum 576, an eighth is 72.
    assert_eq!(board.score(), BoardScore::InProgress(72));
}

#[test]
fn super_board_with_every_line_blocked_is_drawn() {
    let drawn = sub([X, O, X, X, X, O, O, X, O]);
    let board = Grid3x3 { grid: [[drawn; 3]; 3] };
    assert_eq!(board.score(), BoardScore::Draw);
    assert!(!board.is_playable());
}
