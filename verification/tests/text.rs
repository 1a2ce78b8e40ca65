use uttt::game::node_uttt::UtttState;
use uttt::game::tools::{count_marks, parse_ultragrid, string_ultragrid};
use uttt::template::tic_tac_toe::{Grid3x3, GridSlot, PieceType};

fn sample() -> UtttState {
    let mut state = UtttState::default();
    for (sup, local) in [(4u8, 0u8), (0, 8), (8, 4), (4, 4), (4, 2)] {
        let next = UtttState::apply(&mut state, (GridSlot(sup), GridSlot(local))).unwrap();
        state = next;
    }
    state
}

fn sample_text() -> String {
    let lines = [
        "",
        " .  .  . | .  .  . | .  .  . ",
        " .  .  . | .  .  . | .  .  . ",
        " .  .  O | .  .  . | .  .  . ",
        "-----------------------------",
        " .  .  . | X  .  X | .  .  . ",
        " .  .  . | .  O  . | .  .  . ",
        " .  .  . | .  .  . | .  .  . ",
        "-----------------------------",
        " .  .  . | .  .  . | .  .  . ",
        " .  .  . | .  .  . | .  X  . ",
        " .  .  . | .  .  . | .  .  . ",
        "",
    ];
    lines.join("\n")
}

#[test]
fn empty_board_text() {
    let text = string_ultragrid(&UtttState::default().ultra_grid);
    let row = " .  .  . | .  .  . | .  .  . \n";
    let rule = "-----------------------------\n";
    let expected =
        format!("\n{row}{row}{row}{rule}{row}{row}{row}{rule}{row}{row}{row}", row = row, rule = rule);
    assert_eq!(text, expected);
    assert_eq!(text.chars().count(), 331);
}

#[test]
fn board_text_shows_marks_where_they_lie() {
    assert_eq!(string_ultragrid(&sample().ultra_grid), sample_text());
}

#[test]
fn parse_reads_marks_row_by_row() {
    let board = parse_ultragrid(&sample_text());
    assert_eq!(board, sample().ultra_grid);
}

#[test]
fn parse_passes_over_other_characters() {
    let mut text = String::new();
    for k in 0..81 {
        text.push_str(["X", "O", "."][k % 3]);
        text.push_str("ab| -\n\t");
    }
    let board = parse_ultragrid(&text);
    for r in 0..9usize {
        for c in 0..9usize {
            let expected = [PieceType::X, PieceType::O, PieceType::Empty][(9 * r + c) % 3];
            let sup = GridSlot(((r / 3) * 3 + c / 3) as u8);
            let local = GridSlot(((r % 3) * 3 + c % 3) as u8);
            assert_eq!(*board.get(sup).get(local), expected);
        }
    }
}

#[test]
fn parse_stops_after_81_marks() {
    let text = format!("{}{}", ".".repeat(81), "XXXXXXXXX");
    let board = parse_ultragrid(&text);
    assert_eq!(board, Grid3x3 { grid: [[Grid3x3 { grid: [[PieceType::Empty; 3]; 3] }; 3]; 3] });
}

#[test]
fn text_round_trip() {
    let mut state = UtttState::default();
    let mut step = 0usize;
    loop {
        let text = string_ultragrid(&state.ultra_grid);
        assert_eq!(parse_ultragrid(&text), state.ultra_grid);
        let mut moves = Vec::new();
        UtttState::generate_moves(&state, &mut moves);
        if moves.is_empty() || step == 60 {
            break;
        }
        let pick = moves[(step * 17 + 5) % moves.len()];
        state = UtttState::apply(&mut state, pick).unwrap();
        step += 1;
    }
}

#[test]
fn state_text() {
    let state = sample();
    let expected = format!(
        "{}\nCurrent player: O\nCurrent play slot: (0, 2)\n",
        string_ultragrid(&state.ultra_grid)
    );
    assert_eq!(state.to_string(), expected);
}

#[test]
fn state_text_of_the_free_slot() {
    let state = UtttState::default();
    let expected = format!(
        "{}\nCurrent player: X\nCurrent play slot: (3, 0)\n",
        string_ultragrid(&state.ultra_grid)
    );
    assert_eq!(state.to_string(), expected);
}

#[test]
fn state_text_of_a_large_slot_number() {
    let mut state = UtttState::default();
    state.current_play_slot = GridSlot(250);
    assert!(state.to_string().ends_with("Current play slot: (83, 1)\n"));
    state.current_play_slot = GridSlot(31);
    assert!(state.to_string().ends_with("Current play slot: (10, 1)\n"));
}

#[test]
fn count_marks_counts_only_marks() {
    assert_eq!(count_marks(""), 0);
    assert_eq!(count_marks("abc |-\n"), 0);
    assert_eq!(count_marks("X.O xo ,"), 3);
    assert_eq!(count_marks(&sample_text()), 81);
    assert_eq!(count_marks(&string_ultragrid(&sample().ultra_grid)), 81);
}
