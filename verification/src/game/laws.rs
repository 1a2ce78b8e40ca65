//! What holds of every board and every state of play.

use vstd::prelude::*;
use crate::game::game_uttt::{
    all_moves, any_in_progress, combine_lines, first_decisive, lemma_first_decisive_found,
    lemma_line_cells, lemma_lines_in_range, lemma_progress_sum_bound, line_result, progress_sum, trunc_div,
    BoardScore, GridScore, Move, UtttEvaluator, MAX_EVALUATION,
};
use crate::game::node_uttt::{board_cells, mark_count, place_mark, UltraGrid, UtttState};
use crate::game::playable::Playable;
use crate::template::tic_tac_toe::{Grid3x3, GridSlot, PieceType, LINE_CELLS};

verus! {

/// An open grid has an open member: a grid scores `InProgress` only if one
/// of its cells does.
pub proof fn lemma_open_grid_has_open_member<T: GridScore>(grid: Grid3x3<T>) -> (k: int)
    requires
        grid.score_spec() is InProgress,
    ensures
        0 <= k < 9,
        grid@[k].score_spec() is InProgress,
{
    let lines = grid.line_scores();
    lemma_first_decisive_found(lines, 0);
    lemma_line_cells();
    let l = choose|l: int| 0 <= l < lines.len() && #[trigger] lines[l] is InProgress;
    let a = LINE_CELLS[l][0] as int;
    let b = LINE_CELLS[l][1] as int;
    let c = LINE_CELLS[l][2] as int;
    assert(lines[l] == line_result(
        grid@[a].score_spec(),
        grid@[b].score_spec(),
        grid@[c].score_spec(),
    ));
    if grid@[a].score_spec() is InProgress {
        a
    } else if grid@[b].score_spec() is InProgress {
        b
    } else {
        c
    }
}

/// An open sub-board accepts a move, and so does a cell of it.
pub proof fn lemma_open_sub_board_is_playable(sub: Grid3x3<PieceType>) -> (k: int)
    requires
        sub.score_spec() is InProgress,
    ensures
        0 <= k < 9,
        sub@[k] == PieceType::Empty,
        sub.playable_spec(),
{
    let k = lemma_open_grid_has_open_member(sub);
    assert(sub@[k].playable_spec());
    k
}

/// While the game is open the mover has a legal move.
pub proof fn lemma_open_game_has_moves(state: UtttState)
    requires
        state.forced_slot_open(),
        state.outcome() is None,
    ensures
        state.legal_moves().len() > 0,
{
    let board = state.ultra_grid;
    let s = if state.current_play_slot.is_any() {
        lemma_open_grid_has_open_member(board)
    } else {
        state.current_play_slot.0 as int
    };
    let k = if state.current_play_slot.is_any() {
        lemma_open_sub_board_is_playable(board@[s])
    } else {
        choose|k: int| 0 <= k < 9 && (#[trigger] board@[s]@[k]).playable_spec()
    };
    let m: Move = (GridSlot(s as u8), GridSlot(k as u8));
    assert(state.is_legal_move(m));
    lemma_legal_move_is_listed(state, m);
}

/// Every legal move is among the legal moves.
pub proof fn lemma_legal_move_is_listed(state: UtttState, m: Move)
    requires
        state.is_legal_move(m),
    ensures
        state.legal_moves().contains(m),
{
    let i = 9 * m.0.0 + m.1.0;
    assert(all_moves()[i] == m);
    assert(state.legal()(all_moves()[i]));
    all_moves().lemma_filter_contains(state.legal(), i);
}

/// Every move among the legal moves is legal.
pub proof fn lemma_listed_move_is_legal(state: UtttState, i: int)
    requires
        0 <= i < state.legal_moves().len(),
    ensures
        state.is_legal_move(state.legal_moves()[i]),
{
    all_moves().lemma_filter_pred(state.legal(), i);
}

/// Legal moves exist exactly while the game is open: a finished game has
/// none, however many cells are left, and an open game has at least one.
pub proof fn lemma_moves_iff_open(state: UtttState)
    requires
        state.wf(),
    ensures
        state.legal_moves().len() > 0 <==> state.outcome() is None,
{
    if state.outcome() is None {
        lemma_open_game_has_moves(state);
    }
    if state.legal_moves().len() > 0 {
        lemma_listed_move_is_legal(state, 0);
    }
}

/// A finished game has no legal move, whatever its forced slot.
pub proof fn lemma_finished_game_has_no_moves(state: UtttState)
    requires
        state.outcome() is Some,
    ensures
        state.legal_moves() == Seq::<Move>::empty(),
{
    if state.legal_moves().len() > 0 {
        lemma_listed_move_is_legal(state, 0);
    }
}

/// Placing a mark changes one of the 81 cells and no other.
pub proof fn lemma_place_mark_cells(board: UltraGrid, sup: int, local: int, mark: PieceType)
    requires
        0 <= sup < 9,
        0 <= local < 9,
    ensures
        board_cells(place_mark(board, sup, local, mark)) == board_cells(board).update(
            9 * sup + local,
            mark,
        ),
{
    let sub = board@[sup].with_cell(local, mark);
    board@[sup].lemma_with_cell(local, mark);
    board.lemma_with_cell(sup, sub);
    let after = board_cells(place_mark(board, sup, local, mark));
    let expected = board_cells(board).update(9 * sup + local, mark);
    assert forall|k: int| 0 <= k < 81 implies after[k] == expected[k] by {
        if k / 9 == sup {
            assert(place_mark(board, sup, local, mark)@[k / 9] == sub);
        } else {
            assert(place_mark(board, sup, local, mark)@[k / 9] == board@[k / 9]);
        }
    }
    assert(after =~= expected);
}

/// A legal move leads from a valid state to a valid state.
pub proof fn lemma_successor_wf(state: UtttState, m: Move)
    requires
        state.wf(),
        state.is_legal_move(m),
    ensures
        state.successor(m).wf(),
{
    broadcast use {vstd::multiset::group_multiset_axioms, vstd::multiset::group_multiset_properties};

    let sup = m.0.0 as int;
    let local = m.1.0 as int;
    let cells = board_cells(state.ultra_grid);
    lemma_place_mark_cells(state.ultra_grid, sup, local, state.mover());
    assert(cells[9 * sup + local] == PieceType::Empty);
    vstd::seq_lib::to_multiset_update(cells, 9 * sup + local, state.mover());
    let before = cells.to_multiset();
    let after = before.insert(state.mover()).remove(PieceType::Empty);
    assert(after.count(PieceType::X) == before.count(PieceType::X) + if state.crosses_turn {
        1int
    } else {
        0int
    });
    assert(after.count(PieceType::O) == before.count(PieceType::O) + if state.crosses_turn {
        0int
    } else {
        1int
    });
}

/// The start of a game is a valid state: no mark on the board, X to move,
/// any sub-board.
pub proof fn lemma_initial_state_wf(state: UtttState)
    requires
        forall|s: int, k: int|
            0 <= s < 9 && 0 <= k < 9 ==> #[trigger] state.ultra_grid@[s]@[k] == PieceType::Empty,
        state.crosses_turn,
        state.current_play_slot.is_any(),
    ensures
        state.wf(),
        mark_count(state.ultra_grid, PieceType::X) == 0,
        mark_count(state.ultra_grid, PieceType::O) == 0,
{
    let cells = board_cells(state.ultra_grid);
    assert forall|k: int| 0 <= k < 81 implies #[trigger] cells[k] == PieceType::Empty by {
        assert(state.ultra_grid@[k / 9]@[k % 9] == PieceType::Empty);
    }
    vstd::seq_lib::to_multiset_contains(cells, PieceType::X);
    vstd::seq_lib::to_multiset_contains(cells, PieceType::O);
}

/// The other side's mark; an empty cell stays empty.
pub open spec fn swap_piece(piece: PieceType) -> PieceType {
    match piece {
        PieceType::X => PieceType::O,
        PieceType::O => PieceType::X,
        PieceType::Empty => PieceType::Empty,
    }
}

/// The sub-board with every mark exchanged for the other side's.
pub open spec fn swap_sub_board(sub: Grid3x3<PieceType>) -> Grid3x3<PieceType> {
    Grid3x3 {
        grid: [
            [swap_piece(sub@[0]), swap_piece(sub@[1]), swap_piece(sub@[2])],
            [swap_piece(sub@[3]), swap_piece(sub@[4]), swap_piece(sub@[5])],
            [swap_piece(sub@[6]), swap_piece(sub@[7]), swap_piece(sub@[8])],
        ],
    }
}

/// The board with every mark exchanged for the other side's.
pub open spec fn swap_board(board: UltraGrid) -> UltraGrid {
    Grid3x3 {
        grid: [
            [swap_sub_board(board@[0]), swap_sub_board(board@[1]), swap_sub_board(board@[2])],
            [swap_sub_board(board@[3]), swap_sub_board(board@[4]), swap_sub_board(board@[5])],
            [swap_sub_board(board@[6]), swap_sub_board(board@[7]), swap_sub_board(board@[8])],
        ],
    }
}

/// Lines that are each other's exchange have the same first decisive line.
pub proof fn lemma_swapped_first_decisive(a: Seq<BoardScore>, b: Seq<BoardScore>, from: int)
    requires
        a.len() == b.len(),
        0 <= from <= a.len(),
        forall|l: int| 0 <= l < a.len() ==> #[trigger] b[l] == a[l].swapped(),
    ensures
        first_decisive(b, from) == first_decisive(a, from),
    decreases a.len() - from,
{
    if from < a.len() {
        assert(b[from] == a[from].swapped());
        if !a[from].is_decisive() {
            lemma_swapped_first_decisive(a, b, from + 1);
        }
    }
}

/// Lines that are each other's exchange have opposite sums.
pub proof fn lemma_swapped_progress_sum(a: Seq<BoardScore>, b: Seq<BoardScore>)
    requires
        a.len() == b.len(),
        forall|l: int| 0 <= l < a.len() ==> (#[trigger] a[l]).in_range(),
        forall|l: int| 0 <= l < a.len() ==> #[trigger] b[l] == a[l].swapped(),
    ensures
        progress_sum(b) == -progress_sum(a),
    decreases a.len(),
{
    if a.len() > 0 {
        assert(b.last() == a.last().swapped());
        assert(a.last().in_range());
        lemma_swapped_progress_sum(a.drop_last(), b.drop_last());
    }
}

/// Exchanging the sides of its three members exchanges the sides of a line.
pub proof fn lemma_line_result_swapped(a: BoardScore, b: BoardScore, c: BoardScore)
    requires
        a.in_range(),
        b.in_range(),
        c.in_range(),
    ensures
        line_result(a.swapped(), b.swapped(), c.swapped()) == line_result(a, b, c).swapped(),
{
    let sum = a.value() + b.value() + c.value();
    assert(a.swapped().value() == -a.value());
    assert(b.swapped().value() == -b.value());
    assert(c.swapped().value() == -c.value());
    assert(trunc_div(-sum, 3) == -trunc_div(sum, 3));
}

/// Exchanging the sides of its lines exchanges the sides of a grid.
pub proof fn lemma_combine_lines_swapped(a: Seq<BoardScore>, b: Seq<BoardScore>)
    requires
        a.len() == b.len() == 8,
        forall|l: int| 0 <= l < a.len() ==> (#[trigger] a[l]).in_range(),
        forall|l: int| 0 <= l < a.len() ==> #[trigger] b[l] == a[l].swapped(),
    ensures
        combine_lines(b) == combine_lines(a).swapped(),
{
    lemma_swapped_first_decisive(a, b, 0);
    lemma_swapped_progress_sum(a, b);
    lemma_progress_sum_bound(a);
    lemma_first_decisive_found(a, 0);
    let d = first_decisive(a, 0);
    if d < 8 {
        assert(b[d] == a[d].swapped());
    } else {
        if any_in_progress(a) {
            let w = choose|w: int| 0 <= w < a.len() && #[trigger] a[w] is InProgress;
            assert(b[w] == a[w].swapped());
            assert(b[w] is InProgress);
        }
        if any_in_progress(b) {
            let w = choose|w: int| 0 <= w < b.len() && #[trigger] b[w] is InProgress;
            assert(b[w] == a[w].swapped());
            assert(a[w] is InProgress);
        }
        let sum = progress_sum(a);
        assert(trunc_div(-sum, 8) == -trunc_div(sum, 8));
    }
}

/// Two grids whose members score as each other's exchange score as each
/// other's exchange.
pub proof fn lemma_swapped_members_swap_score<T: GridScore, U: GridScore>(
    a: Grid3x3<T>,
    b: Grid3x3<U>,
)
    requires
        forall|k: int| 0 <= k < 9 ==> (#[trigger] b@[k]).score_spec() == a@[k].score_spec().swapped(),
    ensures
        b.score_spec() == a.score_spec().swapped(),
{
    let la = a.line_scores();
    let lb = b.line_scores();
    lemma_line_cells();
    lemma_lines_in_range(a);
    assert forall|l: int| 0 <= l < 8 implies #[trigger] lb[l] == la[l].swapped() by {
        let i = LINE_CELLS[l][0] as int;
        let j = LINE_CELLS[l][1] as int;
        let k = LINE_CELLS[l][2] as int;
        assert(a@[i].score_spec().in_range() && a@[j].score_spec().in_range()
            && a@[k].score_spec().in_range());
        assert(b@[i].score_spec() == a@[i].score_spec().swapped());
        assert(b@[j].score_spec() == a@[j].score_spec().swapped());
        assert(b@[k].score_spec() == a@[k].score_spec().swapped());
        lemma_line_result_swapped(a@[i].score_spec(), a@[j].score_spec(), a@[k].score_spec());
    }
    lemma_combine_lines_swapped(la, lb);
}

/// Exchanging the marks of a sub-board exchanges its score: a win changes
/// sides, a draw stays a draw, an open value changes sign.
pub proof fn lemma_swap_sub_board_score(sub: Grid3x3<PieceType>)
    ensures
        swap_sub_board(sub).score_spec() == sub.score_spec().swapped(),
{
    let other = swap_sub_board(sub);
    assert forall|k: int| 0 <= k < 9 implies (#[trigger] other@[k]).score_spec()
        == sub@[k].score_spec().swapped() by {
        assert(other@[k] == swap_piece(sub@[k]));
    }
    lemma_swapped_members_swap_score(sub, other);
}

/// Exchanging the marks of a whole board exchanges its score: a win changes
/// sides, a draw stays a draw, an open value changes sign.
pub proof fn lemma_swap_board_score(board: UltraGrid)
    ensures
        swap_board(board).score_spec() == board.score_spec().swapped(),
{
    let other = swap_board(board);
    assert forall|k: int| 0 <= k < 9 implies (#[trigger] other@[k]).score_spec()
        == board@[k].score_spec().swapped() by {
        assert(other@[k] == swap_sub_board(board@[k]));
        lemma_swap_sub_board_score(board@[k]);
    }
    lemma_swapped_members_swap_score(board, other);
}

/// A sub-board that is full and holds no line of three equal marks is a
/// draw, and accepts no move.
pub proof fn lemma_full_sub_board_without_line_is_drawn(sub: Grid3x3<PieceType>)
    requires
        forall|k: int| 0 <= k < 9 ==> #[trigger] sub@[k] != PieceType::Empty,
        forall|l: int|
            0 <= l < 8 ==> !(sub@[#[trigger] LINE_CELLS[l][0] as int] == sub@[LINE_CELLS[l][1] as int]
                && sub@[LINE_CELLS[l][1] as int] == sub@[LINE_CELLS[l][2] as int]),
    ensures
        sub.score_spec() == BoardScore::Draw,
        !sub.playable_spec(),
{
    let lines = sub.line_scores();
    lemma_line_cells();
    assert forall|l: int| 0 <= l < 8 implies #[trigger] lines[l] == BoardScore::Draw by {
        let i = LINE_CELLS[l][0] as int;
        let j = LINE_CELLS[l][1] as int;
        let k = LINE_CELLS[l][2] as int;
        assert(sub@[i] != PieceType::Empty && sub@[j] != PieceType::Empty && sub@[k]
            != PieceType::Empty);
    }
    lemma_first_decisive_found(lines, 0);
    if first_decisive(lines, 0) < 8 {
        assert(lines[first_decisive(lines, 0)] == BoardScore::Draw);
    }
}

/// The same board is worth to one side what it costs the other.
pub proof fn lemma_evaluation_turns_with_mover(a: UtttState, b: UtttState)
    requires
        a.ultra_grid == b.ultra_grid,
        a.crosses_turn != b.crosses_turn,
    ensures
        UtttEvaluator::evaluation(&a) == -UtttEvaluator::evaluation(&b),
{
}

/// No state is valued beyond the ceiling: the value stays strictly within
/// the 16-bit range of a search, whose ends stand for a game already won.
pub proof fn lemma_evaluation_in_range(state: UtttState)
    ensures
        -MAX_EVALUATION <= UtttEvaluator::evaluation(&state) <= MAX_EVALUATION,
        i16::MIN < -MAX_EVALUATION && MAX_EVALUATION < i16::MAX,
{
    state.ultra_grid.lemma_score_in_range();
}

/// What the members of a grid are worth comes in steps: of a whole unit for
/// the cells of a sub-board, of a 24th for the sub-boards of the board.
pub open spec fn in_member_steps(value: int, of_cells: bool) -> bool {
    if of_cells {
        value % 576 == 0
    } else {
        value % 24 == 0
    }
}

/// A third of the members' step: the step of an open line.
pub open spec fn in_line_steps(value: int, of_cells: bool) -> bool {
    if of_cells {
        value % 192 == 0
    } else {
        value % 8 == 0
    }
}

/// An eighth of the lines' step: the step of the grid.
pub open spec fn in_grid_steps(value: int, of_cells: bool) -> bool {
    if of_cells {
        value % 24 == 0
    } else {
        true
    }
}

/// Dividing a multiple of the divisor, rounding toward zero, gives the
/// other factor back.
proof fn lemma_trunc_div_exact(y: int, d: int)
    requires
        d > 0,
    ensures
        trunc_div(d * y, d) == y,
{
    if d * y >= 0 {
        vstd::arithmetic::div_mod::lemma_div_multiples_vanish(y, d);
    } else {
        assert(-(d * y) == d * (-y)) by (nonlinear_arith);
        vstd::arithmetic::div_mod::lemma_div_multiples_vanish(-y, d);
    }
}

/// A whole number of steps is the step times a count.
proof fn lemma_steps_count(x: int, step: int) -> (q: int)
    requires
        step > 0,
        x % step == 0,
    ensures
        x == step * q,
{
    vstd::arithmetic::div_mod::lemma_fundamental_div_mod(x, step);
    x / step
}

/// A count of steps is a whole number of steps.
proof fn lemma_count_in_steps(q: int, step: int)
    requires
        step > 0,
    ensures
        (step * q) % step == 0,
{
    vstd::arithmetic::div_mod::lemma_mod_multiples_basic(q, step);
    assert(step * q == q * step) by (nonlinear_arith);
}

/// Two values in line steps sum to a value in line steps.
proof fn lemma_add_in_line_steps(x: int, y: int, of_cells: bool)
    requires
        in_line_steps(x, of_cells),
        in_line_steps(y, of_cells),
    ensures
        in_line_steps(x + y, of_cells),
{
    if of_cells {
        let p = lemma_steps_count(x, 192);
        let q = lemma_steps_count(y, 192);
        assert(x + y == 192 * (p + q));
        lemma_count_in_steps(p + q, 192);
    } else {
        let p = lemma_steps_count(x, 8);
        let q = lemma_steps_count(y, 8);
        assert(x + y == 8 * (p + q));
        lemma_count_in_steps(p + q, 8);
    }
}

/// A third of three values in member steps is whole, and in line steps.
proof fn lemma_third_is_whole(a: int, b: int, c: int, of_cells: bool)
    requires
        in_member_steps(a, of_cells),
        in_member_steps(b, of_cells),
        in_member_steps(c, of_cells),
    ensures
        3 * trunc_div(a + b + c, 3) == a + b + c,
        in_line_steps(trunc_div(a + b + c, 3), of_cells),
{
    if of_cells {
        let p = lemma_steps_count(a, 576);
        let q = lemma_steps_count(b, 576);
        let r = lemma_steps_count(c, 576);
        let third = 192 * (p + q + r);
        assert(a + b + c == 3 * third);
        lemma_trunc_div_exact(third, 3);
        lemma_count_in_steps(p + q + r, 192);
    } else {
        let p = lemma_steps_count(a, 24);
        let q = lemma_steps_count(b, 24);
        let r = lemma_steps_count(c, 24);
        let third = 8 * (p + q + r);
        assert(a + b + c == 3 * third);
        lemma_trunc_div_exact(third, 3);
        lemma_count_in_steps(p + q + r, 8);
    }
}

/// An eighth of a sum in line steps is whole, and comes in grid steps.
proof fn lemma_eighth_is_whole(sum: int, of_cells: bool)
    requires
        in_line_steps(sum, of_cells),
    ensures
        8 * trunc_div(sum, 8) == sum,
        in_grid_steps(trunc_div(sum, 8), of_cells),
{
    if of_cells {
        let p = lemma_steps_count(sum, 192);
        let eighth = 24 * p;
        assert(sum == 8 * eighth);
        lemma_trunc_div_exact(eighth, 8);
        lemma_count_in_steps(p, 24);
    } else {
        let p = lemma_steps_count(sum, 8);
        assert(sum == 8 * p);
        lemma_trunc_div_exact(p, 8);
    }
}

/// Open lines that each come in line steps sum to a value in line steps.
proof fn lemma_progress_sum_in_steps(lines: Seq<BoardScore>, of_cells: bool)
    requires
        forall|l: int|
            0 <= l < lines.len() ==> in_line_steps((#[trigger] lines[l]).progress(), of_cells),
    ensures
        in_line_steps(progress_sum(lines), of_cells),
    decreases lines.len(),
{
    if lines.len() > 0 {
        lemma_progress_sum_in_steps(lines.drop_last(), of_cells);
        assert(in_line_steps(lines.last().progress(), of_cells));
        lemma_add_in_line_steps(progress_sum(lines.drop_last()), lines.last().progress(), of_cells);
    } else {
        lemma_count_in_steps(0, 192);
        lemma_count_in_steps(0, 8);
    }
}

/// A line of members that come in member steps is worth exactly a third of
/// their sum, and that comes in line steps.
proof fn lemma_line_result_exact(a: BoardScore, b: BoardScore, c: BoardScore, of_cells: bool)
    requires
        a.in_range() && b.in_range() && c.in_range(),
        in_member_steps(a.value(), of_cells),
        in_member_steps(b.value(), of_cells),
        in_member_steps(c.value(), of_cells),
    ensures
        in_line_steps(line_result(a, b, c).progress(), of_cells),
        line_result(a, b, c) matches BoardScore::InProgress(v) ==> 3 * v == a.value() + b.value()
            + c.value(),
{
    lemma_third_is_whole(a.value(), b.value(), c.value(), of_cells);
    lemma_count_in_steps(0, 192);
    lemma_count_in_steps(0, 8);
}

/// Members that come in member steps give a grid whose score is found
/// without rounding: a third of each open line and an eighth of their sum
/// are whole, and the grid's value comes in grid steps.
proof fn lemma_grid_score_exact<T: GridScore>(grid: Grid3x3<T>, of_cells: bool)
    requires
        forall|k: int|
            0 <= k < 9 ==> in_member_steps((#[trigger] grid@[k]).score_spec().value(), of_cells),
    ensures
        forall|l: int|
            0 <= l < 8 ==> (#[trigger] grid.line_score(l) matches BoardScore::InProgress(v) ==> 3
                * v == grid.line_sum(l)),
        grid.score_spec() matches BoardScore::InProgress(v) ==> 8 * v == progress_sum(
            grid.line_scores(),
        ) && in_grid_steps(v as int, of_cells),
{
    let lines = grid.line_scores();
    lemma_line_cells();
    lemma_lines_in_range(grid);
    assert forall|l: int| 0 <= l < 8 implies in_line_steps((#[trigger] lines[l]).progress(), of_cells)
        && (lines[l] matches BoardScore::InProgress(v) ==> 3 * v == grid.line_sum(l)) by {
        let i = LINE_CELLS[l][0] as int;
        let j = LINE_CELLS[l][1] as int;
        let k = LINE_CELLS[l][2] as int;
        assert(grid@[i].score_spec().in_range() && grid@[j].score_spec().in_range()
            && grid@[k].score_spec().in_range());
        assert(in_member_steps(grid@[i].score_spec().value(), of_cells));
        assert(in_member_steps(grid@[j].score_spec().value(), of_cells));
        assert(in_member_steps(grid@[k].score_spec().value(), of_cells));
        lemma_line_result_exact(
            grid@[i].score_spec(),
            grid@[j].score_spec(),
            grid@[k].score_spec(),
            of_cells,
        );
    }
    assert forall|l: int| 0 <= l < 8 implies (#[trigger] grid.line_score(l) matches BoardScore::InProgress(
        v,
    ) ==> 3 * v == grid.line_sum(l)) by {
        assert(lines[l] == grid.line_score(l));
    }
    lemma_progress_sum_in_steps(lines, of_cells);
    lemma_progress_sum_bound(lines);
    lemma_first_decisive_found(lines, 0);
    lemma_eighth_is_whole(progress_sum(lines), of_cells);
}

/// Scoring a sub-board never rounds: every open line is worth exactly a
/// third of its members, the sub-board exactly an eighth of its open lines,
/// and that is a whole number of 24ths of a unit.
pub proof fn lemma_sub_board_score_exact(sub: Grid3x3<PieceType>)
    ensures
        forall|l: int|
            0 <= l < 8 ==> (#[trigger] sub.line_score(l) matches BoardScore::InProgress(v) ==> 3 * v
                == sub.line_sum(l)),
        sub.score_spec() matches BoardScore::InProgress(v) ==> 8 * v == progress_sum(
            sub.line_scores(),
        ) && v % 24 == 0,
{
    assert forall|k: int| 0 <= k < 9 implies in_member_steps(
        (#[trigger] sub@[k]).score_spec().value(),
        true,
    ) by {}
    lemma_grid_score_exact(sub, true);
}

/// Scoring the whole board never rounds: every open line is worth exactly a
/// third of its sub-boards, the board exactly an eighth of its open lines.
pub proof fn lemma_board_score_exact(board: UltraGrid)
    ensures
        forall|l: int|
            0 <= l < 8 ==> (#[trigger] board.line_score(l) matches BoardScore::InProgress(v) ==> 3
                * v == board.line_sum(l)),
        board.score_spec() matches BoardScore::InProgress(v) ==> 8 * v == progress_sum(
            board.line_scores(),
        ),
{
    assert forall|k: int| 0 <= k < 9 implies in_member_steps(
        (#[trigger] board@[k]).score_spec().value(),
        false,
    ) by {
        lemma_sub_board_score_exact(board@[k]);
    }
    lemma_grid_score_exact(board, false);
}

} // verus!
