//! The scoring engine, shared by sub-boards and the super-board, and the
//! four operations a game-tree search needs: the legal moves of a state, the
//! state after a move, the outcome of a finished game and the value of an
//! unfinished one.

use vstd::prelude::*;
use crate::game::laws::{lemma_finished_game_has_no_moves, lemma_moves_iff_open, lemma_successor_wf};
use crate::game::node_uttt::{place_mark, UtttState};
use crate::game::playable::Playable;
use crate::game::seq_lemmas::{lemma_filter_take_skip, lemma_filter_take_step};
use crate::template::tic_tac_toe::{Grid3x3, GridSlot, PieceType, LINE_CELLS};

verus! {

/// The fixed-point value of a certain win: scores are counted in 576ths, the
/// smallest step that two nested levels of "a third of a line, an eighth of a
/// grid" can produce.
pub const SCORE_UNIT: i32 = 576;

/// The result of scoring a cell or a grid, seen from X's side.
#[derive(Debug, PartialEq, Eq, Clone, Copy, Structural)]
pub enum BoardScore {
    WinnerX,
    WinnerO,
    Draw,
    /// Still open, with a value in `-SCORE_UNIT ..= SCORE_UNIT`;
    /// `SCORE_UNIT` would be a certain win for X.
    InProgress(i32),
}

impl BoardScore {
    /// A win for either side.
    pub open spec fn is_decisive(self) -> bool {
        self is WinnerX || self is WinnerO
    }

    /// An open value stays within one unit of zero.
    pub open spec fn in_range(self) -> bool {
        self matches BoardScore::InProgress(v) ==> -SCORE_UNIT <= v <= SCORE_UNIT
    }

    /// What a member adds to the sum of its line, and what a whole board is worth.
    pub open spec fn value(self) -> int {
        match self {
            BoardScore::WinnerX => SCORE_UNIT as int,
            BoardScore::WinnerO => -SCORE_UNIT,
            BoardScore::Draw => 0,
            BoardScore::InProgress(v) => v as int,
        }
    }

    /// What an open line adds to the sum of its grid.
    pub open spec fn progress(self) -> int {
        match self {
            BoardScore::InProgress(v) => v as int,
            _ => 0,
        }
    }

    /// The same result with the two sides exchanged.
    pub open spec fn swapped(self) -> BoardScore {
        match self {
            BoardScore::WinnerX => BoardScore::WinnerO,
            BoardScore::WinnerO => BoardScore::WinnerX,
            BoardScore::Draw => BoardScore::Draw,
            BoardScore::InProgress(v) => BoardScore::InProgress((-v) as i32),
        }
    }
}

/// Division that rounds toward zero, as machine integers divide.
pub open spec fn trunc_div(a: int, d: int) -> int {
    if a >= 0 {
        a / d
    } else {
        -((-a) / d)
    }
}

/// The result of one line from the results of its three members.
///
/// A drawn member blocks the line for good. Otherwise three members won by
/// one side win the line, members won by both sides block it, and any other
/// line is open at a third of the sum of its members.
pub open spec fn line_result(a: BoardScore, b: BoardScore, c: BoardScore) -> BoardScore {
    if a is Draw || b is Draw || c is Draw {
        BoardScore::Draw
    } else if a is WinnerX && b is WinnerX && c is WinnerX {
        BoardScore::WinnerX
    } else if a is WinnerO && b is WinnerO && c is WinnerO {
        BoardScore::WinnerO
    } else if (a is WinnerX || b is WinnerX || c is WinnerX) && (a is WinnerO || b is WinnerO
        || c is WinnerO) {
        BoardScore::Draw
    } else {
        BoardScore::InProgress(trunc_div(a.value() + b.value() + c.value(), 3) as i32)
    }
}

/// The index of the first decisive line at or after `from`, or the number of
/// lines if there is none.
pub open spec fn first_decisive(lines: Seq<BoardScore>, from: int) -> int
    decreases lines.len() - from,
{
    if from >= lines.len() || lines[from].is_decisive() {
        from
    } else {
        first_decisive(lines, from + 1)
    }
}

/// The sum of the values of the open lines.
pub open spec fn progress_sum(lines: Seq<BoardScore>) -> int
    decreases lines.len(),
{
    if lines.len() == 0 {
        0
    } else {
        progress_sum(lines.drop_last()) + lines.last().progress()
    }
}

/// True if some line is still open.
pub open spec fn any_in_progress(lines: Seq<BoardScore>) -> bool {
    exists|l: int| 0 <= l < lines.len() && #[trigger] lines[l] is InProgress
}

/// The result of a grid from the results of its eight lines, in canonical order.
///
/// The first decisive line wins the grid. Without one, the grid is open at an
/// eighth of the sum of its open lines, or drawn if no line is open.
pub open spec fn combine_lines(lines: Seq<BoardScore>) -> BoardScore {
    let d = first_decisive(lines, 0);
    if d < lines.len() {
        lines[d]
    } else if any_in_progress(lines) {
        BoardScore::InProgress(trunc_div(progress_sum(lines), 8) as i32)
    } else {
        BoardScore::Draw
    }
}

/// Anything that can be scored: a cell, or a grid of things that can be scored.
pub trait GridScore {
    /// The score of this value.
    spec fn score_spec(&self) -> BoardScore;

    /// An open score is never worth more than a win.
    proof fn lemma_score_in_range(&self)
        ensures
            self.score_spec().in_range(),
    ;

    /// Scores this value.
    fn score(&self) -> (result: BoardScore)
        ensures
            result == self.score_spec(),
    ;
}

impl GridScore for PieceType {
    /// A mark is a win for its side; an empty cell is open at zero.
    open spec fn score_spec(&self) -> BoardScore {
        match *self {
            PieceType::X => BoardScore::WinnerX,
            PieceType::O => BoardScore::WinnerO,
            PieceType::Empty => BoardScore::InProgress(0),
        }
    }

    proof fn lemma_score_in_range(&self) {
    }

    fn score(&self) -> (result: BoardScore) {
        if *self == PieceType::X {
            BoardScore::WinnerX
        } else if *self == PieceType::O {
            BoardScore::WinnerO
        } else {
            BoardScore::InProgress(0)
        }
    }
}

impl<T: GridScore> Grid3x3<T> {
    /// The sum of what the three members of line `l` are worth.
    pub open spec fn line_sum(self, l: int) -> int {
        self@[LINE_CELLS[l][0] as int].score_spec().value()
            + self@[LINE_CELLS[l][1] as int].score_spec().value()
            + self@[LINE_CELLS[l][2] as int].score_spec().value()
    }

    /// The result of line `l`.
    pub open spec fn line_score(self, l: int) -> BoardScore {
        line_result(
            self@[LINE_CELLS[l][0] as int].score_spec(),
            self@[LINE_CELLS[l][1] as int].score_spec(),
            self@[LINE_CELLS[l][2] as int].score_spec(),
        )
    }

    /// The results of the eight lines, in canonical order.
    pub open spec fn line_scores(self) -> Seq<BoardScore> {
        Seq::new(8, |l: int| self.line_score(l))
    }
}

/// Every entry of the table of lines is a cell index.
pub proof fn lemma_line_cells()
    ensures
        forall|l: int, k: int| 0 <= l < 8 && 0 <= k < 3 ==> 0 <= #[trigger] LINE_CELLS[l][k] < 9,
{
    assert forall|l: int, k: int| 0 <= l < 8 && 0 <= k < 3 implies 0 <= #[trigger] LINE_CELLS[l][k]
        < 9 by {
        let row = LINE_CELLS[l];
        assert(row[0] < 9 && row[1] < 9 && row[2] < 9);
    }
}

/// Every member of a grid scores in range, and so does every one of its lines.
pub proof fn lemma_lines_in_range<T: GridScore>(grid: Grid3x3<T>)
    ensures
        forall|k: int| 0 <= k < 9 ==> (#[trigger] grid@[k]).score_spec().in_range(),
        forall|l: int| 0 <= l < 8 ==> (#[trigger] grid.line_scores()[l]).in_range(),
{
    lemma_line_cells();
    assert forall|k: int| 0 <= k < 9 implies (#[trigger] grid@[k]).score_spec().in_range() by {
        grid@[k].lemma_score_in_range();
    }
    assert forall|l: int| 0 <= l < 8 implies (#[trigger] grid.line_scores()[l]).in_range() by {
        assert(grid@[LINE_CELLS[l][0] as int].score_spec().in_range());
        assert(grid@[LINE_CELLS[l][1] as int].score_spec().in_range());
        assert(grid@[LINE_CELLS[l][2] as int].score_spec().in_range());
    }
}

/// The open lines of a grid never sum to more than one unit per line.
pub proof fn lemma_progress_sum_bound(lines: Seq<BoardScore>)
    requires
        forall|l: int| 0 <= l < lines.len() ==> (#[trigger] lines[l]).in_range(),
    ensures
        -576 * lines.len() <= progress_sum(lines) <= 576 * lines.len(),
    decreases lines.len(),
{
    if lines.len() > 0 {
        lemma_progress_sum_bound(lines.drop_last());
    }
}

/// Where the first decisive line lies.
pub proof fn lemma_first_decisive(lines: Seq<BoardScore>, from: int, upto: int)
    requires
        0 <= from <= upto <= lines.len(),
        forall|l: int| from <= l < upto ==> !(#[trigger] lines[l]).is_decisive(),
        upto < lines.len() ==> lines[upto].is_decisive(),
    ensures
        first_decisive(lines, from) == upto,
    decreases upto - from,
{
    if from < upto {
        lemma_first_decisive(lines, from + 1, upto);
    }
}

/// The line that `first_decisive` finds is decisive, and no line before it is.
pub proof fn lemma_first_decisive_found(lines: Seq<BoardScore>, from: int)
    requires
        0 <= from <= lines.len(),
    ensures
        from <= first_decisive(lines, from) <= lines.len(),
        first_decisive(lines, from) < lines.len() ==> lines[first_decisive(
            lines,
            from,
        )].is_decisive(),
        forall|l: int| from <= l < first_decisive(lines, from) ==> !(#[trigger] lines[l]).is_decisive(),
    decreases lines.len() - from,
{
    if from < lines.len() && !lines[from].is_decisive() {
        lemma_first_decisive_found(lines, from + 1);
    }
}

/// Scores one line from its three members, stopping at the first drawn one.
fn line_score<T: GridScore>(line: [&T; 3]) -> (result: BoardScore)
    ensures
        result == line_result(
            line[0].score_spec(),
            line[1].score_spec(),
            line[2].score_spec(),
        ),
{
    let mut score: i32 = 0;
    let mut has_x: u8 = 0;
    let mut has_o: u8 = 0;
    let ghost a = line[0].score_spec();
    let ghost b = line[1].score_spec();
    let ghost c = line[2].score_spec();
    proof {
        line[0].lemma_score_in_range();
        line[1].lemma_score_in_range();
        line[2].lemma_score_in_range();
    }
    for k in 0..3
        invariant
            a == line[0].score_spec() && b == line[1].score_spec() && c == line[2].score_spec(),
            a.in_range() && b.in_range() && c.in_range(),
            k > 0 ==> a !is Draw,
            k > 1 ==> b !is Draw,
            k > 2 ==> c !is Draw,
            has_x == (if k > 0 && a is WinnerX { 1int } else { 0 })
                + (if k > 1 && b is WinnerX { 1int } else { 0 })
                + (if k > 2 && c is WinnerX { 1int } else { 0 }),
            has_o == (if k > 0 && a is WinnerO { 1int } else { 0 })
                + (if k > 1 && b is WinnerO { 1int } else { 0 })
                + (if k > 2 && c is WinnerO { 1int } else { 0 }),
            score == (if k > 0 { a.value() } else { 0 })
                + (if k > 1 { b.value() } else { 0 })
                + (if k > 2 { c.value() } else { 0 }),
    {
        let cell_score = line[k].score();
        match cell_score {
            BoardScore::WinnerX => {
                has_x += 1;
                score += SCORE_UNIT;
            },
            BoardScore::WinnerO => {
                has_o += 1;
                score -= SCORE_UNIT;
            },
            BoardScore::Draw => {
                return BoardScore::Draw;
            },
            BoardScore::InProgress(val) => {
                score += val;
            },
        }
    }
    if has_x == 3 {
        return BoardScore::WinnerX;
    } else if has_o == 3 {
        return BoardScore::WinnerO;
    } else if has_x > 0 && has_o > 0 {
        return BoardScore::Draw;
    }
    BoardScore::InProgress(score / 3)
}

impl<T: GridScore> GridScore for Grid3x3<T> {
    /// The eight lines of the grid, combined.
    open spec fn score_spec(&self) -> BoardScore {
        combine_lines(self.line_scores())
    }

    proof fn lemma_score_in_range(&self) {
        let lines = self.line_scores();
        lemma_lines_in_range(*self);
        lemma_progress_sum_bound(lines);
        lemma_first_decisive_found(lines, 0);
    }

    fn score(&self) -> (result: BoardScore) {
        let all_lines = GridSlot::all_lines();
        let mut score: i32 = 0;
        let mut is_winnable = false;
        let ghost lines = self.line_scores();
        proof {
            lemma_line_cells();
            lemma_lines_in_range(*self);
        }
        for l in 0..8
            invariant
                lines == self.line_scores(),
                forall|i: int, k: int|
                    0 <= i < 8 && 0 <= k < 3 ==> (#[trigger] all_lines[i][k]).0 == LINE_CELLS[i][k],
                forall|i: int, k: int| 0 <= i < 8 && 0 <= k < 3 ==> 0 <= #[trigger] LINE_CELLS[i][k] < 9,
                forall|i: int| 0 <= i < lines.len() ==> (#[trigger] lines[i]).in_range(),
                forall|i: int| 0 <= i < l ==> !(#[trigger] lines[i]).is_decisive(),
                is_winnable <==> any_in_progress(lines.take(l as int)),
                score == progress_sum(lines.take(l as int)),
                -576 * l <= score <= 576 * l,
        {
            let line_slots = all_lines[l];
            let l_score = line_score(
                [self.get(line_slots[0]), self.get(line_slots[1]), self.get(line_slots[2])],
            );
            assert(l_score == lines[l as int] && lines[l as int].in_range());
            proof {
                assert(lines.take(l + 1).drop_last() =~= lines.take(l as int));
                assert(lines.take(l + 1).last() == lines[l as int]);
            }
            match l_score {
                BoardScore::WinnerX => {
                    proof {
                        lemma_first_decisive(lines, 0, l as int);
                    }
                    return BoardScore::WinnerX;
                },
                BoardScore::WinnerO => {
                    proof {
                        lemma_first_decisive(lines, 0, l as int);
                    }
                    return BoardScore::WinnerO;
                },
                BoardScore::Draw => {
                    assert(any_in_progress(lines.take(l + 1)) <==> any_in_progress(
                        lines.take(l as int),
                    )) by {
                        lemma_any_in_progress_step(lines, l as int);
                    }
                },
                BoardScore::InProgress(val) => {
                    is_winnable = true;
                    score += val;
                    assert(any_in_progress(lines.take(l + 1))) by {
                        lemma_any_in_progress_step(lines, l as int);
                    }
                },
            }
        }
        proof {
            assert(lines.take(8) =~= lines);
            lemma_first_decisive(lines, 0, 8);
        }
        if is_winnable {
            BoardScore::InProgress(score / 8)
        } else {
            BoardScore::Draw
        }
    }
}

/// How one more line changes whether any line is open.
pub proof fn lemma_any_in_progress_step(lines: Seq<BoardScore>, l: int)
    requires
        0 <= l < lines.len(),
    ensures
        any_in_progress(lines.take(l + 1)) <==> any_in_progress(lines.take(l)) || lines[l]
            is InProgress,
{
    let before = lines.take(l);
    let after = lines.take(l + 1);
    if any_in_progress(before) {
        let w = choose|w: int| 0 <= w < before.len() && #[trigger] before[w] is InProgress;
        assert(after[w] is InProgress);
    }
    if lines[l] is InProgress {
        assert(after[l] is InProgress);
    }
    if any_in_progress(after) {
        let w = choose|w: int| 0 <= w < after.len() && #[trigger] after[w] is InProgress;
        if w < l {
            assert(before[w] is InProgress);
        }
    }
}

/// How a finished game ended, told from the side whose turn it would be.
#[derive(Debug, Clone, Copy, PartialEq, Eq, Structural)]
pub enum Winner {
    /// The side that made the last move has won.
    PlayerJustMoved,
    /// Nobody has won and nobody can.
    Draw,
    /// The side that would move next has won.
    PlayerToMove,
}

/// A move: the sub-board, then the cell within it.
pub type Move = (GridSlot, GridSlot);

/// Every pair of a sub-board and a cell, sub-boards first, both ascending.
pub open spec fn all_moves() -> Seq<Move> {
    Seq::new(81, |k: int| (GridSlot((k / 9) as u8), GridSlot((k % 9) as u8)))
}

impl UtttState {
    /// True if the rules let the mover play `m`: the game is not over, the
    /// cell is empty, and its sub-board is the forced one or, where the choice
    /// is free, one that still accepts a move.
    pub open spec fn is_legal_move(&self, m: Move) -> bool {
        &&& self.outcome() is None
        &&& m.0.is_cell()
        &&& m.1.is_cell()
        &&& self.ultra_grid@[m.0.0 as int]@[m.1.0 as int] == PieceType::Empty
        &&& if self.current_play_slot.is_any() {
            self.ultra_grid@[m.0.0 as int].playable_spec()
        } else {
            m.0 == self.current_play_slot
        }
    }

    /// The test that picks the legal moves of this state.
    pub open spec fn legal(&self) -> spec_fn(Move) -> bool {
        |m: Move| self.is_legal_move(m)
    }

    /// The legal moves of this state, in canonical order.
    pub open spec fn legal_moves(&self) -> Seq<Move> {
        all_moves().filter(self.legal())
    }

    /// The state after the mover has played `m`: the mark is placed, the
    /// turn passes, and the opponent is sent to the sub-board that matches
    /// the cell just played, unless that sub-board accepts no move.
    pub open spec fn successor(&self, m: Move) -> UtttState {
        let board = place_mark(self.ultra_grid, m.0.0 as int, m.1.0 as int, self.mover());
        UtttState {
            ultra_grid: board,
            crosses_turn: !self.crosses_turn,
            current_play_slot: if board@[m.1.0 as int].playable_spec() {
                m.1
            } else {
                GridSlot(9)
            },
        }
    }

    /// How the game has ended, or `None` while it goes on.
    pub open spec fn outcome(&self) -> Option<Winner> {
        match self.ultra_grid.score_spec() {
            BoardScore::WinnerX => Some(
                if self.crosses_turn {
                    Winner::PlayerToMove
                } else {
                    Winner::PlayerJustMoved
                },
            ),
            BoardScore::WinnerO => Some(
                if self.crosses_turn {
                    Winner::PlayerJustMoved
                } else {
                    Winner::PlayerToMove
                },
            ),
            BoardScore::Draw => Some(Winner::Draw),
            BoardScore::InProgress(_) => None,
        }
    }

    /// Appends the legal moves of `state` to `moves`, in canonical order; a
    /// finished game has none.
    pub fn generate_moves(state: &UtttState, moves: &mut Vec<Move>)
        requires
            state.current_play_slot.is_cell() || state.current_play_slot.is_any(),
        ensures
            final(moves)@ == old(moves)@ + state.legal_moves(),
            state.outcome() is Some ==> final(moves)@ == old(moves)@,
            state.wf() ==> (final(moves)@.len() > old(moves)@.len() <==> state.outcome() is None),
    {
        proof {
            if state.outcome() is Some {
                lemma_finished_game_has_no_moves(*state);
            }
            if state.wf() {
                lemma_moves_iff_open(*state);
            }
        }
        let primary_slot = state.current_play_slot;
        let slots = GridSlot::all_slots();
        let ghost all = all_moves();
        let ghost given = moves@;
        proof {
            assert(all.take(0).filter(state.legal()) =~= Seq::<Move>::empty()) by {
                reveal(Seq::filter);
            }
            assert(all.take(81) =~= all);
        }
        match state.ultra_grid.score() {
            BoardScore::InProgress(_) => {},
            _ => {
                proof {
                    lemma_filter_take_skip(all, state.legal(), 0, 81);
                }
                return;
            },
        }
        if primary_slot.0 == 9 {
            for s1 in 0..9
                invariant
                    all == all_moves(),
                    state.outcome() is None,
                    state.current_play_slot.is_any(),
                    forall|k: int| 0 <= k < 9 ==> (#[trigger] slots[k]).0 == k,
                    moves@ == given + all.take(9 * s1).filter(state.legal()),
            {
                if state.ultra_grid.get(slots[s1]).is_playable() {
                    for s2 in 0..9
                        invariant
                            all == all_moves(),
                            0 <= s1 < 9,
                            state.outcome() is None,
                            state.current_play_slot.is_any(),
                            state.ultra_grid@[s1 as int].playable_spec(),
                            forall|k: int| 0 <= k < 9 ==> (#[trigger] slots[k]).0 == k,
                            moves@ == given + all.take(9 * s1 + s2).filter(state.legal()),
                    {
                        proof {
                            lemma_filter_take_step(all, state.legal(), 9 * s1 + s2);
                        }
                        if *state.ultra_grid.get(slots[s1]).get(slots[s2]) == PieceType::Empty {
                            moves.push((slots[s1], slots[s2]));
                        }
                    }
                } else {
                    proof {
                        lemma_filter_take_skip(all, state.legal(), 9 * s1, 9 * s1 + 9);
                    }
                }
            }
        } else {
            proof {
                lemma_filter_take_skip(all, state.legal(), 0, 9 * primary_slot.0);
            }
            for s in 0..9
                invariant
                    all == all_moves(),
                    state.outcome() is None,
                    primary_slot == state.current_play_slot,
                    primary_slot.is_cell(),
                    forall|k: int| 0 <= k < 9 ==> (#[trigger] slots[k]).0 == k,
                    moves@ == given + all.take(9 * primary_slot.0 + s).filter(state.legal()),
            {
                proof {
                    lemma_filter_take_step(all, state.legal(), 9 * primary_slot.0 + s);
                }
                if *state.ultra_grid.get(primary_slot).get(slots[s]) == PieceType::Empty {
                    moves.push((primary_slot, slots[s]));
                }
            }
            proof {
                lemma_filter_take_skip(all, state.legal(), 9 * primary_slot.0 + 9, 81);
            }
        }
    }

    /// Tells whether the rules let the mover play `m`.
    pub fn is_legal(&self, m: Move) -> (legal: bool)
        ensures
            legal == self.is_legal_move(m),
    {
        let (i, j) = m;
        if i.0 >= 9 || j.0 >= 9 {
            return false;
        }
        match self.ultra_grid.score() {
            BoardScore::InProgress(_) => {},
            _ => {
                return false;
            },
        }
        if *self.ultra_grid.get(i).get(j) != PieceType::Empty {
            return false;
        }
        if self.current_play_slot.0 == 9 {
            self.ultra_grid.get(i).is_playable()
        } else {
            i.0 == self.current_play_slot.0
        }
    }

    /// The state after the mover has played `m`, a move among the legal moves
    /// of `state`; `state` itself is left as it was.
    ///
    /// The successor's forced slot is the cell just played, unless the
    /// sub-board of that name accepts no move after the placement.
    pub fn apply(state: &mut UtttState, m: Move) -> (next: Option<UtttState>)
        requires
            old(state).is_legal_move(m),
        ensures
            *final(state) == *old(state),
            next == Some(old(state).successor(m)),
            next matches Some(after) && after.current_play_slot == (if after.ultra_grid@[m.1.0 as int]
                .playable_spec() {
                m.1
            } else {
                GridSlot(9)
            }),
            old(state).wf() ==> old(state).successor(m).wf(),
    {
        let mut new_state_grid = state.ultra_grid;
        let (i, j) = m;
        let last_piece_placed = if state.crosses_turn {
            PieceType::X
        } else {
            PieceType::O
        };
        *new_state_grid.get_mut(i).get_mut(j) = last_piece_placed;
        proof {
            let board = state.ultra_grid;
            let sub = board@[i.0 as int].with_cell(j.0 as int, last_piece_placed);
            board@[i.0 as int].lemma_with_cell(j.0 as int, last_piece_placed);
            new_state_grid@[i.0 as int].lemma_ext_equal(sub);
            board.lemma_with_cell(i.0 as int, sub);
            new_state_grid.lemma_ext_equal(board.with_cell(i.0 as int, sub));
            if state.wf() {
                lemma_successor_wf(*state, m);
            }
        }
        let current_play_slot;
        if !new_state_grid.get(j).is_playable() {
            current_play_slot = GridSlot::any_slot();
        } else {
            current_play_slot = j;
        }
        let new_state = UtttState {
            ultra_grid: new_state_grid,
            crosses_turn: !state.crosses_turn,
            current_play_slot,
        };
        Some(new_state)
    }

    /// How the game has ended, or `None` while it goes on.
    pub fn get_winner(state: &UtttState) -> (winner: Option<Winner>)
        ensures
            winner == state.outcome(),
    {
        let score = state.ultra_grid.score();
        match score {
            BoardScore::WinnerX => {
                if state.crosses_turn {
                    Some(Winner::PlayerToMove)
                } else {
                    Some(Winner::PlayerJustMoved)
                }
            },
            BoardScore::WinnerO => {
                if state.crosses_turn {
                    Some(Winner::PlayerJustMoved)
                } else {
                    Some(Winner::PlayerToMove)
                }
            },
            BoardScore::Draw => Some(Winner::Draw),
            BoardScore::InProgress(_) => None,
        }
    }
}

/// The largest value `evaluate` returns: one less than the largest 16-bit
/// value, which a search keeps for a won game.
pub const MAX_EVALUATION: i16 = 32766;

/// The value of a board for X, scaled to `-MAX_EVALUATION ..= MAX_EVALUATION`
/// and rounded toward zero.
pub open spec fn scaled_value(score: BoardScore) -> int {
    trunc_div(score.value() * MAX_EVALUATION, SCORE_UNIT as int)
}

/// Values a state for the side to move.
pub struct UtttEvaluator {
    name: String,
}

impl UtttEvaluator {
    /// An evaluator of the given name.
    pub fn new(name: String) -> (evaluator: Self)
        ensures
            evaluator.name() == name@,
    {
        Self { name }
    }

    /// The name this evaluator was made with.
    pub closed spec fn name(&self) -> Seq<char> {
        self.name@
    }

    /// The value of `s` for the side to move: that of its board for X, with
    /// the sign turned when O moves.
    pub open spec fn evaluation(s: &UtttState) -> int {
        if s.crosses_turn {
            scaled_value(s.ultra_grid.score_spec())
        } else {
            -scaled_value(s.ultra_grid.score_spec())
        }
    }

    /// The value of `s` for the side to move; positive is good for the mover.
    pub fn evaluate(&self, s: &UtttState) -> (value: i16)
        ensures
            value == Self::evaluation(s),
            -MAX_EVALUATION <= value <= MAX_EVALUATION,
    {
        let score = s.ultra_grid.score();
        proof {
            s.ultra_grid.lemma_score_in_range();
        }
        let val: i32 = match score {
            BoardScore::WinnerX => SCORE_UNIT,
            BoardScore::WinnerO => -SCORE_UNIT,
            BoardScore::Draw => 0,
            BoardScore::InProgress(val) => val,
        };
        let res: i16 = (val * (MAX_EVALUATION as i32) / SCORE_UNIT) as i16;
        if s.crosses_turn {
            res
        } else {
            -res
        }
    }
}

} // verus!
