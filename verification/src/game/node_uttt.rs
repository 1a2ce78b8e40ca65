//! The state of a game: the board, the side to move and the forced sub-board.

use vstd::prelude::*;
use vstd::string::*;
use crate::game::laws::lemma_initial_state_wf;
use crate::game::playable::Playable;
use crate::game::tools::{board_text, string_ultragrid};
use crate::template::tic_tac_toe::{Grid3x3, GridSlot, PieceType};

verus! {

/// The super-board: a grid of sub-boards.
pub type UltraGrid = Grid3x3<Grid3x3<PieceType>>;

/// A position: the board, whose turn it is, and where the mover must play.
#[derive(Debug, Clone, Hash, Eq, PartialEq, PartialOrd, Ord)]
pub struct UtttState {
    pub ultra_grid: UltraGrid,
    /// True when X moves next.
    pub crosses_turn: bool,
    /// The sub-board the mover must play in, or the free slot.
    pub current_play_slot: GridSlot,
}

/// The 81 cells of a board, sub-board by sub-board.
pub open spec fn board_cells(board: UltraGrid) -> Seq<PieceType> {
    Seq::new(81, |k: int| board@[k / 9]@[k % 9])
}

/// How many cells of a board hold `mark`.
pub open spec fn mark_count(board: UltraGrid, mark: PieceType) -> nat {
    board_cells(board).to_multiset().count(mark)
}

/// The board with `mark` placed at cell `local` of sub-board `sup`.
pub open spec fn place_mark(board: UltraGrid, sup: int, local: int, mark: PieceType) -> UltraGrid {
    board.with_cell(sup, board@[sup].with_cell(local, mark))
}

impl UtttState {
    /// The mark of the side to move.
    pub open spec fn mover(&self) -> PieceType {
        if self.crosses_turn {
            PieceType::X
        } else {
            PieceType::O
        }
    }

    /// The forced slot is free, or names a sub-board that still accepts a move.
    pub open spec fn forced_slot_open(&self) -> bool {
        ||| self.current_play_slot.is_any()
        ||| self.current_play_slot.is_cell()
            && self.ultra_grid@[self.current_play_slot.0 as int].playable_spec()
    }

    /// The marks on the board are those of strict alternation since the
    /// empty board, X having moved first.
    pub open spec fn marks_alternate(&self) -> bool {
        mark_count(self.ultra_grid, PieceType::X) == mark_count(self.ultra_grid, PieceType::O) + (
        if self.crosses_turn {
            0nat
        } else {
            1nat
        })
    }

    /// A valid state of play.
    pub open spec fn wf(&self) -> bool {
        &&& self.forced_slot_open()
        &&& self.marks_alternate()
    }
}

impl Default for UtttState {
    /// The start of a game: an empty board, X to move, any sub-board.
    fn default() -> (state: Self)
        ensures
            forall|s: int, k: int|
                0 <= s < 9 && 0 <= k < 9 ==> #[trigger] state.ultra_grid@[s]@[k] == PieceType::Empty,
            state.crosses_turn,
            state.current_play_slot == GridSlot(9),
            state.wf(),
    {
        let state = UtttState {
            ultra_grid: UltraGrid::default(),
            crosses_turn: true,
            current_play_slot: GridSlot::any_slot(),
        };
        proof {
            lemma_initial_state_wf(state);
        }
        state
    }
}

/// The character for a decimal digit.
pub open spec fn digit_char(d: int) -> char {
    if d == 0 {
        '0'
    } else if d == 1 {
        '1'
    } else if d == 2 {
        '2'
    } else if d == 3 {
        '3'
    } else if d == 4 {
        '4'
    } else if d == 5 {
        '5'
    } else if d == 6 {
        '6'
    } else if d == 7 {
        '7'
    } else if d == 8 {
        '8'
    } else {
        '9'
    }
}

/// A number written in decimal, without leading zeros.
pub open spec fn decimal_text(n: nat) -> Seq<char>
    decreases n,
{
    if n < 10 {
        seq![digit_char(n as int)]
    } else {
        decimal_text(n / 10).push(digit_char((n % 10) as int))
    }
}

/// The text of one decimal digit.
fn digit_str(d: u8) -> (text: &'static str)
    requires
        d < 10,
    ensures
        text@ == seq![digit_char(d as int)],
{
    proof {
        reveal_strlit("0");
        reveal_strlit("1");
        reveal_strlit("2");
        reveal_strlit("3");
        reveal_strlit("4");
        reveal_strlit("5");
        reveal_strlit("6");
        reveal_strlit("7");
        reveal_strlit("8");
        reveal_strlit("9");
    }
    let text = match d {
        0 => "0",
        1 => "1",
        2 => "2",
        3 => "3",
        4 => "4",
        5 => "5",
        6 => "6",
        7 => "7",
        8 => "8",
        _ => "9",
    };
    assert(text@ =~= seq![digit_char(d as int)]);
    text
}

/// Appends a number in decimal.
fn append_decimal(s: &mut String, n: u8)
    ensures
        final(s)@ == old(s)@ + decimal_text(n as nat),
{
    let ghost given = s@;
    if n >= 100 {
        s.append(digit_str(n / 100));
    }
    if n >= 10 {
        s.append(digit_str((n / 10) % 10));
    }
    s.append(digit_str(n % 10));
    proof {
        reveal_with_fuel(decimal_text, 3);
        assert(s@ =~= given + decimal_text(n as nat));
    }
}

impl UtttState {
    /// The state as text: the picture of the board, the side to move, and
    /// the row and column of the forced slot.
    pub open spec fn text(&self) -> Seq<char> {
        board_text(self.ultra_grid) + "\nCurrent player: "@ + (if self.crosses_turn {
            "X"@
        } else {
            "O"@
        }) + "\n"@ + "Current play slot: ("@ + decimal_text((self.current_play_slot.0 / 3) as nat)
            + ", "@ + decimal_text((self.current_play_slot.0 % 3) as nat) + ")\n"@
    }

    /// Writes the state as text.
    pub fn to_string(&self) -> (text: String)
        ensures
            text@ == self.text(),
    {
        let mut str = String::new();
        let play_slot: (u8, u8) = self.current_play_slot.into();
        str.append(string_ultragrid(&self.ultra_grid).as_str());
        str.append("\nCurrent player: ");
        str.append(if self.crosses_turn { "X" } else { "O" });
        str.append("\n");
        str.append("Current play slot: (");
        append_decimal(&mut str, play_slot.0);
        str.append(", ");
        append_decimal(&mut str, play_slot.1);
        str.append(")\n");
        assert(str@ =~= self.text());
        str
    }
}

} // verus!
