//! The board as text: nine rows of nine marks, framed into sub-boards.

use vstd::prelude::*;
use vstd::string::*;
use crate::game::seq_lemmas::{lemma_filter_take_skip, lemma_filter_take_step};
use crate::game::node_uttt::UltraGrid;
use crate::template::tic_tac_toe::{Grid3x3, GridSlot, PieceType};

verus! {

/// The character that stands for a mark.
pub open spec fn mark_char(piece: PieceType) -> char {
    match piece {
        PieceType::X => 'X',
        PieceType::O => 'O',
        PieceType::Empty => '.',
    }
}

/// True for the three characters that stand for a mark.
pub open spec fn is_mark(c: char) -> bool {
    c == 'X' || c == 'O' || c == '.'
}

/// The mark that a character stands for.
pub open spec fn mark_piece(c: char) -> PieceType {
    if c == 'X' {
        PieceType::X
    } else if c == 'O' {
        PieceType::O
    } else {
        PieceType::Empty
    }
}

/// The test that picks the mark characters out of a text.
pub open spec fn mark_test() -> spec_fn(char) -> bool {
    |c: char| is_mark(c)
}

/// The mark characters of a text, in order.
pub open spec fn marks(text: Seq<char>) -> Seq<char> {
    text.filter(mark_test())
}

/// The cell shown at row `r`, column `c` of the 9x9 picture of a board.
pub open spec fn display_cell(grid: UltraGrid, r: int, c: int) -> PieceType {
    grid@[(r / 3) * 3 + c / 3]@[(r % 3) * 3 + c % 3]
}

/// The first `n` cells of row `r`: each mark between two spaces, with a bar
/// before the fourth and the seventh.
pub open spec fn row_text(grid: UltraGrid, r: int, n: int) -> Seq<char>
    decreases n,
{
    if n <= 0 {
        Seq::empty()
    } else {
        let bar = if (n - 1) % 3 == 0 && n - 1 != 0 {
            seq!['|']
        } else {
            Seq::empty()
        };
        row_text(grid, r, n - 1) + bar + seq![' ', mark_char(display_cell(grid, r, n - 1)), ' ']
    }
}

/// The line drawn between two bands of sub-boards.
pub open spec fn rule_text() -> Seq<char> {
    Seq::new(29, |i: int| '-').push('\n')
}

/// The text down to and including row `n - 1`: a line break, then each row on
/// a line of its own, with a rule after the third and the sixth.
pub open spec fn rows_text(grid: UltraGrid, n: int) -> Seq<char>
    decreases n,
{
    if n <= 0 {
        seq!['\n']
    } else {
        let rule = if (n - 1) % 3 == 2 && n - 1 != 8 {
            rule_text()
        } else {
            Seq::empty()
        };
        rows_text(grid, n - 1) + row_text(grid, n - 1, 9) + seq!['\n'] + rule
    }
}

/// The picture of a whole board.
pub open spec fn board_text(grid: UltraGrid) -> Seq<char> {
    rows_text(grid, 9)
}

/// Draws a board as text.
pub fn string_ultragrid(grid: &UltraGrid) -> (text: String)
    ensures
        text@ == board_text(*grid),
{
    let mut s = String::new();
    s.append("\n");
    proof {
        reveal_strlit("\n");
        reveal_strlit("|");
        reveal_strlit(" . ");
        reveal_strlit(" X ");
        reveal_strlit(" O ");
        reveal_strlit("-----------------------------\n");
        assert(s@ =~= rows_text(*grid, 0));
        assert("-----------------------------\n"@ =~= rule_text());
    }
    for i in 0u8..9
        invariant
            s@ == rows_text(*grid, i as int),
            "\n"@ == seq!['\n'],
            "|"@ == seq!['|'],
            " . "@ == seq![' ', '.', ' '],
            " X "@ == seq![' ', 'X', ' '],
            " O "@ == seq![' ', 'O', ' '],
            "-----------------------------\n"@ == rule_text(),
    {
        let ghost above = s@;
        for j in 0u8..9
            invariant
                0 <= i < 9,
                above == rows_text(*grid, i as int),
                s@ == above + row_text(*grid, i as int, j as int),
                "|"@ == seq!['|'],
                " . "@ == seq![' ', '.', ' '],
                " X "@ == seq![' ', 'X', ' '],
                " O "@ == seq![' ', 'O', ' '],
        {
            let piece = grid.get(GridSlot::from((i / 3, j / 3))).get(GridSlot::from((i % 3, j % 3)));
            if j % 3 == 0 && j != 0 {
                s.append("|");
            }
            if *piece == PieceType::Empty {
                s.append(" . ");
            } else if *piece == PieceType::X {
                s.append(" X ");
            } else if *piece == PieceType::O {
                s.append(" O ");
            }
            assert(s@ =~= above + row_text(*grid, i as int, j + 1));
        }
        s.append("\n");
        if i % 3 == 2 && i != 8 {
            s.append("-----------------------------\n");
        }
        assert(s@ =~= rows_text(*grid, i + 1));
    }
    s
}

/// Counts the mark characters of a text; `parse_ultragrid` needs 81 of them.
pub fn count_marks(input: &str) -> (count: usize)
    ensures
        count == marks(input@).len(),
{
    let total = input.unicode_len();
    let mut count: usize = 0;
    proof {
        assert(input@.take(0).filter(mark_test()) =~= Seq::<char>::empty()) by {
            reveal(Seq::filter);
        }
    }
    for idx in 0..total
        invariant
            total == input@.len(),
            count == marks(input@.take(idx as int)).len(),
            count <= idx,
    {
        proof {
            lemma_filter_take_step(input@, mark_test(), idx as int);
        }
        let c = input.get_char(idx);
        if c == 'X' || c == 'O' || c == '.' {
            count += 1;
        }
    }
    proof {
        assert(input@.take(total as int) =~= input@);
    }
    count
}

/// Reads a board from text: the first 81 mark characters, row by row of the
/// 9x9 picture; every other character is passed over.
pub fn parse_ultragrid(input: &str) -> (grid: UltraGrid)
    requires
        marks(input@).len() >= 81,
    ensures
        forall|r: int, c: int|
            0 <= r < 9 && 0 <= c < 9 ==> #[trigger] display_cell(grid, r, c) == mark_piece(
                marks(input@)[9 * r + c],
            ),
{
    let mut ultra_grid = Grid3x3 { grid: [[Grid3x3 { grid: [[PieceType::Empty; 3]; 3] }; 3]; 3] };
    let total = input.unicode_len();
    let mut char_idx: usize = 0;
    let ghost found = marks(input@);
    proof {
        assert(input@.take(0).filter(mark_test()) =~= Seq::<char>::empty()) by {
            reveal(Seq::filter);
        }
    }
    for row in 0u8..9
        invariant
            total == input@.len(),
            found == marks(input@),
            found.len() >= 81,
            char_idx <= total,
            marks(input@.take(char_idx as int)) == found.take(9 * row),
            forall|r: int, c: int|
                0 <= r < row && 0 <= c < 9 ==> #[trigger] display_cell(ultra_grid, r, c)
                    == mark_piece(found[9 * r + c]),
    {
        for col in 0u8..9
            invariant
                0 <= row < 9,
                total == input@.len(),
                found == marks(input@),
                found.len() >= 81,
                char_idx <= total,
                marks(input@.take(char_idx as int)) == found.take(9 * row + col),
                forall|r: int, c: int|
                    0 <= r < 9 && 0 <= c < 9 && 9 * r + c < 9 * row + col
                        ==> #[trigger] display_cell(ultra_grid, r, c) == mark_piece(
                        found[9 * r + c],
                    ),
        {
            let ghost before = 9 * row + col;
            let mut piece: Option<PieceType> = None;
            while piece.is_none()
                invariant
                    total == input@.len(),
                    found == marks(input@),
                    found.len() >= 81,
                    0 <= before < 81,
                    char_idx <= total,
                    piece is None ==> marks(input@.take(char_idx as int)) == found.take(before),
                    piece matches Some(p) ==> marks(input@.take(char_idx as int)) == found.take(
                        before + 1,
                    ) && p == mark_piece(found[before]),
                decreases total - char_idx + (if piece is None { 1int } else { 0int }),
            {
                proof {
                    lemma_marks_prefix(input@, char_idx as int);
                    if char_idx == total {
                        assert(input@.take(char_idx as int) =~= input@);
                    }
                    lemma_filter_take_step(input@, mark_test(), char_idx as int);
                }
                let c = input.get_char(char_idx);
                piece = if c == 'X' {
                    Some(PieceType::X)
                } else if c == 'O' {
                    Some(PieceType::O)
                } else if c == '.' {
                    Some(PieceType::Empty)
                } else {
                    None
                };
                char_idx += 1;
                proof {
                    lemma_marks_prefix(input@, char_idx as int);
                    assert(mark_test()(c) == is_mark(c));
                    if is_mark(c) {
                        let longer = marks(input@.take(char_idx as int));
                        assert(longer == found.take(before).push(c));
                        assert(longer.len() == before + 1);
                        assert(longer == found.take(before + 1));
                        assert(found[before] == longer[before]);
                    }
                }
            }
            let ghost earlier = ultra_grid;
            let big = GridSlot::from((row / 3, col / 3));
            let small = GridSlot::from((row % 3, col % 3));
            *ultra_grid.get_mut(big).get_mut(small) = piece.unwrap();
            proof {
                lemma_display_cell_set(earlier, ultra_grid, row as int, col as int, piece.unwrap());
            }
        }
    }
    ultra_grid
}

/// Writing the cell shown at `(row, col)` changes that cell of the picture
/// and no other.
pub proof fn lemma_display_cell_set(
    earlier: UltraGrid,
    later: UltraGrid,
    row: int,
    col: int,
    piece: PieceType,
)
    requires
        0 <= row < 9,
        0 <= col < 9,
        later@ == earlier@.update(
            (row / 3) * 3 + col / 3,
            later@[(row / 3) * 3 + col / 3],
        ),
        later@[(row / 3) * 3 + col / 3]@ == earlier@[(row / 3) * 3 + col / 3]@.update(
            (row % 3) * 3 + col % 3,
            piece,
        ),
    ensures
        display_cell(later, row, col) == piece,
        forall|r: int, c: int|
            0 <= r < 9 && 0 <= c < 9 && !(r == row && c == col) ==> #[trigger] display_cell(
                later,
                r,
                c,
            ) == display_cell(earlier, r, c),
{
    let big = (row / 3) * 3 + col / 3;
    let small = (row % 3) * 3 + col % 3;
    assert(0 <= big < 9 && 0 <= small < 9);
    assert forall|r: int, c: int|
        0 <= r < 9 && 0 <= c < 9 && !(r == row && c == col) implies #[trigger] display_cell(
        later,
        r,
        c,
    ) == display_cell(earlier, r, c) by {
        let b = (r / 3) * 3 + c / 3;
        let s = (r % 3) * 3 + c % 3;
        assert(0 <= b < 9 && 0 <= s < 9);
        if b == big {
            assert(r / 3 == row / 3 && c / 3 == col / 3);
            assert(s != small);
            assert(later@[b]@[s] == earlier@[b]@[s]);
        } else {
            assert(later@[b] == earlier@[b]);
        }
    }
}

/// The marks of a prefix of a text are a prefix of the marks of the text.
pub proof fn lemma_marks_prefix(text: Seq<char>, n: int)
    requires
        0 <= n <= text.len(),
    ensures
        marks(text.take(n)) == marks(text).take(marks(text.take(n)).len() as int),
        marks(text.take(n)).len() <= marks(text).len(),
{
    Seq::filter_distributes_over_add(text.take(n), text.skip(n), mark_test());
    assert(text.take(n) + text.skip(n) =~= text);
    assert(marks(text.take(n)) =~= marks(text).take(marks(text.take(n)).len() as int));
}

/// The marks shown in the first `n` cells of row `r`, as characters.
pub open spec fn row_marks(grid: UltraGrid, r: int, n: int) -> Seq<char> {
    Seq::new(n as nat, |c: int| mark_char(display_cell(grid, r, c)))
}

/// The marks shown in the first `n` rows, as characters, row by row.
pub open spec fn board_marks(grid: UltraGrid, n: int) -> Seq<char> {
    Seq::new((9 * n) as nat, |k: int| mark_char(display_cell(grid, k / 9, k % 9)))
}

/// The mark characters of a text in two parts are those of the first part,
/// then those of the second.
proof fn lemma_marks_add(a: Seq<char>, b: Seq<char>)
    ensures
        marks(a + b) == marks(a) + marks(b),
{
    Seq::filter_distributes_over_add(a, b, mark_test());
}

/// The mark characters of a text of one character.
proof fn lemma_marks_one(c: char)
    ensures
        marks(seq![c]) == if is_mark(c) {
            seq![c]
        } else {
            Seq::<char>::empty()
        },
{
    reveal_with_fuel(Seq::filter, 2);
    assert(seq![c].drop_last() =~= Seq::<char>::empty());
    assert(mark_test()(c) == is_mark(c));
    assert(seq![c].last() == c);
    assert(Seq::<char>::empty().push(c) =~= seq![c]);
}

/// A cell is drawn with its mark as the only mark character.
proof fn lemma_marks_of_cell(piece: PieceType)
    ensures
        marks(seq![' ', mark_char(piece), ' ']) == seq![mark_char(piece)],
{
    let c = mark_char(piece);
    lemma_marks_one(' ');
    lemma_marks_one(c);
    assert(seq![' ', c, ' '] =~= seq![' '] + seq![c] + seq![' ']);
    lemma_marks_add(seq![' '] + seq![c], seq![' ']);
    lemma_marks_add(seq![' '], seq![c]);
    assert(Seq::<char>::empty() + seq![c] + Seq::<char>::empty() =~= seq![c]);
}

/// The rule between two bands holds no mark character.
proof fn lemma_marks_of_rule()
    ensures
        marks(rule_text()) == Seq::<char>::empty(),
{
    let rule = rule_text();
    assert forall|k: int| 0 <= k < rule.len() implies !mark_test()(#[trigger] rule[k]) by {
        assert(rule[k] == '-' || rule[k] == '\n');
    }
    lemma_filter_take_skip(rule, mark_test(), 0, rule.len() as int);
    assert(rule.take(rule.len() as int) =~= rule);
    assert(rule.take(0).filter(mark_test()) =~= Seq::<char>::empty()) by {
        reveal(Seq::filter);
    }
}

/// The mark characters of a row of the picture are the marks of its cells.
proof fn lemma_marks_of_row(grid: UltraGrid, r: int, n: int)
    requires
        0 <= n <= 9,
    ensures
        marks(row_text(grid, r, n)) == row_marks(grid, r, n),
    decreases n,
{
    if n <= 0 {
        assert(row_text(grid, r, n).filter(mark_test()) =~= Seq::<char>::empty()) by {
            reveal(Seq::filter);
        }
        assert(row_marks(grid, r, n) =~= Seq::<char>::empty());
    } else {
        lemma_marks_of_row(grid, r, n - 1);
        let bar = if (n - 1) % 3 == 0 && n - 1 != 0 {
            seq!['|']
        } else {
            Seq::<char>::empty()
        };
        let piece = display_cell(grid, r, n - 1);
        let cell = seq![' ', mark_char(piece), ' '];
        lemma_marks_add(row_text(grid, r, n - 1) + bar, cell);
        lemma_marks_add(row_text(grid, r, n - 1), bar);
        lemma_marks_one('|');
        assert(marks(Seq::<char>::empty()) =~= Seq::<char>::empty()) by {
            reveal(Seq::filter);
        }
        lemma_marks_of_cell(piece);
        assert(row_marks(grid, r, n - 1) + marks(bar) + seq![mark_char(piece)] =~= row_marks(
            grid,
            r,
            n,
        ));
    }
}

/// The mark characters of the picture are the marks of the board, row by row.
proof fn lemma_marks_of_rows(grid: UltraGrid, n: int)
    requires
        0 <= n <= 9,
    ensures
        marks(rows_text(grid, n)) == board_marks(grid, n),
    decreases n,
{
    lemma_marks_one('\n');
    if n <= 0 {
        assert(board_marks(grid, n) =~= Seq::<char>::empty());
    } else {
        lemma_marks_of_rows(grid, n - 1);
        lemma_marks_of_row(grid, n - 1, 9);
        lemma_marks_of_rule();
        let rule = if (n - 1) % 3 == 2 && n - 1 != 8 {
            rule_text()
        } else {
            Seq::<char>::empty()
        };
        assert(marks(Seq::<char>::empty()) =~= Seq::<char>::empty()) by {
            reveal(Seq::filter);
        }
        let above = rows_text(grid, n - 1);
        let row = row_text(grid, n - 1, 9);
        lemma_marks_add(above + row + seq!['\n'], rule);
        lemma_marks_add(above + row, seq!['\n']);
        lemma_marks_add(above, row);
        let joined = board_marks(grid, n - 1) + row_marks(grid, n - 1, 9);
        assert(joined =~= board_marks(grid, n)) by {
            assert forall|k: int| 0 <= k < 9 * n implies joined[k] == board_marks(grid, n)[k] by {
                if k >= 9 * (n - 1) {
                    assert(k / 9 == n - 1 && k % 9 == k - 9 * (n - 1));
                }
            }
        }
        assert(marks(rows_text(grid, n)) =~= joined);
    }
}

/// A board can be read back from its picture: the picture holds exactly 81
/// mark characters, and each stands for the cell at its place.
pub proof fn lemma_board_text_round_trip(grid: UltraGrid)
    ensures
        marks(board_text(grid)).len() == 81,
        forall|r: int, c: int|
            0 <= r < 9 && 0 <= c < 9 ==> mark_piece(marks(board_text(grid))[9 * r + c])
                == #[trigger] display_cell(grid, r, c),
{
    lemma_marks_of_rows(grid, 9);
    assert forall|r: int, c: int| 0 <= r < 9 && 0 <= c < 9 implies mark_piece(
        marks(board_text(grid))[9 * r + c],
    ) == #[trigger] display_cell(grid, r, c) by {
        let k = 9 * r + c;
        assert(k / 9 == r && k % 9 == c);
        assert(board_marks(grid, 9)[k] == mark_char(display_cell(grid, r, c)));
    }
}

/// Two boards that show the same picture are the same board.
pub proof fn lemma_display_cells_determine(a: UltraGrid, b: UltraGrid)
    requires
        forall|r: int, c: int|
            0 <= r < 9 && 0 <= c < 9 ==> #[trigger] display_cell(a, r, c) == display_cell(b, r, c),
    ensures
        a == b,
{
    assert forall|s: int| 0 <= s < 9 implies a@[s] == b@[s] by {
        assert forall|k: int| 0 <= k < 9 implies a@[s]@[k] == b@[s]@[k] by {
            let r = (s / 3) * 3 + k / 3;
            let c = (s % 3) * 3 + k % 3;
            assert(display_cell(a, r, c) == display_cell(b, r, c));
            assert((r / 3) * 3 + c / 3 == s && (r % 3) * 3 + c % 3 == k);
        }
        assert(a@[s]@ =~= b@[s]@);
        a@[s].lemma_ext_equal(b@[s]);
    }
    assert(a@ =~= b@);
    a.lemma_ext_equal(b);
}

} // verus!
