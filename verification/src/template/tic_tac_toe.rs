//! Marks, slot indices and the generic 3x3 grid.

use std::cmp::Ordering;
use vstd::prelude::*;
use vstd::std_specs::cmp::OrdSpec;

verus! {

/// The mark held by one cell of a sub-board.
///
/// The derived order is `O < Empty < X`.
#[derive(Debug, PartialEq, Eq, PartialOrd, Ord, Clone, Copy, Hash, Structural)]
pub enum PieceType {
    O,
    Empty,
    X,
}

impl Default for PieceType {
    /// The empty cell.
    fn default() -> (piece: Self)
        ensures
            piece == PieceType::Empty,
    {
        PieceType::Empty
    }
}

/// Row-major position in a 3x3 grid (`0..9`, index = row * 3 + column), or the
/// value 9 for "no forced sub-board".
#[derive(Debug, PartialEq, Eq, PartialOrd, Ord, Clone, Copy, Hash, Structural)]
pub struct GridSlot(pub u8);

/// The eight winning lines by cell index: rows, columns, main diagonal,
/// anti-diagonal.
pub const LINE_CELLS: [[u8; 3]; 8] = [
    [0, 1, 2],
    [3, 4, 5],
    [6, 7, 8],
    [0, 3, 6],
    [1, 4, 7],
    [2, 5, 8],
    [0, 4, 8],
    [2, 4, 6],
];

impl GridSlot {
    /// True for a slot that addresses a cell of a grid.
    pub open spec fn is_cell(self) -> bool {
        self.0 < 9
    }

    /// True for the sentinel that leaves the choice of sub-board free.
    pub open spec fn is_any(self) -> bool {
        self.0 == 9
    }

    /// The sentinel slot: no sub-board is forced.
    pub fn any_slot() -> (slot: GridSlot)
        ensures
            slot == GridSlot(9),
    {
        GridSlot(9)
    }

    /// The nine cell slots in canonical (row-major) order.
    pub fn all_slots() -> (slots: [GridSlot; 9])
        ensures
            forall|k: int| 0 <= k < 9 ==> (#[trigger] slots[k]).0 == k,
    {
        [
            GridSlot(0), GridSlot(1), GridSlot(2),
            GridSlot(3), GridSlot(4), GridSlot(5),
            GridSlot(6), GridSlot(7), GridSlot(8),
        ]
    }

    /// The eight winning lines in canonical order, as slots.
    pub fn all_lines() -> (lines: [[GridSlot; 3]; 8])
        ensures
            forall|l: int, k: int|
                0 <= l < 8 && 0 <= k < 3 ==> (#[trigger] lines[l][k]).0 == LINE_CELLS[l][k],
    {
        [
            [GridSlot(0), GridSlot(1), GridSlot(2)],
            [GridSlot(3), GridSlot(4), GridSlot(5)],
            [GridSlot(6), GridSlot(7), GridSlot(8)],
            [GridSlot(0), GridSlot(3), GridSlot(6)],
            [GridSlot(1), GridSlot(4), GridSlot(7)],
            [GridSlot(2), GridSlot(5), GridSlot(8)],
            [GridSlot(0), GridSlot(4), GridSlot(8)],
            [GridSlot(2), GridSlot(4), GridSlot(6)],
        ]
    }

    /// The slot at `(row, column)`.
    pub fn from(value: (u8, u8)) -> (slot: GridSlot)
        requires
            value.0 * 3 + value.1 <= u8::MAX,
        ensures
            slot.0 == value.0 * 3 + value.1,
    {
        GridSlot(value.0 * 3 + value.1)
    }

    /// The `(row, column)` of a slot.
    pub fn into(self) -> (pair: (u8, u8))
        ensures
            pair.0 == self.0 / 3,
            pair.1 == self.0 % 3,
    {
        (self.0 / 3, self.0 % 3)
    }
}

/// A 3x3 matrix of `T`, addressed by `GridSlot`.
#[derive(Debug, PartialEq, Eq, PartialOrd, Ord, Clone, Copy, Hash)]
pub struct Grid3x3<T> {
    pub grid: [[T; 3]; 3],
}

impl<T> View for Grid3x3<T> {
    type V = Seq<T>;

    /// The nine cells in row-major order.
    open spec fn view(&self) -> Seq<T> {
        Seq::new(9, |k: int| self.grid[k / 3][k % 3])
    }
}

impl<T> Grid3x3<T> {
    /// The grid whose cell `slot` holds `value` and whose other cells are those of `self`.
    pub open spec fn with_cell(self, slot: int, value: T) -> Self {
        let cells = self@.update(slot, value);
        Grid3x3 {
            grid: [
                [cells[0], cells[1], cells[2]],
                [cells[3], cells[4], cells[5]],
                [cells[6], cells[7], cells[8]],
            ],
        }
    }

    /// Two grids with the same nine cells are the same grid.
    pub proof fn lemma_ext_equal(self, other: Self)
        requires
            self@ == other@,
        ensures
            self == other,
    {
        assert forall|i: int| 0 <= i < 3 implies self.grid[i] == other.grid[i] by {
            assert forall|j: int| 0 <= j < 3 implies self.grid[i][j] == other.grid[i][j] by {
                let k = i * 3 + j;
                assert(self@[k] == self.grid[k / 3][k % 3]);
                assert(other@[k] == other.grid[k / 3][k % 3]);
            }
            assert(self.grid[i] =~= other.grid[i]);
        }
        assert(self.grid =~= other.grid);
    }

    /// What `with_cell` holds, cell by cell.
    pub proof fn lemma_with_cell(self, slot: int, value: T)
        requires
            0 <= slot < 9,
        ensures
            self.with_cell(slot, value)@ == self@.update(slot, value),
    {
        assert(self.with_cell(slot, value)@ =~= self@.update(slot, value));
    }

    /// The cell at `slot`.
    pub fn get(&self, slot: GridSlot) -> (cell: &T)
        requires
            slot.is_cell(),
        ensures
            *cell == self@[slot.0 as int],
    {
        let (i, j): (u8, u8) = slot.into();
        &self.grid[i as usize][j as usize]
    }

    /// The cell at `slot`, to be written; no other cell changes.
    pub fn get_mut(&mut self, slot: GridSlot) -> (cell: &mut T)
        requires
            slot.is_cell(),
        ensures
            *cell == old(self)@[slot.0 as int],
            final(self)@ == old(self)@.update(slot.0 as int, *final(cell)),
    {
        let (i, j): (u8, u8) = slot.into();
        &mut self.grid[i as usize][j as usize]
    }
}

/// The order of two rows of cells from cell `from` on: that of the first
/// pair of cells that differ, or equal if none does.
pub open spec fn cmp_cells<T: Ord>(a: Seq<T>, b: Seq<T>, from: int) -> Ordering
    decreases a.len() - from,
{
    if from >= a.len() {
        Ordering::Equal
    } else if a[from].cmp_spec(&b[from]) != Ordering::Equal {
        a[from].cmp_spec(&b[from])
    } else {
        cmp_cells(a, b, from + 1)
    }
}

impl<T: Ord> Grid3x3<T> {
    /// Compares two grids cell by cell in row-major order, as the derived
    /// order does; the first pair of cells that differ decides.
    pub fn cmp(&self, other: &Self) -> (order: Ordering)
        ensures
            T::obeys_cmp_spec() ==> order == cmp_cells(self@, other@, 0),
    {
        for i in 0usize..3
            invariant
                T::obeys_cmp_spec() ==> cmp_cells(self@, other@, 0) == cmp_cells(
                    self@,
                    other@,
                    3 * i,
                ),
        {
            for j in 0usize..3
                invariant
                    0 <= i < 3,
                    T::obeys_cmp_spec() ==> cmp_cells(self@, other@, 0) == cmp_cells(
                        self@,
                        other@,
                        3 * i + j,
                    ),
            {
                let val = self.grid[i][j].cmp(&other.grid[i][j]);
                proof {
                    let k = 3 * i + j;
                    assert(self@[k] == self.grid[k / 3][k % 3]);
                    assert(other@[k] == other.grid[k / 3][k % 3]);
                }
                match val {
                    Ordering::Equal => {},
                    _ => {
                        return val;
                    },
                }
            }
        }
        Ordering::Equal
    }
}

impl<T: Default> Default for Grid3x3<T> {
    /// The grid whose nine cells are each the default of `T`.
    fn default() -> (grid: Self)
        ensures
            forall|k: int| 0 <= k < 9 ==> call_ensures(T::default, (), #[trigger] grid@[k]),
    {
        Grid3x3 {
            grid: [
                [T::default(), T::default(), T::default()],
                [T::default(), T::default(), T::default()],
                [T::default(), T::default(), T::default()],
            ],
        }
    }
}

} // verus!
