//! Which cells and grids still accept a move.

use vstd::prelude::*;
use crate::game::game_uttt::{BoardScore, GridScore};
use crate::template::tic_tac_toe::{Grid3x3, GridSlot, PieceType};

verus! {

/// Anything that may still accept a move: a cell, or a grid of such things.
pub trait Playable {
    /// True if a move can still be made here.
    spec fn playable_spec(&self) -> bool;

    fn is_playable(&self) -> (playable: bool)
        ensures
            playable == self.playable_spec(),
    ;
}

impl Playable for PieceType {
    /// A cell accepts a move while it is empty.
    open spec fn playable_spec(&self) -> bool {
        *self == PieceType::Empty
    }

    fn is_playable(&self) -> (playable: bool) {
        *self == PieceType::Empty
    }
}

impl<T: Playable + GridScore> Playable for Grid3x3<T> {
    /// A won grid is closed, whatever is left in it; any other grid accepts
    /// a move while one of its cells does.
    open spec fn playable_spec(&self) -> bool {
        &&& !self.score_spec().is_decisive()
        &&& exists|k: int| 0 <= k < 9 && (#[trigger] self@[k]).playable_spec()
    }

    fn is_playable(&self) -> (playable: bool) {
        let winner = self.score();
        match winner {
            BoardScore::WinnerX => return false,
            BoardScore::WinnerO => return false,
            _ => {},
        }
        let slots = GridSlot::all_slots();
        for s in 0..9
            invariant
                !self.score_spec().is_decisive(),
                forall|k: int| 0 <= k < 9 ==> (#[trigger] slots[k]).0 == k,
                forall|k: int| 0 <= k < s ==> !(#[trigger] self@[k]).playable_spec(),
        {
            if self.get(slots[s]).is_playable() {
                return true;
            }
        }
        false
    }
}

} // verus!
