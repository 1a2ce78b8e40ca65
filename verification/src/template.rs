//! Building blocks shared by every 3x3 board.

pub mod tic_tac_toe;
