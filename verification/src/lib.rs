//! Rules engine and positional evaluator for Ultimate Tic-Tac-Toe.

pub mod game;
pub mod template;
