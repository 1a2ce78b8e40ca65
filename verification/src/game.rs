//! Scoring, playability, game state and the rules of play.

pub mod game_uttt;
pub mod laws;
pub mod node_uttt;
pub mod playable;
pub mod seq_lemmas;
pub mod tools;
