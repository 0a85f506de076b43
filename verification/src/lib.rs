//! A rules engine and move search for shogi on a board of five by five
//! squares.
//!
//! - `board`: players, pieces, the board, hands and the game state.
//! - `rules`: how pieces move, the moves a side may make, check and
//!   checkmate, and how a move changes the state.
//! - `movement`, `proofs`, `laws`: what holds of the moves and of the states
//!   they lead to.
//! - `search`, `minimax`: the static evaluation, the alpha-beta search, and
//!   its agreement with minimax.
//! - `mcts`: Monte-Carlo tree search, driven step by step by its caller.
//! - `game`: whether a game is over, and who has won.
//! - `notation`, `render`: the written form of moves and positions.

pub mod board;
pub mod game;
pub mod laws;
pub mod mcts;
pub mod minimax;
pub mod movement;
pub mod notation;
pub mod proofs;
pub mod render;
pub mod rules;
pub mod search;
