//! The decision core of a chess engine: given a position and a ply budget, it picks a move by
//! alpha-beta search over the game tree, with a transposition table, phased move ordering and
//! an incremental evaluator. Move generation, move application, game status and hashing come
//! from the `chess` crate.
pub mod cache;
pub mod eval;
pub mod order;
pub mod rules;
pub mod search;
pub mod tables;
pub mod types;
