//! A two-player Othello engine: an 8x8 board of discs, the moves open to the
//! player whose turn it is, the capture of bracketed discs, and a running
//! score, each with a contract stated over a mathematical model of the game.
//!
//! A cell is named by two coordinates from 0 to 7, and the board holds the
//! cell `(a, b)` in row `a`, column `b`. The eight directions are numbered
//! 0 to 7 in the order in which the scan for legal moves tries them.
//!
//! - `board`: players, cells, the grid that models a board, disc counts
//! - `rules`: what a placed disc brackets and captures, and the grid after
//!   a move
//! - `capture`: walking along a ray and turning the captured discs
//! - `moves`: the legal moves, in the order of the scan that finds them
//! - `opening`: the legal moves of the opening position
//! - `record`: score, change of score and the record of a move
//! - `key`: the keys that the engine acts on
//! - `state`: the model of a game and what holds of every state it reaches
//! - `engine`: the game itself and its operations

pub mod board;
pub mod capture;
pub mod engine;
pub mod key;
pub mod moves;
pub mod opening;
pub mod record;
pub mod rules;
pub mod state;
