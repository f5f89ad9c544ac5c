//! A verified tic-tac-toe core: a 3x3 board state machine and an exhaustive
//! minimax search engine with a memoization table.
//!
//! The board tracks the nine cells and the current phase of the game (whose
//! turn it is, who has won, or a tie); the phase is always the value that a
//! pure recomputation from the cell contents would yield.  The search engine
//! returns, for any non-terminal board, an empty cell whose selection is
//! optimal under game-theoretic minimax; among equally valuable moves it
//! always picks the lowest cell index.

pub mod board;
pub mod key;
pub mod search;
pub mod value;
