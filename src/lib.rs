//! Cell-state and constraint-propagation engine of a 9×9 number-placement puzzle: per-cell
//! mode transitions, peer-conflict tracking, candidate elimination, and the solved status
//! that the `sudoku` crate computes from a snapshot of the board.

mod bits;
pub mod board;
pub mod cell_state;
pub mod events;
pub mod laws;
pub mod position;
pub mod solver;
