//! A 9x9 Sudoku solver: a grid of digits, the row, column and box
//! constraints, and a backtracking search that fills the empty cells.

pub mod constraints;
pub mod grid;
pub mod solver;
pub mod text;
