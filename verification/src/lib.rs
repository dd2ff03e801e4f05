//! The rules of a Minesweeper-style puzzle: a square board of cells, some
//! of which hold mines, that the player uncovers and flags until a mine is
//! revealed or every other cell is.
//!
//! [`grid`] holds the mathematical model and the laws proved of it,
//! [`board`] the board itself, [`board_printer`] and [`cell`] the drawing
//! of boards and cells as text, [`text`] the numerals they share, and
//! [`ui`] the dialogue with the player.

pub mod grid;
pub mod board;
pub mod text;
pub mod board_printer;
pub mod cell;
pub mod ui;
