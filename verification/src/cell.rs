//! A cell reduced to what is drawn of it: whether it is revealed, and what
//! it holds.

use vstd::prelude::*;
use vstd::string::StringExecFns;
use crate::text::{score_string, score_text};

verus! {

/// What a cell holds.
#[derive(Copy, Clone, Debug)]
pub enum Contents {
    /// A mine.
    Mine,
    /// No mine, and this many mines around.
    Empty(usize),
}

/// A cell as it is drawn.
#[derive(Copy, Clone, Debug)]
pub struct Cell {
    pub visible: bool,
    pub contents: Contents,
}

/// Draws cells, as the player sees them or as the solution.
pub struct Writer {
    show_solution: bool,
}

/// What is drawn for the contents of a revealed cell.
pub open spec fn contents_text(contents: Contents) -> Seq<char> {
    match contents {
        Contents::Mine => seq!['💣'],
        Contents::Empty(score) => score_text(score as nat),
    }
}

/// What is drawn for a cell: its contents if it is revealed, a dot
/// otherwise.
pub open spec fn cell_text(cell: Cell) -> Seq<char> {
    if cell.visible {
        contents_text(cell.contents)
    } else {
        seq!['.', ' ']
    }
}

impl Contents {
    /// The contents as text.
    pub fn to_text(&self) -> (s: String)
        ensures
            s@ == contents_text(*self),
    {
        match *self {
            Contents::Mine => {
                proof {
                    reveal_strlit("💣");
                }
                String::from_str("💣")
            },
            Contents::Empty(score) => score_string(score),
        }
    }
}

impl Cell {
    /// The cell as text.
    pub fn to_text(&self) -> (s: String)
        ensures
            s@ == cell_text(*self),
    {
        if self.visible {
            self.contents.to_text()
        } else {
            proof {
                reveal_strlit(". ");
            }
            String::from_str(". ")
        }
    }
}

impl Writer {
    /// Whether this writer draws the solution.
    pub closed spec fn shows_solution(&self) -> bool {
        self.show_solution
    }

    /// A writer that draws the solution, or the player's view.
    pub fn new(show_solution: bool) -> (writer: Writer)
        ensures
            writer.shows_solution() == show_solution,
    {
        Writer { show_solution }
    }

    /// Draws `cell`; a writer of the solution draws it as if revealed.
    pub fn print_cell(&self, cell: Cell) -> (s: String)
        ensures
            s@ == cell_text(
                Cell { visible: cell.visible || self.shows_solution(), contents: cell.contents },
            ),
    {
        if self.show_solution {
            let mut visible_cell = cell;
            visible_cell.visible = true;
            visible_cell.to_text()
        } else {
            cell.to_text()
        }
    }
}

} // verus!
