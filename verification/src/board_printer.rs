//! Draws a board as a boxed grid of text, with the columns and rows
//! numbered from one.

use vstd::prelude::*;
use vstd::string::StringExecFns;
use crate::board::{cell_of, Board, Cell};
use crate::grid::Grid;
use crate::text::{decimal, decimal_string, repeated, score_string, score_text};

verus! {

/// What is drawn for a mine.
pub open spec fn mine_glyph() -> Seq<char> {
    seq!['💣', ' ']
}

/// What is drawn for a hidden cell.
pub open spec fn unrevealed_glyph() -> Seq<char> {
    seq!['.', ' ']
}

/// What is drawn for a flagged cell.
pub open spec fn flagged_glyph() -> Seq<char> {
    seq!['F', ' ']
}

/// The label of column or row `i`: its number counted from one, filled up
/// to two characters.
pub open spec fn label_text(i: nat) -> Seq<char> {
    if i + 1 > 9 {
        decimal(i + 1)
    } else {
        decimal(i + 1).push(' ')
    }
}

/// What is drawn for a cell. The solution shows what every cell holds; the
/// player's view shows a flag first, then hides what is not revealed.
pub open spec fn cell_text(cell: Cell, solution: bool) -> Seq<char> {
    if solution {
        if cell.mine {
            mine_glyph()
        } else {
            score_text(cell.score as nat)
        }
    } else if cell.flagged {
        flagged_glyph()
    } else if !cell.visible {
        unrevealed_glyph()
    } else if cell.mine {
        mine_glyph()
    } else {
        score_text(cell.score as nat)
    }
}

/// The labels of the first `n` columns, each behind a bar.
pub open spec fn labels_text(n: nat) -> Seq<char>
    decreases n,
{
    if n == 0 {
        Seq::empty()
    } else {
        labels_text((n - 1) as nat) + seq!['│'] + label_text((n - 1) as nat)
    }
}

/// The two lines above the cells: the top edge of the box and the column
/// labels.
pub open spec fn header_text(size: nat) -> Seq<char> {
    seq!['┌'] + repeated(seq!['─', '─', '┬'], size) + seq!['─', '─', '┐', '\n'] + seq![
        '│',
        ' ',
        ' ',
    ] + labels_text(size) + seq!['│', '\n']
}

/// The bottom edge of the box.
pub open spec fn footer_text(size: nat) -> Seq<char> {
    seq!['└'] + repeated(seq!['─', '─', '┴'], size) + seq!['─', '─', '┘', '\n']
}

/// The first `n` cells of row `y`, each behind a bar.
pub open spec fn row_cells_text(g: Grid, y: int, n: nat, solution: bool) -> Seq<char>
    decreases n,
{
    if n == 0 {
        Seq::empty()
    } else {
        row_cells_text(g, y, (n - 1) as nat, solution) + seq!['│'] + cell_text(
            cell_of(g, (n - 1, y)),
            solution,
        )
    }
}

/// The line of row `y`: its label and its cells between bars.
pub open spec fn row_text(g: Grid, y: int, solution: bool) -> Seq<char> {
    seq!['│'] + label_text(y as nat) + row_cells_text(g, y, g.size, solution) + seq!['│', '\n']
}

/// The lines of the first `n` rows.
pub open spec fn rows_text(g: Grid, n: nat, solution: bool) -> Seq<char>
    decreases n,
{
    if n == 0 {
        Seq::empty()
    } else {
        rows_text(g, (n - 1) as nat, solution) + row_text(g, n - 1, solution)
    }
}

/// The whole drawing: header, one line for each row, footer.
pub open spec fn grid_text(g: Grid, solution: bool) -> Seq<char> {
    header_text(g.size) + rows_text(g, g.size, solution) + footer_text(g.size)
}

/// Collects the drawing of a board as text.
pub struct BoardWriter<'a> {
    board: &'a Board,
    out: String,
}

/// Gives up the text that a value has collected.
pub trait TestHelper: Sized {
    /// The text collected so far.
    spec fn collected(&self) -> Seq<char>;

    /// Hands out the collected text.
    fn into_string(self) -> (text: String)
        ensures
            text@ == self.collected(),
    ;
}

impl<'a> View for BoardWriter<'a> {
    type V = Seq<char>;

    /// The text written so far.
    closed spec fn view(&self) -> Seq<char> {
        self.out@
    }
}

impl<'a> TestHelper for BoardWriter<'a> {
    open spec fn collected(&self) -> Seq<char> {
        self@
    }

    fn into_string(self) -> (text: String) {
        self.out
    }
}

impl<'a> BoardWriter<'a> {
    /// The board that is drawn.
    pub closed spec fn board(&self) -> Board {
        *self.board
    }

    /// A writer for `board` that has written nothing yet.
    pub fn new(board: &'a Board) -> (writer: BoardWriter<'a>)
        ensures
            writer.board() == *board,
            writer@ == Seq::<char>::empty(),
    {
        BoardWriter { board, out: String::new() }
    }

    /// Draws the board as the player sees it.
    pub fn print(&mut self)
        requires
            old(self).board().wf(),
        ensures
            final(self).board() == old(self).board(),
            final(self)@ == old(self)@ + grid_text(old(self).board()@, false),
    {
        self.print_grid(false);
    }

    /// Draws the board with every cell shown for what it holds.
    pub fn print_solution(&mut self)
        requires
            old(self).board().wf(),
        ensures
            final(self).board() == old(self).board(),
            final(self)@ == old(self)@ + grid_text(old(self).board()@, true),
    {
        self.print_grid(true);
    }

    /// Draws header, rows and footer.
    fn print_grid(&mut self, solution: bool)
        requires
            old(self).board().wf(),
        ensures
            final(self).board() == old(self).board(),
            final(self)@ == old(self)@ + grid_text(old(self).board()@, solution),
    {
        let ghost before = self@;
        let ghost g = self.board()@;
        self.print_header();
        let size = self.board.size();
        let mut y: usize = 0;
        while y < size
            invariant
                y <= size,
                size == g.size,
                self.board() == old(self).board(),
                g == self.board()@,
                self.board().wf(),
                self@ == before + header_text(g.size) + rows_text(g, y as nat, solution),
            decreases size - y,
        {
            self.print_row(y, solution);
            y += 1;
        }
        self.print_footer();
    }

    /// Appends `string` to what has been written.
    pub fn write(&mut self, string: String)
        ensures
            final(self).board() == old(self).board(),
            final(self)@ == old(self)@ + string@,
    {
        self.out.append(string.as_str());
    }

    /// Appends a piece of text.
    fn put(&mut self, piece: &str)
        ensures
            final(self).board() == old(self).board(),
            final(self)@ == old(self)@ + piece@,
    {
        self.out.append(piece);
    }

    /// Draws the top edge of the box and the line of column labels.
    pub fn print_header(&mut self)
        ensures
            final(self).board() == old(self).board(),
            final(self)@ == old(self)@ + header_text(old(self).board()@.size),
    {
        let ghost before = self@;
        let size = self.board.size();
        proof {
            reveal_strlit("┌");
            reveal_strlit("──┐\n");
            reveal_strlit("│  ");
            reveal_strlit("│\n");
        }
        self.put("┌");
        let mut i: usize = 0;
        while i < size
            invariant
                i <= size,
                self.board() == old(self).board(),
                self@ == before + seq!['┌'] + repeated(seq!['─', '─', '┬'], i as nat),
            decreases size - i,
        {
            proof {
                reveal_strlit("──┬");
            }
            self.put("──┬");
            i += 1;
        }
        self.put("──┐\n");
        self.put("│  ");
        let ghost top = before + seq!['┌'] + repeated(seq!['─', '─', '┬'], size as nat) + seq![
            '─',
            '─',
            '┐',
            '\n',
        ] + seq!['│', ' ', ' '];
        let mut i: usize = 0;
        while i < size
            invariant
                i <= size,
                self.board() == old(self).board(),
                self@ == top + labels_text(i as nat),
            decreases size - i,
        {
            proof {
                reveal_strlit("│");
            }
            self.put("│");
            self.print_label(i);
            i += 1;
        }
        self.put("│\n");
    }

    /// Draws the label of column or row `i`.
    fn print_label(&mut self, i: usize)
        requires
            i < usize::MAX,
        ensures
            final(self).board() == old(self).board(),
            final(self)@ == old(self)@ + label_text(i as nat),
    {
        let label = i + 1;
        let mut text = decimal_string(label);
        if label > 9 {
            self.write(text);
        } else {
            proof {
                reveal_strlit(" ");
            }
            text.append(" ");
            self.write(text);
        }
    }

    /// Draws the bottom edge of the box.
    pub fn print_footer(&mut self)
        ensures
            final(self).board() == old(self).board(),
            final(self)@ == old(self)@ + footer_text(old(self).board()@.size),
    {
        let ghost before = self@;
        let size = self.board.size();
        proof {
            reveal_strlit("└");
            reveal_strlit("──┘\n");
        }
        self.put("└");
        let mut i: usize = 0;
        while i < size
            invariant
                i <= size,
                self.board() == old(self).board(),
                self@ == before + seq!['└'] + repeated(seq!['─', '─', '┴'], i as nat),
            decreases size - i,
        {
            proof {
                reveal_strlit("──┴");
            }
            self.put("──┴");
            i += 1;
        }
        self.put("──┘\n");
    }

    /// Draws row `y`: its label and its cells, as the player sees them or
    /// as the solution.
    pub fn print_row(&mut self, y: usize, solution: bool)
        requires
            old(self).board().wf(),
            y < old(self).board()@.size,
        ensures
            final(self).board() == old(self).board(),
            final(self)@ == old(self)@ + row_text(old(self).board()@, y as int, solution),
    {
        let ghost before = self@;
        let ghost g = self.board()@;
        let size = self.board.size();
        proof {
            reveal_strlit("│");
            reveal_strlit("│\n");
        }
        self.put("│");
        self.print_label(y);
        let ghost front = before + seq!['│'] + label_text(y as nat);
        let mut x: usize = 0;
        while x < size
            invariant
                x <= size,
                y < size,
                size == g.size,
                self.board() == old(self).board(),
                g == self.board()@,
                self.board().wf(),
                self@ == front + row_cells_text(g, y as int, x as nat, solution),
            decreases size - x,
        {
            proof {
                reveal_strlit("│");
            }
            self.put("│");
            let cell = self.board.cell_at(x, y).unwrap();
            self.print_cell(cell, solution);
            x += 1;
        }
        self.put("│\n");
    }

    /// Draws one cell.
    pub fn print_cell(&mut self, cell: Cell, solution: bool)
        ensures
            final(self).board() == old(self).board(),
            final(self)@ == old(self)@ + cell_text(cell, solution),
    {
        proof {
            reveal_strlit("💣 ");
            reveal_strlit(". ");
            reveal_strlit("F ");
        }
        if !solution && cell.flagged {
            self.put("F ");
        } else if !solution && !cell.visible {
            self.put(". ");
        } else if cell.mine {
            self.put("💣 ");
        } else {
            self.write(score_string(cell.score));
        }
    }
}

} // verus!
