//! The board: a square grid of cells, some of which hold mines, that the
//! player uncovers and flags cell by cell.

use vstd::prelude::*;
use crate::grid::{
    adjacent, block, in_grid, is_neighbor, lemma_closed_covers_sweep, lemma_filter_start,
    lemma_filter_step, lemma_hidden_finite, lemma_mine_count, lemma_neighbors_are_adjacent,
    lemma_sweep_extend, lemma_swept_by_mines, lemma_uncover_revealed,
    lemma_uncover_single, lemma_uncover_spares_mines, mine_count, neighbors_of, Grid,
};

verus! {

/// The coordinates of a cell.
#[derive(PartialEq, Eq, Structural, Debug, Clone, Copy)]
pub struct Point {
    pub x: usize,
    pub y: usize,
}

impl View for Point {
    type V = (int, int);

    open spec fn view(&self) -> (int, int) {
        (self.x as int, self.y as int)
    }
}

/// The state of one cell, as handed out to callers.
#[derive(Copy, Clone, Debug)]
pub struct Cell {
    /// Whether the cell holds a mine.
    pub mine: bool,
    /// Whether the player has put a flag on the cell.
    pub flagged: bool,
    /// Whether the cell has been revealed.
    pub visible: bool,
    /// The number of mines around the cell; zero on a mine.
    pub score: usize,
}

/// Why the board turned a request down.
#[derive(PartialEq, Eq, Structural, Debug, Clone, Copy)]
pub enum BoardError {
    /// A coordinate does not name a cell of the board.
    OutOfBounds,
    /// A mine was to be laid beyond the board's edge.
    InvalidMine,
}

/// A square grid of cells.
pub struct Board {
    cells: Vec<Vec<Cell>>,
}

/// The positions that a list of points names, in order.
pub open spec fn positions(points: Seq<Point>) -> Seq<(int, int)> {
    points.map_values(|p: Point| p@)
}

/// The positions that a list of points names, as a set: naming a position
/// twice adds nothing.
pub open spec fn mine_set(points: Seq<Point>) -> Set<(int, int)> {
    Set::new(|c: (int, int)| exists|i: int| 0 <= i < points.len() && (#[trigger] points[i])@ == c)
}

/// Whether every point of the list lies on a `size` x `size` grid.
pub open spec fn all_on_grid(points: Seq<Point>, size: int) -> bool {
    forall|i: int|
        0 <= i < points.len() ==> in_grid(size, (#[trigger] points[i]).x as int, points[i].y as int)
}

/// The cell that a grid shows at `c`.
pub open spec fn cell_of(g: Grid, c: (int, int)) -> Cell {
    Cell {
        mine: g.mines.contains(c),
        flagged: g.flagged.contains(c),
        visible: g.visible.contains(c),
        score: g.score(c) as usize,
    }
}

/// The coordinate `v + d - 1`, if it lies in `0..size`.
fn shifted(v: usize, d: usize, size: usize) -> (moved: Option<usize>)
    requires
        d < 3,
    ensures
        moved == (if 0 <= v + d - 1 < size {
            Some((v + d - 1) as usize)
        } else {
            None
        }),
{
    if d == 0 {
        if v >= 1 && v - 1 < size {
            Some(v - 1)
        } else {
            None
        }
    } else if d == 1 {
        if v < size {
            Some(v)
        } else {
            None
        }
    } else if v < size && v + 1 < size {
        Some(v + 1)
    } else {
        None
    }
}

/// Whether the list names the point `p`.
fn contains(points: &Vec<Point>, p: Point) -> (found: bool)
    ensures
        found == mine_set(points@).contains(p@),
{
    let mut i: usize = 0;
    while i < points.len()
        invariant
            i <= points.len(),
            forall|j: int| 0 <= j < i ==> (#[trigger] points[j])@ != p@,
        decreases points.len() - i,
    {
        if points[i].x == p.x && points[i].y == p.y {
            return true;
        }
        i += 1;
    }
    false
}

impl View for Board {
    type V = Grid;

    /// The grid that the board stands for.
    closed spec fn view(&self) -> Grid {
        Grid {
            size: self.cells@.len(),
            mines: Set::new(|c: (int, int)| self.on(c) && self.at(c).mine),
            visible: Set::new(|c: (int, int)| self.on(c) && self.at(c).visible),
            flagged: Set::new(|c: (int, int)| self.on(c) && self.at(c).flagged),
        }
    }
}

impl Board {
    /// Whether `c` names a stored cell.
    spec fn on(&self, c: (int, int)) -> bool {
        in_grid(self.cells@.len() as int, c.0, c.1)
    }

    /// The stored cell at `c`.
    spec fn at(&self, c: (int, int)) -> Cell {
        self.cells@[c.0]@[c.1]
    }

    /// The stored cells form a square, and each holds the score that the
    /// mines around it give.
    pub closed spec fn inv(&self) -> bool {
        &&& forall|x: int|
            0 <= x < self.cells@.len() ==> (#[trigger] self.cells@[x])@.len() == self.cells@.len()
        &&& forall|c: (int, int)| self.on(c) ==> (#[trigger] self.at(c)).score == self@.score(c)
    }

    /// The board is sound inside and stands for a well-formed grid.
    pub open spec fn wf(&self) -> bool {
        self.inv() && self@.wf()
    }

    /// Builds a board of `size` x `size` cells with mines on the given
    /// points and nothing revealed or flagged. A point named twice counts
    /// once. Fails if a point lies beyond the grid.
    pub fn new(size: usize, mines: Vec<Point>) -> (made: Result<Board, BoardError>)
        ensures
            match made {
                Ok(board) => {
                    &&& all_on_grid(mines@, size as int)
                    &&& board.wf()
                    &&& board@ == Grid::fresh(size as nat, mine_set(mines@))
                },
                Err(e) => e == BoardError::InvalidMine && !all_on_grid(mines@, size as int),
            },
    {
        let mut i: usize = 0;
        while i < mines.len()
            invariant
                i <= mines.len(),
                forall|j: int|
                    0 <= j < i ==> in_grid(
                        size as int,
                        (#[trigger] mines[j]).x as int,
                        mines[j].y as int,
                    ),
            decreases mines.len() - i,
        {
            if mines[i].x >= size || mines[i].y >= size {
                return Err(BoardError::InvalidMine);
            }
            i += 1;
        }
        let ghost laid = mine_set(mines@);
        let ghost plan = Grid::fresh(size as nat, laid);
        let mut cells: Vec<Vec<Cell>> = Vec::new();
        let mut x: usize = 0;
        while x < size
            invariant
                x <= size,
                cells.len() == x,
                laid == mine_set(mines@),
                plan == Grid::fresh(size as nat, laid),
                forall|a: int| 0 <= a < x ==> (#[trigger] cells[a]).len() == size,
                forall|a: int, b: int|
                    0 <= a < x && 0 <= b < size ==> #[trigger] cells[a][b] == cell_of(plan, (a, b)),
            decreases size - x,
        {
            let mut row: Vec<Cell> = Vec::new();
            let mut y: usize = 0;
            while y < size
                invariant
                    y <= size,
                    x < size,
                    row.len() == y,
                    laid == mine_set(mines@),
                    plan == Grid::fresh(size as nat, laid),
                    forall|b: int| 0 <= b < y ==> #[trigger] row[b] == cell_of(plan, (x as int, b)),
                decreases size - y,
            {
                let mut cell = Cell { mine: false, flagged: false, visible: false, score: 0 };
                if contains(&mines, Point { x, y }) {
                    cell.mine = true;
                } else {
                    cell.score = Board::score(&mines, size, x, y);
                }
                row.push(cell);
                y += 1;
            }
            cells.push(row);
            x += 1;
        }
        let board = Board { cells };
        proof {
            assert forall|c: (int, int)| board.on(c) implies #[trigger] board.at(c) == cell_of(
                plan,
                c,
            ) by {
                assert(board.cells[c.0][c.1] == cell_of(plan, (c.0, c.1)));
            }
            assert forall|c: (int, int)| laid.contains(c) implies board.on(c) by {
                let i = choose|i: int| 0 <= i < mines.len() && (#[trigger] mines[i])@ == c;
                assert(in_grid(size as int, mines[i].x as int, mines[i].y as int));
            }
            assert(board@.mines =~= plan.mines);
            assert forall|c: (int, int)| board.on(c) implies (#[trigger] board.at(c)).score
                == board@.score(c) by {
                lemma_mine_count(laid, size as int, c.0, c.1);
            }
        }
        Ok(board)
    }

    /// The number of cells along each side.
    pub fn size(&self) -> (n: usize)
        ensures
            n == self@.size,
    {
        self.cells.len()
    }

    /// A copy of the cell at `(x, y)`.
    pub fn cell_at(&self, x: usize, y: usize) -> (got: Result<Cell, BoardError>)
        requires
            self.wf(),
        ensures
            match got {
                Ok(cell) => {
                    &&& self@.has((x as int, y as int))
                    &&& cell == cell_of(self@, (x as int, y as int))
                    &&& cell.score <= 8
                },
                Err(e) => e == BoardError::OutOfBounds && !self@.has((x as int, y as int)),
            },
    {
        let size = self.cells.len();
        if x >= size || y >= size {
            return Err(BoardError::OutOfBounds);
        }
        proof {
            lemma_mine_count(self@.mines, size as int, x as int, y as int);
        }
        Ok(self.cells[x][y])
    }

    /// Puts a flag on the cell at `(x, y)`, or takes it off again. Nothing
    /// else changes, and the cell is not revealed.
    pub fn flag(&mut self, x: usize, y: usize) -> (done: Result<(), BoardError>)
        requires
            old(self).wf(),
        ensures
            final(self).wf(),
            match done {
                Ok(_) => old(self)@.has((x as int, y as int)) && final(self)@ == old(
                    self,
                )@.toggle_flag((x as int, y as int)),
                Err(e) => e == BoardError::OutOfBounds && !old(self)@.has((x as int, y as int))
                    && final(self)@ == old(self)@,
            },
    {
        let size = self.cells.len();
        if x >= size || y >= size {
            return Err(BoardError::OutOfBounds);
        }
        let ghost c = (x as int, y as int);
        let ghost before = *self;
        let was = self.cells[x][y].flagged;
        self.cells[x][y].flagged = !was;
        proof {
            assert forall|d: (int, int)| self.on(d) implies (#[trigger] self.at(d)).mine
                == before.at(d).mine && self.at(d).visible == before.at(d).visible && self.at(
                d,
            ).score == before.at(d).score && self.at(d).flagged == (if d == c {
                !before.at(d).flagged
            } else {
                before.at(d).flagged
            }) by {}
            assert(self@.mines =~= before@.mines);
            assert forall|d: (int, int)| self.on(d) implies (#[trigger] self.at(d)).score
                == self@.score(d) by {
                assert(before.at(d).score == before@.score(d));
            }
        }
        Ok(())
    }

    /// Uncovers the cell at `(x, y)` and tells whether it holds a mine. From
    /// a blank cell the reveal spreads over the connected blank cells and
    /// the numbered cells that border them; from a mine or a numbered cell
    /// it goes no further. Flags neither stop the reveal nor change.
    pub fn uncover(&mut self, x: usize, y: usize) -> (hit: Result<bool, BoardError>)
        requires
            old(self).wf(),
        ensures
            final(self).wf(),
            match hit {
                Ok(mine) => {
                    &&& old(self)@.has((x as int, y as int))
                    &&& mine == old(self)@.mines.contains((x as int, y as int))
                    &&& final(self)@ == old(self)@.uncover((x as int, y as int))
                },
                Err(e) => e == BoardError::OutOfBounds && !old(self)@.has((x as int, y as int))
                    && final(self)@ == old(self)@,
            },
            !old(self)@.blank((x as int, y as int)) && hit.is_ok() ==> final(self)@.visible == old(
                self,
            )@.visible.insert((x as int, y as int)),
            old(self)@.visible.contains((x as int, y as int)) && !old(self)@.mines.contains(
                (x as int, y as int),
            ) ==> final(self)@ == old(self)@,
            forall|d: (int, int)|
                final(self)@.mines.contains(d) && #[trigger] final(self)@.visible.contains(d)
                    ==> old(self)@.visible.contains(d) || d == (x as int, y as int),
    {
        let size = self.cells.len();
        if x >= size || y >= size {
            return Err(BoardError::OutOfBounds);
        }
        let ghost c = (x as int, y as int);
        let ghost start = self@;
        proof {
            lemma_uncover_single(start, c);
            if start.visible.contains(c) && !start.mines.contains(c) {
                lemma_uncover_revealed(start, c);
            }
            assert forall|d: (int, int)|
                start.mines.contains(d) && #[trigger] start.uncover(c).visible.contains(
                    d,
                ) implies start.visible.contains(d) || d == c by {
                if start.sweeps(c, d) {
                    lemma_uncover_spares_mines(start, c, d);
                }
            }
        }
        self.mark_visible(x, y);
        if self.cells[x][y].score == 0 && !self.cells[x][y].mine {
            let ghost marked = self@;
            self.uncover_neighbors(x, y);
            proof {
                lemma_swept_by_mines(marked, start, c);
            }
        }
        Ok(self.cells[x][y].mine)
    }

    /// Spreads a reveal from the revealed blank cell at `(x, y)`: works
    /// through a list of revealed blank cells whose neighbours are still to
    /// be shown, and adds to it each blank cell that it reveals.
    fn uncover_neighbors(&mut self, x: usize, y: usize)
        requires
            old(self).inv(),
            old(self)@.blank((x as int, y as int)),
            old(self)@.visible.contains((x as int, y as int)),
            old(self)@.closed_but(set![(x as int, y as int)]),
        ensures
            final(self).inv(),
            final(self)@.closed(),
            final(self)@ == old(self)@.uncover((x as int, y as int)),
    {
        let ghost c = (x as int, y as int);
        let ghost start = self@;
        let size = self.cells.len();
        let mut work: Vec<Point> = Vec::new();
        work.push(Point { x, y });
        proof {
            lemma_uncover_single(start, c);
            lemma_hidden_finite(start);
            assert(positions(work@).to_set() =~= set![c]) by {
                assert(positions(work@) =~= Seq::<(int, int)>::empty().push(c));
                Seq::<(int, int)>::empty().lemma_push_to_set_commute(c);
            }
        }
        while work.len() > 0
            invariant
                self.inv(),
                size == self@.size,
                self@.size == start.size,
                self@.mines == start.mines,
                self@.flagged == start.flagged,
                start.visible.subset_of(self@.visible),
                forall|d: (int, int)| #[trigger]
                    self@.visible.contains(d) ==> start.visible.contains(d) || start.sweeps(c, d),
                forall|i: int|
                    0 <= i < work.len() ==> start.blank((#[trigger] work[i])@)
                        && self@.visible.contains(work[i]@) && start.sweeps(c, work[i]@),
                self@.closed_but(positions(work@).to_set()),
                self@.hidden().finite(),
            decreases self@.hidden().len(), work.len(),
        {
            let ghost hidden_before = self@.hidden().len();
            let ghost work_before = work.len();
            let ghost listed = work@;
            let p = work.pop().unwrap();
            let around = Board::neighbors(size, p.x, p.y);
            proof {
                assert(listed =~= work@.push(p));
                work@.lemma_push_map_commute(|q: Point| q@, p);
                positions(work@).lemma_push_to_set_commute(p@);
                lemma_neighbors_are_adjacent(size as int, p.x as int, p.y as int);
                lemma_mine_count(start.mines, size as int, p.x as int, p.y as int);
            }
            let mut i: usize = 0;
            while i < around.len()
                invariant
                    i <= around.len(),
                    self.inv(),
                    size == self@.size,
                    self@.size == start.size,
                    self@.mines == start.mines,
                    self@.flagged == start.flagged,
                    start.visible.subset_of(self@.visible),
                    forall|d: (int, int)| #[trigger]
                        self@.visible.contains(d) ==> start.visible.contains(d) || start.sweeps(
                            c,
                            d,
                        ),
                    forall|i: int|
                        0 <= i < work.len() ==> start.blank((#[trigger] work[i])@)
                            && self@.visible.contains(work[i]@) && start.sweeps(c, work[i]@),
                    self@.closed_but(positions(work@).to_set().insert(p@)),
                    self@.hidden().finite(),
                    start.blank(p@),
                    start.sweeps(c, p@),
                    self@.visible.contains(p@),
                    positions(around@) == neighbors_of(size as int, p.x as int, p.y as int),
                    forall|d: (int, int)| #[trigger]
                        neighbors_of(size as int, p.x as int, p.y as int).contains(d) <==> adjacent(
                            d,
                            p@,
                        ) && in_grid(size as int, d.0, d.1),
                    forall|d: (int, int)|
                        adjacent(d, p@) && in_grid(size as int, d.0, d.1)
                            ==> !#[trigger] start.mines.contains(d),
                    forall|j: int| 0 <= j < i ==> self@.visible.contains((#[trigger] around[j])@),
                    self@.hidden().len() < hidden_before || (self@.hidden().len() == hidden_before
                        && work.len() == work_before - 1),
                decreases around.len() - i,
            {
                let n = around[i];
                let ghost before = self@;
                let ghost queued = work@;
                proof {
                    assert(positions(around@)[i as int] == n@);
                    assert(neighbors_of(size as int, p.x as int, p.y as int).contains(n@));
                }
                if self.show_cell(n.x, n.y) {
                    proof {
                        let path = choose|path: Seq<(int, int)>| #[trigger]
                            start.is_sweep(path) && path[0] == c && path.last() == p@;
                        lemma_sweep_extend(start, path, n@);
                        assert(self@.hidden() =~= before.hidden().remove(n@));
                    }
                    if self.cells[n.x][n.y].score == 0 {
                        work.push(n);
                        proof {
                            queued.lemma_push_map_commute(|q: Point| q@, n);
                            positions(queued).lemma_push_to_set_commute(n@);
                        }
                    }
                }
                i += 1;
            }
            proof {
                assert forall|b: (int, int), d: (int, int)|
                    self@.visible.contains(b) && self@.blank(b) && !positions(
                        work@,
                    ).to_set().contains(b) && self@.has(d) && #[trigger] adjacent(
                        b,
                        d,
                    ) implies self@.visible.contains(d) by {
                    if b == p@ {
                        assert(neighbors_of(size as int, p.x as int, p.y as int).contains(d));
                        let j = choose|j: int|
                            0 <= j < positions(around@).len() && positions(around@)[j] == d;
                        assert(around[j]@ == d);
                    }
                }
            }
        }
        proof {
            assert forall|d: (int, int)| start.sweeps(c, d) implies self@.visible.contains(d) by {
                let path = choose|path: Seq<(int, int)>| #[trigger]
                    start.is_sweep(path) && path[0] == c && path.last() == d;
                lemma_closed_covers_sweep(self@, path);
            }
        }
    }

    /// Whether the game is won: every cell without a mine is revealed, and
    /// no mine is.
    pub fn is_won(&self) -> (won: bool)
        requires
            self.wf(),
        ensures
            won == self@.won(),
    {
        let size = self.cells.len();
        let mut x: usize = 0;
        while x < size
            invariant
                x <= size,
                size == self.cells@.len(),
                self.inv(),
                forall|c: (int, int)|
                    0 <= c.0 < x && 0 <= c.1 < size ==> (#[trigger] self@.visible.contains(c)
                        <==> !self@.mines.contains(c)),
            decreases size - x,
        {
            let mut y: usize = 0;
            while y < size
                invariant
                    y <= size,
                    x < size,
                    size == self.cells@.len(),
                    self.inv(),
                    forall|c: (int, int)|
                        (0 <= c.0 < x && 0 <= c.1 < size) || (c.0 == x && 0 <= c.1 < y) ==> (
                        #[trigger] self@.visible.contains(c) <==> !self@.mines.contains(c)),
                decreases size - y,
            {
                let ghost c = (x as int, y as int);
                if self.cells[x][y].visible == self.cells[x][y].mine {
                    assert(self@.has(c) && (self@.visible.contains(c) <==> self@.mines.contains(
                        c,
                    )));
                    return false;
                }
                y += 1;
            }
            x += 1;
        }
        true
    }

    /// Whether the game is lost: a mine has been revealed.
    pub fn is_lost(&self) -> (lost: bool)
        requires
            self.wf(),
        ensures
            lost == self@.lost(),
    {
        let size = self.cells.len();
        let mut x: usize = 0;
        while x < size
            invariant
                x <= size,
                size == self.cells@.len(),
                self.inv(),
                forall|c: (int, int)|
                    0 <= c.0 < x && 0 <= c.1 < size && self@.mines.contains(c)
                        ==> !#[trigger] self@.visible.contains(c),
            decreases size - x,
        {
            let mut y: usize = 0;
            while y < size
                invariant
                    y <= size,
                    x < size,
                    size == self.cells@.len(),
                    self.inv(),
                    forall|c: (int, int)|
                        ((0 <= c.0 < x && 0 <= c.1 < size) || (c.0 == x && 0 <= c.1 < y))
                            && self@.mines.contains(c) ==> !#[trigger] self@.visible.contains(c),
                decreases size - y,
            {
                let ghost c = (x as int, y as int);
                if self.cells[x][y].visible && self.cells[x][y].mine {
                    assert(self@.has(c) && self@.mines.contains(c) && self@.visible.contains(c));
                    return true;
                }
                y += 1;
            }
            x += 1;
        }
        false
    }

    /// Reveals the cell at `(x, y)` if it is hidden and holds no mine, and
    /// tells whether it did.
    fn show_cell(&mut self, x: usize, y: usize) -> (shown: bool)
        requires
            old(self).inv(),
            old(self)@.has((x as int, y as int)),
        ensures
            final(self).inv(),
            shown == (!old(self)@.visible.contains((x as int, y as int)) && !old(
                self,
            )@.mines.contains((x as int, y as int))),
            final(self)@ == (Grid {
                visible: if shown {
                    old(self)@.visible.insert((x as int, y as int))
                } else {
                    old(self)@.visible
                },
                ..old(self)@
            }),
    {
        if !self.cells[x][y].visible && !self.cells[x][y].mine {
            self.mark_visible(x, y);
            true
        } else {
            false
        }
    }

    /// Marks the cell at `(x, y)` as revealed, whatever it holds.
    fn mark_visible(&mut self, x: usize, y: usize)
        requires
            old(self).inv(),
            old(self)@.has((x as int, y as int)),
        ensures
            final(self).inv(),
            final(self)@ == (Grid {
                visible: old(self)@.visible.insert((x as int, y as int)),
                ..old(self)@
            }),
    {
        let ghost c = (x as int, y as int);
        let ghost before = *self;
        self.cells[x][y].visible = true;
        proof {
            assert forall|d: (int, int)| self.on(d) implies (#[trigger] self.at(d)).mine
                == before.at(d).mine && self.at(d).flagged == before.at(d).flagged && self.at(
                d,
            ).score == before.at(d).score && self.at(d).visible == (d == c || before.at(
                d,
            ).visible) by {}
            assert(self@.mines =~= before@.mines);
            assert forall|d: (int, int)| self.on(d) implies (#[trigger] self.at(d)).score
                == self@.score(d) by {
                assert(before.at(d).score == before@.score(d));
            }
        }
    }

    /// Tests that a signed coordinate pair lies on a grid of the given size.
    pub fn within_bounds(size: usize, x: isize, y: isize) -> (inside: bool)
        ensures
            inside == in_grid(size as int, x as int, y as int),
    {
        x >= 0 && (x as usize) < size && y >= 0 && (y as usize) < size
    }

    /// Lists the neighbours of `(x, y)` that lie on a grid of the given
    /// size, row by row.
    pub fn neighbors(size: usize, x: usize, y: usize) -> (found: Vec<Point>)
        ensures
            positions(found@) == neighbors_of(size as int, x as int, y as int),
    {
        let ghost around = block(x as int, y as int);
        let ghost pred = |c: (int, int)| is_neighbor(size as int, x as int, y as int, c);
        let mut found: Vec<Point> = Vec::new();
        let mut k: usize = 0;
        proof {
            lemma_filter_start(around, pred);
        }
        while k < 3
            invariant
                k <= 3,
                around == block(x as int, y as int),
                pred == |c: (int, int)| is_neighbor(size as int, x as int, y as int, c),
                positions(found@) == around.take(3 * k).filter(pred),
            decreases 3 - k,
        {
            let mut i: usize = 0;
            while i < 3
                invariant
                    i <= 3,
                    k < 3,
                    around == block(x as int, y as int),
                    pred == |c: (int, int)| is_neighbor(size as int, x as int, y as int, c),
                    positions(found@) == around.take(3 * k + i).filter(pred),
                decreases 3 - i,
            {
                proof {
                    lemma_filter_step(around, pred, 3 * k + i);
                }
                if !(i == 1 && k == 1) {
                    match (shifted(x, i, size), shifted(y, k, size)) {
                        (Some(nx), Some(ny)) => {
                            found.push(Point { x: nx, y: ny });
                        },
                        _ => {},
                    }
                }
                i += 1;
            }
            k += 1;
        }
        proof {
            assert(around.take(9) =~= around);
        }
        found
    }

    /// Counts the mines around `(x, y)` on a grid of the given size.
    pub fn score(mines: &Vec<Point>, size: usize, x: usize, y: usize) -> (count: usize)
        ensures
            count == mine_count(mine_set(mines@), size as int, x as int, y as int),
            count <= 8,
    {
        proof {
            lemma_mine_count(mine_set(mines@), size as int, x as int, y as int);
        }
        let around = Board::neighbors(size, x, y);
        let ghost cells = positions(around@);
        let ghost pred = |c: (int, int)| mine_set(mines@).contains(c);
        let mut count: usize = 0;
        let mut i: usize = 0;
        proof {
            lemma_filter_start(cells, pred);
        }
        while i < around.len()
            invariant
                i <= around.len(),
                cells == positions(around@),
                pred == |c: (int, int)| mine_set(mines@).contains(c),
                count == cells.take(i as int).filter(pred).len(),
                count <= i,
            decreases around.len() - i,
        {
            proof {
                lemma_filter_step(cells, pred, i as int);
            }
            if contains(mines, around[i]) {
                count += 1;
            }
            i += 1;
        }
        proof {
            assert(cells.take(around.len() as int) =~= cells);
        }
        count
    }
}

} // verus!
