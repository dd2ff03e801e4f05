//! The mathematical model of the game: positions, neighbourhoods, mine
//! counts, and the grid of mines, revealed cells and flags that a board
//! stands for.

use vstd::prelude::*;
use vstd::set_lib::{lemma_int_range, lemma_set_subset_finite, set_int_range};

verus! {

/// Whether `(x, y)` names a cell of a `size` x `size` grid.
pub open spec fn in_grid(size: int, x: int, y: int) -> bool {
    0 <= x < size && 0 <= y < size
}

/// Two distinct positions that differ by at most one in each coordinate.
pub open spec fn adjacent(a: (int, int), b: (int, int)) -> bool {
    a != b && -1 <= a.0 - b.0 <= 1 && -1 <= a.1 - b.1 <= 1
}

/// The `k`-th position of the 3 x 3 block centred on `(x, y)`, counted row
/// by row from the block's lowest coordinates.
pub open spec fn block_cell(x: int, y: int, k: int) -> (int, int) {
    (x + k % 3 - 1, y + k / 3 - 1)
}

/// The nine positions of the 3 x 3 block centred on `(x, y)`.
pub open spec fn block(x: int, y: int) -> Seq<(int, int)> {
    Seq::new(9, |k: int| block_cell(x, y, k))
}

/// Whether `c` is a neighbour of `(x, y)` that lies on the grid.
pub open spec fn is_neighbor(size: int, x: int, y: int, c: (int, int)) -> bool {
    c != (x, y) && in_grid(size, c.0, c.1)
}

/// The neighbours of `(x, y)` on a `size` x `size` grid, in block order.
/// Positions beyond the edge are left out: nothing wraps around.
pub open spec fn neighbors_of(size: int, x: int, y: int) -> Seq<(int, int)> {
    block(x, y).filter(|c: (int, int)| is_neighbor(size, x, y, c))
}

/// How many neighbours of `(x, y)` hold a mine.
pub open spec fn mine_count(mines: Set<(int, int)>, size: int, x: int, y: int) -> nat {
    neighbors_of(size, x, y).filter(|c: (int, int)| mines.contains(c)).len()
}

/// Filtering one more element of a sequence keeps or drops exactly that
/// element.
pub proof fn lemma_filter_step<A>(s: Seq<A>, pred: spec_fn(A) -> bool, k: int)
    requires
        0 <= k < s.len(),
    ensures
        s.take(k + 1).filter(pred) == if pred(s[k]) {
            s.take(k).filter(pred).push(s[k])
        } else {
            s.take(k).filter(pred)
        },
{
    reveal(Seq::filter);
    assert(s.take(k + 1).drop_last() =~= s.take(k));
}

/// Filtering nothing keeps nothing.
pub proof fn lemma_filter_start<A>(s: Seq<A>, pred: spec_fn(A) -> bool)
    ensures
        s.take(0).filter(pred) == Seq::<A>::empty(),
{
    reveal(Seq::filter);
}

/// What a filter keeps is exactly what the sequence holds and the predicate
/// accepts.
pub proof fn lemma_filter_members<A>(s: Seq<A>, pred: spec_fn(A) -> bool)
    ensures
        forall|a: A| #[trigger] s.filter(pred).contains(a) <==> s.contains(a) && pred(a),
    decreases s.len(),
{
    reveal(Seq::filter);
    if s.len() > 0 {
        let front = s.drop_last();
        lemma_filter_members(front, pred);
        assert forall|a: A| #[trigger] s.filter(pred).contains(a) <==> s.contains(a) && pred(
            a,
        ) by {
            if s.filter(pred).contains(a) {
                // `a` is the last element, or the filtered front holds it.
                let i = choose|i: int| 0 <= i < s.filter(pred).len() && s.filter(pred)[i] == a;
                if !(pred(s.last()) && i == front.filter(pred).len()) {
                    assert(front.filter(pred).contains(a));
                    let j = choose|j: int| 0 <= j < front.len() && front[j] == a;
                    assert(s[j] == a);
                }
            }
            if s.contains(a) && pred(a) {
                // `a` is the last element, or the front holds it.
                let j = choose|j: int| 0 <= j < s.len() && s[j] == a;
                if j < s.len() - 1 {
                    assert(front[j] == a);
                    assert(front.filter(pred).contains(a));
                    let i = choose|i: int|
                        0 <= i < front.filter(pred).len() && front.filter(pred)[i] == a;
                    assert(s.filter(pred)[i] == a);
                } else {
                    assert(s.filter(pred).last() == a);
                }
            }
        }
    }
}

/// The neighbours of a position are the grid cells adjacent to it.
pub proof fn lemma_neighbors_are_adjacent(size: int, x: int, y: int)
    ensures
        forall|c: (int, int)| #[trigger]
            neighbors_of(size, x, y).contains(c) <==> adjacent(c, (x, y)) && in_grid(
                size,
                c.0,
                c.1,
            ),
        neighbors_of(size, x, y).len() <= 8,
{
    let b = block(x, y);
    let pred = |c: (int, int)| is_neighbor(size, x, y, c);
    lemma_filter_members(b, pred);
    assert forall|c: (int, int)| #[trigger]
        neighbors_of(size, x, y).contains(c) <==> adjacent(c, (x, y)) && in_grid(
            size,
            c.0,
            c.1,
        ) by {
        if adjacent(c, (x, y)) {
            let k = (c.1 - y + 1) * 3 + (c.0 - x + 1);
            assert(b[k] == c);
        }
        if b.contains(c) {
            let k = choose|k: int| 0 <= k < b.len() && b[k] == c;
            assert(c == block_cell(x, y, k));
        }
    }
    lemma_neighbor_count(size, x, y, 9);
    assert(b.take(9) =~= b);
}

/// Among the first `k` positions of a block at most `k` are neighbours, and
/// once the centre has been passed at most `k - 1`.
proof fn lemma_neighbor_count(size: int, x: int, y: int, k: int)
    requires
        0 <= k <= 9,
    ensures
        block(x, y).take(k).filter(|c: (int, int)| is_neighbor(size, x, y, c)).len() <= (if k
            <= 4 {
            k
        } else {
            k - 1
        }),
    decreases k,
{
    let b = block(x, y);
    let pred = |c: (int, int)| is_neighbor(size, x, y, c);
    if k == 0 {
        lemma_filter_start(b, pred);
    } else {
        lemma_neighbor_count(size, x, y, k - 1);
        lemma_filter_step(b, pred, k - 1);
    }
}

/// The grid cells adjacent to `(x, y)` that hold a mine.
pub open spec fn mined_neighbors(mines: Set<(int, int)>, size: int, x: int, y: int) -> Set<
    (int, int),
> {
    Set::new(|c: (int, int)| adjacent(c, (x, y)) && in_grid(size, c.0, c.1) && mines.contains(c))
}

/// A filter repeats nothing that the sequence did not repeat.
pub proof fn lemma_filter_unique<A>(s: Seq<A>, pred: spec_fn(A) -> bool)
    requires
        s.no_duplicates(),
    ensures
        s.filter(pred).no_duplicates(),
    decreases s.len(),
{
    reveal(Seq::filter);
    if s.len() > 0 {
        let front = s.drop_last();
        lemma_filter_unique(front, pred);
        lemma_filter_members(front, pred);
        if pred(s.last()) && front.filter(pred).contains(s.last()) {
            let j = choose|j: int| 0 <= j < front.len() && front[j] == s.last();
            assert(s[j] == s[s.len() - 1]);
        }
    }
}

/// The mine count of a position is the number of adjacent grid cells that
/// hold a mine, each counted once.
pub proof fn lemma_mine_count_counts(mines: Set<(int, int)>, size: int, x: int, y: int)
    ensures
        mined_neighbors(mines, size, x, y).finite(),
        mine_count(mines, size, x, y) == mined_neighbors(mines, size, x, y).len(),
{
    let b = block(x, y);
    let ns = neighbors_of(size, x, y);
    let pred = |c: (int, int)| mines.contains(c);
    let hits = ns.filter(pred);
    assert(b.no_duplicates());
    lemma_filter_unique(b, |c: (int, int)| is_neighbor(size, x, y, c));
    lemma_filter_unique(ns, pred);
    lemma_filter_members(ns, pred);
    lemma_neighbors_are_adjacent(size, x, y);
    hits.unique_seq_to_set();
    assert(hits.to_set() =~= mined_neighbors(mines, size, x, y));
}

/// The mine count never exceeds eight, and it is zero exactly when no
/// neighbouring grid cell holds a mine.
pub proof fn lemma_mine_count(mines: Set<(int, int)>, size: int, x: int, y: int)
    ensures
        mine_count(mines, size, x, y) <= 8,
        mine_count(mines, size, x, y) == 0 <==> forall|c: (int, int)|
            adjacent(c, (x, y)) && in_grid(size, c.0, c.1) ==> !#[trigger] mines.contains(c),
{
    let ns = neighbors_of(size, x, y);
    let pred = |c: (int, int)| mines.contains(c);
    lemma_neighbors_are_adjacent(size, x, y);
    ns.lemma_filter_len(pred);
    lemma_filter_members(ns, pred);
    if mine_count(mines, size, x, y) == 0 {
        assert forall|c: (int, int)|
            adjacent(c, (x, y)) && in_grid(size, c.0, c.1) implies !#[trigger] mines.contains(
            c,
        ) by {
            if mines.contains(c) {
                assert(ns.filter(pred).contains(c));
            }
        }
    } else {
        assert(ns.filter(pred).contains(ns.filter(pred)[0]));
    }
}

/// What a board stands for: its size, where its mines lie, and which cells
/// the player has revealed or flagged.
#[verifier::ext_equal]
pub struct Grid {
    pub size: nat,
    pub mines: Set<(int, int)>,
    pub visible: Set<(int, int)>,
    pub flagged: Set<(int, int)>,
}

impl Grid {
    /// A grid of the given size and mines on which nothing is revealed or
    /// flagged yet.
    pub open spec fn fresh(size: nat, mines: Set<(int, int)>) -> Grid {
        Grid { size, mines, visible: Set::empty(), flagged: Set::empty() }
    }

    /// Whether `c` is a cell of this grid.
    pub open spec fn has(self, c: (int, int)) -> bool {
        in_grid(self.size as int, c.0, c.1)
    }

    /// The number shown on `c`: the count of mines around it, and zero on a
    /// mine.
    pub open spec fn score(self, c: (int, int)) -> nat {
        if self.mines.contains(c) {
            0
        } else {
            mine_count(self.mines, self.size as int, c.0, c.1)
        }
    }

    /// A cell without a mine on it or around it.
    pub open spec fn blank(self, c: (int, int)) -> bool {
        self.has(c) && !self.mines.contains(c) && mine_count(
            self.mines,
            self.size as int,
            c.0,
            c.1,
        ) == 0
    }

    /// Every revealed blank cell has all its neighbours revealed.
    pub open spec fn closed(self) -> bool {
        forall|c: (int, int), n: (int, int)|
            self.visible.contains(c) && self.blank(c) && self.has(n) && #[trigger] adjacent(c, n)
                ==> self.visible.contains(n)
    }

    /// Every revealed blank cell outside `pending` has all its neighbours
    /// revealed.
    pub open spec fn closed_but(self, pending: Set<(int, int)>) -> bool {
        forall|c: (int, int), n: (int, int)|
            self.visible.contains(c) && self.blank(c) && !pending.contains(c) && self.has(n)
                && #[trigger] adjacent(c, n) ==> self.visible.contains(n)
    }

    /// Mines, revealed cells and flags all lie on the grid, and no reveal
    /// was left half done.
    pub open spec fn wf(self) -> bool {
        &&& forall|c: (int, int)| #[trigger] self.mines.contains(c) ==> self.has(c)
        &&& forall|c: (int, int)| #[trigger] self.visible.contains(c) ==> self.has(c)
        &&& forall|c: (int, int)| #[trigger] self.flagged.contains(c) ==> self.has(c)
        &&& self.closed()
    }

    /// A walk over the grid that steps between adjacent cells and leaves
    /// only blank cells behind; its last cell may be of any kind.
    pub open spec fn is_sweep(self, path: Seq<(int, int)>) -> bool {
        &&& path.len() > 0
        &&& forall|i: int| 0 <= i < path.len() ==> self.has(#[trigger] path[i])
        &&& forall|i: int|
            0 <= i < path.len() - 1 ==> self.blank(#[trigger] path[i]) && adjacent(
                path[i],
                path[i + 1],
            )
    }

    /// Whether revealing `from` reaches `to`.
    pub open spec fn sweeps(self, from: (int, int), to: (int, int)) -> bool {
        exists|path: Seq<(int, int)>|
            #[trigger] self.is_sweep(path) && path[0] == from && path.last() == to
    }

    /// All the cells that revealing `from` reaches: `from` itself and, where
    /// `from` is blank, its region of connected blank cells with the
    /// numbered cells that border it.
    pub open spec fn swept(self, from: (int, int)) -> Set<(int, int)> {
        Set::new(|c: (int, int)| self.sweeps(from, c))
    }

    /// The grid after `c` has been uncovered.
    pub open spec fn uncover(self, c: (int, int)) -> Grid {
        Grid { visible: self.visible.union(self.swept(c)), ..self }
    }

    /// The grid after the flag on `c` has been toggled.
    pub open spec fn toggle_flag(self, c: (int, int)) -> Grid {
        Grid {
            flagged: if self.flagged.contains(c) {
                self.flagged.remove(c)
            } else {
                self.flagged.insert(c)
            },
            ..self
        }
    }

    /// The cells that are still hidden.
    pub open spec fn hidden(self) -> Set<(int, int)> {
        Set::new(|c: (int, int)| self.has(c) && !self.visible.contains(c))
    }

    /// The game is lost once a mine has been revealed.
    pub open spec fn lost(self) -> bool {
        exists|c: (int, int)| self.has(c) && self.mines.contains(c) && #[trigger] self.visible.contains(c)
    }

    /// The game is won when every cell without a mine is revealed and no
    /// mine is.
    pub open spec fn won(self) -> bool {
        forall|c: (int, int)|
            self.has(c) ==> (#[trigger] self.visible.contains(c) <==> !self.mines.contains(c))
    }
}

/// The cells of the first `rows` rows of a grid.
pub open spec fn rows_below(size: int, rows: int) -> Set<(int, int)> {
    Set::new(|c: (int, int)| 0 <= c.0 < rows && 0 <= c.1 < size)
}

/// Any number of rows of a grid holds finitely many cells.
pub proof fn lemma_rows_finite(size: int, rows: int)
    requires
        0 <= size,
        0 <= rows,
    ensures
        rows_below(size, rows).finite(),
    decreases rows,
{
    if rows == 0 {
        assert(rows_below(size, rows) =~= Set::<(int, int)>::empty());
    } else {
        lemma_rows_finite(size, rows - 1);
        let across = |y: int| (rows - 1, y);
        let row = set_int_range(0, size).map(across);
        lemma_int_range(0, size);
        set_int_range(0, size).lemma_map_finite(across);
        assert forall|c: (int, int)| 0 <= c.1 < size && c.0 == rows - 1 implies row.contains(
            c,
        ) by {
            assert(set_int_range(0, size).contains(c.1) && c == across(c.1));
        }
        assert(rows_below(size, rows) =~= rows_below(size, rows - 1).union(row));
    }
}

/// A grid has finitely many hidden cells.
pub proof fn lemma_hidden_finite(g: Grid)
    ensures
        g.hidden().finite(),
{
    lemma_rows_finite(g.size as int, g.size as int);
    lemma_set_subset_finite(rows_below(g.size as int, g.size as int), g.hidden());
}

/// A sweep can be continued from its last cell, if that cell is blank, to
/// any neighbour on the grid.
pub proof fn lemma_sweep_extend(g: Grid, path: Seq<(int, int)>, n: (int, int))
    requires
        g.is_sweep(path),
        g.blank(path.last()),
        g.has(n),
        adjacent(path.last(), n),
    ensures
        g.is_sweep(path.push(n)),
        g.sweeps(path[0], n),
{
    let longer = path.push(n);
    assert forall|i: int| 0 <= i < longer.len() - 1 implies g.blank(#[trigger] longer[i])
        && adjacent(longer[i], longer[i + 1]) by {
        if i < path.len() - 1 {
            assert(g.blank(path[i]) && adjacent(path[i], path[i + 1]));
        }
    }
    assert forall|i: int| 0 <= i < longer.len() implies g.has(#[trigger] longer[i]) by {
        if i < path.len() {
            assert(g.has(path[i]));
        }
    }
    assert(longer[0] == path[0] && longer.last() == n);
}

/// Where a reveal spreads depends on the mines alone, not on what has been
/// revealed or flagged.
pub proof fn lemma_swept_by_mines(g: Grid, h: Grid, from: (int, int))
    requires
        g.size == h.size,
        g.mines == h.mines,
    ensures
        g.swept(from) == h.swept(from),
{
    assert forall|d: (int, int)| g.sweeps(from, d) == h.sweeps(from, d) by {
        if g.sweeps(from, d) {
            let path = choose|path: Seq<(int, int)>|
                #[trigger] g.is_sweep(path) && path[0] == from && path.last() == d;
            assert(h.is_sweep(path));
        }
        if h.sweeps(from, d) {
            let path = choose|path: Seq<(int, int)>|
                #[trigger] h.is_sweep(path) && path[0] == from && path.last() == d;
            assert(g.is_sweep(path));
        }
    }
}

/// On a closed grid a sweep that starts on a revealed cell ends on one.
pub proof fn lemma_closed_covers_sweep(g: Grid, path: Seq<(int, int)>)
    requires
        g.closed(),
        g.is_sweep(path),
        g.visible.contains(path[0]),
    ensures
        g.visible.contains(path.last()),
    decreases path.len(),
{
    if path.len() > 1 {
        // The walk without its last cell is a sweep too and ends on a
        // revealed blank cell, next to which the last cell lies.
        let front = path.drop_last();
        assert forall|i: int| 0 <= i < front.len() - 1 implies g.blank(#[trigger] front[i])
            && adjacent(front[i], front[i + 1]) by {
            assert(g.blank(path[i]) && adjacent(path[i], path[i + 1]));
        }
        assert forall|i: int| 0 <= i < front.len() implies g.has(#[trigger] front[i]) by {
            assert(g.has(path[i]));
        }
        lemma_closed_covers_sweep(g, front);
        let c = path[path.len() - 2];
        assert(front.last() == c && g.blank(c) && adjacent(c, path[path.len() - 2 + 1]));
    }
}

/// Uncovering a cell always reveals the cell itself, and only itself when it
/// holds a mine or a number: the reveal spreads from blank cells alone.
pub proof fn lemma_uncover_single(g: Grid, c: (int, int))
    requires
        g.has(c),
    ensures
        g.swept(c).contains(c),
        !g.blank(c) ==> g.uncover(c) == (Grid { visible: g.visible.insert(c), ..g }),
{
    let alone = seq![c];
    assert(g.is_sweep(alone) && alone[0] == c && alone.last() == c);
    if !g.blank(c) {
        assert forall|d: (int, int)| g.sweeps(c, d) implies d == c by {
            let path = choose|path: Seq<(int, int)>|
                #[trigger] g.is_sweep(path) && path[0] == c && path.last() == d;
            if path.len() > 1 {
                assert(g.blank(path[0]));
            }
        }
    }
}

/// Uncovering never reveals a mine other than the uncovered cell itself, and
/// never a cell beyond the grid.
pub proof fn lemma_uncover_spares_mines(g: Grid, c: (int, int), d: (int, int))
    requires
        g.sweeps(c, d),
    ensures
        g.has(d),
        d != c ==> !g.mines.contains(d),
{
    let path = choose|path: Seq<(int, int)>|
        #[trigger] g.is_sweep(path) && path[0] == c && path.last() == d;
    assert(g.has(path[path.len() - 1]));
    if d != c {
        // The cell before the last is blank, so no mine lies next to it.
        let b = path[path.len() - 2];
        assert(g.blank(b) && adjacent(b, path[path.len() - 2 + 1]));
        lemma_mine_count(g.mines, g.size as int, b.0, b.1);
        assert(adjacent(d, b));
    }
}

/// Uncovering a blank cell reveals its whole region: every neighbour of
/// every blank cell that the reveal reaches is revealed too.
pub proof fn lemma_uncover_spreads(g: Grid, c: (int, int), b: (int, int), n: (int, int))
    requires
        g.sweeps(c, b),
        g.blank(b),
        g.has(n),
        adjacent(b, n),
    ensures
        g.uncover(c).visible.contains(n),
{
    let path = choose|path: Seq<(int, int)>|
        #[trigger] g.is_sweep(path) && path[0] == c && path.last() == b;
    lemma_sweep_extend(g, path, n);
}

/// Uncovering reveals no more than it must: any set of cells that holds
/// `c` and, with each of its blank cells, the neighbours of that cell, holds
/// everything that uncovering `c` reveals.
pub proof fn lemma_swept_is_least(g: Grid, c: (int, int), cells: Set<(int, int)>)
    requires
        cells.contains(c),
        forall|b: (int, int), n: (int, int)|
            cells.contains(b) && g.blank(b) && g.has(n) && #[trigger] adjacent(b, n)
                ==> cells.contains(n),
    ensures
        g.swept(c).subset_of(cells),
{
    let shown = Grid { visible: cells, ..g };
    assert forall|d: (int, int)| g.sweeps(c, d) implies cells.contains(d) by {
        let path = choose|path: Seq<(int, int)>|
            #[trigger] g.is_sweep(path) && path[0] == c && path.last() == d;
        assert(shown.is_sweep(path));
        lemma_closed_covers_sweep(shown, path);
    }
}

/// Uncovering keeps a well-formed grid well formed, changes neither mines
/// nor flags, and hides nothing.
pub proof fn lemma_uncover_wf(g: Grid, c: (int, int))
    requires
        g.wf(),
    ensures
        g.uncover(c).wf(),
        g.uncover(c).size == g.size,
        g.uncover(c).mines == g.mines,
        g.uncover(c).flagged == g.flagged,
        g.visible.subset_of(g.uncover(c).visible),
{
    let after = g.uncover(c);
    assert forall|d: (int, int)| #[trigger] after.visible.contains(d) implies after.has(d) by {
        if g.sweeps(c, d) {
            lemma_uncover_spares_mines(g, c, d);
        }
    }
    assert forall|b: (int, int), n: (int, int)|
        after.visible.contains(b) && after.blank(b) && after.has(n) && #[trigger] adjacent(
            b,
            n,
        ) implies after.visible.contains(n) by {
        if !g.visible.contains(b) {
            lemma_uncover_spreads(g, c, b, n);
        }
    }
}

/// Uncovering a cell that is already revealed and holds no mine changes
/// nothing.
pub proof fn lemma_uncover_revealed(g: Grid, c: (int, int))
    requires
        g.wf(),
        g.visible.contains(c),
        !g.mines.contains(c),
    ensures
        g.uncover(c) == g,
{
    assert forall|d: (int, int)| g.sweeps(c, d) implies g.visible.contains(d) by {
        let path = choose|path: Seq<(int, int)>|
            #[trigger] g.is_sweep(path) && path[0] == c && path.last() == d;
        lemma_closed_covers_sweep(g, path);
    }
}

/// Uncovering the same cell a second time changes nothing more.
pub proof fn lemma_uncover_twice(g: Grid, c: (int, int))
    requires
        g.wf(),
        g.has(c),
    ensures
        g.uncover(c).uncover(c) == g.uncover(c),
{
    let once = g.uncover(c);
    lemma_uncover_wf(g, c);
    lemma_uncover_single(g, c);
    if g.mines.contains(c) {
        lemma_uncover_single(once, c);
    } else {
        lemma_uncover_revealed(once, c);
    }
}

/// Toggling a flag touches nothing but that flag, and toggling it again
/// restores the grid.
pub proof fn lemma_toggle_flag(g: Grid, c: (int, int))
    ensures
        g.toggle_flag(c).size == g.size,
        g.toggle_flag(c).mines == g.mines,
        g.toggle_flag(c).visible == g.visible,
        g.toggle_flag(c).flagged.contains(c) != g.flagged.contains(c),
        forall|d: (int, int)|
            d != c ==> g.toggle_flag(c).flagged.contains(d) == g.flagged.contains(d),
        g.toggle_flag(c).toggle_flag(c) == g,
        g.wf() && g.has(c) ==> g.toggle_flag(c).wf(),
{
    assert(g.toggle_flag(c).toggle_flag(c).flagged =~= g.flagged);
}

} // verus!
