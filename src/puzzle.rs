use vstd::prelude::*;

verus! {

/// The state of one position of the grid.
#[derive(Clone, Copy, Debug, PartialEq, Eq, Structural)]
pub enum Cell {
    /// Free and not yet marked by the player.
    Empty,
    /// Marked by the player.
    Marked,
    /// Placed by the generator and never changed by the player.
    Obstacle(char),
}

/// One of the 26 symbols that label an obstacle.
pub open spec fn is_letter(c: char) -> bool {
    'A' <= c && c <= 'Z'
}

/// A grid of `n` rows, each of `n` cells, with `n > 0`.
pub open spec fn is_square(g: Seq<Seq<Cell>>) -> bool {
    &&& g.len() > 0
    &&& forall|i: int| 0 <= i < g.len() ==> (#[trigger] g[i]).len() == g.len()
}

/// No free cell is left.
pub open spec fn all_settled(g: Seq<Seq<Cell>>) -> bool {
    forall|i: int, j: int|
        0 <= i < g.len() && 0 <= j < g[i].len() ==> #[trigger] g[i][j] != Cell::Empty
}

/// Every obstacle is labelled by one of the 26 letters.
pub open spec fn letters_valid(g: Seq<Seq<Cell>>) -> bool {
    forall|i: int, j: int|
        0 <= i < g.len() && 0 <= j < g[i].len() && (#[trigger] g[i][j]) is Obstacle ==> is_letter(
            g[i][j]->Obstacle_0,
        )
}

/// The grid of side `n` whose cells are all free.
pub open spec fn empty_grid(n: nat) -> Seq<Seq<Cell>> {
    Seq::new(n, |i: int| Seq::new(n, |j: int| Cell::Empty))
}

/// The grid `g` with the cell at `(r, c)` replaced by `v`.
pub open spec fn grid_update(g: Seq<Seq<Cell>>, r: int, c: int, v: Cell) -> Seq<Seq<Cell>> {
    g.update(r, g[r].update(c, v))
}

/// A square grid of cells.
pub struct Puzzle {
    grid: Vec<Vec<Cell>>,
    size: usize,
}

impl View for Puzzle {
    type V = Seq<Seq<Cell>>;

    closed spec fn view(&self) -> Seq<Seq<Cell>> {
        self.grid@.map_values(|row: Vec<Cell>| row@)
    }
}

impl Puzzle {
    /// The stored side length agrees with the rows.
    pub closed spec fn size_agrees(&self) -> bool {
        self.size == self.grid@.len()
    }

    /// A non-empty square whose stored side matches its rows.
    pub open spec fn wf(&self) -> bool {
        self.size_agrees() && is_square(self@)
    }

    /// A grid of side `size` with every cell free.
    pub fn new(size: usize) -> (p: Puzzle)
        requires
            size > 0,
        ensures
            p.wf(),
            p@ == empty_grid(size as nat),
    {
        let mut grid: Vec<Vec<Cell>> = Vec::new();
        let mut i: usize = 0;
        while i < size
            invariant
                i <= size,
                grid@.len() == i,
                forall|k: int| 0 <= k < i ==> (#[trigger] grid@[k])@ == Seq::new(size as nat, |j: int| Cell::Empty),
            decreases size - i,
        {
            let mut row: Vec<Cell> = Vec::new();
            let mut j: usize = 0;
            while j < size
                invariant
                    j <= size,
                    row@ == Seq::new(j as nat, |k: int| Cell::Empty),
                decreases size - j,
            {
                row.push(Cell::Empty);
                j = j + 1;
                assert(row@ =~= Seq::new(j as nat, |k: int| Cell::Empty));
            }
            grid.push(row);
            i = i + 1;
        }
        let p = Puzzle { grid, size };
        assert(p@ =~= empty_grid(size as nat));
        p
    }

    /// Replaces the cell at `(row, col)`; whether the change is a legal move is
    /// for the caller to decide.
    pub fn set(&mut self, row: usize, col: usize, value: Cell)
        requires
            old(self).wf(),
            row < old(self)@.len(),
            col < old(self)@.len(),
        ensures
            final(self).wf(),
            final(self)@ == grid_update(old(self)@, row as int, col as int, value),
    {
        assert(self.grid@[row as int]@ == self@[row as int]);
        self.grid[row][col] = value;
        assert(self@ =~= grid_update(old(self)@, row as int, col as int, value));
    }

    /// The cell at `(row, col)`.
    pub fn get(&self, row: usize, col: usize) -> (c: Cell)
        requires
            self.wf(),
            row < self@.len(),
            col < self@.len(),
        ensures
            c == self@[row as int][col as int],
    {
        self.grid[row][col]
    }

    /// The side length.
    pub fn size(&self) -> (n: usize)
        requires
            self.wf(),
        ensures
            n == self@.len(),
    {
        self.size
    }

    /// Whether every obstacle is labelled by a letter from `'A'` to `'Z'`.
    pub fn has_valid_letters(&self) -> (valid: bool)
        requires
            self.wf(),
        ensures
            valid == letters_valid(self@),
    {
        let n = self.size;
        let mut i: usize = 0;
        while i < n
            invariant
                self.wf(),
                n == self@.len(),
                i <= n,
                forall|a: int, b: int|
                    0 <= a < i && 0 <= b < n && (#[trigger] self@[a][b]) is Obstacle ==> is_letter(
                        self@[a][b]->Obstacle_0,
                    ),
            decreases n - i,
        {
            let mut j: usize = 0;
            while j < n
                invariant
                    self.wf(),
                    n == self@.len(),
                    i < n,
                    j <= n,
                    forall|a: int, b: int|
                        0 <= a < i && 0 <= b < n && (#[trigger] self@[a][b]) is Obstacle
                            ==> is_letter(self@[a][b]->Obstacle_0),
                    forall|b: int|
                        0 <= b < j && (#[trigger] self@[i as int][b]) is Obstacle ==> is_letter(
                            self@[i as int][b]->Obstacle_0,
                        ),
                decreases n - j,
            {
                match self.get(i, j) {
                    Cell::Obstacle(l) => {
                        if !('A' <= l && l <= 'Z') {
                            return false;
                        }
                    },
                    _ => {},
                }
                j = j + 1;
            }
            i = i + 1;
        }
        true
    }

    /// Whether every cell is marked or an obstacle.
    pub fn is_solved(&self) -> (solved: bool)
        requires
            self.wf(),
        ensures
            solved == all_settled(self@),
    {
        let n = self.size;
        let mut i: usize = 0;
        while i < n
            invariant
                self.wf(),
                n == self@.len(),
                i <= n,
                forall|a: int, b: int| 0 <= a < i && 0 <= b < n ==> #[trigger] self@[a][b] != Cell::Empty,
            decreases n - i,
        {
            let mut j: usize = 0;
            while j < n
                invariant
                    self.wf(),
                    n == self@.len(),
                    i < n,
                    j <= n,
                    forall|a: int, b: int| 0 <= a < i && 0 <= b < n ==> #[trigger] self@[a][b] != Cell::Empty,
                    forall|b: int| 0 <= b < j ==> #[trigger] self@[i as int][b] != Cell::Empty,
                decreases n - j,
            {
                if self.grid[i][j] == Cell::Empty {
                    return false;
                }
                j = j + 1;
            }
            i = i + 1;
        }
        true
    }

    /// The cells, row by row.
    pub fn rows(&self) -> (rows: Vec<Vec<Cell>>)
        requires
            self.wf(),
        ensures
            rows@.len() == self@.len(),
            forall|i: int| 0 <= i < rows@.len() ==> (#[trigger] rows@[i])@ == self@[i],
    {
        let n = self.size;
        let mut rows: Vec<Vec<Cell>> = Vec::new();
        let mut i: usize = 0;
        while i < n
            invariant
                self.wf(),
                n == self@.len(),
                i <= n,
                rows@.len() == i,
                forall|k: int| 0 <= k < i ==> (#[trigger] rows@[k])@ == self@[k],
            decreases n - i,
        {
            let mut row: Vec<Cell> = Vec::new();
            let mut j: usize = 0;
            while j < n
                invariant
                    self.wf(),
                    n == self@.len(),
                    i < n,
                    j <= n,
                    row@ == self@[i as int].subrange(0, j as int),
                decreases n - j,
            {
                row.push(self.get(i, j));
                j = j + 1;
                assert(row@ =~= self@[i as int].subrange(0, j as int));
            }
            assert(row@ =~= self@[i as int]);
            rows.push(row);
            i = i + 1;
        }
        rows
    }

    /// A grid made of the given rows, when they form a non-empty square whose
    /// obstacles are all labelled by letters.
    pub fn from_rows(rows: Vec<Vec<Cell>>) -> (p: Option<Puzzle>)
        ensures
            p is Some <==> is_square(rows@.map_values(|r: Vec<Cell>| r@)) && letters_valid(
                rows@.map_values(|r: Vec<Cell>| r@),
            ),
            p is Some ==> p.unwrap().wf() && p.unwrap()@ == rows@.map_values(|r: Vec<Cell>| r@),
    {
        let n = rows.len();
        if n == 0 {
            return None;
        }
        let mut i: usize = 0;
        while i < n
            invariant
                n == rows@.len(),
                i <= n,
                forall|k: int| 0 <= k < i ==> (#[trigger] rows@[k])@.len() == n,
            decreases n - i,
        {
            if rows[i].len() != n {
                assert(rows@.map_values(|r: Vec<Cell>| r@)[i as int].len() != n);
                return None;
            }
            i = i + 1;
        }
        let p = Puzzle { grid: rows, size: n };
        assert(is_square(p@));
        if p.has_valid_letters() {
            Some(p)
        } else {
            None
        }
    }
}

/// Writing a cell and reading it back gives the value written; every other
/// cell reads as before.
pub proof fn lemma_set_then_get(g: Seq<Seq<Cell>>, r: int, c: int, v: Cell, i: int, j: int)
    requires
        is_square(g),
        0 <= r < g.len(),
        0 <= c < g.len(),
        0 <= i < g.len(),
        0 <= j < g.len(),
    ensures
        is_square(grid_update(g, r, c, v)),
        grid_update(g, r, c, v)[r][c] == v,
        (i, j) != (r, c) ==> grid_update(g, r, c, v)[i][j] == g[i][j],
{
    let u = grid_update(g, r, c, v);
    assert forall|k: int| 0 <= k < u.len() implies (#[trigger] u[k]).len() == u.len() by {
        assert(g[k].len() == g.len());
    }
}

/// Rows read out of a grid make that grid again: they form a square, and a
/// grid made of them has the same cells.
pub proof fn lemma_rows_round_trip(p: Puzzle, rows: Vec<Vec<Cell>>)
    requires
        p.wf(),
        rows@.len() == p@.len(),
        forall|i: int| 0 <= i < rows@.len() ==> (#[trigger] rows@[i])@ == p@[i],
    ensures
        is_square(rows@.map_values(|r: Vec<Cell>| r@)),
        rows@.map_values(|r: Vec<Cell>| r@) == p@,
{
    assert(rows@.map_values(|r: Vec<Cell>| r@) =~= p@);
}

} // verus!
