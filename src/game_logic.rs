use crate::puzzle::{grid_update, letters_valid, Cell, Puzzle};
use vstd::arithmetic::div_mod::lemma_fundamental_div_mod_converse;
use vstd::prelude::*;

verus! {

/// The tier that follows `d`: 1, 2 and 3 in turn.
pub open spec fn next_difficulty(d: u32) -> u32 {
    (d % 3 + 1) as u32
}

/// Coordinate `v` moved by `d` on a ring of `n` positions.
pub open spec fn wrap(v: int, d: int, n: int) -> int {
    (v + d) % n
}

/// What toggling does to a cell: free and marked swap, obstacles stay.
pub open spec fn toggled(c: Cell) -> Cell {
    match c {
        Cell::Empty => Cell::Marked,
        Cell::Marked => Cell::Empty,
        Cell::Obstacle(l) => Cell::Obstacle(l),
    }
}

/// The cursor movement that a key asks for, as (row, column) steps.
pub open spec fn move_of(input: char) -> Option<(int, int)> {
    if input == 'w' {
        Some((-1, 0))
    } else if input == 's' {
        Some((1, 0))
    } else if input == 'a' {
        Some((0, -1))
    } else if input == 'd' {
        Some((0, 1))
    } else {
        None
    }
}

/// Saved parts that make a session: the tier is one of 1, 2 and 3, and a
/// grid, if any, has lettered obstacles and the cursor on it.
pub open spec fn restorable(puzzle: Option<Puzzle>, difficulty: u32, cursor: (usize, usize)) -> bool {
    &&& 1 <= difficulty <= 3
    &&& match puzzle {
        Some(p) => letters_valid(p@) && cursor.0 < p@.len() && cursor.1 < p@.len(),
        None => true,
    }
}

/// A puzzle session: the grid being played, if any, the difficulty tier and
/// the cursor.
pub struct Game {
    puzzle: Option<Puzzle>,
    pub difficulty: u32,
    cursor: (usize, usize),
}

impl Game {
    /// The grid in play, if any.
    pub closed spec fn spec_puzzle(&self) -> Option<Puzzle> {
        self.puzzle
    }

    /// The difficulty tier.
    pub closed spec fn spec_difficulty(&self) -> u32 {
        self.difficulty
    }

    /// The cursor as (row, column).
    pub closed spec fn spec_cursor(&self) -> (usize, usize) {
        self.cursor
    }

    /// The side of the grid in play.
    pub open spec fn side(&self) -> int {
        self.spec_puzzle().unwrap()@.len() as int
    }

    /// The grid is well formed and the cursor lies on it.
    pub open spec fn wf(&self) -> bool {
        match self.spec_puzzle() {
            Some(p) => p.wf() && self.spec_cursor().0 < p@.len() && self.spec_cursor().1 < p@.len(),
            None => true,
        }
    }

    /// The cell under the cursor.
    pub open spec fn spec_current(&self) -> Cell {
        self.spec_puzzle().unwrap()@[self.spec_cursor().0 as int][self.spec_cursor().1 as int]
    }

    /// A session with no grid, tier 1, cursor at the top left.
    pub fn new() -> (g: Game)
        ensures
            g.wf(),
            g.spec_puzzle() is None,
            g.spec_difficulty() == 1,
            g.spec_cursor() == (0usize, 0usize),
    {
        Game { puzzle: None, difficulty: 1, cursor: (0, 0) }
    }

    /// Installs a grid and puts the cursor back at the top left.
    pub fn set_puzzle(&mut self, puzzle: Puzzle)
        requires
            puzzle.wf(),
        ensures
            final(self).wf(),
            final(self).spec_puzzle() == Some(puzzle),
            final(self).spec_cursor() == (0usize, 0usize),
            final(self).spec_difficulty() == old(self).spec_difficulty(),
    {
        self.puzzle = Some(puzzle);
        self.cursor = (0, 0);
    }

    /// The grid in play, if any.
    pub fn puzzle(&self) -> (p: Option<&Puzzle>)
        ensures
            p is Some <==> self.spec_puzzle() is Some,
            p is Some ==> *p.unwrap() == self.spec_puzzle().unwrap(),
    {
        match &self.puzzle {
            Some(p) => Some(p),
            None => None,
        }
    }

    /// The difficulty tier, as the `difficulty` field holds it.
    pub fn difficulty(&self) -> (d: u32)
        ensures
            d == self.spec_difficulty(),
    {
        self.difficulty
    }

    /// The cursor as (row, column).
    pub fn cursor(&self) -> (c: (usize, usize))
        ensures
            c == self.spec_cursor(),
    {
        self.cursor
    }

    /// One coordinate moved by `d` in `-1..=1` on a ring of `n` positions.
    fn wrap_step(v: usize, d: i32, n: usize) -> (r: usize)
        requires
            v < n,
            -1 <= d <= 1,
        ensures
            r == wrap(v as int, d as int, n as int),
    {
        if d < 0 {
            if v == 0 {
                proof {
                    lemma_fundamental_div_mod_converse(v + d, n as int, -1, n - 1);
                }
                n - 1
            } else {
                proof {
                    lemma_fundamental_div_mod_converse(v + d, n as int, 0, v - 1);
                }
                v - 1
            }
        } else if d > 0 {
            if v + 1 == n {
                proof {
                    lemma_fundamental_div_mod_converse(v + d, n as int, 1, 0);
                }
                0
            } else {
                proof {
                    lemma_fundamental_div_mod_converse(v + d, n as int, 0, v + 1);
                }
                v + 1
            }
        } else {
            proof {
                lemma_fundamental_div_mod_converse(v + d, n as int, 0, v as int);
            }
            v
        }
    }

    fn move_cursor(&mut self, delta: (i32, i32), size: usize)
        requires
            old(self).spec_cursor().0 < size,
            old(self).spec_cursor().1 < size,
            -1 <= delta.0 <= 1,
            -1 <= delta.1 <= 1,
        ensures
            final(self).spec_puzzle() == old(self).spec_puzzle(),
            final(self).spec_difficulty() == old(self).spec_difficulty(),
            final(self).spec_cursor().0 == wrap(
                old(self).spec_cursor().0 as int,
                delta.0 as int,
                size as int,
            ),
            final(self).spec_cursor().1 == wrap(
                old(self).spec_cursor().1 as int,
                delta.1 as int,
                size as int,
            ),
    {
        let (y, x) = self.cursor;
        self.cursor = (Self::wrap_step(y, delta.0, size), Self::wrap_step(x, delta.1, size));
    }

    /// Swaps a free cell under the cursor with a marked one; obstacles stay.
    pub fn toggle_cell(&mut self)
        requires
            old(self).wf(),
        ensures
            final(self).wf(),
            final(self).spec_difficulty() == old(self).spec_difficulty(),
            final(self).spec_cursor() == old(self).spec_cursor(),
            old(self).spec_puzzle() is None ==> final(self).spec_puzzle() is None,
            old(self).spec_puzzle() is Some ==> {
                &&& final(self).spec_puzzle() is Some
                &&& final(self).spec_puzzle().unwrap()@ == grid_update(
                    old(self).spec_puzzle().unwrap()@,
                    old(self).spec_cursor().0 as int,
                    old(self).spec_cursor().1 as int,
                    toggled(old(self).spec_current()),
                )
            },
    {
        let (y, x) = self.cursor;
        match &mut self.puzzle {
            Some(puzzle) => {
                let current = puzzle.get(y, x);
                if current == Cell::Empty {
                    puzzle.set(y, x, Cell::Marked);
                } else if current == Cell::Marked {
                    puzzle.set(y, x, Cell::Empty);
                } else {
                    assert(toggled(current) == current);
                    assert(puzzle@ =~~= grid_update(puzzle@, y as int, x as int, toggled(current)));
                }
            },
            None => {},
        }
    }

    /// Carries out one key: `w`, `s`, `a`, `d` move the cursor up, down, left
    /// and right, wrapping round the edges; a space toggles the cell under the
    /// cursor. Other keys, and any key while no grid is in play, change nothing.
    pub fn process_input(&mut self, input: char)
        requires
            old(self).wf(),
        ensures
            final(self).wf(),
            final(self).spec_difficulty() == old(self).spec_difficulty(),
            old(self).spec_puzzle() is None ==> *final(self) == *old(self),
            old(self).spec_puzzle() is Some && move_of(input) is Some ==> {
                &&& final(self).spec_puzzle() == old(self).spec_puzzle()
                &&& final(self).spec_cursor().0 == wrap(
                    old(self).spec_cursor().0 as int,
                    move_of(input).unwrap().0,
                    old(self).side(),
                )
                &&& final(self).spec_cursor().1 == wrap(
                    old(self).spec_cursor().1 as int,
                    move_of(input).unwrap().1,
                    old(self).side(),
                )
            },
            old(self).spec_puzzle() is Some && input == ' ' ==> {
                &&& final(self).spec_cursor() == old(self).spec_cursor()
                &&& final(self).spec_puzzle() is Some
                &&& final(self).spec_puzzle().unwrap()@ == grid_update(
                    old(self).spec_puzzle().unwrap()@,
                    old(self).spec_cursor().0 as int,
                    old(self).spec_cursor().1 as int,
                    toggled(old(self).spec_current()),
                )
            },
            move_of(input) is None && input != ' ' ==> *final(self) == *old(self),
    {
        let size = match &self.puzzle {
            Some(puzzle) => puzzle.size(),
            None => {
                return;
            },
        };
        if input == 'w' {
            self.move_cursor((-1, 0), size);
        } else if input == 's' {
            self.move_cursor((1, 0), size);
        } else if input == 'a' {
            self.move_cursor((0, -1), size);
        } else if input == 'd' {
            self.move_cursor((0, 1), size);
        } else if input == ' ' {
            self.toggle_cell();
        }
    }

    /// Whether a grid is in play and has no free cell left.
    pub fn is_solved(&self) -> (solved: bool)
        requires
            self.wf(),
        ensures
            solved == (self.spec_puzzle() is Some && crate::puzzle::all_settled(
                self.spec_puzzle().unwrap()@,
            )),
    {
        match &self.puzzle {
            Some(p) => p.is_solved(),
            None => false,
        }
    }

    /// Moves to the next tier and drops the grid, so that a new one is made at
    /// the new size.
    pub fn increase_difficulty(&mut self)
        requires
            old(self).wf(),
        ensures
            final(self).wf(),
            final(self).spec_difficulty() == next_difficulty(old(self).spec_difficulty()),
            final(self).spec_puzzle() is None,
            final(self).spec_cursor() == old(self).spec_cursor(),
    {
        self.difficulty = (self.difficulty % 3) + 1;
        self.puzzle = None;
    }

    /// A session made of saved parts, when they make one: the tier is 1, 2 or
    /// 3, and a grid, if any, has lettered obstacles and the cursor on it.
    pub fn restore(puzzle: Option<Puzzle>, difficulty: u32, cursor: (usize, usize)) -> (g: Option<
        Game,
    >)
        requires
            puzzle is Some ==> puzzle.unwrap().wf(),
        ensures
            g is Some <==> restorable(puzzle, difficulty, cursor),
            g is Some ==> {
                &&& g.unwrap().wf()
                &&& g.unwrap().spec_puzzle() == puzzle
                &&& g.unwrap().spec_difficulty() == difficulty
                &&& g.unwrap().spec_cursor() == cursor
            },
    {
        let fits = 1 <= difficulty && difficulty <= 3 && match &puzzle {
            Some(p) => cursor.0 < p.size() && cursor.1 < p.size() && p.has_valid_letters(),
            None => true,
        };
        if fits {
            Some(Game { puzzle, difficulty, cursor })
        } else {
            None
        }
    }
}

/// Saving and restoring keep a session: `restore` accepts the parts of every
/// well-formed session on a tier whose obstacles carry letters, and a session
/// that agrees with it in grid, difficulty and cursor is that session.
pub proof fn lemma_restore_round_trip(g: Game, h: Game)
    requires
        g.wf(),
        1 <= g.spec_difficulty() <= 3,
        g.spec_puzzle() is Some ==> letters_valid(g.spec_puzzle().unwrap()@),
        h.spec_puzzle() == g.spec_puzzle(),
        h.spec_difficulty() == g.spec_difficulty(),
        h.spec_cursor() == g.spec_cursor(),
    ensures
        restorable(g.spec_puzzle(), g.spec_difficulty(), g.spec_cursor()),
        h == g,
{
}

/// Moving off an edge comes back on the opposite edge.
pub proof fn lemma_wrap_edges(n: int, v: int)
    requires
        n > 0,
        0 <= v < n,
    ensures
        wrap(0, -1, n) == n - 1,
        wrap(n - 1, 1, n) == 0,
        wrap(v, 0, n) == v,
{
    lemma_fundamental_div_mod_converse(-1, n, -1, n - 1);
    lemma_fundamental_div_mod_converse(n, n, 1, 0);
    lemma_fundamental_div_mod_converse(v, n, 0, v);
}

/// Toggling twice gives the cell back; an obstacle is never changed.
pub proof fn lemma_toggle_twice(c: Cell)
    ensures
        toggled(toggled(c)) == c,
        c is Obstacle ==> toggled(c) == c,
{
}

/// The tiers go 1, 2, 3 and back to 1; from any value the next is a tier.
pub proof fn lemma_difficulty_cycle(d: u32)
    ensures
        next_difficulty(1) == 2,
        next_difficulty(2) == 3,
        next_difficulty(3) == 1,
        1 <= next_difficulty(d) <= 3,
{
}

} // verus!
