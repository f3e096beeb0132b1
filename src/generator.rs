use crate::puzzle::{all_settled, empty_grid, grid_update, is_letter, Cell, Puzzle};
use rand::Rng;
use vstd::prelude::*;

verus! {

#[verifier::external_type_specification]
#[verifier::external_body]
pub struct ExThreadRng(rand::rngs::ThreadRng);

/// Relies on rand::thread_rng: hands out the thread-local generator; nothing is
/// known of what it will draw.
pub assume_specification[ rand::thread_rng ]() -> rand::rngs::ThreadRng;

/// Relies on rand::Rng::gen_range: a value of `0..n`. It panics on an empty
/// range, which `n > 0` rules out.
#[verifier::external_body]
fn random_below(rng: &mut rand::rngs::ThreadRng, n: usize) -> (r: usize)
    requires
        n > 0,
    ensures
        r < n,
{
    rng.gen_range(0..n)
}

/// Side length of the grid for a difficulty tier.
pub open spec fn side_for(difficulty: u32) -> nat {
    if difficulty == 1 {
        4
    } else if difficulty == 2 {
        5
    } else {
        6
    }
}

/// How many placements the generator tries on a grid of side `n`.
pub open spec fn attempts_for(n: nat) -> nat {
    n * n / 3
}

/// The `i`-th letter of the alphabet, from `'A'`.
pub open spec fn letter_at(i: int) -> char {
    (65 + i) as char
}

/// Every cell is free or an obstacle labelled by a letter.
pub open spec fn is_fresh(g: Seq<Seq<Cell>>) -> bool {
    forall|i: int, j: int|
        0 <= i < g.len() && 0 <= j < g[i].len() ==> {
            let c = #[trigger] g[i][j];
            c == Cell::Empty || (c is Obstacle && is_letter(c->Obstacle_0))
        }
}

/// 1 for an obstacle, 0 for any other cell.
pub open spec fn obstacle_weight(c: Cell) -> nat {
    if c is Obstacle {
        1
    } else {
        0
    }
}

/// Number of obstacles in a row.
pub open spec fn row_obstacles(r: Seq<Cell>) -> nat
    decreases r.len(),
{
    if r.len() == 0 {
        0
    } else {
        row_obstacles(r.drop_last()) + obstacle_weight(r.last())
    }
}

/// Number of obstacles in a grid.
pub open spec fn obstacle_count(g: Seq<Seq<Cell>>) -> nat
    decreases g.len(),
{
    if g.len() == 0 {
        0
    } else {
        obstacle_count(g.drop_last()) + row_obstacles(g.last())
    }
}

proof fn lemma_row_obstacles_update(r: Seq<Cell>, j: int, v: Cell)
    requires
        0 <= j < r.len(),
    ensures
        row_obstacles(r.update(j, v)) + obstacle_weight(r[j]) == row_obstacles(r) + obstacle_weight(v),
    decreases r.len(),
{
    let u = r.update(j, v);
    if j == r.len() - 1 {
        assert(u.drop_last() =~= r.drop_last());
    } else {
        lemma_row_obstacles_update(r.drop_last(), j, v);
        assert(u.drop_last() =~= r.drop_last().update(j, v));
    }
}

proof fn lemma_obstacle_count_update(g: Seq<Seq<Cell>>, i: int, row: Seq<Cell>)
    requires
        0 <= i < g.len(),
    ensures
        obstacle_count(g.update(i, row)) + row_obstacles(g[i]) == obstacle_count(g) + row_obstacles(row),
    decreases g.len(),
{
    let u = g.update(i, row);
    if i == g.len() - 1 {
        assert(u.drop_last() =~= g.drop_last());
    } else {
        lemma_obstacle_count_update(g.drop_last(), i, row);
        assert(u.drop_last() =~= g.drop_last().update(i, row));
    }
}

proof fn lemma_row_obstacles_empty(n: nat)
    ensures
        row_obstacles(Seq::new(n, |j: int| Cell::Empty)) == 0,
    decreases n,
{
    if n > 0 {
        lemma_row_obstacles_empty((n - 1) as nat);
        assert(Seq::new(n, |j: int| Cell::Empty).drop_last() =~= Seq::new((n - 1) as nat, |j: int| Cell::Empty));
    }
}

proof fn lemma_obstacle_count_empty(n: nat, k: nat)
    requires
        k <= n,
    ensures
        obstacle_count(Seq::new(k, |i: int| Seq::new(n, |j: int| Cell::Empty))) == 0,
    decreases k,
{
    if k > 0 {
        lemma_obstacle_count_empty(n, (k - 1) as nat);
        lemma_row_obstacles_empty(n);
        assert(Seq::new(k, |i: int| Seq::new(n, |j: int| Cell::Empty)).drop_last()
            =~= Seq::new((k - 1) as nat, |i: int| Seq::new(n, |j: int| Cell::Empty)));
    }
}

/// Changing one cell changes the obstacle count by what the cell gains or loses.
pub proof fn lemma_obstacle_count_set(g: Seq<Seq<Cell>>, r: int, c: int, v: Cell)
    requires
        0 <= r < g.len(),
        0 <= c < g[r].len(),
    ensures
        obstacle_count(grid_update(g, r, c, v)) + obstacle_weight(g[r][c]) == obstacle_count(g)
            + obstacle_weight(v),
{
    lemma_row_obstacles_update(g[r], c, v);
    lemma_obstacle_count_update(g, r, g[r].update(c, v));
}

/// The side length for a difficulty tier: 4, 5, and 6 for every other tier.
pub fn side_for_difficulty(difficulty: u32) -> (n: usize)
    ensures
        n == side_for(difficulty),
{
    if difficulty == 1 {
        4
    } else if difficulty == 2 {
        5
    } else {
        6
    }
}

/// The `i`-th letter of the alphabet.
pub fn letter_from_index(i: usize) -> (c: char)
    requires
        i < 26,
    ensures
        c == letter_at(i as int),
        is_letter(c),
{
    ((65u8 + i as u8) as char)
}

/// One placement attempt: a free cell at `(row, col)` becomes an obstacle
/// labelled `letter`; any other cell is left as it is.
pub fn place_obstacle(puzzle: &mut Puzzle, row: usize, col: usize, letter: char)
    requires
        old(puzzle).wf(),
        row < old(puzzle)@.len(),
        col < old(puzzle)@.len(),
    ensures
        final(puzzle).wf(),
        old(puzzle)@[row as int][col as int] == Cell::Empty ==> final(puzzle)@ == grid_update(
            old(puzzle)@,
            row as int,
            col as int,
            Cell::Obstacle(letter),
        ),
        old(puzzle)@[row as int][col as int] != Cell::Empty ==> final(puzzle)@ == old(puzzle)@,
{
    if puzzle.get(row, col) == Cell::Empty {
        puzzle.set(row, col, Cell::Obstacle(letter));
    }
}

/// One placement attempt at `(a.0, a.1)` with letter `a.2`: a free cell
/// becomes an obstacle, any other cell stays as it is.
pub open spec fn attempt(g: Seq<Seq<Cell>>, a: (int, int, char)) -> Seq<Seq<Cell>> {
    if g[a.0][a.1] == Cell::Empty {
        grid_update(g, a.0, a.1, Cell::Obstacle(a.2))
    } else {
        g
    }
}

/// The grid that the attempts of `d`, made in order, leave of `g`.
pub open spec fn placed(g: Seq<Seq<Cell>>, d: Seq<(int, int, char)>) -> Seq<Seq<Cell>>
    decreases d.len(),
{
    if d.len() == 0 {
        g
    } else {
        attempt(placed(g, d.drop_last()), d.last())
    }
}

/// Every attempt of `d` targets a cell of a grid of side `n` with a letter.
pub open spec fn valid_draws(d: Seq<(int, int, char)>, n: int) -> bool {
    forall|k: int|
        0 <= k < d.len() ==> {
            let a = #[trigger] d[k];
            0 <= a.0 < n && 0 <= a.1 < n && is_letter(a.2)
        }
}

/// `g` is what the generator makes of a free grid of side `n` when its
/// attempts are those of `d`.
pub open spec fn generated_from(g: Seq<Seq<Cell>>, n: nat, d: Seq<(int, int, char)>) -> bool {
    &&& d.len() == attempts_for(n)
    &&& valid_draws(d, n as int)
    &&& g == placed(empty_grid(n), d)
}

/// A new grid for `difficulty`: free cells, with `floor(n * n / 3)` placement
/// attempts at random positions. An attempt on a free cell draws a letter and
/// puts an obstacle there; one that hits an obstacle is not retried.
pub fn generate_puzzle(difficulty: u32) -> (p: Puzzle)
    ensures
        p.wf(),
        p@.len() == side_for(difficulty),
        exists|d: Seq<(int, int, char)>| #[trigger] generated_from(p@, side_for(difficulty), d),
        is_fresh(p@),
        1 <= obstacle_count(p@) <= attempts_for(side_for(difficulty)),
{
    let size = side_for_difficulty(difficulty);
    let mut puzzle = Puzzle::new(size);
    let mut rng = rand::thread_rng();
    let attempts = size * size / 3;
    proof {
        lemma_obstacle_count_empty(size as nat, size as nat);
        assert(size * size >= 16) by (nonlinear_arith)
            requires
                size >= 4,
        ;
    }
    let ghost mut draws: Seq<(int, int, char)> = Seq::empty();
    let mut k: usize = 0;
    while k < attempts
        invariant
            puzzle.wf(),
            puzzle@.len() == size,
            size == side_for(difficulty),
            attempts == attempts_for(size as nat),
            attempts >= 1,
            k <= attempts,
            draws.len() == k,
            valid_draws(draws, size as int),
            puzzle@ == placed(empty_grid(size as nat), draws),
            is_fresh(puzzle@),
            obstacle_count(puzzle@) <= k,
            k > 0 ==> obstacle_count(puzzle@) >= 1,
        decreases attempts - k,
    {
        let ghost before = draws;
        let row = random_below(&mut rng, size);
        let col = random_below(&mut rng, size);
        if puzzle.get(row, col) == Cell::Empty {
            let letter = letter_from_index(random_below(&mut rng, 26));
            proof {
                lemma_obstacle_count_set(puzzle@, row as int, col as int, Cell::Obstacle(letter));
                draws = draws.push((row as int, col as int, letter));
            }
            place_obstacle(&mut puzzle, row, col, letter);
        } else {
            proof {
                lemma_obstacle_count_set(puzzle@, row as int, col as int, Cell::Empty);
                draws = draws.push((row as int, col as int, 'A'));
            }
        }
        proof {
            assert(draws.drop_last() =~= before);
        }
        k = k + 1;
    }
    assert(generated_from(puzzle@, size as nat, draws));
    puzzle
}

/// A grid fresh from the generator that still has a cell without an obstacle
/// is not solved.
pub proof fn lemma_fresh_grid_unsolved(g: Seq<Seq<Cell>>, r: int, c: int)
    requires
        is_fresh(g),
        0 <= r < g.len(),
        0 <= c < g[r].len(),
        !(g[r][c] is Obstacle),
    ensures
        !all_settled(g),
{
    assert(g[r][c] == Cell::Empty);
}

} // verus!
