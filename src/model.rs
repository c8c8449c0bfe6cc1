use vstd::prelude::*;

verus! {

/// The heights of a grid, row by row.
pub type Config = Seq<Seq<int>>;

/// A position (row, column); it may lie off the grid.
pub type Cell = (int, int);

pub open spec fn in_grid(n: int, i: int, j: int) -> bool {
    0 <= i < n && 0 <= j < n
}

/// Every row is as long as there are rows.
pub open spec fn is_square(c: Config) -> bool {
    forall|i: int| 0 <= i < c.len() ==> #[trigger] c[i].len() == c.len()
}

/// A square grid with no negative height.
pub open spec fn is_config(c: Config) -> bool {
    &&& is_square(c)
    &&& forall|i: int, j: int| in_grid(c.len() as int, i, j) ==> #[trigger] c[i][j] >= 0
}

/// (a, b) is one of the four orthogonal neighbours of (i, j).
pub open spec fn adjacent(a: int, b: int, i: int, j: int) -> bool {
    (a == i && (b == j - 1 || b == j + 1)) || (b == j && (a == i - 1 || a == i + 1))
}

/// The n-by-n grid with no grain on it.
pub open spec fn zeros(n: nat) -> Config {
    Seq::new(n, |i: int| Seq::new(n, |j: int| 0int))
}

/// `c` with `d` grains added at (i, j); a position off the grid changes nothing.
pub open spec fn add_at(c: Config, i: int, j: int, d: int) -> Config {
    if in_grid(c.len() as int, i, j) {
        c.update(i, c[i].update(j, c[i][j] + d))
    } else {
        c
    }
}

/// One topple at (i, j): four grains leave it and each neighbour on the grid gets one.
pub open spec fn topple_at(c: Config, i: int, j: int) -> Config {
    Seq::new(
        c.len(),
        |a: int|
            Seq::new(
                c[a].len(),
                |b: int|
                    c[a][b] - (if a == i && b == j { 4int } else { 0int }) + (if adjacent(a, b, i, j) {
                        1int
                    } else {
                        0int
                    }),
            ),
    )
}

/// No cell holds four grains or more.
pub open spec fn stable(c: Config) -> bool {
    forall|i: int, j: int| in_grid(c.len() as int, i, j) ==> #[trigger] c[i][j] < 4
}

/// The cell lies on the grid and may topple.
pub open spec fn can_topple(c: Config, x: Cell) -> bool {
    in_grid(c.len() as int, x.0, x.1) && c[x.0][x.1] >= 4
}

/// The grid after the topples of `t`, in order.
pub open spec fn run(c: Config, t: Seq<Cell>) -> Config
    decreases t.len(),
{
    if t.len() == 0 {
        c
    } else {
        topple_at(run(c, t.drop_last()), t.last().0, t.last().1)
    }
}

/// Every topple of `t` fires on a cell that holds four grains or more at its turn.
pub open spec fn legal(c: Config, t: Seq<Cell>) -> bool
    decreases t.len(),
{
    t.len() == 0 || (legal(c, t.drop_last()) && can_topple(run(c, t.drop_last()), t.last()))
}

/// How often `x` topples in `t`.
pub open spec fn count(t: Seq<Cell>, x: Cell) -> int
    decreases t.len(),
{
    if t.len() == 0 {
        0
    } else {
        count(t.drop_last(), x) + if t.last() == x {
            1int
        } else {
            0int
        }
    }
}

/// The number of neighbours of (i, j) that lie on an n-by-n grid.
pub open spec fn degree(n: int, i: int, j: int) -> int {
    (if i > 0 { 1int } else { 0int }) + (if i < n - 1 { 1int } else { 0int }) + (if j > 0 {
        1int
    } else {
        0int
    }) + (if j < n - 1 { 1int } else { 0int })
}

/// (i, j) lies on the grid and has all four of its neighbours there.
pub open spec fn interior(n: int, x: Cell) -> bool {
    0 < x.0 < n - 1 && 0 < x.1 < n - 1
}

/// The grains that the topples of `t` send off an n-by-n grid.
pub open spec fn lost(n: int, t: Seq<Cell>) -> int
    decreases t.len(),
{
    if t.len() == 0 {
        0
    } else {
        lost(n, t.drop_last()) + 4 - degree(n, t.last().0, t.last().1)
    }
}

/// Sum of the heights of row `i`, each times its weight.
pub open spec fn row_sum(r: Seq<int>, i: int, w: spec_fn(int, int) -> int) -> int
    decreases r.len(),
{
    if r.len() == 0 {
        0
    } else {
        row_sum(r.drop_last(), i, w) + r.last() * w(i, r.len() - 1)
    }
}

/// Sum of all heights, each times its weight.
pub open spec fn grid_sum(c: Config, w: spec_fn(int, int) -> int) -> int
    decreases c.len(),
{
    if c.len() == 0 {
        0
    } else {
        grid_sum(c.drop_last(), w) + row_sum(c.last(), c.len() - 1, w)
    }
}

pub open spec fn unit_weight() -> spec_fn(int, int) -> int {
    |i: int, j: int| 1int
}

/// The total number of grains.
pub open spec fn mass(c: Config) -> int {
    grid_sum(c, unit_weight())
}

/// A concave profile along one axis, zero just off both ends.
pub open spec fn tent(n: int, i: int) -> int {
    (i + 1) * (n - i)
}

pub open spec fn tent_weight(n: int) -> spec_fn(int, int) -> int {
    |i: int, j: int| tent(n, i) + tent(n, j)
}

/// A weighted mass that every topple lowers: cells far from the edge weigh more.
pub open spec fn potential(c: Config) -> int {
    grid_sum(c, tent_weight(c.len() as int))
}

/// Some legal sequence of topples leads from `c` to the stable grid `d`.
pub open spec fn stabilizes_to(c: Config, d: Config) -> bool {
    stable(d) && exists|t: Seq<Cell>| legal(c, t) && #[trigger] run(c, t) == d
}

/// The stable grid that `c` relaxes to.
pub open spec fn stabilized(c: Config) -> Config {
    choose|d: Config| stabilizes_to(c, d)
}

/// The grid after `k` rounds of adding a grain at (i, j) and relaxing, from `c`.
pub open spec fn after_steps(c: Config, i: int, j: int, k: nat) -> Config
    decreases k,
{
    if k == 0 {
        c
    } else {
        stabilized(add_at(after_steps(c, i, j, (k - 1) as nat), i, j, 1))
    }
}

} // verus!
