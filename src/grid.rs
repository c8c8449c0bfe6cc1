use vstd::prelude::*;
use crate::model::{
    add_at, adjacent, can_topple, degree, in_grid, is_config, mass, stable, topple_at, unit_weight, zeros, Config,
};
use crate::pile::Pile;
use crate::sums::{lemma_add_at_sum, lemma_topple_as_adds, lemma_topple_mass};

verus! {

/// A square grid of piles, stored row by row in one buffer.
#[derive(Debug)]
pub struct SandBox {
    size: usize,
    piles: Vec<Pile>,
}

impl View for SandBox {
    type V = Config;

    closed spec fn view(&self) -> Config {
        Seq::new(
            self.size as nat,
            |i: int| Seq::new(self.size as nat, |j: int| self.piles@[i * self.size + j].height as int),
        )
    }
}

proof fn lemma_offset_before(n: int, a: int, b: int, i: int)
    by (nonlinear_arith)
    requires
        0 <= a < i,
        0 <= b < n,
    ensures
        a * n + b < i * n,
{
}

/// Row-major offsets of the cells of an n-by-n grid are in range and tell cells apart.
proof fn lemma_offset(n: int, i: int, j: int)
    requires
        in_grid(n, i, j),
    ensures
        0 <= i * n + j < n * n,
        forall|a: int, b: int|
            in_grid(n, a, b) && #[trigger] (a * n + b) == i * n + j ==> a == i && b == j,
{
    lemma_offset_before(n, i, j, n);
    assert(0 <= i * n) by (nonlinear_arith)
        requires
            0 <= i,
            0 <= n,
    ;
    assert forall|a: int, b: int| in_grid(n, a, b) && #[trigger] (a * n + b) == i * n + j implies a == i
        && b == j by {
        if a < i {
            lemma_offset_before(n, a, b, i);
        } else if i < a {
            lemma_offset_before(n, i, j, a);
        }
    }
}

impl SandBox {
    /// The buffer holds one pile per cell.
    pub closed spec fn wf(&self) -> bool {
        self.piles.len() == self.size * self.size
    }

    /// A grid of `size` by `size` empty piles.
    pub fn new(size: usize) -> (r: SandBox)
        requires
            size * size <= usize::MAX,
        ensures
            r.wf(),
            r@ == zeros(size as nat),
    {
        let total = size * size;
        let mut piles: Vec<Pile> = Vec::new();
        while piles.len() < total
            invariant
                piles.len() <= total,
                forall|k: int| 0 <= k < piles.len() ==> #[trigger] piles@[k].height == 0,
            decreases total - piles.len(),
        {
            piles.push(Pile::new());
        }
        let r = SandBox { size, piles };
        assert forall|i: int, j: int| in_grid(size as int, i, j) implies #[trigger] r@[i][j] == 0 by {
            lemma_offset(size as int, i, j);
        }
        assert(r@ =~~= zeros(size as nat));
        r
    }

    /// A grid with the given rows of heights; `None` unless there are as many rows as each
    /// row has cells, and their number squared fits in a `usize`.
    pub fn from_rows(rows: &Vec<Vec<u32>>) -> (r: Option<SandBox>)
        ensures
            r is Some <==> (forall|i: int| 0 <= i < rows@.len() ==> #[trigger] rows@[i]@.len()
                == rows@.len()) && rows@.len() * rows@.len() <= usize::MAX,
            r matches Some(b) ==> b.wf() && b@ == Seq::new(
                rows@.len(),
                |i: int| Seq::new(rows@.len(), |j: int| rows@[i]@[j] as int),
            ),
    {
        let size = rows.len();
        let total = match size.checked_mul(size) {
            Some(t) => t,
            None => return None,
        };
        let mut piles: Vec<Pile> = Vec::new();
        let mut i: usize = 0;
        while i < size
            invariant
                i <= size,
                total == size * size,
                size == rows@.len(),
                piles.len() == i * size,
                forall|a: int| 0 <= a < i ==> #[trigger] rows@[a]@.len() == size,
                forall|a: int, b: int|
                    0 <= a < i && 0 <= b < size ==> piles@[a * size + b].height == #[trigger] rows@[a]@[b],
            decreases size - i,
        {
            let row = &rows[i];
            if row.len() != size {
                return None;
            }
            let mut j: usize = 0;
            while j < size
                invariant
                    i < size,
                    j <= size,
                    total == size * size,
                    size == rows@.len(),
                    row@ == rows@[i as int]@,
                    row@.len() == size,
                    piles.len() == i * size + j,
                    forall|a: int, b: int|
                        0 <= a < i && 0 <= b < size ==> piles@[a * size + b].height
                            == #[trigger] rows@[a]@[b],
                    forall|b: int| 0 <= b < j ==> piles@[i * size + b].height == #[trigger] row@[b],
                decreases size - j,
            {
                proof {
                    lemma_offset(size as int, i as int, j as int);
                }
                let ghost prev = piles@;
                piles.push(Pile { height: row[j] });
                assert forall|a: int, b: int| 0 <= a < i && 0 <= b < size implies piles@[a * size
                    + b].height == #[trigger] rows@[a]@[b] by {
                    lemma_offset_before(size as int, a, b, i as int);
                    assert(piles@[a * size + b] == prev[a * size + b]);
                }
                j = j + 1;
            }
            assert((i + 1) * size == i * size + size) by (nonlinear_arith);
            i = i + 1;
        }
        assert(piles.len() == size * size);
        let r = SandBox { size, piles };
        assert(r@ =~~= Seq::new(size as nat, |i: int| Seq::new(size as nat, |j: int| rows@[i]@[j] as int)));
        Some(r)
    }

    /// Every grid is square and holds no negative height.
    pub proof fn lemma_view_is_config(&self)
        ensures
            is_config(self@),
    {
    }

    /// The side length of the grid.
    pub fn size(&self) -> (r: usize)
        ensures
            r == self@.len(),
    {
        self.size
    }

    fn offset(&self, i: usize, j: usize) -> (k: usize)
        requires
            self.wf(),
            in_grid(self@.len() as int, i as int, j as int),
        ensures
            k == i * self.size + j,
            k < self.piles.len(),
            forall|a: int, b: int|
                in_grid(self@.len() as int, a, b) && #[trigger] (a * self.size + b) == k ==> a == i && b
                    == j,
    {
        proof {
            lemma_offset(self.size as int, i as int, j as int);
        }
        i * self.size + j
    }

    fn pile_at(&self, i: usize, j: usize) -> (p: Pile)
        requires
            self.wf(),
            in_grid(self@.len() as int, i as int, j as int),
        ensures
            p.height == self@[i as int][j as int],
    {
        let k = self.offset(i, j);
        self.piles[k]
    }

    /// The number of grains at (i, j).
    pub fn height(&self, i: usize, j: usize) -> (r: u32)
        requires
            self.wf(),
            in_grid(self@.len() as int, i as int, j as int),
        ensures
            r == self@[i as int][j as int],
    {
        self.pile_at(i, j).height
    }

    /// The heights, row by row.
    pub fn rows(&self) -> (r: Vec<Vec<u32>>)
        requires
            self.wf(),
        ensures
            r@.len() == self@.len(),
            forall|i: int| 0 <= i < r@.len() ==> #[trigger] r@[i]@.len() == self@.len(),
            forall|i: int, j: int| in_grid(self@.len() as int, i, j) ==> #[trigger] r@[i]@[j] == self@[i][j],
    {
        let n = self.size;
        let mut r: Vec<Vec<u32>> = Vec::new();
        let mut i: usize = 0;
        while i < n
            invariant
                self.wf(),
                n == self@.len(),
                i <= n,
                r@.len() == i,
                forall|a: int| 0 <= a < i ==> #[trigger] r@[a]@.len() == n,
                forall|a: int, b: int| 0 <= a < i && 0 <= b < n ==> #[trigger] r@[a]@[b] == self@[a][b],
            decreases n - i,
        {
            let mut row: Vec<u32> = Vec::new();
            let mut j: usize = 0;
            while j < n
                invariant
                    self.wf(),
                    n == self@.len(),
                    i < n,
                    j <= n,
                    row@.len() == j,
                    forall|b: int| 0 <= b < j ==> #[trigger] row@[b] == self@[i as int][b],
                decreases n - j,
            {
                row.push(self.height(i, j));
                j = j + 1;
            }
            r.push(row);
            i = i + 1;
        }
        r
    }

    fn put_pile(&mut self, i: usize, j: usize, p: Pile)
        requires
            old(self).wf(),
            in_grid(old(self)@.len() as int, i as int, j as int),
        ensures
            final(self).wf(),
            final(self)@ == old(self)@.update(
                i as int,
                old(self)@[i as int].update(j as int, p.height as int),
            ),
    {
        let ghost n = self.size as int;
        let k = self.offset(i, j);
        self.piles.set(k, p);
        proof {
            let target = old(self)@.update(
                i as int,
                old(self)@[i as int].update(j as int, p.height as int),
            );
            assert forall|a: int, b: int| in_grid(n, a, b) implies #[trigger] self@[a][b]
                == target[a][b] by {
                lemma_offset(n, a, b);
                if a != i || b != j {
                    assert(a * n + b != k);
                }
            }
            assert(self@ =~~= target);
        }
    }
}

/// Whether a grid may relax any further, and where the next topple fires.
#[derive(Clone, Copy, Debug, PartialEq, Eq)]
pub enum State {
    Stable,
    Unstable((usize, usize)),
}

/// Adds one grain at `to`.
pub fn add_grain(sand_box: &mut SandBox, to: (usize, usize))
    requires
        old(sand_box).wf(),
        in_grid(old(sand_box)@.len() as int, to.0 as int, to.1 as int),
        old(sand_box)@[to.0 as int][to.1 as int] < u32::MAX,
    ensures
        final(sand_box).wf(),
        final(sand_box)@ == add_at(old(sand_box)@, to.0 as int, to.1 as int, 1),
        mass(final(sand_box)@) == mass(old(sand_box)@) + 1,
{
    let mut p = sand_box.pile_at(to.0, to.1);
    p.add_grain();
    sand_box.put_pile(to.0, to.1, p);
    proof {
        lemma_add_at_sum(old(sand_box)@, to.0 as int, to.1 as int, 1, unit_weight());
    }
}

/// Topples the cell `to_topple`: it loses four grains and each neighbour on the grid gets one;
/// the grains meant for neighbours off the grid are lost.
pub fn topple(sand_box: &mut SandBox, to_topple: (usize, usize))
    requires
        old(sand_box).wf(),
        can_topple(old(sand_box)@, (to_topple.0 as int, to_topple.1 as int)),
        forall|a: int, b: int|
            in_grid(old(sand_box)@.len() as int, a, b) && adjacent(a, b, to_topple.0 as int, to_topple.1 as int)
                ==> #[trigger] old(sand_box)@[a][b] < u32::MAX,
    ensures
        final(sand_box).wf(),
        final(sand_box)@ == topple_at(old(sand_box)@, to_topple.0 as int, to_topple.1 as int),
        mass(final(sand_box)@) == mass(old(sand_box)@) - (4 - degree(
            old(sand_box)@.len() as int,
            to_topple.0 as int,
            to_topple.1 as int,
        )),
{
    let i = to_topple.0;
    let j = to_topple.1;
    let n = sand_box.size();
    let ghost c = sand_box@;

    // four grains leave the cell
    let mut p = sand_box.pile_at(i, j);
    p.drop_grains();
    sand_box.put_pile(i, j, p);

    // one goes to each neighbour on the grid
    if i + 1 < n {
        add_grain(sand_box, (i + 1, j));
    }
    if i >= 1 {
        add_grain(sand_box, (i - 1, j));
    }
    if j + 1 < n {
        add_grain(sand_box, (i, j + 1));
    }
    if j >= 1 {
        add_grain(sand_box, (i, j - 1));
    }
    proof {
        lemma_topple_as_adds(c, i as int, j as int);
        lemma_topple_mass(c, i as int, j as int);
    }
}

/// The first cell in row-major order that holds four grains or more, if any.
pub fn is_stable(sand_box: &SandBox) -> (r: State)
    requires
        sand_box.wf(),
    ensures
        r == State::Stable <==> stable(sand_box@),
        r matches State::Unstable((i, j)) ==> can_topple(sand_box@, (i as int, j as int)) && forall|
            a: int,
            b: int,
        |
            in_grid(sand_box@.len() as int, a, b) && (a < i || (a == i && b < j))
                ==> #[trigger] sand_box@[a][b] < 4,
{
    let n = sand_box.size();
    let mut i: usize = 0;
    while i < n
        invariant
            sand_box.wf(),
            n == sand_box@.len(),
            i <= n,
            forall|a: int, b: int| 0 <= a < i && 0 <= b < n ==> #[trigger] sand_box@[a][b] < 4,
        decreases n - i,
    {
        let mut j: usize = 0;
        while j < n
            invariant
                sand_box.wf(),
                n == sand_box@.len(),
                i < n,
                j <= n,
                forall|a: int, b: int| 0 <= a < i && 0 <= b < n ==> #[trigger] sand_box@[a][b] < 4,
                forall|b: int| 0 <= b < j ==> #[trigger] sand_box@[i as int][b] < 4,
            decreases n - j,
        {
            if !sand_box.pile_at(i, j).is_stable() {
                return State::Unstable((i, j));
            }
            j = j + 1;
        }
        i = i + 1;
    }
    State::Stable
}

/// Relies on rand::random_range: on a non-empty range it returns an index inside it (it panics
/// on an empty one).
#[verifier::external_body]
fn random_below(bound: usize) -> (r: usize)
    requires
        bound > 0,
    ensures
        r < bound,
{
    rand::random_range(0..bound)
}

/// Adds one grain at a cell drawn at random.
pub fn add_random_grain(sand_box: &mut SandBox)
    requires
        old(sand_box).wf(),
        old(sand_box)@.len() > 0,
        forall|a: int, b: int|
            in_grid(old(sand_box)@.len() as int, a, b) ==> #[trigger] old(sand_box)@[a][b] < u32::MAX,
    ensures
        final(sand_box).wf(),
        exists|i: int, j: int|
            in_grid(old(sand_box)@.len() as int, i, j) && #[trigger] add_at(old(sand_box)@, i, j, 1)
                == final(sand_box)@,
{
    let n = sand_box.size();
    let i = random_below(n);
    let j = random_below(n);
    add_grain(sand_box, (i, j));
}

} // verus!
