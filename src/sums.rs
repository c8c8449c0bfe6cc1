use vstd::prelude::*;
use crate::model::{
    add_at, can_topple, degree, grid_sum, in_grid, is_config, is_square, mass, potential, row_sum,
    tent, tent_weight, topple_at, unit_weight, Config,
};

verus! {

proof fn lemma_row_add(r: Seq<int>, i: int, j: int, d: int, w: spec_fn(int, int) -> int)
    requires
        0 <= j < r.len(),
    ensures
        row_sum(r.update(j, r[j] + d), i, w) == row_sum(r, i, w) + d * w(i, j),
    decreases r.len(),
{
    let r2 = r.update(j, r[j] + d);
    if j == r.len() - 1 {
        assert(r2.drop_last() =~= r.drop_last());
        assert((r[j] + d) * w(i, j) == r[j] * w(i, j) + d * w(i, j)) by (nonlinear_arith);
    } else {
        assert(r2.drop_last() =~= r.drop_last().update(j, r[j] + d));
        lemma_row_add(r.drop_last(), i, j, d, w);
    }
}

proof fn lemma_grid_add(c: Config, i: int, j: int, d: int, w: spec_fn(int, int) -> int)
    requires
        0 <= i < c.len(),
        0 <= j < c[i].len(),
    ensures
        grid_sum(c.update(i, c[i].update(j, c[i][j] + d)), w) == grid_sum(c, w) + d * w(i, j),
    decreases c.len(),
{
    let c2 = c.update(i, c[i].update(j, c[i][j] + d));
    if i == c.len() - 1 {
        assert(c2.drop_last() =~= c.drop_last());
        lemma_row_add(c[i], i, j, d, w);
    } else {
        assert(c2.drop_last() =~= c.drop_last().update(i, c[i].update(j, c[i][j] + d)));
        lemma_grid_add(c.drop_last(), i, j, d, w);
    }
}

/// Adding `d` grains at a cell changes a weighted sum by `d` times the cell's weight.
pub proof fn lemma_add_at_sum(c: Config, i: int, j: int, d: int, w: spec_fn(int, int) -> int)
    requires
        is_square(c),
    ensures
        is_square(add_at(c, i, j, d)),
        add_at(c, i, j, d).len() == c.len(),
        grid_sum(add_at(c, i, j, d), w) == grid_sum(c, w) + if in_grid(c.len() as int, i, j) {
            d * w(i, j)
        } else {
            0
        },
{
    if in_grid(c.len() as int, i, j) {
        lemma_grid_add(c, i, j, d, w);
    }
    assert(is_square(add_at(c, i, j, d)));
}

proof fn lemma_row_nonneg(r: Seq<int>, i: int, w: spec_fn(int, int) -> int)
    requires
        forall|k: int| 0 <= k < r.len() ==> r[k] >= 0 && w(i, k) >= 0,
    ensures
        row_sum(r, i, w) >= 0,
    decreases r.len(),
{
    if r.len() > 0 {
        lemma_row_nonneg(r.drop_last(), i, w);
        let x = r.last();
        let y = w(i, r.len() - 1);
        assert(x * y >= 0) by (nonlinear_arith)
            requires
                x >= 0,
                y >= 0,
        ;
    }
}

/// With no negative height and no negative weight, a weighted sum is not negative.
pub proof fn lemma_grid_sum_nonneg(c: Config, w: spec_fn(int, int) -> int)
    requires
        forall|a: int, b: int|
            0 <= a < c.len() && 0 <= b < c[a].len() ==> #[trigger] c[a][b] >= 0 && w(a, b) >= 0,
    ensures
        grid_sum(c, w) >= 0,
    decreases c.len(),
{
    if c.len() > 0 {
        lemma_grid_sum_nonneg(c.drop_last(), w);
        let a = c.len() - 1;
        assert forall|k: int| 0 <= k < c[a].len() implies c[a][k] >= 0 && w(a, k) >= 0 by {
            assert(c[a][k] >= 0);
        }
        lemma_row_nonneg(c[a], a, w);
    }
}

/// On a grid without negative heights, no cell holds more than the total.
pub proof fn lemma_cell_le_mass(c: Config, i: int, j: int)
    requires
        is_config(c),
        in_grid(c.len() as int, i, j),
    ensures
        c[i][j] <= mass(c),
{
    let z = add_at(c, i, j, -c[i][j]);
    lemma_add_at_sum(c, i, j, -c[i][j], unit_weight());
    assert forall|a: int, b: int| 0 <= a < z.len() && 0 <= b < z[a].len() implies #[trigger] z[a][b]
        >= 0 && unit_weight()(a, b) >= 0 by {
        assert(c[a][b] >= 0);
    }
    lemma_grid_sum_nonneg(z, unit_weight());
}

/// A topple is the removal of four grains and the addition of one at each neighbour.
pub proof fn lemma_topple_as_adds(c: Config, i: int, j: int)
    requires
        is_square(c),
        in_grid(c.len() as int, i, j),
    ensures
        topple_at(c, i, j) == add_at(
            add_at(add_at(add_at(add_at(c, i, j, -4), i + 1, j, 1), i - 1, j, 1), i, j + 1, 1),
            i,
            j - 1,
            1,
        ),
{
    let c1 = add_at(c, i, j, -4);
    let c2 = add_at(c1, i + 1, j, 1);
    let c3 = add_at(c2, i - 1, j, 1);
    let c4 = add_at(c3, i, j + 1, 1);
    let c5 = add_at(c4, i, j - 1, 1);
    assert(is_square(c1));
    assert(is_square(c2));
    assert(is_square(c3));
    assert(is_square(c4));
    assert(is_square(c5));
    assert(topple_at(c, i, j) =~~= c5);
}

/// How a topple changes a weighted sum.
pub proof fn lemma_topple_sum(c: Config, i: int, j: int, w: spec_fn(int, int) -> int)
    requires
        is_square(c),
        in_grid(c.len() as int, i, j),
    ensures
        is_square(topple_at(c, i, j)),
        topple_at(c, i, j).len() == c.len(),
        grid_sum(topple_at(c, i, j), w) == grid_sum(c, w) - 4 * w(i, j) + (if i + 1 < c.len() {
            w(i + 1, j)
        } else {
            0
        }) + (if i >= 1 {
            w(i - 1, j)
        } else {
            0
        }) + (if j + 1 < c.len() {
            w(i, j + 1)
        } else {
            0
        }) + (if j >= 1 {
            w(i, j - 1)
        } else {
            0
        }),
{
    let c1 = add_at(c, i, j, -4);
    let c2 = add_at(c1, i + 1, j, 1);
    let c3 = add_at(c2, i - 1, j, 1);
    let c4 = add_at(c3, i, j + 1, 1);
    lemma_topple_as_adds(c, i, j);
    lemma_add_at_sum(c, i, j, -4, w);
    lemma_add_at_sum(c1, i + 1, j, 1, w);
    lemma_add_at_sum(c2, i - 1, j, 1, w);
    lemma_add_at_sum(c3, i, j + 1, 1, w);
    lemma_add_at_sum(c4, i, j - 1, 1, w);
}

/// A topple sends off the grid the grains meant for missing neighbours.
pub proof fn lemma_topple_mass(c: Config, i: int, j: int)
    requires
        is_square(c),
        in_grid(c.len() as int, i, j),
    ensures
        mass(topple_at(c, i, j)) == mass(c) - (4 - degree(c.len() as int, i, j)),
{
    lemma_topple_sum(c, i, j, unit_weight());
}

proof fn lemma_tent(n: int, i: int)
    ensures
        tent(n, i - 1) + tent(n, i + 1) == 2 * tent(n, i) - 2,
        -1 <= i <= n ==> tent(n, i) >= 0,
{
    assert(tent(n, i - 1) + tent(n, i + 1) == 2 * tent(n, i) - 2) by (nonlinear_arith);
    assert(-1 <= i <= n ==> tent(n, i) >= 0) by (nonlinear_arith);
}

/// Every topple lowers the potential by four at least.
pub proof fn lemma_topple_potential(c: Config, i: int, j: int)
    requires
        is_square(c),
        can_topple(c, (i, j)),
    ensures
        potential(topple_at(c, i, j)) <= potential(c) - 4,
{
    let n = c.len() as int;
    lemma_topple_sum(c, i, j, tent_weight(n));
    lemma_tent(n, i);
    lemma_tent(n, j);
    lemma_tent(n, i - 1);
    lemma_tent(n, i + 1);
    lemma_tent(n, j - 1);
    lemma_tent(n, j + 1);
}

/// The potential of a grid without negative heights is not negative.
pub proof fn lemma_potential_nonneg(c: Config)
    requires
        is_config(c),
    ensures
        potential(c) >= 0,
{
    let n = c.len() as int;
    assert forall|a: int, b: int| 0 <= a < c.len() && 0 <= b < c[a].len() implies #[trigger] c[a][b]
        >= 0 && tent_weight(n)(a, b) >= 0 by {
        assert(c[a][b] >= 0);
        lemma_tent(n, a);
        lemma_tent(n, b);
    }
    lemma_grid_sum_nonneg(c, tent_weight(n));
}

} // verus!
