use vstd::prelude::*;
use crate::model::{
    can_topple, count, degree, in_grid, interior, is_config, is_square, legal, lost, mass, potential,
    run, stable, stabilized, stabilizes_to, topple_at, Cell, Config,
};
use crate::sums::{lemma_potential_nonneg, lemma_topple_mass, lemma_topple_potential};

verus! {

/// Topples keep the grid square and of the same size.
pub proof fn lemma_run_shape(c: Config, t: Seq<Cell>)
    requires
        is_square(c),
    ensures
        is_square(run(c, t)),
        run(c, t).len() == c.len(),
    decreases t.len(),
{
    if t.len() > 0 {
        lemma_run_shape(c, t.drop_last());
    }
}

/// Legal topples never make a height negative.
pub proof fn lemma_legal_config(c: Config, t: Seq<Cell>)
    requires
        is_config(c),
        legal(c, t),
    ensures
        is_config(run(c, t)),
    decreases t.len(),
{
    if t.len() > 0 {
        let d = run(c, t.drop_last());
        let x = t.last();
        lemma_legal_config(c, t.drop_last());
        lemma_run_shape(c, t.drop_last());
        lemma_run_shape(c, t);
        assert forall|a: int, b: int| in_grid(c.len() as int, a, b) implies #[trigger] run(c, t)[a][b]
            >= 0 by {
            assert(d[a][b] >= 0);
        }
    }
}

proof fn lemma_count_nonneg(t: Seq<Cell>, x: Cell)
    ensures
        count(t, x) >= 0,
    decreases t.len(),
{
    if t.len() > 0 {
        lemma_count_nonneg(t.drop_last(), x);
    }
}

/// The height of a cell after topples, from how often it and its neighbours toppled.
pub open spec fn odometer_height(c: Config, t: Seq<Cell>, a: int, b: int) -> int {
    c[a][b] - 4 * count(t, (a, b)) + count(t, (a - 1, b)) + count(t, (a + 1, b)) + count(t, (a, b - 1))
        + count(t, (a, b + 1))
}

proof fn lemma_odometer(c: Config, t: Seq<Cell>)
    requires
        is_square(c),
    ensures
        forall|a: int, b: int|
            in_grid(c.len() as int, a, b) ==> #[trigger] run(c, t)[a][b] == odometer_height(c, t, a, b),
    decreases t.len(),
{
    if t.len() > 0 {
        lemma_odometer(c, t.drop_last());
        lemma_run_shape(c, t.drop_last());
    }
}

/// A legal sequence of topples never fires a cell more often than a legal sequence
/// that ends in a stable grid.
pub proof fn lemma_least_action(c: Config, s: Seq<Cell>, u: Seq<Cell>)
    requires
        is_square(c),
        legal(c, s),
        legal(c, u),
        stable(run(c, u)),
    ensures
        forall|x: Cell| #[trigger] count(s, x) <= count(u, x),
    decreases s.len(),
{
    if s.len() == 0 {
        assert forall|x: Cell| #[trigger] count(s, x) <= count(u, x) by {
            lemma_count_nonneg(u, x);
        }
    } else {
        let s0 = s.drop_last();
        let x = s.last();
        lemma_least_action(c, s0, u);
        if count(s0, x) == count(u, x) {
            lemma_odometer(c, s0);
            lemma_odometer(c, u);
            lemma_run_shape(c, s0);
            lemma_run_shape(c, u);
            assert(count(s0, (x.0 - 1, x.1)) <= count(u, (x.0 - 1, x.1)));
            assert(count(s0, (x.0 + 1, x.1)) <= count(u, (x.0 + 1, x.1)));
            assert(count(s0, (x.0, x.1 - 1)) <= count(u, (x.0, x.1 - 1)));
            assert(count(s0, (x.0, x.1 + 1)) <= count(u, (x.0, x.1 + 1)));
            assert(count(s0, (x.0, x.1)) == count(u, (x.0, x.1)));
            assert(run(c, s0)[x.0][x.1] >= 4);
            assert(run(c, u)[x.0][x.1] < 4);
        }
        assert forall|y: Cell| #[trigger] count(s, y) <= count(u, y) by {
            assert(count(s0, y) <= count(u, y));
        }
    }
}

/// The abelian property: two legal sequences of topples that both end in a stable grid
/// end in the same grid, and fire every cell equally often.
pub proof fn lemma_order_independent(c: Config, t1: Seq<Cell>, t2: Seq<Cell>)
    requires
        is_square(c),
        legal(c, t1),
        legal(c, t2),
        stable(run(c, t1)),
        stable(run(c, t2)),
    ensures
        run(c, t1) == run(c, t2),
        forall|x: Cell| #[trigger] count(t1, x) == count(t2, x),
{
    lemma_least_action(c, t1, t2);
    lemma_least_action(c, t2, t1);
    assert forall|x: Cell| #[trigger] count(t1, x) == count(t2, x) by {
        assert(count(t1, x) <= count(t2, x));
        assert(count(t2, x) <= count(t1, x));
    }
    lemma_odometer(c, t1);
    lemma_odometer(c, t2);
    lemma_run_shape(c, t1);
    lemma_run_shape(c, t2);
    assert forall|a: int| 0 <= a < c.len() implies #[trigger] run(c, t1)[a] =~= run(c, t2)[a] by {
        assert forall|b: int| 0 <= b < c.len() implies #[trigger] run(c, t1)[a][b] == run(c, t2)[a][b] by {
            assert(in_grid(c.len() as int, a, b));
        }
    }
    assert(run(c, t1) =~= run(c, t2));
}

/// A stable grid reached from `c` by legal topples is the one that `c` relaxes to.
pub proof fn lemma_stabilized_unique(c: Config, d: Config)
    requires
        is_square(c),
        stabilizes_to(c, d),
    ensures
        stabilized(c) == d,
{
    let e = stabilized(c);
    assert(stabilizes_to(c, e));
    let t1 = choose|t: Seq<Cell>| legal(c, t) && #[trigger] run(c, t) == d;
    let t2 = choose|t: Seq<Cell>| legal(c, t) && #[trigger] run(c, t) == e;
    lemma_order_independent(c, t1, t2);
}

proof fn lemma_relax_from(c: Config, t: Seq<Cell>)
    requires
        is_config(c),
        legal(c, t),
    ensures
        exists|d: Config| stabilizes_to(c, d),
    decreases potential(run(c, t)),
{
    let d = run(c, t);
    lemma_legal_config(c, t);
    if stable(d) {
        assert(stabilizes_to(c, d));
    } else {
        let (i, j) = choose|i: int, j: int| in_grid(d.len() as int, i, j) && #[trigger] d[i][j] >= 4;
        let t2 = t.push((i, j));
        assert(t2.drop_last() =~= t);
        assert(legal(c, t2));
        lemma_topple_potential(d, i, j);
        lemma_legal_config(c, t2);
        lemma_potential_nonneg(run(c, t2));
        lemma_relax_from(c, t2);
    }
}

/// Every grid without negative heights relaxes: legal topples lead from it to a stable grid,
/// `stabilized(c)`.
pub proof fn lemma_stabilizes(c: Config)
    requires
        is_config(c),
    ensures
        stabilizes_to(c, stabilized(c)),
        stable(stabilized(c)),
        is_config(stabilized(c)),
        stabilized(c).len() == c.len(),
{
    lemma_relax_from(c, Seq::empty());
    let d = stabilized(c);
    assert(stabilizes_to(c, d));
    let t = choose|t: Seq<Cell>| legal(c, t) && #[trigger] run(c, t) == d;
    lemma_legal_config(c, t);
    lemma_run_shape(c, t);
}

/// A stable grid relaxes to itself.
pub proof fn lemma_stable_fixed(c: Config)
    requires
        is_square(c),
        stable(c),
    ensures
        stabilized(c) == c,
{
    let t = Seq::<Cell>::empty();
    assert(legal(c, t) && run(c, t) == c);
    lemma_stabilized_unique(c, c);
}

/// Relaxing twice gives what relaxing once gives.
pub proof fn lemma_stabilize_idempotent(c: Config)
    requires
        is_config(c),
    ensures
        stabilized(stabilized(c)) == stabilized(c),
{
    lemma_stabilizes(c);
    lemma_stable_fixed(stabilized(c));
}

/// Grains are only lost to the edge: legal topples lower the total by the grains they send
/// off the grid, which is never negative, and is zero when no topple touches the border.
pub proof fn lemma_mass_accounting(c: Config, t: Seq<Cell>)
    requires
        is_square(c),
        legal(c, t),
    ensures
        mass(run(c, t)) == mass(c) - lost(c.len() as int, t),
        lost(c.len() as int, t) >= 0,
        (forall|k: int| 0 <= k < t.len() ==> interior(c.len() as int, #[trigger] t[k])) ==> lost(
            c.len() as int,
            t,
        ) == 0,
    decreases t.len(),
{
    if t.len() > 0 {
        let n = c.len() as int;
        let t0 = t.drop_last();
        let x = t.last();
        lemma_mass_accounting(c, t0);
        lemma_run_shape(c, t0);
        lemma_topple_mass(run(c, t0), x.0, x.1);
        assert(0 <= degree(n, x.0, x.1) <= 4);
        if forall|k: int| 0 <= k < t.len() ==> interior(n, #[trigger] t[k]) {
            assert forall|k: int| 0 <= k < t0.len() implies interior(n, #[trigger] t0[k]) by {
                assert(t0[k] == t[k]);
            }
            assert(interior(n, t[t.len() - 1]));
        }
    }
}

} // verus!
