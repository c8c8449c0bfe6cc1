use vstd::prelude::*;
use crate::grid::{is_stable, topple, SandBox, State};
use crate::laws::{lemma_mass_accounting, lemma_stabilized_unique, lemma_stable_fixed};
use crate::model::{
    add_at, adjacent, can_topple, in_grid, is_config, legal, lost, mass, potential, run, stable,
    stabilized, stabilizes_to, unit_weight, Cell,
};
use crate::sums::{lemma_add_at_sum, lemma_cell_le_mass, lemma_potential_nonneg, lemma_topple_potential};

verus! {

/// On a grid whose total fits in a height, every neighbour of a cell that may topple can take
/// one more grain.
proof fn lemma_neighbours_have_room(c: Seq<Seq<int>>, i: int, j: int)
    requires
        is_config(c),
        can_topple(c, (i, j)),
        mass(c) <= u32::MAX,
    ensures
        forall|a: int, b: int|
            in_grid(c.len() as int, a, b) && adjacent(a, b, i, j) ==> #[trigger] c[a][b] < u32::MAX,
{
    let z = add_at(c, i, j, -4);
    lemma_add_at_sum(c, i, j, -4, unit_weight());
    assert forall|a: int, b: int|
        in_grid(c.len() as int, a, b) && adjacent(a, b, i, j) implies #[trigger] c[a][b] < u32::MAX by {
        assert(is_config(z)) by {
            assert forall|p: int, q: int| in_grid(z.len() as int, p, q) implies #[trigger] z[p][q] >= 0 by {
                assert(c[p][q] >= 0);
            }
        }
        lemma_cell_le_mass(z, a, b);
    }
}

/// Topples the first unstable cell in row-major order until the grid is stable.
pub fn stabilize(sand_box: &mut SandBox)
    requires
        old(sand_box).wf(),
        mass(old(sand_box)@) <= u32::MAX,
    ensures
        final(sand_box).wf(),
        final(sand_box)@ == stabilized(old(sand_box)@),
        final(sand_box)@.len() == old(sand_box)@.len(),
        stable(final(sand_box)@),
        stable(old(sand_box)@) ==> final(sand_box)@ == old(sand_box)@,
        mass(final(sand_box)@) <= mass(old(sand_box)@),
        exists|t: Seq<Cell>|
            legal(old(sand_box)@, t) && #[trigger] run(old(sand_box)@, t) == final(sand_box)@ && mass(
                final(sand_box)@,
            ) == mass(old(sand_box)@) - lost(old(sand_box)@.len() as int, t),
{
    let ghost c0 = sand_box@;
    let ghost n = c0.len() as int;
    let ghost mut t: Seq<Cell> = Seq::empty();
    proof {
        sand_box.lemma_view_is_config();
    }
    loop
        invariant
            sand_box.wf(),
            is_config(c0),
            is_config(sand_box@),
            sand_box@.len() == n,
            n == c0.len(),
            mass(c0) <= u32::MAX,
            legal(c0, t),
            run(c0, t) == sand_box@,
            mass(sand_box@) == mass(c0) - lost(n, t),
            lost(n, t) >= 0,
        ensures
            sand_box.wf(),
            stable(sand_box@),
            legal(c0, t),
            run(c0, t) == sand_box@,
            mass(sand_box@) == mass(c0) - lost(n, t),
            lost(n, t) >= 0,
        decreases potential(sand_box@),
    {
        match is_stable(sand_box) {
            State::Stable => break,
            State::Unstable(to_topple) => {
                let ghost c = sand_box@;
                let ghost x = (to_topple.0 as int, to_topple.1 as int);
                proof {
                    lemma_neighbours_have_room(c, x.0, x.1);
                }
                topple(sand_box, to_topple);
                proof {
                    let t2 = t.push(x);
                    assert(t2.drop_last() =~= t);
                    assert(legal(c0, t2));
                    t = t2;
                    lemma_mass_accounting(c0, t);
                    lemma_topple_potential(c, x.0, x.1);
                    sand_box.lemma_view_is_config();
                    lemma_potential_nonneg(sand_box@);
                }
            },
        }
    }
    proof {
        assert(stabilizes_to(c0, sand_box@));
        lemma_stabilized_unique(c0, sand_box@);
        if stable(c0) {
            lemma_stable_fixed(c0);
        }
    }
}

} // verus!
