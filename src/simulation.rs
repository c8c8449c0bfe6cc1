use vstd::prelude::*;
use crate::grid::{add_grain, SandBox};
use crate::model::{
    add_at, after_steps, grid_sum, in_grid, mass, row_sum, stabilized, unit_weight, zeros, Config,
};
use crate::stabilizer::stabilize;
use crate::sums::lemma_cell_le_mass;

verus! {

/// Why a simulation cannot start.
#[derive(Clone, Copy, Debug, PartialEq, Eq, Structural)]
pub enum ConfigError {
    /// The grid has no cell.
    EmptyGrid,
    /// The grid would have more cells than memory can index.
    GridTooLarge,
    /// The cell where grains are added lies off the grid.
    InjectionOutOfBounds,
}

/// A run of rounds: add a grain at a fixed cell, then relax the grid.
pub struct Simulation {
    sand_box: SandBox,
    iterations: u32,
    completed: u32,
    injection: (usize, usize),
}

impl Simulation {
    pub closed spec fn grid(&self) -> Config {
        self.sand_box@
    }

    /// The number of rounds to run.
    pub closed spec fn iterations(&self) -> nat {
        self.iterations as nat
    }

    /// The number of rounds run so far.
    pub closed spec fn completed(&self) -> nat {
        self.completed as nat
    }

    /// The cell where each round adds its grain.
    pub closed spec fn injection(&self) -> (int, int) {
        (self.injection.0 as int, self.injection.1 as int)
    }

    /// Each round adds one grain and relaxing loses none it did not have, so the total stays
    /// within the rounds run, and within what a height can hold.
    pub closed spec fn wf(&self) -> bool {
        &&& self.sand_box.wf()
        &&& self.sand_box@.len() > 0
        &&& in_grid(self.sand_box@.len() as int, self.injection.0 as int, self.injection.1 as int)
        &&& self.completed <= self.iterations
        &&& mass(self.sand_box@) <= self.completed
    }

    /// A simulation on an empty `size` by `size` grid that adds its grains at `injection`.
    pub fn new(size: usize, iterations: u32, injection: (usize, usize)) -> (r: Result<
        Simulation,
        ConfigError,
    >)
        ensures
            size == 0 ==> r == Err::<Simulation, ConfigError>(ConfigError::EmptyGrid),
            size > 0 && size * size > usize::MAX ==> r == Err::<Simulation, ConfigError>(
                ConfigError::GridTooLarge,
            ),
            size > 0 && size * size <= usize::MAX && !(injection.0 < size && injection.1 < size) ==> r
                == Err::<Simulation, ConfigError>(ConfigError::InjectionOutOfBounds),
            r is Ok <==> size > 0 && size * size <= usize::MAX && injection.0 < size && injection.1
                < size,
            r matches Ok(s) ==> {
                &&& s.wf()
                &&& s.grid() == zeros(size as nat)
                &&& s.iterations() == iterations
                &&& s.completed() == 0
                &&& s.injection() == (injection.0 as int, injection.1 as int)
            },
    {
        if size == 0 {
            return Err(ConfigError::EmptyGrid);
        }
        if size.checked_mul(size).is_none() {
            return Err(ConfigError::GridTooLarge);
        }
        if !(injection.0 < size && injection.1 < size) {
            return Err(ConfigError::InjectionOutOfBounds);
        }
        let sand_box = SandBox::new(size);
        proof {
            lemma_zero_mass(size as nat);
        }
        Ok(Simulation { sand_box, iterations, completed: 0, injection })
    }

    /// The grid as it stands.
    pub fn sand_box(&self) -> (r: &SandBox)
        requires
            self.wf(),
        ensures
            r.wf(),
            r@ == self.grid(),
    {
        &self.sand_box
    }

    /// Whether every round has run.
    pub fn is_done(&self) -> (r: bool)
        ensures
            r == (self.completed() == self.iterations()),
    {
        self.completed == self.iterations
    }

    /// Runs one round: adds a grain at the injection cell, then relaxes the grid.
    pub fn step(&mut self)
        requires
            old(self).wf(),
            old(self).completed() < old(self).iterations(),
        ensures
            final(self).wf(),
            final(self).grid() == stabilized(
                add_at(old(self).grid(), old(self).injection().0, old(self).injection().1, 1),
            ),
            final(self).completed() == old(self).completed() + 1,
            final(self).iterations() == old(self).iterations(),
            final(self).injection() == old(self).injection(),
    {
        proof {
            self.sand_box.lemma_view_is_config();
            lemma_cell_le_mass(self.sand_box@, self.injection.0 as int, self.injection.1 as int);
        }
        add_grain(&mut self.sand_box, self.injection);
        stabilize(&mut self.sand_box);
        self.completed = self.completed + 1;
    }

    /// Runs the rounds that are left.
    pub fn simulate(&mut self)
        requires
            old(self).wf(),
        ensures
            final(self).wf(),
            final(self).completed() == final(self).iterations(),
            final(self).grid() == after_steps(
                old(self).grid(),
                old(self).injection().0,
                old(self).injection().1,
                (old(self).iterations() - old(self).completed()) as nat,
            ),
            final(self).iterations() == old(self).iterations(),
            final(self).injection() == old(self).injection(),
    {
        let ghost c0 = self.grid();
        let ghost done0 = self.completed();
        while !self.is_done()
            invariant
                self.wf(),
                done0 <= self.completed(),
                self.iterations() == old(self).iterations(),
                self.injection() == old(self).injection(),
                c0 == old(self).grid(),
                done0 == old(self).completed(),
                self.grid() == after_steps(
                    c0,
                    self.injection().0,
                    self.injection().1,
                    (self.completed() - done0) as nat,
                ),
            decreases self.iterations() - self.completed(),
        {
            self.step();
            assert((self.completed() - done0) as nat - 1 == (self.completed() - 1 - done0) as nat);
        }
    }
}

/// An empty grid holds no grain.
proof fn lemma_zero_mass(n: nat)
    ensures
        mass(zeros(n)) == 0,
{
    lemma_zero_rows(zeros(n));
}

proof fn lemma_zero_rows(c: Config)
    requires
        forall|i: int, j: int| 0 <= i < c.len() && 0 <= j < c[i].len() ==> #[trigger] c[i][j] == 0,
    ensures
        grid_sum(c, unit_weight()) == 0,
    decreases c.len(),
{
    if c.len() > 0 {
        lemma_zero_rows(c.drop_last());
        lemma_zero_row(c.last(), c.len() - 1);
    }
}

proof fn lemma_zero_row(r: Seq<int>, i: int)
    requires
        forall|j: int| 0 <= j < r.len() ==> #[trigger] r[j] == 0,
    ensures
        row_sum(r, i, unit_weight()) == 0,
    decreases r.len(),
{
    if r.len() > 0 {
        lemma_zero_row(r.drop_last(), i);
    }
}

/// Runs `iterations` rounds on an empty `size` by `size` grid, adding each grain at
/// `injection`, and returns the grid.
pub fn run(size: usize, iterations: u32, injection: (usize, usize)) -> (r: Result<
    SandBox,
    ConfigError,
>)
    ensures
        size == 0 ==> r == Err::<SandBox, ConfigError>(ConfigError::EmptyGrid),
        size > 0 && size * size > usize::MAX ==> r == Err::<SandBox, ConfigError>(
            ConfigError::GridTooLarge,
        ),
        size > 0 && size * size <= usize::MAX && !(injection.0 < size && injection.1 < size) ==> r
            == Err::<SandBox, ConfigError>(ConfigError::InjectionOutOfBounds),
        r is Ok <==> size > 0 && size * size <= usize::MAX && injection.0 < size && injection.1 < size,
        r matches Ok(b) ==> b.wf() && b@ == after_steps(
            zeros(size as nat),
            injection.0 as int,
            injection.1 as int,
            iterations as nat,
        ),
{
    let mut sim = match Simulation::new(size, iterations, injection) {
        Ok(s) => s,
        Err(e) => return Err(e),
    };
    sim.simulate();
    Ok(sim.sand_box)
}

} // verus!
