use vstd::prelude::*;

verus! {

/// The grains stacked on one cell of the grid.
#[derive(Clone, Copy, Debug, PartialEq, Eq, Structural)]
pub struct Pile {
    pub height: u32,
}

impl Pile {
    /// An empty pile.
    pub fn new() -> (p: Pile)
        ensures
            p.height == 0,
    {
        Pile { height: 0 }
    }

    /// A pile is stable while it holds fewer than four grains.
    pub fn is_stable(&self) -> (r: bool)
        ensures
            r == (self.height < 4),
    {
        self.height < 4
    }

    /// Puts one more grain on the pile.
    pub fn add_grain(&mut self)
        requires
            old(self).height < u32::MAX,
        ensures
            final(self).height == old(self).height + 1,
    {
        self.height = self.height + 1;
    }

    /// Takes the four grains that a topple hands out.
    pub fn drop_grains(&mut self)
        requires
            old(self).height >= 4,
        ensures
            final(self).height == old(self).height - 4,
    {
        self.height = self.height - 4;
    }
}

} // verus!
