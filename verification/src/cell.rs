use vstd::prelude::*;

verus! {

/// One automaton unit: a position fixed at construction, a fixed list of the
/// indices of its eight Moore neighbours in the owning grid's cell vector,
/// and an alive flag that only the per-generation update may change.
pub struct Cell {
    /// Horizontal offset of this cell from the grid centre, in cell units.
    pub x: i16,
    /// Vertical offset of this cell from the grid centre, in cell units.
    pub y: i16,
    /// Indices of the eight Moore neighbours, wrapped onto the torus.
    pub neighbours: Vec<usize>,
    /// Whether the cell is alive in the current generation.
    pub alive: bool,
}

/// The standard Life rule: an alive cell survives exactly when it has two or
/// three alive neighbours; a dead cell becomes alive exactly when it has
/// three.
pub open spec fn life_rule(alive: bool, alive_neighbours: int) -> bool {
    if alive {
        alive_neighbours == 2 || alive_neighbours == 3
    } else {
        alive_neighbours == 3
    }
}

impl Cell {
    /// Advance this cell one generation, given the number of its neighbours
    /// that were alive in the previous generation. Only the alive flag
    /// changes.
    pub fn update(&mut self, alive_neighbours: usize)
        ensures
            final(self).x == old(self).x,
            final(self).y == old(self).y,
            final(self).neighbours == old(self).neighbours,
            final(self).alive == life_rule(old(self).alive, alive_neighbours as int),
    {
        self.alive = if self.alive {
            alive_neighbours == 2 || alive_neighbours == 3
        } else {
            alive_neighbours == 3
        };
    }
}

} // verus!
