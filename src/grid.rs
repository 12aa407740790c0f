//! The terrain and occupancy index that the pathfinder reads, and the
//! movement cost model.
use vstd::prelude::*;
use crate::position::{MapPos, Size2, inboard, index_of, size_ok, cell_count, lemma_index_in_range};
use crate::unit::UnitClass;

verus! {

/// The kind of ground a cell has.
#[derive(Clone, Copy, PartialEq, Eq, Structural, Debug)]
pub enum Terrain {
    Plain,
    Trees,
    Building,
}

/// The movement points that a unit of class `class` spends to enter a cell
/// of terrain `terrain`.
pub open spec fn terrain_cost(class: UnitClass, terrain: Terrain) -> int {
    match class {
        UnitClass::Infantry => match terrain {
            Terrain::Plain => 1,
            Terrain::Trees => 2,
            Terrain::Building => 2,
        },
        UnitClass::Vehicle => match terrain {
            Terrain::Plain => 1,
            Terrain::Trees => 5,
            Terrain::Building => 10,
        },
    }
}

/// Every entry of the cost tables is at least one and at most ten.
pub proof fn lemma_terrain_cost_bounds(class: UnitClass, terrain: Terrain)
    ensures
        1 <= terrain_cost(class, terrain) <= 10,
{
}

/// The cost model: movement points to enter `terrain` for a unit of `class`.
pub fn move_cost(class: UnitClass, terrain: Terrain) -> (r: i32)
    ensures
        r == terrain_cost(class, terrain),
{
    match class {
        UnitClass::Infantry => match terrain {
            Terrain::Plain => 1,
            Terrain::Trees => 2,
            Terrain::Building => 2,
        },
        UnitClass::Vehicle => match terrain {
            Terrain::Plain => 1,
            Terrain::Trees => 5,
            Terrain::Building => 10,
        },
    }
}

/// A snapshot of the board: for each cell, in row-major order, its terrain
/// and the number of units standing on it.
pub struct Grid {
    pub size: Size2,
    pub terrain: Vec<Terrain>,
    pub units_count: Vec<u32>,
}

impl Grid {
    /// The size is valid and both arrays hold one entry per cell.
    pub open spec fn wf(&self) -> bool {
        &&& size_ok(self.size)
        &&& self.terrain@.len() == cell_count(self.size)
        &&& self.units_count@.len() == cell_count(self.size)
    }

    pub open spec fn terrain_of(&self, p: MapPos) -> Terrain {
        self.terrain@[index_of(self.size, p)]
    }

    pub open spec fn occupants_of(&self, p: MapPos) -> int {
        self.units_count@[index_of(self.size, p) as int] as int
    }

    /// A grid of the given size, all plain and empty.
    pub fn new(size: Size2) -> (r: Grid)
        requires
            size_ok(size),
        ensures
            r.wf(),
            r.size == size,
            forall|p: MapPos| inboard(size, p) ==> #[trigger] r.terrain_of(p) == Terrain::Plain,
            forall|p: MapPos| inboard(size, p) ==> #[trigger] r.occupants_of(p) == 0,
    {
        let n: i32 = size.w * size.h;
        let mut terrain: Vec<Terrain> = Vec::new();
        let mut units_count: Vec<u32> = Vec::new();
        let mut i: i32 = 0;
        while i < n
            invariant
                0 <= i <= n,
                n == size.w * size.h,
                terrain@.len() == i,
                units_count@.len() == i,
                forall|j: int| 0 <= j < i ==> terrain@[j] == Terrain::Plain,
                forall|j: int| 0 <= j < i ==> units_count@[j] == 0,
            decreases n - i,
        {
            terrain.push(Terrain::Plain);
            units_count.push(0);
            i = i + 1;
        }
        let r = Grid { size, terrain, units_count };
        assert forall|p: MapPos| inboard(size, p) implies #[trigger] r.terrain_of(p)
            == Terrain::Plain by {
            lemma_index_in_range(size, p);
        }
        assert forall|p: MapPos| inboard(size, p) implies #[trigger] r.occupants_of(p) == 0 by {
            lemma_index_in_range(size, p);
        }
        r
    }

    /// Whether `pos` lies on the grid.
    pub fn contains(&self, pos: &MapPos) -> (r: bool)
        ensures
            r == inboard(self.size, *pos),
    {
        pos.x >= 0 && pos.y >= 0 && pos.x < self.size.w && pos.y < self.size.h
    }

    /// The terrain at `pos`.
    pub fn terrain_at(&self, pos: &MapPos) -> (r: Terrain)
        requires
            self.wf(),
            inboard(self.size, *pos),
        ensures
            r == self.terrain_of(*pos),
    {
        proof {
            lemma_index_in_range(self.size, *pos);
        }
        self.terrain[(pos.x + pos.y * self.size.w) as usize]
    }

    /// How many units stand at `pos`.
    pub fn units_at(&self, pos: &MapPos) -> (r: u32)
        requires
            self.wf(),
            inboard(self.size, *pos),
        ensures
            r == self.occupants_of(*pos),
    {
        proof {
            lemma_index_in_range(self.size, *pos);
        }
        self.units_count[(pos.x + pos.y * self.size.w) as usize]
    }

    /// Sets the terrain at `pos`.
    pub fn set_terrain(&mut self, pos: &MapPos, terrain: Terrain)
        requires
            old(self).wf(),
            inboard(old(self).size, *pos),
        ensures
            final(self).wf(),
            final(self).size == old(self).size,
            final(self).units_count@ == old(self).units_count@,
            final(self).terrain@ == old(self).terrain@.update(
                index_of(old(self).size, *pos),
                terrain,
            ),
    {
        proof {
            lemma_index_in_range(self.size, *pos);
        }
        let i: usize = (pos.x + pos.y * self.size.w) as usize;
        self.terrain.set(i, terrain);
    }

    /// Sets how many units stand at `pos`.
    pub fn set_units_count(&mut self, pos: &MapPos, count: u32)
        requires
            old(self).wf(),
            inboard(old(self).size, *pos),
        ensures
            final(self).wf(),
            final(self).size == old(self).size,
            final(self).terrain@ == old(self).terrain@,
            final(self).units_count@ == old(self).units_count@.update(
                index_of(old(self).size, *pos),
                count,
            ),
    {
        proof {
            lemma_index_in_range(self.size, *pos);
        }
        let i: usize = (pos.x + pos.y * self.size.w) as usize;
        self.units_count.set(i, count);
    }
}

} // verus!
