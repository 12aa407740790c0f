//! Single-source cost relaxation over the hex grid, bounded by a unit's
//! movement budget, and shortest-path reconstruction from its parent pointers.
use vstd::prelude::*;
use crate::grid::{Grid, terrain_cost, move_cost, lemma_terrain_cost_bounds};
use crate::position::{
    MapPos, Size2, Dir, neighbour, adjacent, inboard, index_of, size_ok, cell_count,
    int_of_dir, opposite, lemma_index_in_range, lemma_index_injective,
    lemma_neighbour_adjacent, lemma_opposite_returns,
};
use crate::unit::Unit;

verus! {

/// The sentinel cost of a cell that the search has not reached.
pub const MAX_COST: i32 = 30000;

/// A number of movement points.
#[derive(Clone, Copy, PartialEq, Eq, Structural, Debug)]
pub struct MoveCost {
    pub n: i32,
}

/// The scratch record the search keeps for one cell: its best known cost
/// and the direction of the cell it was reached from.
#[derive(Clone, Copy, PartialEq, Eq, Structural, Debug)]
pub struct Tile {
    pub cost: MoveCost,
    pub parent: Option<Dir>,
}

impl Tile {
    pub fn parent(&self) -> (r: &Option<Dir>)
        ensures
            *r == self.parent,
    {
        &self.parent
    }
}

/// The unreached value: sentinel cost, no parent.
pub fn max_cost() -> (r: MoveCost)
    ensures
        r.n == MAX_COST,
{
    MoveCost { n: MAX_COST }
}

// ---------------------------------------------------------------------------
// The cost field as a sequence of tiles, indexed by position.

pub open spec fn tile_at(tiles: Seq<Tile>, size: Size2, p: MapPos) -> Tile {
    tiles[index_of(size, p)]
}

pub open spec fn cost_at(tiles: Seq<Tile>, size: Size2, p: MapPos) -> int {
    tile_at(tiles, size, p).cost.n as int
}

/// The cell that the parent pointer of `p` designates.
pub open spec fn parent_pos(tiles: Seq<Tile>, size: Size2, p: MapPos) -> MapPos {
    neighbour(p, tile_at(tiles, size, p).parent->0)
}

/// A cell holds a finite cost.
pub open spec fn reached(tiles: Seq<Tile>, size: Size2, p: MapPos) -> bool {
    cost_at(tiles, size, p) < MAX_COST
}

/// The cost of entering `p` for `unit`.
pub open spec fn step_cost(grid: Grid, unit: Unit, p: MapPos) -> int {
    terrain_cost(unit.class, grid.terrain_of(p))
}

/// Every stored cost lies between zero and the sentinel.
pub open spec fn costs_bounded(tiles: Seq<Tile>) -> bool {
    forall|i: int| 0 <= i < tiles.len() ==> 0 <= #[trigger] tiles[i].cost.n <= MAX_COST
}

/// The cost is within bounds, and a reached cell other than a cost-zero
/// one points to an on-board cell of strictly smaller cost, so following
/// parents always ends at cost zero.
pub open spec fn cell_chain_ok(tiles: Seq<Tile>, size: Size2, p: MapPos) -> bool {
    let c = cost_at(tiles, size, p);
    &&& 0 <= c <= MAX_COST
    &&& 0 < c < MAX_COST ==> {
        &&& tile_at(tiles, size, p).parent is Some
        &&& inboard(size, parent_pos(tiles, size, p))
        &&& cost_at(tiles, size, parent_pos(tiles, size, p)) < c
    }
}

pub open spec fn chains_ok(tiles: Seq<Tile>, size: Size2) -> bool {
    forall|p: MapPos| inboard(size, p) ==> #[trigger] cell_chain_ok(tiles, size, p)
}

/// What the search keeps true of each cell: the origin costs zero; any
/// other reached cell is within budget, unoccupied, and reached from an
/// on-board parent whose cost plus the step into the cell does not exceed
/// its own; an unreached cell has no parent.
pub open spec fn cell_fill_ok(tiles: Seq<Tile>, size: Size2, grid: Grid, unit: Unit, p: MapPos) -> bool {
    let t = tile_at(tiles, size, p);
    let c = t.cost.n as int;
    &&& 0 <= c <= MAX_COST
    &&& p == unit.pos ==> c == 0 && t.parent is None
    &&& p != unit.pos && c < MAX_COST ==> {
        &&& 1 <= c <= unit.move_points
        &&& grid.occupants_of(p) == 0
        &&& t.parent is Some
        &&& inboard(size, parent_pos(tiles, size, p))
        &&& cost_at(tiles, size, parent_pos(tiles, size, p)) + step_cost(grid, unit, p) <= c
    }
    &&& c == MAX_COST ==> t.parent is None
}

pub open spec fn field_ok(tiles: Seq<Tile>, size: Size2, grid: Grid, unit: Unit) -> bool {
    forall|p: MapPos| inboard(size, p) ==> #[trigger] cell_fill_ok(tiles, size, grid, unit, p)
}

/// No cheaper cost for the neighbour of `u` in direction `d` can be had
/// by stepping from `u`.
pub open spec fn edge_relaxed(tiles: Seq<Tile>, size: Size2, grid: Grid, unit: Unit, u: MapPos, d: Dir) -> bool {
    let v = neighbour(u, d);
    (inboard(size, v) && grid.occupants_of(v) == 0 && cost_at(tiles, size, u) + step_cost(grid, unit, v)
        <= unit.move_points) ==> cost_at(tiles, size, v) <= cost_at(tiles, size, u) + step_cost(grid, unit, v)
}

pub open spec fn cell_closed(tiles: Seq<Tile>, size: Size2, grid: Grid, unit: Unit, u: MapPos) -> bool {
    forall|d: Dir| #[trigger] edge_relaxed(tiles, size, grid, unit, u, d)
}

/// The cost field is a fixpoint of relaxation: no cell can improve any of
/// its neighbours.
pub open spec fn all_closed(tiles: Seq<Tile>, size: Size2, grid: Grid, unit: Unit) -> bool {
    forall|p: MapPos| inboard(size, p) ==> #[trigger] cell_closed(tiles, size, grid, unit, p)
}

/// Sum of all stored costs; it strictly drops with every improvement.
pub open spec fn cost_sum(tiles: Seq<Tile>) -> int
    decreases tiles.len(),
{
    if tiles.len() == 0 {
        0
    } else {
        cost_sum(tiles.drop_last()) + tiles.last().cost.n
    }
}

proof fn lemma_cost_sum_update(tiles: Seq<Tile>, i: int, t: Tile)
    requires
        0 <= i < tiles.len(),
    ensures
        cost_sum(tiles.update(i, t)) == cost_sum(tiles) - tiles[i].cost.n + t.cost.n,
    decreases tiles.len(),
{
    let s = tiles.update(i, t);
    if i == tiles.len() - 1 {
        assert(s.drop_last() =~= tiles.drop_last());
    } else {
        assert(s.drop_last() =~= tiles.drop_last().update(i, t));
        lemma_cost_sum_update(tiles.drop_last(), i, t);
    }
}

proof fn lemma_cost_sum_nonneg(tiles: Seq<Tile>)
    requires
        costs_bounded(tiles),
    ensures
        cost_sum(tiles) >= 0,
    decreases tiles.len(),
{
    if tiles.len() > 0 {
        let s = tiles.drop_last();
        assert forall|i: int| 0 <= i < s.len() implies 0 <= #[trigger] s[i].cost.n <= MAX_COST by {
            assert(s[i] == tiles[i]);
        }
        lemma_cost_sum_nonneg(s);
        assert(0 <= tiles[tiles.len() - 1].cost.n);
    }
}

/// Writing tile `t` at `v` changes the tile at `v` and no other.
proof fn lemma_update_cell(tiles: Seq<Tile>, size: Size2, v: MapPos, t: Tile, p: MapPos)
    requires
        size_ok(size),
        tiles.len() == cell_count(size),
        inboard(size, v),
        inboard(size, p),
    ensures
        tile_at(tiles.update(index_of(size, v), t), size, p) == (if p == v {
            t
        } else {
            tile_at(tiles, size, p)
        }),
{
    lemma_index_in_range(size, v);
    lemma_index_in_range(size, p);
    if p != v && index_of(size, p) == index_of(size, v) {
        lemma_index_injective(size, p, v);
    }
}

/// An edge stays relaxed when its source keeps its cost and no cost rises.
proof fn lemma_edge_stable(
    t1: Seq<Tile>,
    t2: Seq<Tile>,
    size: Size2,
    grid: Grid,
    unit: Unit,
    u: MapPos,
    d: Dir,
)
    requires
        edge_relaxed(t1, size, grid, unit, u, d),
        cost_at(t2, size, u) == cost_at(t1, size, u),
        forall|q: MapPos| inboard(size, q) ==> #[trigger] cost_at(t2, size, q) <= cost_at(t1, size, q),
    ensures
        edge_relaxed(t2, size, grid, unit, u, d),
{
}

proof fn lemma_closed_stable(t1: Seq<Tile>, t2: Seq<Tile>, size: Size2, grid: Grid, unit: Unit, u: MapPos)
    requires
        cell_closed(t1, size, grid, unit, u),
        cost_at(t2, size, u) == cost_at(t1, size, u),
        forall|q: MapPos| inboard(size, q) ==> #[trigger] cost_at(t2, size, q) <= cost_at(t1, size, q),
    ensures
        cell_closed(t2, size, grid, unit, u),
{
    assert forall|d: Dir| #[trigger] edge_relaxed(t2, size, grid, unit, u, d) by {
        lemma_edge_stable(t1, t2, size, grid, unit, u, d);
    }
}

/// A field that the search keeps consistent has well-founded parent chains.
proof fn lemma_field_chains(tiles: Seq<Tile>, size: Size2, grid: Grid, unit: Unit)
    requires
        field_ok(tiles, size, grid, unit),
    ensures
        chains_ok(tiles, size),
{
    assert forall|p: MapPos| inboard(size, p) implies #[trigger] cell_chain_ok(tiles, size, p) by {
        assert(cell_fill_ok(tiles, size, grid, unit, p));
        if 0 < cost_at(tiles, size, p) < MAX_COST {
            lemma_terrain_cost_bounds(unit.class, grid.terrain_of(p));
        }
    }
}

// ---------------------------------------------------------------------------
// The tile array.

/// The per-cell scratch records of one grid, in row-major order.
pub struct TileMap {
    size: Size2,
    tiles: Vec<Tile>,
}

impl TileMap {
    pub closed spec fn spec_size(&self) -> Size2 {
        self.size
    }

    pub closed spec fn spec_tiles(&self) -> Seq<Tile> {
        self.tiles@
    }

    pub open spec fn wf(&self) -> bool {
        &&& size_ok(self.spec_size())
        &&& self.spec_tiles().len() == cell_count(self.spec_size())
    }

    pub open spec fn spec_tile(&self, p: MapPos) -> Tile {
        tile_at(self.spec_tiles(), self.spec_size(), p)
    }

    /// The record of `pos`, for update in place.
    pub fn tile_mut(&mut self, pos: &MapPos) -> (r: &mut Tile)
        requires
            old(self).wf(),
            inboard(old(self).spec_size(), *pos),
        ensures
            *r == old(self).spec_tile(*pos),
            final(self).spec_size() == old(self).spec_size(),
            final(self).spec_tiles() == old(self).spec_tiles().update(
                index_of(old(self).spec_size(), *pos),
                *final(r),
            ),
    {
        proof {
            lemma_index_in_range(self.size, *pos);
        }
        let i: usize = (pos.x + pos.y * self.size.w) as usize;
        &mut self.tiles[i]
    }

    /// The record of `pos`.
    pub fn tile(&self, pos: &MapPos) -> (r: &Tile)
        requires
            self.wf(),
            inboard(self.spec_size(), *pos),
        ensures
            *r == self.spec_tile(*pos),
    {
        proof {
            lemma_index_in_range(self.size, *pos);
        }
        &self.tiles[(pos.x + pos.y * self.size.w) as usize]
    }

    /// Whether `pos` lies on the grid.
    pub fn is_inboard(&self, pos: &MapPos) -> (r: bool)
        ensures
            r == inboard(self.spec_size(), *pos),
    {
        let x = pos.x;
        let y = pos.y;
        x >= 0 && y >= 0 && x < self.size.w && y < self.size.h
    }

    pub fn get_size(&self) -> (r: &Size2)
        ensures
            *r == self.spec_size(),
    {
        &self.size
    }
}

/// `tiles_count` unreached records.
pub fn create_tiles(tiles_count: i32) -> (r: Vec<Tile>)
    requires
        tiles_count >= 0,
    ensures
        r@.len() == tiles_count,
        forall|i: int| 0 <= i < tiles_count ==> #[trigger] r@[i] == (Tile { cost: MoveCost { n: MAX_COST }, parent: None }),
{
    let mut tiles: Vec<Tile> = Vec::new();
    let mut i: i32 = 0;
    while i < tiles_count
        invariant
            0 <= i <= tiles_count,
            tiles@.len() == i,
            forall|j: int| 0 <= j < i ==> #[trigger] tiles@[j] == (Tile { cost: MoveCost { n: MAX_COST }, parent: None }),
        decreases tiles_count - i,
    {
        tiles.push(Tile { cost: max_cost(), parent: None });
        i = i + 1;
    }
    tiles
}

// ---------------------------------------------------------------------------
// Paths.

/// Why no path can be given.
#[derive(Clone, Copy, PartialEq, Eq, Structural, Debug)]
pub enum PathError {
    /// The destination lies off the grid.
    OutOfBounds,
    /// The last search did not reach the destination.
    Unreachable,
}

/// A path from a cost-zero cell to a destination: each node holds the cost
/// of the step into its cell (zero for the first) and the cell.
#[derive(Clone)]
pub struct MapPath {
    nodes: Vec<(MoveCost, MapPos)>,
    total_cost: MoveCost,
}

/// `nodes` and `total` are the path that the parent pointers of `tiles`
/// give from a cell of cost zero to `dest`: the last node is `dest`, each
/// node's parent is the node before it, only the first costs zero, each
/// step holds the cost difference, and the total is the cost of `dest`.
pub open spec fn is_path_to(
    tiles: Seq<Tile>,
    size: Size2,
    dest: MapPos,
    nodes: Seq<(MoveCost, MapPos)>,
    total: MoveCost,
) -> bool {
    let k = nodes.len();
    &&& 1 <= k
    &&& nodes[k - 1].1 == dest
    &&& nodes[0].0.n == 0
    &&& cost_at(tiles, size, nodes[0].1) == 0
    &&& forall|i: int| 0 <= i < k ==> inboard(size, #[trigger] nodes[i].1) && reached(tiles, size, nodes[i].1)
    &&& forall|i: int| 1 <= i < k ==> {
        &&& cost_at(tiles, size, #[trigger] nodes[i].1) != 0
        &&& parent_pos(tiles, size, nodes[i].1) == nodes[i - 1].1
        &&& nodes[i].0.n == cost_at(tiles, size, nodes[i].1) - cost_at(tiles, size, nodes[i - 1].1)
    }
    &&& total.n == cost_at(tiles, size, dest)
}

impl MapPath {
    pub closed spec fn spec_nodes(&self) -> Seq<(MoveCost, MapPos)> {
        self.nodes@
    }

    pub closed spec fn spec_total(&self) -> MoveCost {
        self.total_cost
    }

    /// A path has at least one node and a length that fits in an `i32`.
    pub open spec fn wf(&self) -> bool {
        1 <= self.spec_nodes().len() <= i32::MAX
    }

    /// Number of nodes, the start included.
    pub fn len(&self) -> (r: i32)
        requires
            self.wf(),
        ensures
            r == self.spec_nodes().len(),
    {
        self.nodes.len() as i32
    }

    /// The cell the path ends at.
    pub fn destination(&self) -> (r: &MapPos)
        requires
            self.wf(),
        ensures
            *r == self.spec_nodes().last().1,
    {
        let last: usize = self.nodes.len() - 1;
        &self.nodes[last].1
    }

    pub fn nodes(&self) -> (r: &Vec<(MoveCost, MapPos)>)
        ensures
            r@ == self.spec_nodes(),
    {
        &self.nodes
    }

    pub fn total_cost(&self) -> (r: &MoveCost)
        ensures
            *r == self.spec_total(),
    {
        &self.total_cost
    }
}

// ---------------------------------------------------------------------------
// The search.

/// Computes, for one unit at a time, the cheapest cost of reaching each cell
/// within the unit's movement budget, and the paths that achieve it.
pub struct Pathfinder {
    queue: Vec<MapPos>,
    map: TileMap,
}

impl Pathfinder {
    pub closed spec fn spec_queue(&self) -> Seq<MapPos> {
        self.queue@
    }

    pub closed spec fn spec_map(&self) -> TileMap {
        self.map
    }

    pub open spec fn spec_size(&self) -> Size2 {
        self.spec_map().spec_size()
    }

    pub open spec fn spec_tiles(&self) -> Seq<Tile> {
        self.spec_map().spec_tiles()
    }

    /// Cost recorded for `p` by the last search.
    pub open spec fn cost_of(&self, p: MapPos) -> int {
        cost_at(self.spec_tiles(), self.spec_size(), p)
    }

    /// Between searches: a consistent tile array whose parent chains all
    /// end at a cell of cost zero, and no pending work.
    pub open spec fn wf(&self) -> bool {
        &&& self.spec_map().wf()
        &&& chains_ok(self.spec_tiles(), self.spec_size())
        &&& self.spec_queue().len() == 0
    }

    /// The tiles hold the outcome of a search for `unit` on `grid`: every
    /// cell satisfies the search invariant and no cell can improve a neighbour.
    pub open spec fn filled(&self, grid: Grid, unit: Unit) -> bool {
        &&& self.spec_size() == grid.size
        &&& field_ok(self.spec_tiles(), self.spec_size(), grid, unit)
        &&& all_closed(self.spec_tiles(), self.spec_size(), grid, unit)
    }

    /// A pathfinder for grids of size `map_size`, with every cell unreached.
    pub fn new(map_size: &Size2) -> (r: Pathfinder)
        requires
            size_ok(*map_size),
        ensures
            r.wf(),
            r.spec_size() == *map_size,
            forall|p: MapPos| inboard(*map_size, p) ==> #[trigger] r.cost_of(p) == MAX_COST,
    {
        let tiles_count = map_size.w * map_size.h;
        let r = Pathfinder {
            queue: Vec::new(),
            map: TileMap { size: *map_size, tiles: create_tiles(tiles_count) },
        };
        assert forall|p: MapPos| inboard(*map_size, p) implies #[trigger] r.cost_of(p) == MAX_COST by {
            lemma_index_in_range(*map_size, p);
        }
        assert forall|p: MapPos| inboard(*map_size, p) implies #[trigger] cell_chain_ok(r.spec_tiles(), *map_size, p) by {
            lemma_index_in_range(*map_size, p);
        }
        r
    }

    pub fn get_map(&self) -> (r: &TileMap)
        ensures
            *r == self.spec_map(),
    {
        &self.map
    }

    /// Movement points that `unit` spends to enter `pos`.
    fn tile_cost(&self, grid: &Grid, unit: &Unit, pos: &MapPos) -> (r: i32)
        requires
            grid.wf(),
            inboard(grid.size, *pos),
        ensures
            r == step_cost(*grid, *unit, *pos),
            1 <= r <= 10,
    {
        proof {
            lemma_terrain_cost_bounds(unit.class, grid.terrain_of(*pos));
        }
        move_cost(unit.class, grid.terrain_at(pos))
    }

    /// Relaxes the step from `from_pos` into its neighbour `neighbour_pos`:
    /// if entering it from there is cheaper than what is recorded, within
    /// budget, and the cell is empty, records the new cost and parent and
    /// queues the cell.
    fn process_neighbour_pos(
        &mut self,
        grid: &Grid,
        unit: &Unit,
        from_pos: &MapPos,
        neighbour_pos: &MapPos,
    )
        requires
            old(self).map.wf(),
            grid.wf(),
            old(self).map.size == grid.size,
            inboard(grid.size, *from_pos),
            inboard(grid.size, *neighbour_pos),
            adjacent(*from_pos, *neighbour_pos),
            inboard(grid.size, unit.pos),
            costs_bounded(old(self).map.tiles@),
            field_ok(old(self).map.tiles@, grid.size, *grid, *unit),
        ensures
            final(self).map.wf(),
            final(self).map.size == old(self).map.size,
            costs_bounded(final(self).map.tiles@),
            field_ok(final(self).map.tiles@, grid.size, *grid, *unit),
            forall|q: MapPos| inboard(grid.size, q) ==> #[trigger] cost_at(final(self).map.tiles@, grid.size, q)
                <= cost_at(old(self).map.tiles@, grid.size, q),
            cost_at(final(self).map.tiles@, grid.size, *from_pos) == cost_at(old(self).map.tiles@, grid.size, *from_pos),
            forall|q: MapPos| inboard(grid.size, q) && q != *neighbour_pos ==> #[trigger] tile_at(final(self).map.tiles@, grid.size, q)
                == tile_at(old(self).map.tiles@, grid.size, q),
            ({
                let c = cost_at(old(self).map.tiles@, grid.size, *from_pos) + step_cost(*grid, *unit, *neighbour_pos);
                (grid.occupants_of(*neighbour_pos) == 0 && c <= unit.move_points)
                    ==> cost_at(final(self).map.tiles@, grid.size, *neighbour_pos) <= c
            }),
            (final(self).queue@ == old(self).queue@ && final(self).map.tiles@ == old(self).map.tiles@)
                || (final(self).queue@ == old(self).queue@.push(*neighbour_pos)
                    && cost_sum(final(self).map.tiles@) < cost_sum(old(self).map.tiles@)),
    {
        let ghost size = grid.size;
        let ghost t0 = self.map.tiles@;
        let old_cost = self.map.tile(from_pos).cost;
        let tile_cost = self.tile_cost(grid, unit, neighbour_pos);
        let units_count = grid.units_at(neighbour_pos);
        proof {
            lemma_index_in_range(size, *from_pos);
            assert(0 <= t0[index_of(size, *from_pos)].cost.n <= MAX_COST);
        }
        let new_cost = MoveCost { n: old_cost.n + tile_cost };
        let parent = Dir::get_dir_from_to(neighbour_pos, from_pos);
        let ghost old_tile = tile_at(t0, size, *neighbour_pos);
        let tile = self.map.tile_mut(neighbour_pos);
        if tile.cost.n > new_cost.n && units_count == 0 && new_cost.n <= unit.move_points {
            tile.cost = new_cost;
            tile.parent = Some(parent);
            let ghost nt = *tile;
            self.queue.push(*neighbour_pos);
            proof {
                let v = *neighbour_pos;
                let t1 = self.map.tiles@;
                lemma_index_in_range(size, v);
                assert(t1 == t0.update(index_of(size, v), nt));
                lemma_cost_sum_update(t0, index_of(size, v), nt);
                assert forall|i: int| 0 <= i < t1.len() implies 0 <= #[trigger] t1[i].cost.n <= MAX_COST by {
                    if i != index_of(size, v) {
                        assert(t1[i] == t0[i]);
                    }
                }
                assert forall|q: MapPos| inboard(size, q) implies #[trigger] cost_at(t1, size, q)
                    <= cost_at(t0, size, q) by {
                    lemma_update_cell(t0, size, v, nt, q);
                }
                lemma_update_cell(t0, size, v, nt, *from_pos);
                assert forall|q: MapPos| inboard(size, q) && q != v implies #[trigger] tile_at(t1, size, q)
                    == tile_at(t0, size, q) by {
                    lemma_update_cell(t0, size, v, nt, q);
                }
                assert forall|p: MapPos| inboard(size, p) implies #[trigger] cell_fill_ok(t1, size, *grid, *unit, p) by {
                    lemma_update_cell(t0, size, v, nt, p);
                    assert(cell_fill_ok(t0, size, *grid, *unit, p));
                    if p == v {
                        assert(cell_fill_ok(t0, size, *grid, *unit, unit.pos));
                        assert(parent_pos(t1, size, p) == *from_pos);
                    } else if cost_at(t1, size, p) < MAX_COST && p != unit.pos {
                        let q = parent_pos(t0, size, p);
                        assert(parent_pos(t1, size, p) == q);
                        assert(cost_at(t1, size, q) <= cost_at(t0, size, q));
                    }
                }
            }
        } else {
            proof {
                lemma_index_in_range(size, *neighbour_pos);
                assert(self.map.tiles@ =~= t0);
            }
        }
    }

    /// Relaxes every on-board neighbour of `pos`.
    fn try_to_push_neighbours(&mut self, grid: &Grid, unit: &Unit, pos: MapPos)
        requires
            old(self).map.wf(),
            grid.wf(),
            old(self).map.size == grid.size,
            inboard(grid.size, pos),
            inboard(grid.size, unit.pos),
            costs_bounded(old(self).map.tiles@),
            field_ok(old(self).map.tiles@, grid.size, *grid, *unit),
            forall|j: int| 0 <= j < old(self).queue@.len() ==> inboard(grid.size, #[trigger] old(self).queue@[j]),
            forall|u: MapPos| inboard(grid.size, u) && u != pos ==>
                old(self).queue@.contains(u) || #[trigger] cell_closed(old(self).map.tiles@, grid.size, *grid, *unit, u),
        ensures
            final(self).map.wf(),
            final(self).map.size == old(self).map.size,
            costs_bounded(final(self).map.tiles@),
            field_ok(final(self).map.tiles@, grid.size, *grid, *unit),
            forall|j: int| 0 <= j < final(self).queue@.len() ==> inboard(grid.size, #[trigger] final(self).queue@[j]),
            forall|u: MapPos| inboard(grid.size, u) ==>
                final(self).queue@.contains(u) || #[trigger] cell_closed(final(self).map.tiles@, grid.size, *grid, *unit, u),
            7 * cost_sum(final(self).map.tiles@) + final(self).queue@.len()
                <= 7 * cost_sum(old(self).map.tiles@) + old(self).queue@.len(),
    {
        let ghost size = grid.size;
        let ghost t0 = self.map.tiles@;
        let ghost q0 = self.queue@;
        let mut i: i32 = 0;
        while i < 6
            invariant
                0 <= i <= 6,
                self.map.wf(),
                grid.wf(),
                self.map.size == size,
                size == grid.size,
                inboard(size, pos),
                inboard(size, unit.pos),
                costs_bounded(self.map.tiles@),
                field_ok(self.map.tiles@, size, *grid, *unit),
                cost_at(self.map.tiles@, size, pos) == cost_at(t0, size, pos),
                forall|j: int| 0 <= j < self.queue@.len() ==> inboard(size, #[trigger] self.queue@[j]),
                forall|u: MapPos| inboard(size, u) && u != pos ==>
                    self.queue@.contains(u) || #[trigger] cell_closed(self.map.tiles@, size, *grid, *unit, u),
                forall|d: Dir| int_of_dir(d) < i ==> #[trigger] edge_relaxed(self.map.tiles@, size, *grid, *unit, pos, d),
                7 * cost_sum(self.map.tiles@) + self.queue@.len() <= 7 * cost_sum(t0) + q0.len(),
            decreases 6 - i,
        {
            let dir = Dir::from_int(i);
            let neighbour_pos = Dir::get_neighbour_pos(&pos, &dir);
            let ghost t1 = self.map.tiles@;
            let ghost q1 = self.queue@;
            if self.map.is_inboard(&neighbour_pos) {
                proof {
                    lemma_neighbour_adjacent(pos, dir);
                }
                self.process_neighbour_pos(grid, unit, &pos, &neighbour_pos);
                proof {
                    let t2 = self.map.tiles@;
                    let q2 = self.queue@;
                    if q2 != q1 {
                        assert forall|u: MapPos| q1.contains(u) implies q2.contains(u) by {
                            let k = choose|k: int| 0 <= k < q1.len() && q1[k] == u;
                            assert(q2[k] == u);
                        }
                        assert(q2[q2.len() - 1] == neighbour_pos);
                        assert(q2.contains(neighbour_pos));
                    }
                    assert forall|u: MapPos| inboard(size, u) && u != pos implies
                        q2.contains(u) || #[trigger] cell_closed(t2, size, *grid, *unit, u) by {
                        if q2 != q1 && u != neighbour_pos {
                            if !q1.contains(u) {
                                lemma_closed_stable(t1, t2, size, *grid, *unit, u);
                            }
                        }
                    }
                    assert forall|d: Dir| int_of_dir(d) < i + 1 implies #[trigger] edge_relaxed(t2, size, *grid, *unit, pos, d) by {
                        if d != dir {
                            lemma_edge_stable(t1, t2, size, *grid, *unit, pos, d);
                        }
                    }
                }
            } else {
                assert(edge_relaxed(self.map.tiles@, size, *grid, *unit, pos, dir));
            }
            i = i + 1;
        }
        proof {
            assert(cell_closed(self.map.tiles@, size, *grid, *unit, pos));
        }
    }

    /// Marks every cell unreached.
    fn clean_map(&mut self)
        requires
            old(self).map.wf(),
        ensures
            final(self).map.wf(),
            final(self).map.size == old(self).map.size,
            final(self).queue@ == old(self).queue@,
            forall|i: int| 0 <= i < final(self).map.tiles@.len() ==> #[trigger] final(self).map.tiles@[i]
                == (Tile { cost: MoveCost { n: MAX_COST }, parent: None }),
    {
        let n = self.map.tiles.len();
        let mut i: usize = 0;
        while i < n
            invariant
                0 <= i <= n,
                n == self.map.tiles@.len(),
                self.map.wf(),
                self.map.size == old(self).map.size,
                self.queue@ == old(self).queue@,
                forall|j: int| 0 <= j < i ==> #[trigger] self.map.tiles@[j]
                    == (Tile { cost: MoveCost { n: MAX_COST }, parent: None }),
            decreases n - i,
        {
            self.map.tiles.set(i, Tile { cost: max_cost(), parent: None });
            i = i + 1;
        }
    }

    /// Gives the start cell cost zero and queues it.
    fn push_start_pos_to_queue(&mut self, start_pos: MapPos)
        requires
            old(self).map.wf(),
            inboard(old(self).map.size, start_pos),
        ensures
            final(self).map.wf(),
            final(self).map.size == old(self).map.size,
            final(self).queue@ == old(self).queue@.push(start_pos),
            final(self).map.tiles@ == old(self).map.tiles@.update(
                index_of(old(self).map.size, start_pos),
                Tile { cost: MoveCost { n: 0 }, parent: None },
            ),
    {
        proof {
            lemma_index_in_range(self.map.size, start_pos);
        }
        let start_tile = self.map.tile_mut(&start_pos);
        start_tile.cost = MoveCost { n: 0 };
        start_tile.parent = None;
        self.queue.push(start_pos);
    }

    /// Runs the search for `unit` on `grid`: afterwards each cell holds the
    /// cheapest cost at which `unit` can reach it within its movement points
    /// without entering an occupied cell, or the sentinel where it cannot.
    /// The budget must lie below the sentinel, which no reached cell may hold.
    pub fn fill_map(&mut self, grid: &Grid, unit: &Unit)
        requires
            old(self).wf(),
            grid.wf(),
            old(self).spec_size() == grid.size,
            inboard(grid.size, unit.pos),
            unit.move_points < MAX_COST,
        ensures
            final(self).wf(),
            final(self).filled(*grid, *unit),
    {
        let ghost size = grid.size;
        self.clean_map();
        self.push_start_pos_to_queue(unit.pos);
        proof {
            let t = self.map.tiles@;
            let z = Tile { cost: MoveCost { n: 0 }, parent: None };
            lemma_index_in_range(size, unit.pos);
            assert forall|i: int| 0 <= i < t.len() implies 0 <= #[trigger] t[i].cost.n <= MAX_COST by {
            }
            assert forall|p: MapPos| inboard(size, p) implies #[trigger] cell_fill_ok(t, size, *grid, *unit, p) by {
                lemma_index_in_range(size, p);
                if p != unit.pos {
                    lemma_index_in_range(size, unit.pos);
                    if index_of(size, p) == index_of(size, unit.pos) {
                        lemma_index_injective(size, p, unit.pos);
                    }
                }
            }
            assert(self.queue@[0] == unit.pos);
            assert forall|u: MapPos| inboard(size, u) implies self.queue@.contains(u)
                || #[trigger] cell_closed(t, size, *grid, *unit, u) by {
                if u != unit.pos {
                    lemma_index_in_range(size, u);
                    if index_of(size, u) == index_of(size, unit.pos) {
                        lemma_index_injective(size, u, unit.pos);
                    }
                    assert(cost_at(t, size, u) == MAX_COST);
                }
            }
            lemma_cost_sum_nonneg(t);
        }
        while self.queue.len() != 0
            invariant
                self.map.wf(),
                grid.wf(),
                self.map.size == size,
                size == grid.size,
                inboard(size, unit.pos),
                unit.move_points < MAX_COST,
                costs_bounded(self.map.tiles@),
                field_ok(self.map.tiles@, size, *grid, *unit),
                forall|j: int| 0 <= j < self.queue@.len() ==> inboard(size, #[trigger] self.queue@[j]),
                forall|u: MapPos| inboard(size, u) ==>
                    self.queue@.contains(u) || #[trigger] cell_closed(self.map.tiles@, size, *grid, *unit, u),
            decreases 7 * cost_sum(self.map.tiles@) + self.queue@.len(),
        {
            let ghost q0 = self.queue@;
            let pos = self.queue.remove(0);
            proof {
                let q1 = self.queue@;
                assert forall|j: int| 0 <= j < q1.len() implies inboard(size, #[trigger] q1[j]) by {
                    assert(q1[j] == q0[j + 1]);
                }
                assert forall|u: MapPos| inboard(size, u) && u != pos implies
                    q1.contains(u) || #[trigger] cell_closed(self.map.tiles@, size, *grid, *unit, u) by {
                    if q0.contains(u) {
                        let k = choose|k: int| 0 <= k < q0.len() && q0[k] == u;
                        assert(k != 0);
                        assert(q1[k - 1] == u);
                    }
                }
            }
            self.try_to_push_neighbours(grid, unit, pos);
            proof {
                lemma_cost_sum_nonneg(self.map.tiles@);
            }
        }
        proof {
            lemma_field_chains(self.map.tiles@, size, *grid, *unit);
            assert forall|u: MapPos| inboard(size, u) implies #[trigger] cell_closed(self.map.tiles@, size, *grid, *unit, u) by {
                assert(!self.queue@.contains(u));
            }
        }
    }

    /// The path to `destination` found by the last search, following parent
    /// pointers back to the start; an error where `destination` is off the
    /// grid or was not reached.
    pub fn get_path(&self, destination: &MapPos) -> (r: Result<MapPath, PathError>)
        requires
            self.wf(),
        ensures
            r == Err::<MapPath, PathError>(PathError::OutOfBounds) <==> !inboard(self.spec_size(), *destination),
            r == Err::<MapPath, PathError>(PathError::Unreachable) <==> inboard(self.spec_size(), *destination)
                && self.cost_of(*destination) == MAX_COST,
            r is Ok <==> inboard(self.spec_size(), *destination) && self.cost_of(*destination) < MAX_COST,
            r matches Ok(path) ==> path.wf() && is_path_to(
                self.spec_tiles(),
                self.spec_size(),
                *destination,
                path.spec_nodes(),
                path.spec_total(),
            ),
    {
        let ghost size = self.map.size;
        let ghost tiles = self.map.tiles@;
        if !self.map.is_inboard(destination) {
            return Err(PathError::OutOfBounds);
        }
        proof {
            lemma_index_in_range(size, *destination);
            assert(cell_chain_ok(tiles, size, *destination));
        }
        if self.map.tile(destination).cost.n == MAX_COST {
            return Err(PathError::Unreachable);
        }
        let ghost dest_cost = cost_at(tiles, size, *destination);
        let mut back: Vec<(MoveCost, MapPos)> = Vec::new();
        let mut pos = *destination;
        let mut total: i32 = 0;
        while self.map.tile(&pos).cost.n != 0
            invariant
                self.wf(),
                size == self.map.size,
                tiles == self.map.tiles@,
                inboard(size, pos),
                0 <= cost_at(tiles, size, pos) < MAX_COST,
                dest_cost == cost_at(tiles, size, *destination),
                dest_cost < MAX_COST,
                total == dest_cost - cost_at(tiles, size, pos),
                back@.len() <= dest_cost - cost_at(tiles, size, pos),
                back@.len() == 0 ==> pos == *destination,
                back@.len() > 0 ==> back@[0].1 == *destination,
                forall|j: int| 0 <= j < back@.len() ==> {
                    &&& inboard(size, #[trigger] back@[j].1)
                    &&& reached(tiles, size, back@[j].1)
                    &&& cost_at(tiles, size, back@[j].1) != 0
                    &&& parent_pos(tiles, size, back@[j].1) == (if j + 1 < back@.len() {
                        back@[j + 1].1
                    } else {
                        pos
                    })
                    &&& back@[j].0.n == cost_at(tiles, size, back@[j].1) - cost_at(tiles, size, parent_pos(tiles, size, back@[j].1))
                },
            decreases cost_at(tiles, size, pos),
        {
            proof {
                assert(cell_chain_ok(tiles, size, pos));
            }
            let tile = self.map.tile(&pos);
            let dir = tile.parent.unwrap();
            let prev = Dir::get_neighbour_pos(&pos, &dir);
            proof {
                lemma_index_in_range(size, prev);
                assert(cell_chain_ok(tiles, size, prev));
            }
            let step = tile.cost.n - self.map.tile(&prev).cost.n;
            back.push((MoveCost { n: step }, pos));
            total = total + step;
            pos = prev;
        }
        back.push((MoveCost { n: 0 }, pos));
        let k = back.len();
        let mut nodes: Vec<(MoveCost, MapPos)> = Vec::new();
        let mut j = k;
        while j > 0
            invariant
                0 <= j <= k,
                k == back@.len(),
                nodes@.len() == k - j,
                forall|i: int| 0 <= i < nodes@.len() ==> #[trigger] nodes@[i] == back@[k - 1 - i],
            decreases j,
        {
            j = j - 1;
            nodes.push(back[j]);
        }
        let path = MapPath { nodes, total_cost: MoveCost { n: total } };
        proof {
            let ns = path.nodes@;
            assert(ns[0] == back@[k - 1]);
            assert(ns[k - 1] == back@[0]);
            assert forall|i: int| 0 <= i < k implies inboard(size, #[trigger] ns[i].1) && reached(tiles, size, ns[i].1) by {
                assert(ns[i] == back@[k - 1 - i]);
            }
            assert forall|i: int| 1 <= i < k implies {
                &&& cost_at(tiles, size, #[trigger] ns[i].1) != 0
                &&& parent_pos(tiles, size, ns[i].1) == ns[i - 1].1
                &&& ns[i].0.n == cost_at(tiles, size, ns[i].1) - cost_at(tiles, size, ns[i - 1].1)
            } by {
                assert(ns[i] == back@[k - 1 - i]);
                assert(ns[i - 1] == back@[k - i]);
            }
        }
        Ok(path)
    }
}

// ---------------------------------------------------------------------------
// What a finished search guarantees.

/// On a finished search, a reached cell other than the origin costs exactly
/// its parent's cost plus the step into it.
proof fn lemma_parent_step(tiles: Seq<Tile>, size: Size2, grid: Grid, unit: Unit, p: MapPos)
    requires
        size_ok(size),
        field_ok(tiles, size, grid, unit),
        all_closed(tiles, size, grid, unit),
        inboard(size, p),
        p != unit.pos,
        cost_at(tiles, size, p) < MAX_COST,
    ensures
        inboard(size, parent_pos(tiles, size, p)),
        adjacent(parent_pos(tiles, size, p), p),
        0 <= cost_at(tiles, size, parent_pos(tiles, size, p)),
        cost_at(tiles, size, parent_pos(tiles, size, p)) + step_cost(grid, unit, p) == cost_at(tiles, size, p),
        cost_at(tiles, size, parent_pos(tiles, size, p)) < cost_at(tiles, size, p),
{
    assert(cell_fill_ok(tiles, size, grid, unit, p));
    let d = tile_at(tiles, size, p).parent->0;
    let q = parent_pos(tiles, size, p);
    lemma_opposite_returns(p, d);
    lemma_neighbour_adjacent(q, opposite(d));
    assert(cell_fill_ok(tiles, size, grid, unit, q));
    assert(cell_closed(tiles, size, grid, unit, q));
    assert(edge_relaxed(tiles, size, grid, unit, q, opposite(d)));
    lemma_terrain_cost_bounds(unit.class, grid.terrain_of(p));
}

/// Costs never decrease from a cell to the cells reached through it: each
/// reached cell other than the origin is adjacent to its parent and costs
/// its parent's cost plus a step of at least one point.
pub proof fn lemma_cost_increases_along_parent(pf: &Pathfinder, grid: Grid, unit: Unit, p: MapPos)
    requires
        pf.wf(),
        pf.filled(grid, unit),
        inboard(grid.size, p),
        p != unit.pos,
        pf.cost_of(p) < MAX_COST,
    ensures
        inboard(grid.size, parent_pos(pf.spec_tiles(), grid.size, p)),
        adjacent(parent_pos(pf.spec_tiles(), grid.size, p), p),
        0 <= pf.cost_of(parent_pos(pf.spec_tiles(), grid.size, p)),
        pf.cost_of(parent_pos(pf.spec_tiles(), grid.size, p)) + step_cost(grid, unit, p) == pf.cost_of(p),
        pf.cost_of(parent_pos(pf.spec_tiles(), grid.size, p)) < pf.cost_of(p),
{
    lemma_parent_step(pf.spec_tiles(), grid.size, grid, unit, p);
}

/// No cell but the origin is reached at a cost above the unit's movement points.
pub proof fn lemma_budget_respected(pf: &Pathfinder, grid: Grid, unit: Unit, p: MapPos)
    requires
        pf.filled(grid, unit),
        inboard(grid.size, p),
        p != unit.pos,
        pf.cost_of(p) < MAX_COST,
    ensures
        1 <= pf.cost_of(p) <= unit.move_points,
{
    assert(cell_fill_ok(pf.spec_tiles(), grid.size, grid, unit, p));
}

/// An occupied cell other than the origin is never reached.
pub proof fn lemma_occupied_unreached(pf: &Pathfinder, grid: Grid, unit: Unit, p: MapPos)
    requires
        pf.filled(grid, unit),
        inboard(grid.size, p),
        p != unit.pos,
        grid.occupants_of(p) > 0,
    ensures
        pf.cost_of(p) == MAX_COST,
{
    assert(cell_fill_ok(pf.spec_tiles(), grid.size, grid, unit, p));
}

/// The origin is the one cell of cost zero.
pub proof fn lemma_origin_costs_zero(pf: &Pathfinder, grid: Grid, unit: Unit, p: MapPos)
    requires
        pf.filled(grid, unit),
        inboard(grid.size, p),
    ensures
        pf.cost_of(p) == 0 <==> p == unit.pos,
{
    assert(cell_fill_ok(pf.spec_tiles(), grid.size, grid, unit, p));
}

/// A path returned after a search starts at the origin, moves between
/// adjacent cells, charges for each step the cost of entering its cell, has
/// strictly increasing recorded costs, and its total cost is the cost
/// recorded for its destination.
pub proof fn lemma_path_valid(pf: &Pathfinder, grid: Grid, unit: Unit, dest: MapPos, path: MapPath)
    requires
        pf.wf(),
        pf.filled(grid, unit),
        is_path_to(pf.spec_tiles(), pf.spec_size(), dest, path.spec_nodes(), path.spec_total()),
    ensures
        path.spec_nodes()[0].1 == unit.pos,
        path.spec_nodes().last().1 == dest,
        forall|i: int| 1 <= i < path.spec_nodes().len() ==> adjacent(path.spec_nodes()[i - 1].1, #[trigger] path.spec_nodes()[i].1),
        forall|i: int| 1 <= i < path.spec_nodes().len() ==> (#[trigger] path.spec_nodes()[i]).0.n == step_cost(grid, unit, path.spec_nodes()[i].1),
        forall|i: int| 1 <= i < path.spec_nodes().len() ==> pf.cost_of(path.spec_nodes()[i - 1].1) < pf.cost_of(#[trigger] path.spec_nodes()[i].1),
        path.spec_total().n == pf.cost_of(dest),
{
    let tiles = pf.spec_tiles();
    let size = pf.spec_size();
    let ns = path.spec_nodes();
    assert(inboard(size, ns[0].1));
    assert(cell_fill_ok(tiles, size, grid, unit, ns[0].1));
    assert forall|i: int| 1 <= i < ns.len() implies adjacent(ns[i - 1].1, #[trigger] ns[i].1) && ns[i].0.n == step_cost(grid, unit, ns[i].1)
        && cost_at(tiles, size, ns[i - 1].1) < cost_at(tiles, size, ns[i].1) by {
        assert(inboard(size, ns[i].1));
        assert(cell_fill_ok(tiles, size, grid, unit, ns[i].1));
        lemma_parent_step(tiles, size, grid, unit, ns[i].1);
    }
}

/// On two finished searches for the same unit and grid, a cell costs no
/// more in the second than in the first.
proof fn lemma_cost_not_above(ta: Seq<Tile>, tb: Seq<Tile>, size: Size2, grid: Grid, unit: Unit, p: MapPos)
    requires
        size_ok(size),
        field_ok(ta, size, grid, unit),
        all_closed(ta, size, grid, unit),
        field_ok(tb, size, grid, unit),
        all_closed(tb, size, grid, unit),
        inboard(size, p),
    ensures
        cost_at(tb, size, p) <= cost_at(ta, size, p),
    decreases cost_at(ta, size, p),
{
    assert(cell_fill_ok(ta, size, grid, unit, p));
    assert(cell_fill_ok(tb, size, grid, unit, p));
    if p != unit.pos && cost_at(ta, size, p) < MAX_COST {
        let d = tile_at(ta, size, p).parent->0;
        let q = parent_pos(ta, size, p);
        lemma_parent_step(ta, size, grid, unit, p);
        lemma_cost_not_above(ta, tb, size, grid, unit, q);
        lemma_opposite_returns(p, d);
        assert(cell_closed(tb, size, grid, unit, q));
        assert(edge_relaxed(tb, size, grid, unit, q, opposite(d)));
    }
}

/// Two searches for the same unit on the same grid record the same cost
/// for every cell, so repeated searches give the same reachable set and the
/// same path costs.
pub proof fn lemma_fill_deterministic(a: &Pathfinder, b: &Pathfinder, grid: Grid, unit: Unit)
    requires
        a.wf(),
        b.wf(),
        a.filled(grid, unit),
        b.filled(grid, unit),
    ensures
        forall|p: MapPos| inboard(grid.size, p) ==> #[trigger] a.cost_of(p) == b.cost_of(p),
{
    assert forall|p: MapPos| inboard(grid.size, p) implies #[trigger] a.cost_of(p) == b.cost_of(p) by {
        lemma_cost_not_above(a.spec_tiles(), b.spec_tiles(), grid.size, grid, unit, p);
        lemma_cost_not_above(b.spec_tiles(), a.spec_tiles(), grid.size, grid, unit, p);
    }
}

/// Two paths to the same destination over the same field agree on their
/// last `j + 1` cells.
proof fn lemma_paths_agree_from_end(
    tiles: Seq<Tile>,
    size: Size2,
    dest: MapPos,
    n1: Seq<(MoveCost, MapPos)>,
    c1: MoveCost,
    n2: Seq<(MoveCost, MapPos)>,
    c2: MoveCost,
    j: int,
)
    requires
        is_path_to(tiles, size, dest, n1, c1),
        is_path_to(tiles, size, dest, n2, c2),
        0 <= j < n1.len(),
        j < n2.len(),
    ensures
        n1[n1.len() - 1 - j].1 == n2[n2.len() - 1 - j].1,
    decreases j,
{
    if j > 0 {
        lemma_paths_agree_from_end(tiles, size, dest, n1, c1, n2, c2, j - 1);
        assert(n1[n1.len() - j].1 == n2[n2.len() - j].1);
    }
}

/// The parent pointers fix the path: two paths to the same destination over
/// the same recorded field are the same path, with the same total cost.
pub proof fn lemma_path_deterministic(pf: &Pathfinder, dest: MapPos, a: MapPath, b: MapPath)
    requires
        is_path_to(pf.spec_tiles(), pf.spec_size(), dest, a.spec_nodes(), a.spec_total()),
        is_path_to(pf.spec_tiles(), pf.spec_size(), dest, b.spec_nodes(), b.spec_total()),
    ensures
        a.spec_nodes() == b.spec_nodes(),
        a.spec_total() == b.spec_total(),
{
    let tiles = pf.spec_tiles();
    let size = pf.spec_size();
    let n1 = a.spec_nodes();
    let n2 = b.spec_nodes();
    let k1 = n1.len();
    let k2 = n2.len();
    if k1 < k2 {
        lemma_paths_agree_from_end(tiles, size, dest, n1, a.spec_total(), n2, b.spec_total(), k1 - 1);
        assert(n2[k2 - k1].1 == n1[0].1);
        assert(cost_at(tiles, size, n2[k2 - k1].1) != 0);
    } else if k2 < k1 {
        lemma_paths_agree_from_end(tiles, size, dest, n1, a.spec_total(), n2, b.spec_total(), k2 - 1);
        assert(n1[k1 - k2].1 == n2[0].1);
        assert(cost_at(tiles, size, n1[k1 - k2].1) != 0);
    }
    assert forall|i: int| 0 <= i < k1 implies n1[i] == n2[i] by {
        lemma_paths_agree_from_end(tiles, size, dest, n1, a.spec_total(), n2, b.spec_total(), k1 - 1 - i);
        if i > 0 {
            lemma_paths_agree_from_end(tiles, size, dest, n1, a.spec_total(), n2, b.spec_total(), k1 - i);
        }
    }
    assert(n1 =~= n2);
}

} // verus!
