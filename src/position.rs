//! Hex positions, grid sizes and the six neighbour directions.
//!
//! Positions use axial coordinates: the neighbours of `(x, y)` are
//! `(x+1, y)`, `(x+1, y-1)`, `(x, y-1)`, `(x-1, y)`, `(x-1, y+1)` and `(x, y+1)`.
use vstd::prelude::*;

verus! {

/// A cell of the hex grid.
#[derive(Clone, Copy, PartialEq, Eq, Structural, Debug)]
pub struct MapPos {
    pub x: i32,
    pub y: i32,
}

/// Width and height of a grid, in cells.
#[derive(Clone, Copy, PartialEq, Eq, Structural, Debug)]
pub struct Size2 {
    pub w: i32,
    pub h: i32,
}

/// One of the six directions from a hex cell to its neighbours.
#[derive(Clone, Copy, PartialEq, Eq, Structural, Debug)]
pub enum Dir {
    East,
    NorthEast,
    NorthWest,
    West,
    SouthWest,
    SouthEast,
}

pub open spec fn dir_dx(d: Dir) -> int {
    match d {
        Dir::East => 1,
        Dir::NorthEast => 1,
        Dir::NorthWest => 0,
        Dir::West => -1,
        Dir::SouthWest => -1,
        Dir::SouthEast => 0,
    }
}

pub open spec fn dir_dy(d: Dir) -> int {
    match d {
        Dir::East => 0,
        Dir::NorthEast => -1,
        Dir::NorthWest => -1,
        Dir::West => 0,
        Dir::SouthWest => 1,
        Dir::SouthEast => 1,
    }
}

/// The direction numbered `i`, counting from east anticlockwise.
pub open spec fn dir_of_int(i: int) -> Dir {
    if i == 0 {
        Dir::East
    } else if i == 1 {
        Dir::NorthEast
    } else if i == 2 {
        Dir::NorthWest
    } else if i == 3 {
        Dir::West
    } else if i == 4 {
        Dir::SouthWest
    } else {
        Dir::SouthEast
    }
}

/// The number of a direction, the inverse of `dir_of_int`.
pub open spec fn int_of_dir(d: Dir) -> int {
    match d {
        Dir::East => 0,
        Dir::NorthEast => 1,
        Dir::NorthWest => 2,
        Dir::West => 3,
        Dir::SouthWest => 4,
        Dir::SouthEast => 5,
    }
}

/// The coordinates are far enough from the ends of `i32` for a neighbour to exist.
pub open spec fn has_neighbours(p: MapPos) -> bool {
    i32::MIN < p.x < i32::MAX && i32::MIN < p.y < i32::MAX
}

/// The cell next to `p` in direction `d`.
pub open spec fn neighbour(p: MapPos, d: Dir) -> MapPos {
    MapPos { x: (p.x + dir_dx(d)) as i32, y: (p.y + dir_dy(d)) as i32 }
}

/// `b` is one of the six neighbours of `a`.
pub open spec fn adjacent(a: MapPos, b: MapPos) -> bool {
    let dx = b.x - a.x;
    let dy = b.y - a.y;
    ||| (dx == 1 && dy == 0)
    ||| (dx == 1 && dy == -1)
    ||| (dx == 0 && dy == -1)
    ||| (dx == -1 && dy == 0)
    ||| (dx == -1 && dy == 1)
    ||| (dx == 0 && dy == 1)
}

/// `p` lies on a grid of the given size.
pub open spec fn inboard(size: Size2, p: MapPos) -> bool {
    0 <= p.x < size.w && 0 <= p.y < size.h
}

/// The offset of `p` in a row-major array of cells.
pub open spec fn index_of(size: Size2, p: MapPos) -> int {
    p.x + p.y * size.w
}

/// A grid size whose cell count is non-negative and fits in an `i32`.
pub open spec fn size_ok(size: Size2) -> bool {
    size.w >= 0 && size.h >= 0 && size.w * size.h <= i32::MAX
}

pub open spec fn cell_count(size: Size2) -> int {
    size.w * size.h
}

/// Every cell of the board has a distinct offset in `0 .. w * h`.
pub proof fn lemma_index_in_range(size: Size2, p: MapPos)
    requires
        size_ok(size),
        inboard(size, p),
    ensures
        0 <= index_of(size, p) < cell_count(size),
{
    let (x, y, w, h) = (p.x as int, p.y as int, size.w as int, size.h as int);
    assert(0 <= x + y * w < w * h) by (nonlinear_arith)
        requires
            0 <= x < w,
            0 <= y < h,
    {
        assert(y * w <= (h - 1) * w);
        assert((h - 1) * w + w == h * w);
    }
}

/// Two cells of the board with the same offset are the same cell.
pub proof fn lemma_index_injective(size: Size2, p: MapPos, q: MapPos)
    requires
        inboard(size, p),
        inboard(size, q),
        index_of(size, p) == index_of(size, q),
    ensures
        p == q,
{
    let (px, py, qx, qy, w) = (p.x as int, p.y as int, q.x as int, q.y as int, size.w as int);
    assert(py == qy) by (nonlinear_arith)
        requires
            0 <= px < w,
            0 <= qx < w,
            px + py * w == qx + qy * w,
    {
        if py < qy {
            assert(py * w + w <= qy * w);
        } else if qy < py {
            assert(qy * w + w <= py * w);
        }
    }
}

/// Every neighbour of a cell is adjacent to it.
pub proof fn lemma_neighbour_adjacent(p: MapPos, d: Dir)
    requires
        has_neighbours(p),
    ensures
        adjacent(p, neighbour(p, d)),
        neighbour(p, d) != p,
{
}

/// The direction pointing back.
pub open spec fn opposite(d: Dir) -> Dir {
    match d {
        Dir::East => Dir::West,
        Dir::NorthEast => Dir::SouthWest,
        Dir::NorthWest => Dir::SouthEast,
        Dir::West => Dir::East,
        Dir::SouthWest => Dir::NorthEast,
        Dir::SouthEast => Dir::NorthWest,
    }
}

/// Stepping in a direction and then in its opposite returns to the start.
pub proof fn lemma_opposite_returns(p: MapPos, d: Dir)
    requires
        has_neighbours(p),
    ensures
        neighbour(neighbour(p, d), opposite(d)) == p,
{
}

/// Whether `a` and `b` are neighbours.
pub fn is_adjacent(a: &MapPos, b: &MapPos) -> (r: bool)
    ensures
        r == adjacent(*a, *b),
{
    let dx: i64 = b.x as i64 - a.x as i64;
    let dy: i64 = b.y as i64 - a.y as i64;
    (dx == 1 && dy == 0) || (dx == 1 && dy == -1) || (dx == 0 && dy == -1) || (dx == -1 && dy == 0)
        || (dx == -1 && dy == 1) || (dx == 0 && dy == 1)
}

impl Dir {
    /// The direction numbered `i`, counting from east anticlockwise.
    pub fn from_int(i: i32) -> (r: Dir)
        requires
            0 <= i < 6,
        ensures
            r == dir_of_int(i as int),
            int_of_dir(r) == i,
    {
        if i == 0 {
            Dir::East
        } else if i == 1 {
            Dir::NorthEast
        } else if i == 2 {
            Dir::NorthWest
        } else if i == 3 {
            Dir::West
        } else if i == 4 {
            Dir::SouthWest
        } else {
            Dir::SouthEast
        }
    }

    /// The cell next to `pos` in direction `dir`.
    pub fn get_neighbour_pos(pos: &MapPos, dir: &Dir) -> (r: MapPos)
        requires
            has_neighbours(*pos),
        ensures
            r == neighbour(*pos, *dir),
            r.x == pos.x + dir_dx(*dir),
            r.y == pos.y + dir_dy(*dir),
    {
        match dir {
            Dir::East => MapPos { x: pos.x + 1, y: pos.y },
            Dir::NorthEast => MapPos { x: pos.x + 1, y: pos.y - 1 },
            Dir::NorthWest => MapPos { x: pos.x, y: pos.y - 1 },
            Dir::West => MapPos { x: pos.x - 1, y: pos.y },
            Dir::SouthWest => MapPos { x: pos.x - 1, y: pos.y + 1 },
            Dir::SouthEast => MapPos { x: pos.x, y: pos.y + 1 },
        }
    }

    /// The direction in which `to` lies seen from `from`, for adjacent cells.
    pub fn get_dir_from_to(from: &MapPos, to: &MapPos) -> (r: Dir)
        requires
            adjacent(*from, *to),
        ensures
            neighbour(*from, r) == *to,
    {
        let dx: i64 = to.x as i64 - from.x as i64;
        let dy: i64 = to.y as i64 - from.y as i64;
        if dx == 1 && dy == 0 {
            Dir::East
        } else if dx == 1 && dy == -1 {
            Dir::NorthEast
        } else if dx == 0 && dy == -1 {
            Dir::NorthWest
        } else if dx == -1 && dy == 0 {
            Dir::West
        } else if dx == -1 && dy == 1 {
            Dir::SouthWest
        } else {
            Dir::SouthEast
        }
    }
}

} // verus!
