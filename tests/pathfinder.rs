use zoc::grid::{Grid, Terrain, move_cost};
use zoc::pathfinder::{Pathfinder, PathError, MAX_COST, max_cost, create_tiles};
use zoc::position::{MapPos, Size2, Dir};
use zoc::unit::{Unit, UnitClass, UnitId, UnitTypeId, PlayerId};

fn pos(x: i32, y: i32) -> MapPos {
    MapPos { x, y }
}

fn unit_at(p: MapPos, class: UnitClass, move_points: i32) -> Unit {
    Unit {
        id: UnitId { id: 1 },
        type_id: UnitTypeId { id: 0 },
        player_id: PlayerId { id: 0 },
        class,
        pos: p,
        move_points,
    }
}

fn cost(pf: &Pathfinder, p: MapPos) -> i32 {
    pf.get_map().tile(&p).cost.n
}

fn filled(grid: &Grid, unit: &Unit) -> Pathfinder {
    let mut pf = Pathfinder::new(&grid.size);
    pf.fill_map(grid, unit);
    pf
}

#[test]
fn infantry_on_plain_reaches_hex_distance_three() {
    let size = Size2 { w: 5, h: 5 };
    let grid = Grid::new(size);
    let unit = unit_at(pos(0, 0), UnitClass::Infantry, 3);
    let pf = filled(&grid, &unit);
    for y in 0..5 {
        for x in 0..5 {
            let d = x + y;
            if d <= 3 {
                assert_eq!(cost(&pf, pos(x, y)), d, "cell ({}, {})", x, y);
            } else {
                assert_eq!(cost(&pf, pos(x, y)), MAX_COST, "cell ({}, {})", x, y);
            }
        }
    }
}

#[test]
fn vehicle_blocked_by_building_neighbour() {
    let size = Size2 { w: 2, h: 1 };
    let mut grid = Grid::new(size);
    grid.set_terrain(&pos(1, 0), Terrain::Building);
    let unit = unit_at(pos(0, 0), UnitClass::Vehicle, 9);
    let pf = filled(&grid, &unit);
    assert_eq!(cost(&pf, pos(0, 0)), 0);
    assert_eq!(cost(&pf, pos(1, 0)), MAX_COST);
    assert!(matches!(pf.get_path(&pos(1, 0)), Err(PathError::Unreachable)));
}

#[test]
fn vehicle_enters_building_with_enough_points() {
    let size = Size2 { w: 2, h: 1 };
    let mut grid = Grid::new(size);
    grid.set_terrain(&pos(1, 0), Terrain::Building);
    let unit = unit_at(pos(0, 0), UnitClass::Vehicle, 10);
    let pf = filled(&grid, &unit);
    assert_eq!(cost(&pf, pos(1, 0)), 10);
}

#[test]
fn cost_tables() {
    assert_eq!(move_cost(UnitClass::Infantry, Terrain::Plain), 1);
    assert_eq!(move_cost(UnitClass::Infantry, Terrain::Trees), 2);
    assert_eq!(move_cost(UnitClass::Infantry, Terrain::Building), 2);
    assert_eq!(move_cost(UnitClass::Vehicle, Terrain::Plain), 1);
    assert_eq!(move_cost(UnitClass::Vehicle, Terrain::Trees), 5);
    assert_eq!(move_cost(UnitClass::Vehicle, Terrain::Building), 10);
}

#[test]
fn trees_cost_infantry_two() {
    let size = Size2 { w: 3, h: 1 };
    let mut grid = Grid::new(size);
    grid.set_terrain(&pos(1, 0), Terrain::Trees);
    let unit = unit_at(pos(0, 0), UnitClass::Infantry, 3);
    let pf = filled(&grid, &unit);
    assert_eq!(cost(&pf, pos(1, 0)), 2);
    assert_eq!(cost(&pf, pos(2, 0)), 3);
}

#[test]
fn occupied_cell_is_never_reached() {
    let size = Size2 { w: 5, h: 5 };
    let mut grid = Grid::new(size);
    grid.set_units_count(&pos(1, 0), 1);
    let unit = unit_at(pos(0, 0), UnitClass::Infantry, 3);
    let pf = filled(&grid, &unit);
    assert_eq!(cost(&pf, pos(1, 0)), MAX_COST);
    // reached around the occupied cell: (0,0) -> (0,1) -> (1,1) -> (2,0)
    assert_eq!(cost(&pf, pos(2, 0)), 3);
    let path = pf.get_path(&pos(2, 0)).unwrap();
    for (_, p) in path.nodes().iter() {
        assert_ne!(*p, pos(1, 0));
    }
}

#[test]
fn origin_occupied_by_the_unit_itself() {
    let size = Size2 { w: 3, h: 1 };
    let mut grid = Grid::new(size);
    grid.set_units_count(&pos(0, 0), 1);
    let unit = unit_at(pos(0, 0), UnitClass::Infantry, 2);
    let pf = filled(&grid, &unit);
    assert_eq!(cost(&pf, pos(0, 0)), 0);
    assert_eq!(cost(&pf, pos(2, 0)), 2);
}

#[test]
fn budget_is_respected() {
    let size = Size2 { w: 6, h: 6 };
    let grid = Grid::new(size);
    let unit = unit_at(pos(2, 2), UnitClass::Vehicle, 2);
    let pf = filled(&grid, &unit);
    for y in 0..6 {
        for x in 0..6 {
            let c = cost(&pf, pos(x, y));
            assert!(c == MAX_COST || c <= 2);
        }
    }
    assert_eq!(cost(&pf, pos(4, 0)), 2);
    assert_eq!(cost(&pf, pos(0, 2)), 2);
    assert_eq!(cost(&pf, pos(0, 0)), MAX_COST);
}

#[test]
fn zero_budget_reaches_only_origin() {
    let size = Size2 { w: 3, h: 3 };
    let grid = Grid::new(size);
    let unit = unit_at(pos(1, 1), UnitClass::Infantry, 0);
    let pf = filled(&grid, &unit);
    for y in 0..3 {
        for x in 0..3 {
            let expected = if x == 1 && y == 1 { 0 } else { MAX_COST };
            assert_eq!(cost(&pf, pos(x, y)), expected);
        }
    }
}

#[test]
fn path_is_valid() {
    let size = Size2 { w: 5, h: 5 };
    let mut grid = Grid::new(size);
    grid.set_terrain(&pos(1, 0), Terrain::Trees);
    let unit = unit_at(pos(0, 0), UnitClass::Infantry, 5);
    let pf = filled(&grid, &unit);
    let dest = pos(3, 1);
    let path = pf.get_path(&dest).unwrap();
    let nodes = path.nodes();
    assert_eq!(nodes[0].1, unit.pos);
    assert_eq!(nodes[0].0.n, 0);
    assert_eq!(*path.destination(), dest);
    assert_eq!(path.len() as usize, nodes.len());
    assert_eq!(path.total_cost().n, cost(&pf, dest));
    assert_eq!(path.total_cost().n, 4);
    let mut sum = 0;
    for i in 1..nodes.len() {
        let (a, b) = (nodes[i - 1].1, nodes[i].1);
        let dx = b.x - a.x;
        let dy = b.y - a.y;
        assert!(
            [(1, 0), (1, -1), (0, -1), (-1, 0), (-1, 1), (0, 1)].contains(&(dx, dy)),
            "step {:?} -> {:?}",
            a,
            b
        );
        assert!(cost(&pf, a) < cost(&pf, b));
        assert_eq!(nodes[i].0.n, move_cost(unit.class, Terrain::Plain));
        sum += nodes[i].0.n;
    }
    assert_eq!(sum, path.total_cost().n);
}

#[test]
fn path_to_origin_is_one_node() {
    let grid = Grid::new(Size2 { w: 3, h: 3 });
    let unit = unit_at(pos(1, 1), UnitClass::Infantry, 3);
    let pf = filled(&grid, &unit);
    let path = pf.get_path(&pos(1, 1)).unwrap();
    assert_eq!(path.len(), 1);
    assert_eq!(path.total_cost().n, 0);
    assert_eq!(*path.destination(), pos(1, 1));
}

#[test]
fn path_errors() {
    let grid = Grid::new(Size2 { w: 3, h: 3 });
    let unit = unit_at(pos(0, 0), UnitClass::Infantry, 1);
    let pf = filled(&grid, &unit);
    assert!(matches!(pf.get_path(&pos(3, 0)), Err(PathError::OutOfBounds)));
    assert!(matches!(pf.get_path(&pos(-1, 0)), Err(PathError::OutOfBounds)));
    assert!(matches!(pf.get_path(&pos(0, 3)), Err(PathError::OutOfBounds)));
    assert!(matches!(pf.get_path(&pos(2, 2)), Err(PathError::Unreachable)));
}

#[test]
fn fresh_pathfinder_reaches_nothing() {
    let pf = Pathfinder::new(&Size2 { w: 2, h: 2 });
    assert!(matches!(pf.get_path(&pos(0, 0)), Err(PathError::Unreachable)));
    assert_eq!(*pf.get_map().get_size(), Size2 { w: 2, h: 2 });
}

#[test]
fn repeated_fills_agree() {
    let size = Size2 { w: 6, h: 5 };
    let mut grid = Grid::new(size);
    grid.set_terrain(&pos(2, 2), Terrain::Trees);
    grid.set_terrain(&pos(3, 1), Terrain::Building);
    grid.set_units_count(&pos(1, 2), 1);
    let unit = unit_at(pos(0, 2), UnitClass::Vehicle, 7);
    let mut pf = Pathfinder::new(&size);
    pf.fill_map(&grid, &unit);
    let first: Vec<i32> = (0..5).flat_map(|y| (0..6).map(move |x| (x, y))).map(|(x, y)| cost(&pf, pos(x, y))).collect();
    let p1 = pf.get_path(&pos(4, 2)).unwrap();
    pf.fill_map(&grid, &unit);
    let second: Vec<i32> = (0..5).flat_map(|y| (0..6).map(move |x| (x, y))).map(|(x, y)| cost(&pf, pos(x, y))).collect();
    let p2 = pf.get_path(&pos(4, 2)).unwrap();
    assert_eq!(first, second);
    assert_eq!(p1.nodes(), p2.nodes());
    assert_eq!(p1.total_cost(), p2.total_cost());
}

#[test]
fn refill_for_another_unit_forgets_the_first() {
    let size = Size2 { w: 4, h: 1 };
    let grid = Grid::new(size);
    let mut pf = Pathfinder::new(&size);
    pf.fill_map(&grid, &unit_at(pos(0, 0), UnitClass::Infantry, 3));
    assert_eq!(cost(&pf, pos(3, 0)), 3);
    pf.fill_map(&grid, &unit_at(pos(3, 0), UnitClass::Infantry, 1));
    assert_eq!(cost(&pf, pos(0, 0)), MAX_COST);
    assert_eq!(cost(&pf, pos(2, 0)), 1);
    assert_eq!(cost(&pf, pos(3, 0)), 0);
}

#[test]
fn tiles_start_unreached() {
    let tiles = create_tiles(4);
    assert_eq!(tiles.len(), 4);
    for t in tiles.iter() {
        assert_eq!(t.cost, max_cost());
        assert_eq!(*t.parent(), None);
    }
}

#[test]
fn map_inboard() {
    let pf = Pathfinder::new(&Size2 { w: 3, h: 2 });
    let map = pf.get_map();
    assert!(map.is_inboard(&pos(2, 1)));
    assert!(!map.is_inboard(&pos(3, 1)));
    assert!(!map.is_inboard(&pos(0, 2)));
    assert!(!map.is_inboard(&pos(0, -1)));
}

#[test]
fn directions() {
    let p = pos(3, 3);
    let expected = [(4, 3), (4, 2), (3, 2), (2, 3), (2, 4), (3, 4)];
    for i in 0..6 {
        let d = Dir::from_int(i);
        let n = Dir::get_neighbour_pos(&p, &d);
        assert_eq!((n.x, n.y), expected[i as usize]);
        assert_eq!(Dir::get_dir_from_to(&p, &n), d);
    }
}
