//! Turning a movement command into the events it produces, once it is
//! known to be legal.
use vstd::prelude::*;
use crate::event::{Command, Event, ExactPos, MovePoints, MoveMode};
use crate::grid::{Grid, move_cost, lemma_terrain_cost_bounds};
use crate::pathfinder::step_cost;
use crate::position::{adjacent, inboard, is_adjacent};
use crate::unit::{Unit, UnitId};

verus! {

/// Why a command was refused. No event is produced for a refused command.
#[derive(Clone, Copy, PartialEq, Eq, Structural, Debug)]
pub enum CommandError {
    /// The command is not a movement.
    NotAMove,
    /// The command names another unit.
    WrongUnit,
    /// The path is shorter than one step, does not start where the unit
    /// stands, leaves the grid, or jumps between cells that are not neighbours.
    BadPath,
    /// A cell entered along the path holds a unit.
    PathBlocked,
    /// The path costs more than the unit's movement points.
    NotEnoughMovePoints,
}

/// The path starts at the unit, has at least one step, stays on the grid
/// and moves between neighbours.
pub open spec fn path_shape_ok(grid: Grid, unit: Unit, path: Seq<ExactPos>) -> bool {
    &&& path.len() >= 2
    &&& path[0].map_pos == unit.pos
    &&& forall|i: int| 1 <= i < path.len() ==> inboard(grid.size, #[trigger] path[i].map_pos)
        && adjacent(path[i - 1].map_pos, path[i].map_pos)
}

/// No cell entered along the path is occupied.
pub open spec fn path_clear(grid: Grid, path: Seq<ExactPos>) -> bool {
    forall|i: int| 1 <= i < path.len() ==> grid.occupants_of(#[trigger] path[i].map_pos) == 0
}

/// The cost of the first `n - 1` steps of `path`.
pub open spec fn path_cost(grid: Grid, unit: Unit, path: Seq<ExactPos>, n: int) -> int
    decreases n,
{
    if n <= 1 {
        0
    } else {
        path_cost(grid, unit, path, n - 1) + step_cost(grid, unit, path[n - 1].map_pos)
    }
}

/// The events of a legal move: one `Move` per step, charging the cost of
/// the cell entered.
pub open spec fn move_step_event(grid: Grid, unit: Unit, path: Seq<ExactPos>, mode: MoveMode, i: int) -> Event {
    Event::Move {
        unit_id: unit.id,
        from: path[i],
        to: path[i + 1],
        mode,
        cost: MovePoints { n: step_cost(grid, unit, path[i + 1].map_pos) as i32 },
    }
}

proof fn lemma_path_cost_grows(grid: Grid, unit: Unit, path: Seq<ExactPos>, i: int, n: int)
    requires
        1 <= i <= n <= path.len(),
    ensures
        path_cost(grid, unit, path, i) <= path_cost(grid, unit, path, n),
    decreases n - i,
{
    if i < n {
        lemma_path_cost_grows(grid, unit, path, i, n - 1);
        lemma_terrain_cost_bounds(unit.class, grid.terrain_of(path[n - 1].map_pos));
    }
}

/// Checks a movement of `unit` along `path` on `grid`, by unit `unit_id`,
/// and if it is legal gives its events; otherwise the reason and no event.
pub fn move_unit_events(grid: &Grid, unit: &Unit, unit_id: UnitId, path: &Vec<ExactPos>, mode: MoveMode) -> (r: Result<Vec<Event>, CommandError>)
    requires
        grid.wf(),
    ensures
        r == Err::<Vec<Event>, CommandError>(CommandError::WrongUnit) <==> unit_id != unit.id,
        r == Err::<Vec<Event>, CommandError>(CommandError::BadPath) <==> unit_id == unit.id
            && !path_shape_ok(*grid, *unit, path@),
        r == Err::<Vec<Event>, CommandError>(CommandError::PathBlocked) <==> unit_id == unit.id
            && path_shape_ok(*grid, *unit, path@) && !path_clear(*grid, path@),
        r == Err::<Vec<Event>, CommandError>(CommandError::NotEnoughMovePoints) <==> unit_id == unit.id
            && path_shape_ok(*grid, *unit, path@) && path_clear(*grid, path@)
            && path_cost(*grid, *unit, path@, path@.len() as int) > unit.move_points,
        r is Ok <==> unit_id == unit.id && path_shape_ok(*grid, *unit, path@)
            && path_clear(*grid, path@) && path_cost(*grid, *unit, path@, path@.len() as int) <= unit.move_points,
        r != Err::<Vec<Event>, CommandError>(CommandError::NotAMove),
        r matches Ok(events) ==> events@.len() == path@.len() - 1 && forall|i: int| 0 <= i < events@.len()
            ==> #[trigger] events@[i] == move_step_event(*grid, *unit, path@, mode, i),
{

    if unit_id != unit.id {
        return Err(CommandError::WrongUnit);
    }
    let n = path.len();
    if n < 2 || path[0].map_pos != unit.pos {
        return Err(CommandError::BadPath);
    }
    let mut i: usize = 1;
    while i < n
        invariant
            unit_id == unit.id,
            n >= 2,
            path@[0].map_pos == unit.pos,
            1 <= i <= n,
            n == path@.len(),
            forall|k: int| 1 <= k < i ==> inboard(grid.size, #[trigger] path@[k].map_pos)
                && adjacent(path@[k - 1].map_pos, path@[k].map_pos),
        decreases n - i,
    {
        if !grid.contains(&path[i].map_pos) || !is_adjacent(&path[i - 1].map_pos, &path[i].map_pos) {
            assert(!(inboard(grid.size, path@[i as int].map_pos) && adjacent(path@[i - 1].map_pos, path@[i as int].map_pos)));
            return Err(CommandError::BadPath);
        }
        i = i + 1;
    }
    let mut i: usize = 1;
    while i < n
        invariant
            unit_id == unit.id,
            1 <= i <= n,
            n == path@.len(),
            grid.wf(),
            path_shape_ok(*grid, *unit, path@),
            forall|k: int| 1 <= k < i ==> grid.occupants_of(#[trigger] path@[k].map_pos) == 0,
        decreases n - i,
    {
        if grid.units_at(&path[i].map_pos) != 0 {
            assert(grid.occupants_of(path@[i as int].map_pos) != 0);
            return Err(CommandError::PathBlocked);
        }
        i = i + 1;
    }
    let mut total: i64 = 0;
    let mut i: usize = 1;
    while i < n
        invariant
            unit_id == unit.id,
            path_clear(*grid, path@),
            1 <= i <= n,
            n == path@.len(),
            grid.wf(),
            path_shape_ok(*grid, *unit, path@),
            total == path_cost(*grid, *unit, path@, i as int),
            i > 1 ==> total <= unit.move_points,
        decreases n - i,
    {
        assert(inboard(grid.size, path@[i as int].map_pos));
        let c = move_cost(unit.class, grid.terrain_at(&path[i].map_pos));
        proof {
            lemma_terrain_cost_bounds(unit.class, grid.terrain_of(path@[i as int].map_pos));
        }
        total = total + c as i64;
        if total > unit.move_points as i64 {
            proof {
                lemma_path_cost_grows(*grid, *unit, path@, i as int + 1, n as int);
            }
            return Err(CommandError::NotEnoughMovePoints);
        }
        i = i + 1;
    }
    let mut events: Vec<Event> = Vec::new();
    let mut i: usize = 0;
    while i + 1 < n
        invariant
            unit_id == unit.id,
            path_clear(*grid, path@),
            path_cost(*grid, *unit, path@, n as int) <= unit.move_points,
            0 <= i < n,
            n == path@.len(),
            grid.wf(),
            path_shape_ok(*grid, *unit, path@),
            events@.len() == i,
            forall|k: int| 0 <= k < i ==> #[trigger] events@[k] == move_step_event(*grid, *unit, path@, mode, k),
        decreases n - i,
    {
        assert(inboard(grid.size, path@[i + 1].map_pos));
        let c = move_cost(unit.class, grid.terrain_at(&path[i + 1].map_pos));
        events.push(Event::Move {
            unit_id: unit.id,
            from: path[i],
            to: path[i + 1],
            mode,
            cost: MovePoints { n: c },
        });
        i = i + 1;
    }
    Ok(events)
}

/// Checks a `Move` command for `unit` against `grid` and, if it is legal,
/// gives its events; otherwise gives the reason and no event.
pub fn move_events(grid: &Grid, unit: &Unit, command: &Command) -> (r: Result<Vec<Event>, CommandError>)
    requires
        grid.wf(),
    ensures
        !(command is Move) ==> r == Err::<Vec<Event>, CommandError>(CommandError::NotAMove),
        command is Move ==> {
            let path = command->Move_path@;
            let uid = command->Move_unit_id;
            &&& (r == Err::<Vec<Event>, CommandError>(CommandError::WrongUnit) <==> uid != unit.id)
            &&& (r == Err::<Vec<Event>, CommandError>(CommandError::BadPath) <==> uid == unit.id
                && !path_shape_ok(*grid, *unit, path))
            &&& (r == Err::<Vec<Event>, CommandError>(CommandError::PathBlocked) <==> uid == unit.id
                && path_shape_ok(*grid, *unit, path) && !path_clear(*grid, path))
            &&& (r == Err::<Vec<Event>, CommandError>(CommandError::NotEnoughMovePoints) <==> uid == unit.id
                && path_shape_ok(*grid, *unit, path) && path_clear(*grid, path)
                && path_cost(*grid, *unit, path, path.len() as int) > unit.move_points)
            &&& (r is Ok <==> uid == unit.id && path_shape_ok(*grid, *unit, path)
                && path_clear(*grid, path) && path_cost(*grid, *unit, path, path.len() as int) <= unit.move_points)
            &&& (r matches Ok(events) ==> events@.len() == path.len() - 1 && forall|i: int| 0 <= i < events@.len()
                ==> #[trigger] events@[i] == move_step_event(*grid, *unit, path, command->Move_mode, i))
        },
{
    match command {
        Command::Move { unit_id, path, mode } => move_unit_events(grid, unit, *unit_id, path, *mode),
        _ => Err(CommandError::NotAMove),
    }
}

} // verus!
