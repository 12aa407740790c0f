//! Units as the core sees them: identifiers, class, position and budget.
use vstd::prelude::*;
use crate::position::MapPos;

verus! {

#[derive(Clone, Copy, PartialEq, Eq, Structural, Debug, Hash)]
pub struct UnitId {
    pub id: i32,
}

#[derive(Clone, Copy, PartialEq, Eq, Structural, Debug, Hash)]
pub struct UnitTypeId {
    pub id: i32,
}

#[derive(Clone, Copy, PartialEq, Eq, Structural, Debug, Hash)]
pub struct PlayerId {
    pub id: i32,
}

/// The category of a unit, which selects its terrain cost table.
#[derive(Clone, Copy, PartialEq, Eq, Structural, Debug)]
pub enum UnitClass {
    Infantry,
    Vehicle,
}

/// A unit on the map, with its remaining movement budget for this turn.
#[derive(Clone, Copy, PartialEq, Eq, Structural, Debug)]
pub struct Unit {
    pub id: UnitId,
    pub type_id: UnitTypeId,
    pub player_id: PlayerId,
    pub class: UnitClass,
    pub pos: MapPos,
    pub move_points: i32,
}

} // verus!
